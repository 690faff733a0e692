//! Requests: one command, or a list of commands that share one write, and
//! the bytes that carry them.

use vstd::prelude::*;
use vstd::slice::slice_to_vec;
use vstd::string::StringSliceAdditionalSpecFns;
use crate::connection::builder::MSetBuilder;
use crate::decimal::{decimal, push_decimal};
use crate::frame::{frame_at, sound_at, Frame};
use crate::value::{byte_strings, Reply};
use crate::wire::{
    bulk_string,
    encoding,
    encodings,
    header,
    lemma_decode_encoding,
    lemma_encoding_sound,
};

verus! {

/// The bulk strings of `args`, one for one.
pub open spec fn bulk_strings(args: Seq<Seq<u8>>) -> Seq<Seq<u8>> {
    Seq::new(args.len(), |i: int| bulk_string(args[i]))
}

/// The bytes of a request: `*`, the number of arguments in decimal and a
/// terminator, then each argument as a bulk string.
pub open spec fn request(args: Seq<Seq<u8>>) -> Seq<u8> {
    header(42, decimal(args.len())) + bulk_strings(args).flatten()
}

/// The requests of `commands`, one for one.
pub open spec fn requests(commands: Seq<Seq<Seq<u8>>>) -> Seq<Seq<u8>> {
    Seq::new(commands.len(), |i: int| request(commands[i]))
}

/// The bytes of a batch: the request of each command in order, with nothing
/// between them.
pub open spec fn batch(commands: Seq<Seq<Seq<u8>>>) -> Seq<u8> {
    requests(commands).flatten()
}

/// The views of `commands`, one for one.
pub open spec fn command_views(commands: Seq<Command>) -> Seq<Seq<Seq<u8>>> {
    Seq::new(commands.len(), |i: int| commands[i]@)
}

/// The string replies that carry `args`, one for one.
pub open spec fn strings(args: Seq<Seq<u8>>) -> Seq<Reply> {
    Seq::new(args.len(), |i: int| Reply::String(args[i]))
}

/// **A request is an array of bulk strings.** Its bytes are the frame that
/// carries the array of its name and arguments.
pub proof fn lemma_request_is_array(args: Seq<Seq<u8>>)
    ensures
        request(args) == encoding(Reply::Array(strings(args))),
{
    assert(encodings(strings(args)) =~= bulk_strings(args));
}

/// **Requests read back.** Decoding the bytes of a request gives the array of
/// its name and arguments, and ends just past the request.
pub proof fn lemma_decode_request(args: Seq<Seq<u8>>, rest: Seq<u8>)
    requires
        args.len() <= i64::MAX,
        forall|i: int| 0 <= i < args.len() ==> (#[trigger] args[i]).len() <= i64::MAX,
    ensures
        sound_at(request(args) + rest, 0),
        frame_at(request(args) + rest, 0) == Some(
            Frame { outcome: Ok(Reply::Array(strings(args))), end: request(args).len() as int },
        ),
{
    let reply = Reply::Array(strings(args));
    lemma_request_is_array(args);
    assert(reply.representable()) by {
        assert forall|i: int| 0 <= i < strings(args).len() implies (#[trigger] strings(
            args,
        )[i]).representable() by {
        }
    }
    let s = request(args) + rest;
    assert(s.skip(0) =~= s);
    lemma_decode_encoding(s, 0, reply, rest);
    lemma_encoding_sound(s, 0, reply, rest);
}

/// Appends `bytes` to `buffer`.
pub fn append_bytes(buffer: &mut Vec<u8>, bytes: &[u8])
    ensures
        final(buffer)@ == old(buffer)@ + bytes@,
{
    let mut i: usize = 0;
    while i < bytes.len()
        invariant
            i <= bytes.len(),
            buffer@ == old(buffer)@ + bytes@.take(i as int),
        decreases bytes.len() - i,
    {
        buffer.push(bytes[i]);
        i += 1;
    }
}

/// Appends the bulk string of `bytes` to `buffer`.
pub fn append_bulk_string(buffer: &mut Vec<u8>, bytes: &[u8])
    ensures
        final(buffer)@ == old(buffer)@ + bulk_string(bytes@),
{
    buffer.push(36);
    push_decimal(buffer, bytes.len() as u128);
    buffer.push(13);
    buffer.push(10);
    append_bytes(buffer, bytes);
    buffer.push(13);
    buffer.push(10);
}

/// One request: the name of an operation and its arguments, each a string of
/// bytes.
#[derive(Debug, Clone, PartialEq, Eq)]
pub struct Command {
    name: Vec<u8>,
    args: Vec<Vec<u8>>,
}

impl View for Command {
    type V = Seq<Seq<u8>>;

    /// The name of the operation, then the arguments in order.
    closed spec fn view(&self) -> Seq<Seq<u8>> {
        seq![self.name@] + byte_strings(self.args@)
    }
}

impl Command {
    /// A command holds its name first, so it is never empty.
    pub proof fn lemma_named(self)
        ensures
            self@.len() >= 1,
    {
    }

    /// The command `name` without arguments.
    pub fn new(name: &str) -> (command: Command)
        ensures
            command@ == seq![name.spec_bytes()],
    {
        let command = Command { name: slice_to_vec(name.as_bytes()), args: Vec::new() };
        command
    }

    /// This command with `data` as one more argument.
    pub fn arg(self, data: &[u8]) -> (command: Command)
        ensures
            command@ == self@.push(data@),
    {
        let mut command = self;
        command.append_arg(data);
        command
    }

    /// This command with each of `arguments` as one more argument, in order.
    pub fn args(self, arguments: &[Vec<u8>]) -> (command: Command)
        ensures
            command@ == self@ + byte_strings(arguments@),
    {
        let mut command = self;
        command.append_args(arguments);
        command
    }

    /// Adds `data` as one more argument.
    pub fn append_arg(&mut self, data: &[u8])
        ensures
            final(self)@ == old(self)@.push(data@),
    {
        self.args.push(slice_to_vec(data));
    }

    /// Adds each of `arguments` as one more argument, in order.
    pub fn append_args(&mut self, arguments: &[Vec<u8>])
        ensures
            final(self)@ == old(self)@ + byte_strings(arguments@),
    {
        let mut i: usize = 0;
        while i < arguments.len()
            invariant
                i <= arguments.len(),
                self@ == old(self)@ + byte_strings(arguments@.take(i as int)),
            decreases arguments.len() - i,
        {
            self.append_arg(arguments[i].as_slice());
            assert(self@ =~= old(self)@ + byte_strings(arguments@.take(i as int + 1))) by {
                assert(byte_strings(arguments@.take(i as int + 1)) =~= byte_strings(
                    arguments@.take(i as int),
                ).push(arguments@[i as int]@));
            }
            i += 1;
        }
    }

    /// Adds each key of `builder` and its value as two more arguments, in
    /// order.
    pub fn append_msetbuilder(&mut self, builder: &MSetBuilder)
        ensures
            final(self)@ == old(self)@ + builder@,
    {
        self.append_args(builder.pairs());
    }

    /// Appends the bytes of this request to `buffer`.
    pub fn serialize(&self, buffer: &mut Vec<u8>)
        ensures
            final(buffer)@ == old(buffer)@ + request(self@),
    {
        let count = self.args.len();
        buffer.push(42);
        push_decimal(buffer, count as u128 + 1);
        buffer.push(13);
        buffer.push(10);
        append_bulk_string(buffer, self.name.as_slice());
        let ghost start = buffer@;
        let ghost all = self@;
        assert(start =~= old(buffer)@ + header(42, decimal(all.len())) + bulk_strings(
            all.take(1),
        ).flatten()) by {
            bulk_strings(all.take(1)).lemma_flatten_one_element();
        }
        let mut i: usize = 0;
        while i < count
            invariant
                all == self@,
                count == self.args@.len(),
                i <= count,
                buffer@ == old(buffer)@ + header(42, decimal(all.len())) + bulk_strings(
                    all.take(i as int + 1),
                ).flatten(),
            decreases count - i,
        {
            append_bulk_string(buffer, self.args[i].as_slice());
            proof {
                let done = bulk_strings(all.take(i as int + 1));
                let next = bulk_string(all[i as int + 1]);
                assert(bulk_strings(all.take(i as int + 2)) =~= done.push(next));
                done.lemma_flatten_push(next);
            }
            i += 1;
        }
        assert(all.take(i as int + 1) =~= all);
    }
}

/// A list of commands that share one write. The replies come back one for
/// each command, in the order of the list.
#[derive(Debug, Clone, PartialEq, Eq)]
pub struct CommandList {
    commands: Vec<Command>,
}

impl View for CommandList {
    type V = Seq<Seq<Seq<u8>>>;

    /// The commands in order, each as its name and arguments.
    closed spec fn view(&self) -> Seq<Seq<Seq<u8>>> {
        command_views(self.commands@)
    }
}

impl CommandList {
    /// Whether the list is well formed: it holds at least one command.
    pub closed spec fn wf(&self) -> bool {
        self.commands@.len() >= 1
    }

    /// A well-formed list is not empty.
    pub proof fn lemma_nonempty(self)
        requires
            self.wf(),
        ensures
            self@.len() >= 1,
    {
    }

    /// The list that holds the command `name` alone.
    pub fn new(name: &str) -> (list: CommandList)
        ensures
            list.wf(),
            list@ == seq![seq![name.spec_bytes()]],
    {
        let mut commands: Vec<Command> = Vec::new();
        commands.push(Command::new(name));
        let list = CommandList { commands };
        list
    }

    /// This list with `data` as one more argument of its last command.
    pub fn arg(self, data: &[u8]) -> (list: CommandList)
        requires
            self.wf(),
        ensures
            list.wf(),
            list@ == self@.drop_last().push(self@.last().push(data@)),
    {
        let mut list = self;
        list.append_arg(data);
        list
    }

    /// This list with each of `arguments` as one more argument of its last
    /// command, in order.
    pub fn args(self, arguments: &[Vec<u8>]) -> (list: CommandList)
        requires
            self.wf(),
        ensures
            list.wf(),
            list@ == self@.drop_last().push(self@.last() + byte_strings(arguments@)),
    {
        let mut list = self;
        list.append_args(arguments);
        list
    }

    /// This list with the command `name` after its last command.
    pub fn command(self, name: &str) -> (list: CommandList)
        ensures
            list.wf(),
            list@ == self@.push(seq![name.spec_bytes()]),
    {
        let mut list = self;
        list.append_command(name);
        list
    }

    /// Adds the command `name` after the last command.
    pub fn append_command(&mut self, name: &str)
        ensures
            final(self).wf(),
            final(self)@ == old(self)@.push(seq![name.spec_bytes()]),
    {
        self.commands.push(Command::new(name));
    }

    /// Adds `data` as one more argument of the last command.
    pub fn append_arg(&mut self, data: &[u8])
        requires
            old(self).wf(),
        ensures
            final(self).wf(),
            final(self)@ == old(self)@.drop_last().push(old(self)@.last().push(data@)),
    {
        let last = self.commands.pop().unwrap();
        self.commands.push(last.arg(data));
    }

    /// Adds each of `arguments` as one more argument of the last command, in
    /// order.
    pub fn append_args(&mut self, arguments: &[Vec<u8>])
        requires
            old(self).wf(),
        ensures
            final(self).wf(),
            final(self)@ == old(self)@.drop_last().push(
                old(self)@.last() + byte_strings(arguments@),
            ),
    {
        let last = self.commands.pop().unwrap();
        self.commands.push(last.args(arguments));
        assert(final(self)@ =~= old(self)@.drop_last().push(
            old(self)@.last() + byte_strings(arguments@),
        ));
    }

    /// The number of commands in the list, which is the number of replies
    /// that the list is owed.
    pub fn command_count(&self) -> (n: usize)
        ensures
            n == self@.len(),
            self.wf() ==> n >= 1,
    {
        self.commands.len()
    }

    /// Appends the bytes of the batch to `buffer`: the request of each
    /// command in order, with nothing between them.
    pub fn serialize(&self, buffer: &mut Vec<u8>)
        ensures
            final(buffer)@ == old(buffer)@ + batch(self@),
    {
        let count = self.commands.len();
        let mut i: usize = 0;
        while i < count
            invariant
                count == self.commands@.len(),
                i <= count,
                buffer@ == old(buffer)@ + requests(self@.take(i as int)).flatten(),
            decreases count - i,
        {
            self.commands[i].serialize(buffer);
            proof {
                let done = requests(self@.take(i as int));
                let next = request(self@[i as int]);
                assert(requests(self@.take(i as int + 1)) =~= done.push(next));
                done.lemma_flatten_push(next);
            }
            i += 1;
        }
        assert(self@.take(i as int) =~= self@);
    }
}

} // verus!
