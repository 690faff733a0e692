//! The state of one connection, without the socket.
//!
//! A [`Connection`] holds the two directions of a byte stream: what the
//! library has written and the transport has not yet sent, and what the
//! transport has received and the library has not yet read. The transport
//! moves bytes between a socket and these two buffers; everything else
//! happens here.
//!
//! One transaction is a write and then as many reads as replies are owed.
//! Replies carry no identifier: they belong to requests by their order alone.
//! So whoever starts a transaction must have the connection to itself until
//! the last of its replies is read. Exclusive access to the `Connection` value
//! is that guard.

use vstd::prelude::*;
use vstd::string::StringSliceAdditionalSpecFns;
use crate::command::{append_bytes, batch, request, Command, CommandList};
use crate::connection::stream::{MessageStream, PMessageStream, ResponseStream};
use crate::error::{Error, Failure};
use crate::frame::{
    are_sound,
    frame_at,
    frames_from,
    frames_sound,
    is_sound,
    joined,
    lemma_frame_shift,
    read_value,
    result_view,
    result_views,
    sound_at,
};
use crate::value::{byte_strings, Reply, Value};

pub mod builder;
pub mod operations;
pub mod scan;
pub mod stream;

verus! {

/// The mathematical model of a [`Connection`]: the bytes of each direction.
pub struct Streams {
    /// Received from the peer and not yet read as a frame.
    pub unread: Seq<u8>,
    /// Written by the library and not yet taken by the transport.
    pub unsent: Seq<u8>,
}

/// The state of one connection.
#[derive(Debug)]
pub struct Connection {
    inbound: Vec<u8>,
    outbound: Vec<u8>,
}

impl View for Connection {
    type V = Streams;

    closed spec fn view(&self) -> Streams {
        Streams { unread: self.inbound@, unsent: self.outbound@ }
    }
}

impl Connection {
    /// The state of a connection that has just been opened: nothing written,
    /// nothing received.
    pub fn connect() -> (connection: Connection)
        ensures
            connection@.unread == Seq::<u8>::empty(),
            connection@.unsent == Seq::<u8>::empty(),
    {
        Connection { inbound: Vec::new(), outbound: Vec::new() }
    }

    /// The state of a connection that has just been opened, with the request
    /// that presents `password` written. The reply to it is the first frame
    /// to read: a server that refuses the password answers with an error.
    pub fn connect_and_auth(password: &[u8]) -> (connection: Connection)
        ensures
            connection@.unread == Seq::<u8>::empty(),
            connection@.unsent == request(seq!["AUTH".spec_bytes(), password@]),
    {
        let mut connection = Connection::connect();
        connection.run_command(Command::new("AUTH").arg(password));
        assert(seq!["AUTH".spec_bytes()].push(password@) =~= seq!["AUTH".spec_bytes(), password@]);
        connection
    }

    /// Hands over the bytes that are waiting to be sent, in the order in
    /// which they were written. Nothing is waiting afterwards.
    pub fn take_outgoing(&mut self) -> (bytes: Vec<u8>)
        ensures
            bytes@ == old(self)@.unsent,
            final(self)@.unsent == Seq::<u8>::empty(),
            final(self)@.unread == old(self)@.unread,
    {
        let mut bytes: Vec<u8> = Vec::new();
        core::mem::swap(&mut bytes, &mut self.outbound);
        bytes
    }

    /// Takes in bytes that the transport has received, after those received
    /// before.
    pub fn receive(&mut self, bytes: &[u8])
        ensures
            final(self)@.unread == old(self)@.unread + bytes@,
            final(self)@.unsent == old(self)@.unsent,
    {
        append_bytes(&mut self.inbound, bytes);
    }

    /// Whether no received byte is waiting to be read.
    pub fn is_drained(&self) -> (drained: bool)
        ensures
            drained == (self@.unread.len() == 0),
    {
        self.inbound.len() == 0
    }

    /// Whether the next frame can be read as far as it has arrived: every
    /// integer line in it writes an integer. A server that keeps to the
    /// protocol sends nothing else; bytes that fail this test are a defect
    /// that no reply and no failure stands for, and nothing can be read from
    /// the connection any more.
    pub fn is_sound(&self) -> (sound: bool)
        ensures
            sound == sound_at(self@.unread, 0),
    {
        is_sound(self.inbound.as_slice(), 0)
    }

    /// Whether the next `count` frames can be read as far as they have
    /// arrived.
    pub fn are_sound(&self, count: usize) -> (sound: bool)
        ensures
            sound == frames_sound(self@.unread, 0, count as nat),
    {
        are_sound(self.inbound.as_slice(), 0, count)
    }

    /// Reads one frame from the received bytes.
    ///
    /// The result is `None` where the next frame has not arrived in full;
    /// nothing is read then. Otherwise the frame's bytes are consumed, and the
    /// result is the reply that it carries or the failure that it reports.
    ///
    /// A frame with an integer line that writes no integer is not admitted;
    /// [`Connection::is_sound`] tests for it.
    pub fn read_value(&mut self) -> (r: Option<Result<Value, Error>>)
        requires
            sound_at(old(self)@.unread, 0),
        ensures
            final(self)@.unsent == old(self)@.unsent,
            match frame_at(old(self)@.unread, 0) {
                None => r is None && final(self)@.unread == old(self)@.unread,
                Some(frame) => {
                    &&& r matches Some(outcome)
                    &&& result_view(outcome) == frame.outcome
                    &&& 0 < frame.end <= old(self)@.unread.len()
                    &&& final(self)@.unread == old(self)@.unread.skip(frame.end)
                },
            },
    {
        match read_value(self.inbound.as_slice(), 0) {
            None => None,
            Some((outcome, end)) => {
                let rest = self.inbound.split_off(end);
                self.inbound = rest;
                Some(outcome)
            },
        }
    }

    /// Writes the request of `command`. One reply is owed for it.
    pub fn run_command(&mut self, command: Command)
        ensures
            final(self)@.unsent == old(self)@.unsent + request(command@),
            final(self)@.unread == old(self)@.unread,
    {
        command.serialize(&mut self.outbound);
    }

    /// Writes the request of `command`, using `buffer` to build it. One reply
    /// is owed for it. Afterwards `buffer` holds the bytes of the request and
    /// nothing else.
    pub fn run_command_with_buffer(&mut self, command: Command, buffer: &mut Vec<u8>)
        ensures
            final(buffer)@ == request(command@),
            final(self)@.unsent == old(self)@.unsent + request(command@),
            final(self)@.unread == old(self)@.unread,
    {
        buffer.clear();
        command.serialize(buffer);
        append_bytes(&mut self.outbound, buffer.as_slice());
    }

    /// Reads `count` frames in one go, if they have all arrived.
    ///
    /// The result is `None` where they have not; nothing is read then.
    /// Otherwise the frames' bytes are consumed, and the result holds, for
    /// each frame in order, the reply that it carries or the failure that it
    /// reports.
    ///
    /// Frames with an integer line that writes no integer are not admitted;
    /// [`Connection::are_sound`] tests for them.
    pub fn read_values(&mut self, count: usize) -> (r: Option<Vec<Result<Value, Error>>>)
        requires
            frames_sound(old(self)@.unread, 0, count as nat),
        ensures
            final(self)@.unsent == old(self)@.unsent,
            match frames_from(old(self)@.unread, count as nat) {
                None => r is None && final(self)@.unread == old(self)@.unread,
                Some(reading) => {
                    &&& r matches Some(outcomes)
                    &&& result_views(outcomes@) == reading.outcomes
                    &&& final(self)@.unread == reading.rest
                },
            },
    {
        let ghost s = self.inbound@;
        let mut outcomes: Vec<Result<Value, Error>> = Vec::new();
        let mut pos: usize = 0;
        let mut i: usize = 0;
        assert(s.skip(0) =~= s);
        while i < count
            invariant
                s == self.inbound@,
                *self == *old(self),
                i <= count,
                pos <= s.len(),
                frames_from(s, count as nat) == joined(
                    result_views(outcomes@),
                    frames_from(s.skip(pos as int), (count - i) as nat),
                ),
                frames_sound(s, pos as int, (count - i) as nat),
            decreases count - i,
        {
            proof {
                lemma_frame_shift(s, pos as int);
            }
            match read_value(self.inbound.as_slice(), pos) {
                None => {
                    return None;
                },
                Some((outcome, next)) => {
                    proof {
                        let tail = s.skip(pos as int);
                        let read = result_views(outcomes@);
                        let more = frames_from(s.skip(next as int), (count - i - 1) as nat);
                        assert(tail.skip(next - pos) =~= s.skip(next as int));
                        assert(result_views(outcomes@.push(outcome)) =~= read.push(
                            result_view(outcome),
                        ));
                        if let Some(reading) = more {
                            assert(read + (seq![result_view(outcome)] + reading.outcomes)
                                =~= read.push(result_view(outcome)) + reading.outcomes);
                        }
                    }
                    outcomes.push(outcome);
                    pos = next;
                    i += 1;
                },
            }
        }
        proof {
            assert(result_views(outcomes@) + Seq::<Result<Reply, Failure>>::empty()
                =~= result_views(outcomes@));
        }
        let rest = self.inbound.split_off(pos);
        self.inbound = rest;
        Some(outcomes)
    }

    /// Writes the requests of `commands` in one piece, and gives the
    /// connection to the stream of the replies that are owed for them: one
    /// for each command, in the order of the list. The stream gives the
    /// connection back once it has read the last of them, and not before.
    pub fn run_commands(self, commands: CommandList) -> (replies: ResponseStream)
        ensures
            replies@.unsent == self@.unsent + batch(commands@),
            replies@.unread == self@.unread,
            replies@.remaining == commands@.len(),
    {
        let mut buffer: Vec<u8> = Vec::new();
        self.run_commands_with_buffer(commands, &mut buffer)
    }

    /// Writes the requests of `commands` in one piece, using `buffer` to
    /// build them, and gives the connection to the stream of the replies
    /// that are owed for them. Afterwards `buffer` is empty.
    pub fn run_commands_with_buffer(self, commands: CommandList, buffer: &mut Vec<u8>) -> (replies:
        ResponseStream)
        ensures
            final(buffer)@ == Seq::<u8>::empty(),
            replies@.unsent == self@.unsent + batch(commands@),
            replies@.unread == self@.unread,
            replies@.remaining == commands@.len(),
    {
        let mut connection = self;
        buffer.clear();
        let count = commands.command_count();
        commands.serialize(buffer);
        append_bytes(&mut connection.outbound, buffer.as_slice());
        buffer.clear();
        ResponseStream::new(connection, count)
    }

    /// Gives the connection up for a subscription to `channels`: the request
    /// is written, and the connection belongs to the returned stream from
    /// then on. There is no way back to ordinary commands.
    ///
    /// An empty list of channels is refused, and nothing is written for it.
    pub fn subscribe(self, channels: &[Vec<u8>]) -> (r: Result<MessageStream, Error>)
        ensures
            match r {
                Ok(stream) => {
                    &&& channels@.len() > 0
                    &&& stream@.unconfirmed == channels@.len()
                    &&& stream@.first
                    &&& stream@.unread == self@.unread
                    &&& stream@.unsent == self@.unsent + request(
                        seq!["SUBSCRIBE".spec_bytes()] + byte_strings(channels@),
                    )
                },
                Err(error) => channels@.len() == 0 && error == Error::EmptySlice,
            },
    {
        if channels.len() == 0 {
            return Err(Error::EmptySlice);
        }
        let mut connection = self;
        connection.run_command(Command::new("SUBSCRIBE").args(channels));
        Ok(MessageStream::new(connection, channels.len()))
    }

    /// Exactly like [`Connection::subscribe`], for channels that match
    /// `patterns`.
    pub fn psubscribe(self, patterns: &[Vec<u8>]) -> (r: Result<PMessageStream, Error>)
        ensures
            match r {
                Ok(stream) => {
                    &&& patterns@.len() > 0
                    &&& stream@.unconfirmed == patterns@.len()
                    &&& stream@.first
                    &&& stream@.unread == self@.unread
                    &&& stream@.unsent == self@.unsent + request(
                        seq!["PSUBSCRIBE".spec_bytes()] + byte_strings(patterns@),
                    )
                },
                Err(error) => patterns@.len() == 0 && error == Error::EmptySlice,
            },
    {
        if patterns.len() == 0 {
            return Err(Error::EmptySlice);
        }
        let mut connection = self;
        connection.run_command(Command::new("PSUBSCRIBE").args(patterns));
        Ok(PMessageStream::new(connection, patterns.len()))
    }
}

} // verus!
