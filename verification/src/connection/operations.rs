//! The catalogue of typed operations.
//!
//! Each operation writes one request: the name of a command and its
//! arguments. The reply comes back through [`Connection::read_value`]; the
//! documentation of each operation says what kind of reply it is, and the
//! coercions of [`Value`] turn it into a typed result. The few replies that
//! need more than one coercion have a function of their own here.
//!
//! An operation that takes a slice of elements refuses an empty slice: a
//! request without them would be ill formed, and nothing is written for it.

use vstd::prelude::*;
use vstd::string::StringSliceAdditionalSpecFns;
use crate::command::{request, Command};
use crate::connection::builder::MSetBuilder;
use crate::connection::scan::{HScanBuilder, ScanBuilder, Scanning, zero};
use crate::connection::stream::same_bytes;
use crate::connection::{Connection, Streams};
use crate::data_type::DataType;
use crate::decimal::{decimal, push_decimal, push_signed_decimal, signed_decimal};
use crate::error::{lossy_text, utf8_lossy, Error, Failure};
use crate::value::{
    byte_strings,
    debug_rendering,
    debug_text,
    lemma_array_view,
    optional_byte_strings,
    optional_strings_of,
    replies,
    Reply,
    Value,
};

verus! {

/// Whether the request with the name and arguments `args` was written
/// between `before` and `after`, and nothing else happened.
pub open spec fn written(before: Streams, after: Streams, args: Seq<Seq<u8>>) -> bool {
    &&& after.unsent == before.unsent + request(args)
    &&& after.unread == before.unread
}

/// The decimal text of `i`.
pub fn signed_text(i: i64) -> (text: Vec<u8>)
    ensures
        text@ == signed_decimal(i as int),
{
    let mut text: Vec<u8> = Vec::new();
    push_signed_decimal(&mut text, i);
    text
}

/// The decimal text of `n`.
pub fn unsigned_text(n: u64) -> (text: Vec<u8>)
    ensures
        text@ == decimal(n as nat),
{
    let mut text: Vec<u8> = Vec::new();
    push_decimal(&mut text, n as u128);
    text
}

impl Connection {
    /// Writes the request of the command `name` with each of `items` as an
    /// argument, after `key` if there is one. An empty `items` is refused.
    fn send_each(&mut self, name: &str, key: Option<&[u8]>, items: &[Vec<u8>]) -> (r: Result<
        (),
        Error,
    >)
        ensures
            match r {
                Ok(_) => items@.len() > 0 && written(
                    old(self)@,
                    final(self)@,
                    match key {
                        Some(key) => seq![name.spec_bytes(), key@] + byte_strings(items@),
                        None => seq![name.spec_bytes()] + byte_strings(items@),
                    },
                ),
                Err(error) => {
                    &&& items@.len() == 0
                    &&& error == Error::EmptySlice
                    &&& final(self)@ == old(self)@
                },
            },
    {
        if items.len() == 0 {
            return Err(Error::EmptySlice);
        }
        let command = match key {
            Some(key) => {
                let command = Command::new(name).arg(key).args(items);
                assert(command@ =~= seq![name.spec_bytes(), key@] + byte_strings(items@));
                command
            },
            None => Command::new(name).args(items),
        };
        self.run_command(command);
        Ok(())
    }

    /// Deletes `field` from the hash at `key`.
    ///
    /// The reply is an integer, to be read as a truth value: whether the field
    /// was there.
    pub fn hdel(&mut self, key: &[u8], field: &[u8])
        ensures
            written(old(self)@, final(self)@, seq!["HDEL".spec_bytes(), key@, field@]),
    {
        let command = Command::new("HDEL").arg(key).arg(field);
        assert(command@ =~= seq!["HDEL".spec_bytes(), key@, field@]);
        self.run_command(command);
    }

    /// Asks whether `field` is in the hash at `key`.
    ///
    /// The reply is an integer, to be read as a truth value.
    pub fn hexists(&mut self, key: &[u8], field: &[u8])
        ensures
            written(old(self)@, final(self)@, seq!["HEXISTS".spec_bytes(), key@, field@]),
    {
        let command = Command::new("HEXISTS").arg(key).arg(field);
        assert(command@ =~= seq!["HEXISTS".spec_bytes(), key@, field@]);
        self.run_command(command);
    }

    /// Asks for the value of `field` in the hash at `key`.
    ///
    /// The reply is a string, or `Nil` where there is no such field.
    pub fn hget(&mut self, key: &[u8], field: &[u8])
        ensures
            written(old(self)@, final(self)@, seq!["HGET".spec_bytes(), key@, field@]),
    {
        let command = Command::new("HGET").arg(key).arg(field);
        assert(command@ =~= seq!["HGET".spec_bytes(), key@, field@]);
        self.run_command(command);
    }

    /// Sets `field` in the hash at `key` to `value`.
    ///
    /// The reply is an integer: the number of fields that were added.
    pub fn hset(&mut self, key: &[u8], field: &[u8], value: &[u8])
        ensures
            written(old(self)@, final(self)@, seq!["HSET".spec_bytes(), key@, field@, value@]),
    {
        let command = Command::new("HSET").arg(key).arg(field).arg(value);
        assert(command@ =~= seq!["HSET".spec_bytes(), key@, field@, value@]);
        self.run_command(command);
    }

    /// Sets `field` in the hash at `key` to `value` unless the field is there
    /// already.
    ///
    /// The reply is an integer, to be read as a truth value: whether the field
    /// was set.
    pub fn hsetnx(&mut self, key: &[u8], field: &[u8], value: &[u8])
        ensures
            written(old(self)@, final(self)@, seq!["HSETNX".spec_bytes(), key@, field@, value@]),
    {
        let command = Command::new("HSETNX").arg(key).arg(field).arg(value);
        assert(command@ =~= seq!["HSETNX".spec_bytes(), key@, field@, value@]);
        self.run_command(command);
    }

    /// Adds `val` to the number at `field` in the hash at `key`.
    ///
    /// The reply is an integer: the number after the addition.
    pub fn hincrby(&mut self, key: &[u8], field: &[u8], val: i64)
        ensures
            written(old(self)@, final(self)@, seq!["HINCRBY".spec_bytes(), key@, field@, signed_decimal(val as int)]),
    {
        let command = Command::new("HINCRBY").arg(key).arg(field).arg(signed_text(val).as_slice());
        assert(command@ =~= seq!["HINCRBY".spec_bytes(), key@, field@, signed_decimal(val as int)]);
        self.run_command(command);
    }

    /// Adds the number whose decimal text is `val` to the number at `field` in
    /// the hash at `key`.
    ///
    /// The reply is a string: the decimal text of the number after the
    /// addition.
    pub fn hincrbyfloat(&mut self, key: &[u8], field: &[u8], val: &[u8])
        ensures
            written(old(self)@, final(self)@, seq!["HINCRBYFLOAT".spec_bytes(), key@, field@, val@]),
    {
        let command = Command::new("HINCRBYFLOAT").arg(key).arg(field).arg(val);
        assert(command@ =~= seq!["HINCRBYFLOAT".spec_bytes(), key@, field@, val@]);
        self.run_command(command);
    }

    /// Asks for the name of each field of the hash at `key`.
    ///
    /// The reply is an array of strings.
    pub fn hkeys(&mut self, key: &[u8])
        ensures
            written(old(self)@, final(self)@, seq!["HKEYS".spec_bytes(), key@]),
    {
        let command = Command::new("HKEYS").arg(key);
        assert(command@ =~= seq!["HKEYS".spec_bytes(), key@]);
        self.run_command(command);
    }

    /// Asks for the number of fields of the hash at `key`.
    ///
    /// The reply is an integer.
    pub fn hlen(&mut self, key: &[u8])
        ensures
            written(old(self)@, final(self)@, seq!["HLEN".spec_bytes(), key@]),
    {
        let command = Command::new("HLEN").arg(key);
        assert(command@ =~= seq!["HLEN".spec_bytes(), key@]);
        self.run_command(command);
    }

    /// Asks for the number of bytes of `field` in the hash at `key`.
    ///
    /// The reply is an integer.
    pub fn hstrlen(&mut self, key: &[u8], field: &[u8])
        ensures
            written(old(self)@, final(self)@, seq!["HSTRLEN".spec_bytes(), key@, field@]),
    {
        let command = Command::new("HSTRLEN").arg(key).arg(field);
        assert(command@ =~= seq!["HSTRLEN".spec_bytes(), key@, field@]);
        self.run_command(command);
    }

    /// Asks for the value of each field of the hash at `key`.
    ///
    /// The reply is an array.
    pub fn hvals(&mut self, key: &[u8])
        ensures
            written(old(self)@, final(self)@, seq!["HVALS".spec_bytes(), key@]),
    {
        let command = Command::new("HVALS").arg(key);
        assert(command@ =~= seq!["HVALS".spec_bytes(), key@]);
        self.run_command(command);
    }

    /// Asks the server for a sign of life.
    ///
    /// The reply is of no interest, unless it is an error.
    pub fn ping(&mut self)
        ensures
            written(old(self)@, final(self)@, seq!["PING".spec_bytes()]),
    {
        let command = Command::new("PING");
        self.run_command(command);
    }

    /// Publishes `message` to `channel`.
    ///
    /// The reply is an integer: the number of clients that received the
    /// message.
    pub fn publish(&mut self, channel: &[u8], message: &[u8])
        ensures
            written(old(self)@, final(self)@, seq!["PUBLISH".spec_bytes(), channel@, message@]),
    {
        let command = Command::new("PUBLISH").arg(channel).arg(message);
        assert(command@ =~= seq!["PUBLISH".spec_bytes(), channel@, message@]);
        self.run_command(command);
    }

    /// Sets `key` to `value`.
    ///
    /// The reply is of no interest, unless it is an error.
    pub fn set(&mut self, key: &[u8], value: &[u8])
        ensures
            written(old(self)@, final(self)@, seq!["SET".spec_bytes(), key@, value@]),
    {
        let command = Command::new("SET").arg(key).arg(value);
        assert(command@ =~= seq!["SET".spec_bytes(), key@, value@]);
        self.run_command(command);
    }

    /// Sets `key` to `data`, to expire after `seconds` seconds.
    ///
    /// The reply is of no interest, unless it is an error.
    pub fn set_and_expire_seconds(&mut self, key: &[u8], data: &[u8], seconds: u32)
        ensures
            written(old(self)@, final(self)@, seq!["SET".spec_bytes(), key@, data@, "EX".spec_bytes(), decimal(seconds as nat)]),
    {
        let command = Command::new("SET").arg(key).arg(data).arg("EX".as_bytes()).arg(unsigned_text(seconds as u64).as_slice());
        assert(command@ =~= seq!["SET".spec_bytes(), key@, data@, "EX".spec_bytes(), decimal(seconds as nat)]);
        self.run_command(command);
    }

    /// Sets `key` to `data`, to expire after `milliseconds` milliseconds.
    ///
    /// The reply is of no interest, unless it is an error.
    pub fn set_and_expire_ms(&mut self, key: &[u8], data: &[u8], milliseconds: u32)
        ensures
            written(old(self)@, final(self)@, seq!["SET".spec_bytes(), key@, data@, "PX".spec_bytes(), decimal(milliseconds as nat)]),
    {
        let command = Command::new("SET").arg(key).arg(data).arg("PX".as_bytes()).arg(unsigned_text(milliseconds as u64).as_slice());
        assert(command@ =~= seq!["SET".spec_bytes(), key@, data@, "PX".spec_bytes(), decimal(milliseconds as nat)]);
        self.run_command(command);
    }

    /// Lets `key` expire `seconds` seconds from now.
    ///
    /// The reply is an integer.
    pub fn expire_seconds(&mut self, key: &[u8], seconds: u32)
        ensures
            written(old(self)@, final(self)@, seq!["EXPIRE".spec_bytes(), key@, decimal(seconds as nat)]),
    {
        let command = Command::new("EXPIRE").arg(key).arg(unsigned_text(seconds as u64).as_slice());
        assert(command@ =~= seq!["EXPIRE".spec_bytes(), key@, decimal(seconds as nat)]);
        self.run_command(command);
    }

    /// Lets `key` expire `seconds` milliseconds from now.
    ///
    /// The reply is an integer.
    pub fn expire_ms(&mut self, key: &[u8], seconds: u32)
        ensures
            written(old(self)@, final(self)@, seq!["PEXPIRE".spec_bytes(), key@, decimal(seconds as nat)]),
    {
        let command = Command::new("PEXPIRE").arg(key).arg(unsigned_text(seconds as u64).as_slice());
        assert(command@ =~= seq!["PEXPIRE".spec_bytes(), key@, decimal(seconds as nat)]);
        self.run_command(command);
    }

    /// Lets `key` expire at the Unix time `timestamp`, in seconds.
    ///
    /// The reply is an integer.
    pub fn expire_at_seconds(&mut self, key: &[u8], timestamp: u64)
        ensures
            written(old(self)@, final(self)@, seq!["EXPIREAT".spec_bytes(), key@, decimal(timestamp as nat)]),
    {
        let command = Command::new("EXPIREAT").arg(key).arg(unsigned_text(timestamp).as_slice());
        assert(command@ =~= seq!["EXPIREAT".spec_bytes(), key@, decimal(timestamp as nat)]);
        self.run_command(command);
    }

    /// Lets `key` expire at the Unix time `timestamp`, in milliseconds.
    ///
    /// The reply is an integer.
    pub fn expire_at_ms(&mut self, key: &[u8], timestamp: u64)
        ensures
            written(old(self)@, final(self)@, seq!["PEXPIREAT".spec_bytes(), key@, decimal(timestamp as nat)]),
    {
        let command = Command::new("PEXPIREAT").arg(key).arg(unsigned_text(timestamp).as_slice());
        assert(command@ =~= seq!["PEXPIREAT".spec_bytes(), key@, decimal(timestamp as nat)]);
        self.run_command(command);
    }

    /// Deletes `key`.
    ///
    /// The reply is an integer, to be read as a truth value: whether the key
    /// was there.
    pub fn del(&mut self, key: &[u8])
        ensures
            written(old(self)@, final(self)@, seq!["DEL".spec_bytes(), key@]),
    {
        let command = Command::new("DEL").arg(key);
        assert(command@ =~= seq!["DEL".spec_bytes(), key@]);
        self.run_command(command);
    }

    /// Asks for the value of `key`.
    ///
    /// The reply is a string, or `Nil` where there is no such key.
    pub fn get(&mut self, key: &[u8])
        ensures
            written(old(self)@, final(self)@, seq!["GET".spec_bytes(), key@]),
    {
        let command = Command::new("GET").arg(key);
        assert(command@ =~= seq!["GET".spec_bytes(), key@]);
        self.run_command(command);
    }

    /// Pushes `value` to `list` from the left.
    ///
    /// The reply is an integer: the number of elements of the list.
    pub fn lpush(&mut self, list: &[u8], value: &[u8])
        ensures
            written(old(self)@, final(self)@, seq!["LPUSH".spec_bytes(), list@, value@]),
    {
        let command = Command::new("LPUSH").arg(list).arg(value);
        assert(command@ =~= seq!["LPUSH".spec_bytes(), list@, value@]);
        self.run_command(command);
    }

    /// Pushes `value` to `list` from the right.
    ///
    /// The reply is an integer: the number of elements of the list.
    pub fn rpush(&mut self, list: &[u8], value: &[u8])
        ensures
            written(old(self)@, final(self)@, seq!["RPUSH".spec_bytes(), list@, value@]),
    {
        let command = Command::new("RPUSH").arg(list).arg(value);
        assert(command@ =~= seq!["RPUSH".spec_bytes(), list@, value@]);
        self.run_command(command);
    }

    /// Pops a value from `list` from the left.
    ///
    /// The reply is a string, or `Nil` where the list is empty.
    pub fn lpop(&mut self, list: &[u8])
        ensures
            written(old(self)@, final(self)@, seq!["LPOP".spec_bytes(), list@]),
    {
        let command = Command::new("LPOP").arg(list);
        assert(command@ =~= seq!["LPOP".spec_bytes(), list@]);
        self.run_command(command);
    }

    /// Pops a value from `list` from the right.
    ///
    /// The reply is a string, or `Nil` where the list is empty.
    pub fn rpop(&mut self, list: &[u8])
        ensures
            written(old(self)@, final(self)@, seq!["RPOP".spec_bytes(), list@]),
    {
        let command = Command::new("RPOP").arg(list);
        assert(command@ =~= seq!["RPOP".spec_bytes(), list@]);
        self.run_command(command);
    }

    /// Asks for the elements of `list` from the index `from` to the index `to`;
    /// a negative index counts from the right.
    ///
    /// The reply is an array of strings.
    pub fn lrange(&mut self, list: &[u8], from: i64, to: i64)
        ensures
            written(old(self)@, final(self)@, seq!["LRANGE".spec_bytes(), list@, signed_decimal(from as int), signed_decimal(to as int)]),
    {
        let command = Command::new("LRANGE").arg(list).arg(signed_text(from).as_slice()).arg(signed_text(to).as_slice());
        assert(command@ =~= seq!["LRANGE".spec_bytes(), list@, signed_decimal(from as int), signed_decimal(to as int)]);
        self.run_command(command);
    }

    /// Asks for the number of elements of `list`.
    ///
    /// The reply is an integer.
    pub fn llen(&mut self, list: &[u8])
        ensures
            written(old(self)@, final(self)@, seq!["LLEN".spec_bytes(), list@]),
    {
        let command = Command::new("LLEN").arg(list);
        assert(command@ =~= seq!["LLEN".spec_bytes(), list@]);
        self.run_command(command);
    }

    /// Sets the element at `index` in `list` to `value`.
    ///
    /// The reply is of no interest, unless it is an error.
    pub fn lset(&mut self, list: &[u8], index: usize, value: &[u8])
        ensures
            written(old(self)@, final(self)@, seq!["LSET".spec_bytes(), list@, decimal(index as nat), value@]),
    {
        let command = Command::new("LSET").arg(list).arg(unsigned_text(index as u64).as_slice()).arg(value);
        assert(command@ =~= seq!["LSET".spec_bytes(), list@, decimal(index as nat), value@]);
        self.run_command(command);
    }

    /// Trims `list` to the elements from `start` to `stop`.
    ///
    /// The reply is of no interest, unless it is an error.
    pub fn ltrim(&mut self, list: &[u8], start: usize, stop: usize)
        ensures
            written(old(self)@, final(self)@, seq!["LTRIM".spec_bytes(), list@, decimal(start as nat), decimal(stop as nat)]),
    {
        let command = Command::new("LTRIM").arg(list).arg(unsigned_text(start as u64).as_slice()).arg(unsigned_text(stop as u64).as_slice());
        assert(command@ =~= seq!["LTRIM".spec_bytes(), list@, decimal(start as nat), decimal(stop as nat)]);
        self.run_command(command);
    }

    /// Adds one to the number at `key`.
    ///
    /// The reply is an integer: the number after the addition.
    pub fn incr(&mut self, key: &[u8])
        ensures
            written(old(self)@, final(self)@, seq!["INCR".spec_bytes(), key@]),
    {
        let command = Command::new("INCR").arg(key);
        assert(command@ =~= seq!["INCR".spec_bytes(), key@]);
        self.run_command(command);
    }

    /// Adds `val` to the number at `key`.
    ///
    /// The reply is an integer: the number after the addition.
    pub fn incrby(&mut self, key: &[u8], val: i64)
        ensures
            written(old(self)@, final(self)@, seq!["INCRBY".spec_bytes(), key@, signed_decimal(val as int)]),
    {
        let command = Command::new("INCRBY").arg(key).arg(signed_text(val).as_slice());
        assert(command@ =~= seq!["INCRBY".spec_bytes(), key@, signed_decimal(val as int)]);
        self.run_command(command);
    }

    /// Adds the number whose decimal text is `val` to the number at `key`.
    ///
    /// The reply is a string: the decimal text of the number after the
    /// addition.
    pub fn incrbyfloat(&mut self, key: &[u8], val: &[u8])
        ensures
            written(old(self)@, final(self)@, seq!["INCRBYFLOAT".spec_bytes(), key@, val@]),
    {
        let command = Command::new("INCRBYFLOAT").arg(key).arg(val);
        assert(command@ =~= seq!["INCRBYFLOAT".spec_bytes(), key@, val@]);
        self.run_command(command);
    }

    /// Takes one from the number at `key`.
    ///
    /// The reply is an integer: the number after the subtraction.
    pub fn decr(&mut self, key: &[u8])
        ensures
            written(old(self)@, final(self)@, seq!["DECR".spec_bytes(), key@]),
    {
        let command = Command::new("DECR").arg(key);
        assert(command@ =~= seq!["DECR".spec_bytes(), key@]);
        self.run_command(command);
    }

    /// Takes `val` from the number at `key`.
    ///
    /// The reply is an integer: the number after the subtraction.
    pub fn decrby(&mut self, key: &[u8], val: i64)
        ensures
            written(old(self)@, final(self)@, seq!["DECRBY".spec_bytes(), key@, signed_decimal(val as int)]),
    {
        let command = Command::new("DECRBY").arg(key).arg(signed_text(val).as_slice());
        assert(command@ =~= seq!["DECRBY".spec_bytes(), key@, signed_decimal(val as int)]);
        self.run_command(command);
    }

    /// Appends `val` to the string at `key`.
    ///
    /// The reply is an integer: the length of the string after that.
    pub fn append(&mut self, key: &[u8], val: &[u8])
        ensures
            written(old(self)@, final(self)@, seq!["APPEND".spec_bytes(), key@, val@]),
    {
        let command = Command::new("APPEND").arg(key).arg(val);
        assert(command@ =~= seq!["APPEND".spec_bytes(), key@, val@]);
        self.run_command(command);
    }

    /// Asks whether `key` has been set.
    ///
    /// The reply is an integer; see [`Connection::key_exists_reply`].
    pub fn key_exists(&mut self, key: &[u8])
        ensures
            written(old(self)@, final(self)@, seq!["EXISTS".spec_bytes(), key@]),
    {
        let command = Command::new("EXISTS").arg(key);
        assert(command@ =~= seq!["EXISTS".spec_bytes(), key@]);
        self.run_command(command);
    }

    /// Adds `value` to the set at `key`.
    ///
    /// The reply is an integer, to be read as a truth value: whether the value
    /// was new.
    pub fn sadd(&mut self, key: &[u8], value: &[u8])
        ensures
            written(old(self)@, final(self)@, seq!["SADD".spec_bytes(), key@, value@]),
    {
        let command = Command::new("SADD").arg(key).arg(value);
        assert(command@ =~= seq!["SADD".spec_bytes(), key@, value@]);
        self.run_command(command);
    }

    /// Asks for the members of the set at `key`.
    ///
    /// The reply is an array of strings.
    pub fn smembers(&mut self, key: &[u8])
        ensures
            written(old(self)@, final(self)@, seq!["SMEMBERS".spec_bytes(), key@]),
    {
        let command = Command::new("SMEMBERS").arg(key);
        assert(command@ =~= seq!["SMEMBERS".spec_bytes(), key@]);
        self.run_command(command);
    }

    /// Asks whether `value` is a member of the set at `key`.
    ///
    /// The reply is an integer, to be read as a truth value.
    pub fn sismember(&mut self, key: &[u8], value: &[u8])
        ensures
            written(old(self)@, final(self)@, seq!["SISMEMBER".spec_bytes(), key@, value@]),
    {
        let command = Command::new("SISMEMBER").arg(key).arg(value);
        assert(command@ =~= seq!["SISMEMBER".spec_bytes(), key@, value@]);
        self.run_command(command);
    }

    /// Asks for the kind of value at `key`.
    ///
    /// The reply is a string; see [`Connection::key_type_reply`].
    pub fn key_type(&mut self, key: &[u8])
        ensures
            written(old(self)@, final(self)@, seq!["TYPE".spec_bytes(), key@]),
    {
        let command = Command::new("TYPE").arg(key);
        assert(command@ =~= seq!["TYPE".spec_bytes(), key@]);
        self.run_command(command);
    }

    /// Asks for the number of members of the set at `key`.
    ///
    /// The reply is an integer.
    pub fn scard(&mut self, key: &[u8])
        ensures
            written(old(self)@, final(self)@, seq!["SCARD".spec_bytes(), key@]),
    {
        let command = Command::new("SCARD").arg(key);
        assert(command@ =~= seq!["SCARD".spec_bytes(), key@]);
        self.run_command(command);
    }

    /// Moves `member` from the set at `source` to the set at `destination`.
    ///
    /// The reply is an integer, to be read as a truth value: whether the member
    /// was moved.
    pub fn smove(&mut self, source: &[u8], destination: &[u8], member: &[u8])
        ensures
            written(old(self)@, final(self)@, seq!["SMOVE".spec_bytes(), source@, destination@, member@]),
    {
        let command = Command::new("SMOVE").arg(source).arg(destination).arg(member);
        assert(command@ =~= seq!["SMOVE".spec_bytes(), source@, destination@, member@]);
        self.run_command(command);
    }

    /// Removes `member` from the set at `key`.
    ///
    /// The reply is an integer, to be read as a truth value: whether the member
    /// was there.
    pub fn srem(&mut self, key: &[u8], member: &[u8])
        ensures
            written(old(self)@, final(self)@, seq!["SREM".spec_bytes(), key@, member@]),
    {
        let command = Command::new("SREM").arg(key).arg(member);
        assert(command@ =~= seq!["SREM".spec_bytes(), key@, member@]);
        self.run_command(command);
    }

    /// Asks for `count` members of `set`, picked at random; with a negative
    /// count a member may come more than once.
    ///
    /// The reply is an array of strings.
    pub fn srandmember(&mut self, set: &[u8], count: i64)
        ensures
            written(old(self)@, final(self)@, seq!["SRANDMEMBER".spec_bytes(), set@, signed_decimal(count as int)]),
    {
        let command = Command::new("SRANDMEMBER").arg(set).arg(signed_text(count).as_slice());
        assert(command@ =~= seq!["SRANDMEMBER".spec_bytes(), set@, signed_decimal(count as int)]);
        self.run_command(command);
    }

    /// Pops `count` members of `set`, picked at random.
    ///
    /// The reply is an array of strings.
    pub fn spop(&mut self, set: &[u8], count: i64)
        ensures
            written(old(self)@, final(self)@, seq!["SPOP".spec_bytes(), set@, signed_decimal(count as int)]),
    {
        let command = Command::new("SPOP").arg(set).arg(signed_text(count).as_slice());
        assert(command@ =~= seq!["SPOP".spec_bytes(), set@, signed_decimal(count as int)]);
        self.run_command(command);
    }

    /// Deletes every field of `fields` from the hash at `key`.
    ///
    /// The reply is an integer: the number of fields that were deleted.
    pub fn hdel_slice(&mut self, key: &[u8], fields: &[Vec<u8>]) -> (r: Result<(), Error>)
        ensures
            match r {
                Ok(_) => fields@.len() > 0 && written(
                    old(self)@,
                    final(self)@,
                    seq!["HDEL".spec_bytes(), key@] + byte_strings(fields@),
                ),
                Err(error) => {
                    &&& fields@.len() == 0
                    &&& error == Error::EmptySlice
                    &&& final(self)@ == old(self)@
                },
            },
    {
        self.send_each("HDEL", Some(key), fields)
    }

    /// Deletes every key of `keys`.
    ///
    /// The reply is an integer: the number of keys that were deleted.
    pub fn del_slice(&mut self, keys: &[Vec<u8>]) -> (r: Result<(), Error>)
        ensures
            match r {
                Ok(_) => keys@.len() > 0 && written(
                    old(self)@,
                    final(self)@,
                    seq!["DEL".spec_bytes()] + byte_strings(keys@),
                ),
                Err(error) => {
                    &&& keys@.len() == 0
                    &&& error == Error::EmptySlice
                    &&& final(self)@ == old(self)@
                },
            },
    {
        self.send_each("DEL", None, keys)
    }

    /// Pushes each value of `values` to the list at `key` from the left.
    ///
    /// The reply is an integer: the number of elements of the list.
    pub fn lpush_slice(&mut self, key: &[u8], values: &[Vec<u8>]) -> (r: Result<(), Error>)
        ensures
            match r {
                Ok(_) => values@.len() > 0 && written(
                    old(self)@,
                    final(self)@,
                    seq!["LPUSH".spec_bytes(), key@] + byte_strings(values@),
                ),
                Err(error) => {
                    &&& values@.len() == 0
                    &&& error == Error::EmptySlice
                    &&& final(self)@ == old(self)@
                },
            },
    {
        self.send_each("LPUSH", Some(key), values)
    }

    /// Pushes each value of `values` to the list at `key` from the right.
    ///
    /// The reply is an integer: the number of elements of the list.
    pub fn rpush_slice(&mut self, key: &[u8], values: &[Vec<u8>]) -> (r: Result<(), Error>)
        ensures
            match r {
                Ok(_) => values@.len() > 0 && written(
                    old(self)@,
                    final(self)@,
                    seq!["RPUSH".spec_bytes(), key@] + byte_strings(values@),
                ),
                Err(error) => {
                    &&& values@.len() == 0
                    &&& error == Error::EmptySlice
                    &&& final(self)@ == old(self)@
                },
            },
    {
        self.send_each("RPUSH", Some(key), values)
    }

    /// Asks for the value of every key of `keys`.
    ///
    /// The reply is an array; see [`Connection::mget_reply`].
    pub fn mget(&mut self, keys: &[Vec<u8>]) -> (r: Result<(), Error>)
        ensures
            match r {
                Ok(_) => keys@.len() > 0 && written(
                    old(self)@,
                    final(self)@,
                    seq!["MGET".spec_bytes()] + byte_strings(keys@),
                ),
                Err(error) => {
                    &&& keys@.len() == 0
                    &&& error == Error::EmptySlice
                    &&& final(self)@ == old(self)@
                },
            },
    {
        self.send_each("MGET", None, keys)
    }

    /// Adds each value of `values` to the set at `key`.
    ///
    /// The reply is an integer: the number of values that were new.
    pub fn sadd_slice(&mut self, key: &[u8], values: &[Vec<u8>]) -> (r: Result<(), Error>)
        ensures
            match r {
                Ok(_) => values@.len() > 0 && written(
                    old(self)@,
                    final(self)@,
                    seq!["SADD".spec_bytes(), key@] + byte_strings(values@),
                ),
                Err(error) => {
                    &&& values@.len() == 0
                    &&& error == Error::EmptySlice
                    &&& final(self)@ == old(self)@
                },
            },
    {
        self.send_each("SADD", Some(key), values)
    }

    /// Removes every member of `members` from the set at `key`.
    ///
    /// The reply is an integer: the number of members that were removed.
    pub fn srem_slice(&mut self, key: &[u8], members: &[Vec<u8>]) -> (r: Result<(), Error>)
        ensures
            match r {
                Ok(_) => members@.len() > 0 && written(
                    old(self)@,
                    final(self)@,
                    seq!["SREM".spec_bytes(), key@] + byte_strings(members@),
                ),
                Err(error) => {
                    &&& members@.len() == 0
                    &&& error == Error::EmptySlice
                    &&& final(self)@ == old(self)@
                },
            },
    {
        self.send_each("SREM", Some(key), members)
    }

    /// Asks for the members of the first set of `sets` that are in none of the
    /// others.
    ///
    /// The reply is an array of strings.
    pub fn sdiff(&mut self, sets: &[Vec<u8>]) -> (r: Result<(), Error>)
        ensures
            match r {
                Ok(_) => sets@.len() > 0 && written(
                    old(self)@,
                    final(self)@,
                    seq!["SDIFF".spec_bytes()] + byte_strings(sets@),
                ),
                Err(error) => {
                    &&& sets@.len() == 0
                    &&& error == Error::EmptySlice
                    &&& final(self)@ == old(self)@
                },
            },
    {
        self.send_each("SDIFF", None, sets)
    }

    /// Stores at `destination` the members of the first set of `sets` that are
    /// in none of the others.
    ///
    /// The reply is an integer: the number of members at `destination`.
    pub fn sdiffstore(&mut self, destination: &[u8], sets: &[Vec<u8>]) -> (r: Result<(), Error>)
        ensures
            match r {
                Ok(_) => sets@.len() > 0 && written(
                    old(self)@,
                    final(self)@,
                    seq!["SDIFFSTORE".spec_bytes(), destination@] + byte_strings(sets@),
                ),
                Err(error) => {
                    &&& sets@.len() == 0
                    &&& error == Error::EmptySlice
                    &&& final(self)@ == old(self)@
                },
            },
    {
        self.send_each("SDIFFSTORE", Some(destination), sets)
    }

    /// Asks for the members that are in every set of `sets`.
    ///
    /// The reply is an array of strings.
    pub fn sinter(&mut self, sets: &[Vec<u8>]) -> (r: Result<(), Error>)
        ensures
            match r {
                Ok(_) => sets@.len() > 0 && written(
                    old(self)@,
                    final(self)@,
                    seq!["SINTER".spec_bytes()] + byte_strings(sets@),
                ),
                Err(error) => {
                    &&& sets@.len() == 0
                    &&& error == Error::EmptySlice
                    &&& final(self)@ == old(self)@
                },
            },
    {
        self.send_each("SINTER", None, sets)
    }

    /// Stores at `destination` the members that are in every set of `sets`.
    ///
    /// The reply is an integer: the number of members at `destination`.
    pub fn sinterstore(&mut self, destination: &[u8], sets: &[Vec<u8>]) -> (r: Result<(), Error>)
        ensures
            match r {
                Ok(_) => sets@.len() > 0 && written(
                    old(self)@,
                    final(self)@,
                    seq!["SINTERSTORE".spec_bytes(), destination@] + byte_strings(sets@),
                ),
                Err(error) => {
                    &&& sets@.len() == 0
                    &&& error == Error::EmptySlice
                    &&& final(self)@ == old(self)@
                },
            },
    {
        self.send_each("SINTERSTORE", Some(destination), sets)
    }

    /// Asks for the members of all the sets of `sets`.
    ///
    /// The reply is an array of strings.
    pub fn sunion(&mut self, sets: &[Vec<u8>]) -> (r: Result<(), Error>)
        ensures
            match r {
                Ok(_) => sets@.len() > 0 && written(
                    old(self)@,
                    final(self)@,
                    seq!["SUNION".spec_bytes()] + byte_strings(sets@),
                ),
                Err(error) => {
                    &&& sets@.len() == 0
                    &&& error == Error::EmptySlice
                    &&& final(self)@ == old(self)@
                },
            },
    {
        self.send_each("SUNION", None, sets)
    }

    /// Stores at `destination` the members of all the sets of `sets`.
    ///
    /// The reply is an integer: the number of members at `destination`.
    pub fn sunionstore(&mut self, destination: &[u8], sets: &[Vec<u8>]) -> (r: Result<(), Error>)
        ensures
            match r {
                Ok(_) => sets@.len() > 0 && written(
                    old(self)@,
                    final(self)@,
                    seq!["SUNIONSTORE".spec_bytes(), destination@] + byte_strings(sets@),
                ),
                Err(error) => {
                    &&& sets@.len() == 0
                    &&& error == Error::EmptySlice
                    &&& final(self)@ == old(self)@
                },
            },
    {
        self.send_each("SUNIONSTORE", Some(destination), sets)
    }

    /// Sets the fields of the hash at `key` to their values in `builder`.
    ///
    /// The reply is an integer: the number of fields that were added.
    pub fn hset_many(&mut self, key: &[u8], builder: MSetBuilder)
        ensures
            written(old(self)@, final(self)@, seq!["HSET".spec_bytes(), key@] + builder@),
    {
        let mut command = Command::new("HSET").arg(key);
        command.append_msetbuilder(&builder);
        assert(command@ =~= seq!["HSET".spec_bytes(), key@] + builder@);
        self.run_command(command);
    }

    /// Sets every key of `builder` to its value.
    ///
    /// The reply is of no interest, unless it is an error.
    pub fn mset(&mut self, builder: MSetBuilder)
        ensures
            written(old(self)@, final(self)@, seq!["MSET".spec_bytes()] + builder@),
    {
        let mut command = Command::new("MSET");
        command.append_msetbuilder(&builder);
        self.run_command(command);
    }

    /// Pops a value from the first of `lists` that has one, from the left,
    /// and waits up to `timeout` seconds for one; zero waits for ever.
    ///
    /// For the reply, see [`Connection::blpop_brpop_reply`].
    pub fn blpop(&mut self, lists: &[Vec<u8>], timeout: u32) -> (r: Result<(), Error>)
        ensures
            match r {
                Ok(_) => lists@.len() > 0 && written(
                    old(self)@,
                    final(self)@,
                    seq!["BLPOP".spec_bytes()] + byte_strings(lists@) + seq![
                        decimal(timeout as nat),
                    ],
                ),
                Err(error) => {
                    &&& lists@.len() == 0
                    &&& error == Error::EmptySlice
                    &&& final(self)@ == old(self)@
                },
            },
    {
        self.blpop_brpop(lists, timeout, "BLPOP")
    }

    /// Pops a value from the first of `lists` that has one, from the right,
    /// and waits up to `timeout` seconds for one; zero waits for ever.
    ///
    /// For the reply, see [`Connection::blpop_brpop_reply`].
    pub fn brpop(&mut self, lists: &[Vec<u8>], timeout: u32) -> (r: Result<(), Error>)
        ensures
            match r {
                Ok(_) => lists@.len() > 0 && written(
                    old(self)@,
                    final(self)@,
                    seq!["BRPOP".spec_bytes()] + byte_strings(lists@) + seq![
                        decimal(timeout as nat),
                    ],
                ),
                Err(error) => {
                    &&& lists@.len() == 0
                    &&& error == Error::EmptySlice
                    &&& final(self)@ == old(self)@
                },
            },
    {
        self.blpop_brpop(lists, timeout, "BRPOP")
    }

    /// What the two blocking pops share: the command `redis_cmd` with each of
    /// `lists` and then the timeout as arguments. An empty `lists` is
    /// refused.
    pub fn blpop_brpop(&mut self, lists: &[Vec<u8>], timeout: u32, redis_cmd: &str) -> (r: Result<
        (),
        Error,
    >)
        ensures
            match r {
                Ok(_) => lists@.len() > 0 && written(
                    old(self)@,
                    final(self)@,
                    seq![redis_cmd.spec_bytes()] + byte_strings(lists@) + seq![
                        decimal(timeout as nat),
                    ],
                ),
                Err(error) => {
                    &&& lists@.len() == 0
                    &&& error == Error::EmptySlice
                    &&& final(self)@ == old(self)@
                },
            },
    {
        if lists.len() == 0 {
            return Err(Error::EmptySlice);
        }
        let timeout = unsigned_text(timeout as u64);
        let command = Command::new(redis_cmd).args(lists).arg(timeout.as_slice());
        assert(command@ =~= seq![redis_cmd.spec_bytes()] + byte_strings(lists@) + seq![timeout@]);
        self.run_command(command);
        Ok(())
    }

    /// Reads the reply to a blocking pop made with the command `redis_cmd`.
    ///
    /// * An array of two strings is the name of the list and the value that
    ///   was popped from it.
    /// * `Nil` says that the timeout ran out with nothing to pop: that is
    ///   `None`, and no error.
    /// * An array of any other length, and any other reply, is an unexpected
    ///   response; the message starts with `redis_cmd`.
    pub fn blpop_brpop_reply(reply: Value, redis_cmd: &str) -> (r: Result<
        Option<(Vec<u8>, Vec<u8>)>,
        Error,
    >)
        requires
            reply@ matches Reply::Array(items) ==> (items.len() == 2 ==> items[0] is String
                && items[1] is String),
        ensures
            match reply@ {
                Reply::Array(items) => if items.len() == 2 {
                    &&& r matches Ok(Some(pair))
                    &&& pair.0@ == items[0].bytes()
                    &&& pair.1@ == items[1].bytes()
                } else {
                    &&& r matches Err(error)
                    &&& error@ == Failure::UnexpectedResponse(
                        redis_cmd@ + ": wrong number of elements received: "@ + utf8_lossy(
                            decimal(items.len()),
                        ),
                    )
                },
                Reply::Nil => r == Ok::<Option<(Vec<u8>, Vec<u8>)>, Error>(None),
                other => {
                    &&& r matches Err(error)
                    &&& error@ == Failure::UnexpectedResponse(
                        redis_cmd@ + ": "@ + debug_rendering(other),
                    )
                },
            },
    {
        match reply {
            Value::Array(values) => {
                proof {
                    lemma_array_view(values);
                }
                let vlen = values.len();
                if vlen == 2 {
                    let mut values = values;
                    let value = values.pop().unwrap().unwrap_string();
                    let list = values.pop().unwrap().unwrap_string();
                    return Ok(Some((list, value)));
                }
                let mut message = redis_cmd.to_owned();
                message.append(": wrong number of elements received: ");
                message.append(lossy_text(unsigned_text(vlen as u64).as_slice()).as_str());
                Err(Error::UnexpectedResponse(message))
            },
            Value::Nil => Ok(None),
            other => {
                let mut message = redis_cmd.to_owned();
                message.append(": ");
                message.append(debug_text(&other).as_str());
                Err(Error::UnexpectedResponse(message))
            },
        }
    }

    /// Reads the reply to [`Connection::mget`]: for each key its value, or
    /// `None` where the reply holds anything but a string for it.
    pub fn mget_reply(reply: Value) -> (values: Vec<Option<Vec<u8>>>)
        requires
            reply is Array,
        ensures
            optional_byte_strings(values@) == optional_strings_of(reply@.items()),
    {
        let mut items = reply.unwrap_array();
        let ghost all = items@;
        let mut reversed: Vec<Option<Vec<u8>>> = Vec::new();
        while items.len() > 0
            invariant
                items@.len() + reversed@.len() == all.len(),
                items@ == all.take(items@.len() as int),
                forall|j: int|
                    0 <= j < reversed@.len() ==> all[all.len() - 1 - j]@.optional_bytes() == (
                    match #[trigger] reversed@[j] {
                        Some(bytes) => Some(bytes@),
                        None => None,
                    }),
            decreases items@.len(),
        {
            let item = items.pop().unwrap();
            reversed.push(item.optional_string());
        }
        let mut values: Vec<Option<Vec<u8>>> = Vec::new();
        while reversed.len() > 0
            invariant
                reversed@.len() + values@.len() == all.len(),
                forall|j: int|
                    0 <= j < reversed@.len() ==> all[all.len() - 1 - j]@.optional_bytes() == (
                    match #[trigger] reversed@[j] {
                        Some(bytes) => Some(bytes@),
                        None => None,
                    }),
                forall|i: int|
                    0 <= i < values@.len() ==> all[i]@.optional_bytes() == (
                    match #[trigger] values@[i] {
                        Some(bytes) => Some(bytes@),
                        None => None,
                    }),
            decreases reversed@.len(),
        {
            let value = reversed.pop().unwrap();
            values.push(value);
        }
        proof {
            assert forall|i: int| 0 <= i < all.len() implies optional_byte_strings(values@)[i]
                == optional_strings_of(replies(all))[i] by {
                assert(all[i]@.optional_bytes() == (match values@[i] {
                    Some(bytes) => Some(bytes@),
                    None => None,
                }));
            }
        }
        values
    }

    /// Reads the reply to [`Connection::key_exists`]: the key has been set where
    /// the reply is the integer one.
    pub fn key_exists_reply(reply: &Value) -> (present: bool)
        ensures
            present == (reply@ == Reply::Integer(1)),
    {
        match reply {
            Value::Integer(n) => *n == 1,
            _ => false,
        }
    }

    /// Reads the reply to [`Connection::key_type`]: the name of the kind of
    /// value at the key. `none` says that there is no such key. Any other
    /// name than those of [`DataType`] is an unexpected response that carries
    /// the name.
    pub fn key_type_reply(reply: Value) -> (r: Result<Option<DataType>, Error>)
        requires
            reply is String,
        ensures
            result_type(r) == data_type_of(reply@.bytes()),
    {
        let result = reply.unwrap_string();
        let name = result.as_slice();
        if same_bytes(name, "string".as_bytes()) {
            Ok(Some(DataType::String))
        } else if same_bytes(name, "list".as_bytes()) {
            Ok(Some(DataType::List))
        } else if same_bytes(name, "set".as_bytes()) {
            Ok(Some(DataType::PlainSet))
        } else if same_bytes(name, "zset".as_bytes()) {
            Ok(Some(DataType::ZSet))
        } else if same_bytes(name, "hash".as_bytes()) {
            Ok(Some(DataType::Hash))
        } else if same_bytes(name, "stream".as_bytes()) {
            Ok(Some(DataType::Stream))
        } else if same_bytes(name, "none".as_bytes()) {
            Ok(None)
        } else {
            Err(Error::UnexpectedResponse(lossy_text(name)))
        }
    }

    /// The settings of a scan over the members of the set at `key`.
    pub fn sscan(key: &[u8]) -> (builder: ScanBuilder)
        ensures
            builder@ == (Scanning {
                command: "SSCAN".spec_bytes(),
                key: Some(key@),
                pattern: None,
                count: None,
                cursor: zero(),
                started: false,
                buffered: Seq::empty(),
            }),
    {
        ScanBuilder::new("SSCAN", Some(key))
    }

    /// The settings of a scan over the keys of the database.
    pub fn scan() -> (builder: ScanBuilder)
        ensures
            builder@ == (Scanning {
                command: "SCAN".spec_bytes(),
                key: None,
                pattern: None,
                count: None,
                cursor: zero(),
                started: false,
                buffered: Seq::empty(),
            }),
    {
        ScanBuilder::new("SCAN", None)
    }

    /// The settings of a scan over the fields of the hash at `key`.
    pub fn hscan(key: &[u8]) -> (builder: HScanBuilder)
        ensures
            builder@ == (Scanning {
                command: "HSCAN".spec_bytes(),
                key: Some(key@),
                pattern: None,
                count: None,
                cursor: zero(),
                started: false,
                buffered: Seq::empty(),
            }),
    {
        HScanBuilder::new(key)
    }
}

/// The kind of value that the name `name` stands for: `Ok(None)` for `none`,
/// and a failure that carries the name where it is no name of a kind.
pub open spec fn data_type_of(name: Seq<u8>) -> Result<Option<DataType>, Failure> {
    if name == "string".spec_bytes() {
        Ok(Some(DataType::String))
    } else if name == "list".spec_bytes() {
        Ok(Some(DataType::List))
    } else if name == "set".spec_bytes() {
        Ok(Some(DataType::PlainSet))
    } else if name == "zset".spec_bytes() {
        Ok(Some(DataType::ZSet))
    } else if name == "hash".spec_bytes() {
        Ok(Some(DataType::Hash))
    } else if name == "stream".spec_bytes() {
        Ok(Some(DataType::Stream))
    } else if name == "none".spec_bytes() {
        Ok(None)
    } else {
        Err(Failure::UnexpectedResponse(utf8_lossy(name)))
    }
}

/// The model of what reading the kind of a value returns.
pub open spec fn result_type(r: Result<Option<DataType>, Error>) -> Result<
    Option<DataType>,
    Failure,
> {
    match r {
        Ok(kind) => Ok(kind),
        Err(error) => Err(error@),
    }
}

} // verus!
