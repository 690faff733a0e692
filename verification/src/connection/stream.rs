//! The streams that a connection hands out: the replies to a batch, and the
//! messages of a subscription.

use vstd::prelude::*;
use vstd::string::StringSliceAdditionalSpecFns;
use crate::connection::Connection;
use crate::error::{Error, Failure};
use crate::frame::{frame_at, frames_from, frames_sound, result_view, result_views, sound_at};
use crate::value::{debug_rendering, debug_text, lemma_array_view, replies, Reply, Value};

verus! {

/// What pulling on a stream gives.
#[derive(Debug, PartialEq, Eq)]
pub enum Pull<T> {
    /// The next item of the stream.
    Item(T),
    /// The next item has not arrived in full. Nothing was read; pull again
    /// once the connection has received more bytes.
    Pending,
    /// The stream has ended.
    Finished,
}

/// The mathematical model of a stream of replies.
pub struct Draining {
    /// Received from the peer and not yet read as a frame.
    pub unread: Seq<u8>,
    /// Written by the library and not yet taken by the transport.
    pub unsent: Seq<u8>,
    /// The number of replies that are still owed.
    pub remaining: nat,
}

/// The replies to a batch of commands: one for each command, in the order in
/// which the commands were written.
///
/// Replies belong to commands by their order alone, so nothing else may read
/// from the connection while replies are owed. For that reason the stream
/// owns the connection. It does exactly as many reads as there were
/// commands, and gives the connection back after the last of them.
#[derive(Debug)]
pub struct ResponseStream {
    connection: Connection,
    remaining: usize,
}

impl View for ResponseStream {
    type V = Draining;

    closed spec fn view(&self) -> Draining {
        Draining {
            unread: self.connection@.unread,
            unsent: self.connection@.unsent,
            remaining: self.remaining as nat,
        }
    }
}

impl ResponseStream {
    /// The stream that takes over `connection`, on which the requests of
    /// `count` commands have been written.
    pub fn new(connection: Connection, count: usize) -> (stream: ResponseStream)
        ensures
            stream@.unread == connection@.unread,
            stream@.unsent == connection@.unsent,
            stream@.remaining == count,
    {
        ResponseStream { connection, remaining: count }
    }

    /// Hands over the bytes that are waiting to be sent.
    pub fn take_outgoing(&mut self) -> (bytes: Vec<u8>)
        ensures
            bytes@ == old(self)@.unsent,
            final(self)@ == (Draining { unsent: Seq::<u8>::empty(), ..old(self)@ }),
    {
        self.connection.take_outgoing()
    }

    /// Takes in bytes that the transport has received.
    pub fn receive(&mut self, bytes: &[u8])
        ensures
            final(self)@ == (Draining { unread: old(self)@.unread + bytes@, ..old(self)@ }),
    {
        self.connection.receive(bytes);
    }

    /// The number of replies that are still owed.
    pub fn remaining(&self) -> (n: usize)
        ensures
            n == self@.remaining,
    {
        self.remaining
    }

    /// Whether the stream has given its last reply.
    pub fn is_finished(&self) -> (finished: bool)
        ensures
            finished == (self@.remaining == 0),
    {
        self.remaining == 0
    }

    /// Whether the next frame can be read as far as it has arrived: every
    /// integer line in it writes an integer.
    pub fn is_sound(&self) -> (sound: bool)
        ensures
            sound == sound_at(self@.unread, 0),
    {
        self.connection.is_sound()
    }

    /// Whether the frames of every reply that is still owed can be read as
    /// far as they have arrived.
    pub fn are_sound(&self) -> (sound: bool)
        ensures
            sound == frames_sound(self@.unread, 0, self@.remaining),
    {
        self.connection.are_sound(self.remaining)
    }

    /// Pulls the next reply.
    ///
    /// Once every reply has been given the stream is finished and reads
    /// nothing. Before that, a pull reads exactly one frame if one has
    /// arrived in full, and the item is the reply that it carries or the
    /// failure that it reports.
    ///
    /// A frame with an integer line that writes no integer is not admitted;
    /// [`ResponseStream::is_sound`] tests for it.
    pub fn next(&mut self) -> (r: Pull<Result<Value, Error>>)
        requires
            old(self)@.remaining > 0 ==> sound_at(old(self)@.unread, 0),
        ensures
            final(self)@.unsent == old(self)@.unsent,
            old(self)@.remaining == 0 ==> r is Finished && final(self)@ == old(self)@,
            old(self)@.remaining > 0 ==> match frame_at(old(self)@.unread, 0) {
                None => r is Pending && final(self)@ == old(self)@,
                Some(frame) => {
                    &&& r matches Pull::Item(outcome)
                    &&& result_view(outcome) == frame.outcome
                    &&& final(self)@.remaining == old(self)@.remaining - 1
                    &&& final(self)@.unread == old(self)@.unread.skip(frame.end)
                },
            },
    {
        if self.remaining == 0 {
            return Pull::Finished;
        }
        match self.connection.read_value() {
            None => Pull::Pending,
            Some(outcome) => {
                self.remaining = self.remaining - 1;
                Pull::Item(outcome)
            },
        }
    }

    /// Pulls every reply that is still owed, if they have all arrived.
    ///
    /// The result is `None` where they have not; nothing is read then.
    /// Otherwise the stream is finished, and the result holds the replies in
    /// the order of their commands.
    ///
    /// Frames with an integer line that writes no integer are not admitted;
    /// [`ResponseStream::are_sound`] tests for them.
    pub fn collect(&mut self) -> (r: Option<Vec<Result<Value, Error>>>)
        requires
            frames_sound(old(self)@.unread, 0, old(self)@.remaining),
        ensures
            final(self)@.unsent == old(self)@.unsent,
            match frames_from(old(self)@.unread, old(self)@.remaining) {
                None => r is None && final(self)@ == old(self)@,
                Some(reading) => {
                    &&& r matches Some(outcomes)
                    &&& result_views(outcomes@) == reading.outcomes
                    &&& final(self)@.unread == reading.rest
                    &&& final(self)@.remaining == 0
                },
            },
    {
        match self.connection.read_values(self.remaining) {
            None => None,
            Some(outcomes) => {
                self.remaining = 0;
                Some(outcomes)
            },
        }
    }

    /// Gives the connection back, once the stream has read its last reply.
    /// A stream that is still owed replies keeps the connection and is
    /// returned as it is.
    pub fn release(self) -> (r: Result<Connection, ResponseStream>)
        ensures
            match r {
                Ok(connection) => {
                    &&& self@.remaining == 0
                    &&& connection@.unread == self@.unread
                    &&& connection@.unsent == self@.unsent
                },
                Err(stream) => self@.remaining > 0 && stream == self,
            },
    {
        if self.remaining == 0 {
            Ok(self.connection)
        } else {
            Err(self)
        }
    }

    /// Gives the connection back whether or not replies are still owed. The
    /// replies that were not read stay in the stream of bytes, so every
    /// later read on the connection is out of step by that many frames.
    pub fn abandon(self) -> (connection: Connection)
        ensures
            connection@.unread == self@.unread,
            connection@.unsent == self@.unsent,
    {
        self.connection
    }
}

/// A message that was published to a channel.
#[derive(Debug, Clone, PartialEq, Eq)]
pub struct Message {
    /// The channel that the message was published to.
    pub channel: Vec<u8>,
    /// The payload.
    pub message: Vec<u8>,
}

/// A message that was published to a channel which matches a pattern.
#[derive(Debug, Clone, PartialEq, Eq)]
pub struct PMessage {
    /// The pattern that the channel matches.
    pub pattern: Vec<u8>,
    /// The channel that the message was published to.
    pub channel: Vec<u8>,
    /// The payload.
    pub message: Vec<u8>,
}

/// Whether `reply` confirms a subscription made with the command `tag`: it is
/// an array whose first item is the string `tag`.
pub open spec fn confirms(reply: Reply, tag: Seq<u8>) -> bool {
    reply matches Reply::Array(items) && items.len() > 0 && items[0] == Reply::String(tag)
}

/// The channel and payload of a push message: an array of three items whose
/// second and third are strings. Any other reply is no message.
pub open spec fn message_of(reply: Reply) -> Option<(Seq<u8>, Seq<u8>)> {
    match reply {
        Reply::Array(items) => if items.len() == 3 && items[1] is String && items[2] is String {
            Some((items[1].bytes(), items[2].bytes()))
        } else {
            None
        },
        _ => None,
    }
}

/// The pattern, channel and payload of a pattern push message: an array of
/// four items whose second, third and fourth are strings. Any other reply is
/// no message.
pub open spec fn pmessage_of(reply: Reply) -> Option<(Seq<u8>, Seq<u8>, Seq<u8>)> {
    match reply {
        Reply::Array(items) => if items.len() == 4 && items[1] is String && items[2] is String
            && items[3] is String {
            Some((items[1].bytes(), items[2].bytes(), items[3].bytes()))
        } else {
            None
        },
        _ => None,
    }
}

/// Whether `a` and `b` hold the same bytes.
pub fn same_bytes(a: &[u8], b: &[u8]) -> (same: bool)
    ensures
        same == (a@ == b@),
{
    if a.len() != b.len() {
        return false;
    }
    let mut i: usize = 0;
    while i < a.len()
        invariant
            a.len() == b.len(),
            i <= a.len(),
            forall|j: int| 0 <= j < i ==> a@[j] == b@[j],
        decreases a.len() - i,
    {
        if a[i] != b[i] {
            return false;
        }
        i += 1;
    }
    assert(a@ =~= b@);
    true
}

/// Whether `value` is a string.
pub fn is_string(value: &Value) -> (r: bool)
    ensures
        r == (value@ is String),
{
    match value {
        Value::String(_) => true,
        _ => false,
    }
}

/// Whether `value` confirms a subscription made with the command `tag`.
pub fn is_confirmation(value: &Value, tag: &[u8]) -> (r: bool)
    ensures
        r == confirms(value@, tag@),
{
    match value {
        Value::Array(items) => {
            proof {
                lemma_array_view(*items);
            }
            if items.len() == 0 {
                false
            } else {
                match &items[0] {
                    Value::String(bytes) => same_bytes(bytes.as_slice(), tag),
                    _ => false,
                }
            }
        },
        _ => false,
    }
}

/// The mathematical model of a subscription stream.
pub struct Subscribed {
    /// Received from the peer and not yet read as a frame.
    pub unread: Seq<u8>,
    /// Written by the library and not yet taken by the transport.
    pub unsent: Seq<u8>,
    /// The number of confirmations that have not been counted yet.
    pub unconfirmed: nat,
    /// Whether no confirmation has been counted yet.
    pub first: bool,
}

/// The messages of a subscription to channels.
///
/// The stream owns the connection: nothing but the stream reads from it any
/// more. First come the confirmations, one for each channel; after them every
/// frame is taken for a message. The stream has no end of its own.
#[derive(Debug)]
pub struct MessageStream {
    connection: Connection,
    unconfirmed: usize,
    first: bool,
}

impl View for MessageStream {
    type V = Subscribed;

    closed spec fn view(&self) -> Subscribed {
        Subscribed {
            unread: self.connection@.unread,
            unsent: self.connection@.unsent,
            unconfirmed: self.unconfirmed as nat,
            first: self.first,
        }
    }
}

impl MessageStream {
    /// The stream that takes over `connection`, on which the request to
    /// subscribe to `count` channels has been written.
    pub fn new(connection: Connection, count: usize) -> (stream: MessageStream)
        ensures
            stream@.unread == connection@.unread,
            stream@.unsent == connection@.unsent,
            stream@.unconfirmed == count,
            stream@.first,
    {
        MessageStream { connection, unconfirmed: count, first: true }
    }

    /// Hands over the bytes that are waiting to be sent.
    pub fn take_outgoing(&mut self) -> (bytes: Vec<u8>)
        ensures
            bytes@ == old(self)@.unsent,
            final(self)@ == (Subscribed { unsent: Seq::<u8>::empty(), ..old(self)@ }),
    {
        self.connection.take_outgoing()
    }

    /// Takes in bytes that the transport has received.
    pub fn receive(&mut self, bytes: &[u8])
        ensures
            final(self)@ == (Subscribed { unread: old(self)@.unread + bytes@, ..old(self)@ }),
    {
        self.connection.receive(bytes);
    }

    /// Whether every confirmation has been counted, so that what follows
    /// are messages.
    pub fn is_confirmed(&self) -> (confirmed: bool)
        ensures
            confirmed == (self@.unconfirmed == 0),
    {
        self.unconfirmed == 0
    }

    /// Whether the next frame can be read as far as it has arrived: every
    /// integer line in it writes an integer.
    pub fn is_sound(&self) -> (sound: bool)
        ensures
            sound == sound_at(self@.unread, 0),
    {
        self.connection.is_sound()
    }

    /// Reads the frame of the next confirmation and hands it out as it is.
    ///
    /// Once every confirmation has been counted this is finished and reads
    /// nothing. Before that, it reads one frame if one has arrived in full:
    /// the item is the reply that it carries or the failure that it reports.
    /// The reply is not judged here and not counted yet: that is for
    /// [`MessageStream::confirmed`].
    pub fn read_confirmation(&mut self) -> (r: Pull<Result<Value, Error>>)
        requires
            old(self)@.unconfirmed > 0 ==> sound_at(old(self)@.unread, 0),
        ensures
            final(self)@.unsent == old(self)@.unsent,
            final(self)@.unconfirmed == old(self)@.unconfirmed,
            final(self)@.first == old(self)@.first,
            old(self)@.unconfirmed == 0 ==> r is Finished && final(self)@ == old(self)@,
            old(self)@.unconfirmed > 0 ==> match frame_at(old(self)@.unread, 0) {
                None => r is Pending && final(self)@ == old(self)@,
                Some(frame) => {
                    &&& r matches Pull::Item(outcome)
                    &&& result_view(outcome) == frame.outcome
                    &&& final(self)@.unread == old(self)@.unread.skip(frame.end)
                },
            },
    {
        if self.unconfirmed == 0 {
            return Pull::Finished;
        }
        match self.connection.read_value() {
            None => Pull::Pending,
            Some(outcome) => Pull::Item(outcome),
        }
    }

    /// Whether `reply` is admitted as the next confirmation. The first one is
    /// the reply to the subscribing command itself and is taken as it comes;
    /// each later one must be an array whose first item is the string
    /// `subscribe`.
    pub fn accepts(&self, reply: &Value) -> (r: bool)
        ensures
            r == (self@.first || confirms(reply@, "subscribe".spec_bytes())),
    {
        self.first || is_confirmation(reply, "subscribe".as_bytes())
    }

    /// Counts `reply` as the next confirmation.
    ///
    /// A reply that does not confirm is not admitted: it shows that the two
    /// sides no longer agree on what is subscribed to, which is a defect and
    /// no failure to report. [`MessageStream::accepts`] tests for it.
    pub fn confirmed(&mut self, reply: &Value)
        requires
            old(self)@.unconfirmed > 0,
            old(self)@.first || confirms(reply@, "subscribe".spec_bytes()),
        ensures
            final(self)@ == (Subscribed {
                unconfirmed: (old(self)@.unconfirmed - 1) as nat,
                first: false,
                ..old(self)@
            }),
    {
        self.unconfirmed = self.unconfirmed - 1;
        self.first = false;
    }

    /// Pulls the next message.
    ///
    /// A pull reads one frame if one has arrived in full. An array of three
    /// items whose second and third are strings is a message on the channel
    /// that the second names, with the third as its payload. Any other reply
    /// is reported as an unexpected response, and a failure that the frame
    /// reports is passed on. The stream never finishes.
    ///
    /// A frame with an integer line that writes no integer is not admitted.
    pub fn next(&mut self) -> (r: Pull<Result<Message, Error>>)
        requires
            old(self)@.unconfirmed == 0,
            sound_at(old(self)@.unread, 0),
        ensures
            final(self)@.unsent == old(self)@.unsent,
            final(self)@.unconfirmed == 0,
            final(self)@.first == old(self)@.first,
            match frame_at(old(self)@.unread, 0) {
                None => r is Pending && final(self)@.unread == old(self)@.unread,
                Some(frame) => {
                    &&& final(self)@.unread == old(self)@.unread.skip(frame.end)
                    &&& r matches Pull::Item(item)
                    &&& match frame.outcome {
                        Err(failure) => item matches Err(error) && error@ == failure,
                        Ok(reply) => match message_of(reply) {
                            Some((channel, payload)) => {
                                &&& item matches Ok(message)
                                &&& message.channel@ == channel
                                &&& message.message@ == payload
                            },
                            None => item matches Err(error) && error@
                                == Failure::UnexpectedResponse(debug_rendering(reply)),
                        },
                    }
                },
            },
    {
        match self.connection.read_value() {
            None => Pull::Pending,
            Some(Err(error)) => Pull::Item(Err(error)),
            Some(Ok(value)) => {
                if has_strings_after_tag(&value, 3) {
                    let mut items = value.unwrap_array();
                    let message = items.pop().unwrap().unwrap_string();
                    let channel = items.pop().unwrap().unwrap_string();
                    Pull::Item(Ok(Message { channel, message }))
                } else {
                    Pull::Item(Err(Error::UnexpectedResponse(debug_text(&value))))
                }
            },
        }
    }
}

/// Whether `value` is an array of `count` items of which all but the first
/// are strings.
fn has_strings_after_tag(value: &Value, count: usize) -> (r: bool)
    ensures
        r == (value@ matches Reply::Array(items) && items.len() == count && forall|i: int|
            1 <= i < items.len() ==> (#[trigger] items[i]) is String),
{
    match value {
        Value::Array(items) => {
            proof {
                lemma_array_view(*items);
            }
            if items.len() != count {
                return false;
            }
            let mut i: usize = 1;
            while i < items.len()
                invariant
                    1 <= i,
                    items@.len() == count,
                    value@ == Reply::Array(replies(items@)),
                    forall|j: int| 1 <= j < i && j < items@.len() ==> (#[trigger] items@[j]@) is String,
                decreases items.len() - i,
            {
                if !is_string(&items[i]) {
                    assert(!(replies(items@)[i as int] is String));
                    return false;
                }
                i += 1;
            }
            true
        },
        _ => false,
    }
}

/// The messages of a subscription to patterns.
///
/// The stream owns the connection: nothing but the stream reads from it any
/// more. First come the confirmations, one for each pattern; after them every
/// frame is taken for a message. The stream has no end of its own.
#[derive(Debug)]
pub struct PMessageStream {
    connection: Connection,
    unconfirmed: usize,
    first: bool,
}

impl View for PMessageStream {
    type V = Subscribed;

    closed spec fn view(&self) -> Subscribed {
        Subscribed {
            unread: self.connection@.unread,
            unsent: self.connection@.unsent,
            unconfirmed: self.unconfirmed as nat,
            first: self.first,
        }
    }
}

impl PMessageStream {
    /// The stream that takes over `connection`, on which the request to
    /// subscribe to `count` patterns has been written.
    pub fn new(connection: Connection, count: usize) -> (stream: PMessageStream)
        ensures
            stream@.unread == connection@.unread,
            stream@.unsent == connection@.unsent,
            stream@.unconfirmed == count,
            stream@.first,
    {
        PMessageStream { connection, unconfirmed: count, first: true }
    }

    /// Hands over the bytes that are waiting to be sent.
    pub fn take_outgoing(&mut self) -> (bytes: Vec<u8>)
        ensures
            bytes@ == old(self)@.unsent,
            final(self)@ == (Subscribed { unsent: Seq::<u8>::empty(), ..old(self)@ }),
    {
        self.connection.take_outgoing()
    }

    /// Takes in bytes that the transport has received.
    pub fn receive(&mut self, bytes: &[u8])
        ensures
            final(self)@ == (Subscribed { unread: old(self)@.unread + bytes@, ..old(self)@ }),
    {
        self.connection.receive(bytes);
    }

    /// Whether every confirmation has been counted, so that what follows
    /// are messages.
    pub fn is_confirmed(&self) -> (confirmed: bool)
        ensures
            confirmed == (self@.unconfirmed == 0),
    {
        self.unconfirmed == 0
    }

    /// Whether the next frame can be read as far as it has arrived: every
    /// integer line in it writes an integer.
    pub fn is_sound(&self) -> (sound: bool)
        ensures
            sound == sound_at(self@.unread, 0),
    {
        self.connection.is_sound()
    }

    /// Reads the frame of the next confirmation and hands it out as it is.
    ///
    /// Once every confirmation has been counted this is finished and reads
    /// nothing. Before that, it reads one frame if one has arrived in full:
    /// the item is the reply that it carries or the failure that it reports.
    /// The reply is not judged here and not counted yet: that is for
    /// [`PMessageStream::confirmed`].
    pub fn read_confirmation(&mut self) -> (r: Pull<Result<Value, Error>>)
        requires
            old(self)@.unconfirmed > 0 ==> sound_at(old(self)@.unread, 0),
        ensures
            final(self)@.unsent == old(self)@.unsent,
            final(self)@.unconfirmed == old(self)@.unconfirmed,
            final(self)@.first == old(self)@.first,
            old(self)@.unconfirmed == 0 ==> r is Finished && final(self)@ == old(self)@,
            old(self)@.unconfirmed > 0 ==> match frame_at(old(self)@.unread, 0) {
                None => r is Pending && final(self)@ == old(self)@,
                Some(frame) => {
                    &&& r matches Pull::Item(outcome)
                    &&& result_view(outcome) == frame.outcome
                    &&& final(self)@.unread == old(self)@.unread.skip(frame.end)
                },
            },
    {
        if self.unconfirmed == 0 {
            return Pull::Finished;
        }
        match self.connection.read_value() {
            None => Pull::Pending,
            Some(outcome) => Pull::Item(outcome),
        }
    }

    /// Whether `reply` is admitted as the next confirmation. The first one is
    /// the reply to the subscribing command itself and is taken as it comes;
    /// each later one must be an array whose first item is the string
    /// `psubscribe`.
    pub fn accepts(&self, reply: &Value) -> (r: bool)
        ensures
            r == (self@.first || confirms(reply@, "psubscribe".spec_bytes())),
    {
        self.first || is_confirmation(reply, "psubscribe".as_bytes())
    }

    /// Counts `reply` as the next confirmation.
    ///
    /// A reply that does not confirm is not admitted: it shows that the two
    /// sides no longer agree on what is subscribed to, which is a defect and
    /// no failure to report. [`PMessageStream::accepts`] tests for it.
    pub fn confirmed(&mut self, reply: &Value)
        requires
            old(self)@.unconfirmed > 0,
            old(self)@.first || confirms(reply@, "psubscribe".spec_bytes()),
        ensures
            final(self)@ == (Subscribed {
                unconfirmed: (old(self)@.unconfirmed - 1) as nat,
                first: false,
                ..old(self)@
            }),
    {
        self.unconfirmed = self.unconfirmed - 1;
        self.first = false;
    }

    /// Pulls the next message.
    ///
    /// A pull reads one frame if one has arrived in full. An array of four
    /// items whose second, third and fourth are strings is a message: the
    /// second is the pattern that matched, the third the channel and the
    /// fourth the payload. Any other reply is reported as an unexpected
    /// response, and a failure that the frame reports is passed on. The
    /// stream never finishes.
    ///
    /// A frame with an integer line that writes no integer is not admitted.
    pub fn next(&mut self) -> (r: Pull<Result<PMessage, Error>>)
        requires
            old(self)@.unconfirmed == 0,
            sound_at(old(self)@.unread, 0),
        ensures
            final(self)@.unsent == old(self)@.unsent,
            final(self)@.unconfirmed == 0,
            final(self)@.first == old(self)@.first,
            match frame_at(old(self)@.unread, 0) {
                None => r is Pending && final(self)@.unread == old(self)@.unread,
                Some(frame) => {
                    &&& final(self)@.unread == old(self)@.unread.skip(frame.end)
                    &&& r matches Pull::Item(item)
                    &&& match frame.outcome {
                        Err(failure) => item matches Err(error) && error@ == failure,
                        Ok(reply) => match pmessage_of(reply) {
                            Some((pattern, channel, payload)) => {
                                &&& item matches Ok(message)
                                &&& message.pattern@ == pattern
                                &&& message.channel@ == channel
                                &&& message.message@ == payload
                            },
                            None => item matches Err(error) && error@
                                == Failure::UnexpectedResponse(debug_rendering(reply)),
                        },
                    }
                },
            },
    {
        match self.connection.read_value() {
            None => Pull::Pending,
            Some(Err(error)) => Pull::Item(Err(error)),
            Some(Ok(value)) => {
                if has_strings_after_tag(&value, 4) {
                    let mut items = value.unwrap_array();
                    let message = items.pop().unwrap().unwrap_string();
                    let channel = items.pop().unwrap().unwrap_string();
                    let pattern = items.pop().unwrap().unwrap_string();
                    Pull::Item(Ok(PMessage { pattern, channel, message }))
                } else {
                    Pull::Item(Err(Error::UnexpectedResponse(debug_text(&value))))
                }
            },
        }
    }
}

} // verus!
