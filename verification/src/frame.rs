//! The frame decoder: from the bytes of a stream to the reply that they
//! carry.
//!
//! A frame starts with a header line, which ends at the first line feed. Its
//! first byte is the tag:
//!
//! | tag | frame                                                        |
//! |-----|--------------------------------------------------------------|
//! | `+` | a status line                                                |
//! | `-` | an error line                                                |
//! | `:` | an integer                                                   |
//! | `$` | a length, then that many bytes and a two-byte terminator     |
//! | `*` | a count, then that many frames                               |
//!
//! The decoder works on the bytes received so far and never waits: where a
//! frame has not arrived in full, it says so and reads nothing.
//!
//! What the server sends is not taken on trust where it can be reported: an
//! error line, a line with an unknown tag and a length that is no number
//! each come out as a failure. One thing cannot be reported. The server is
//! trusted to write integers as integers, and an integer line whose text
//! writes none is a defect that no reply and no failure stands for. The
//! decoding functions do not admit such a line; [`is_sound`] tests for it, so
//! that a caller can stop before it reads.

use vstd::prelude::*;
use vstd::slice::{slice_subrange, slice_to_vec};
use crate::decimal::{parse_integer, parse_integer_spec};
use crate::error::{lossy_text, utf8_lossy, Error, Failure};
use crate::value::{lemma_array_view, replies, Reply, Value};

verus! {

/// What one frame of a stream amounts to: the reply it carries or the failure
/// it reports, and the position just past the last byte that was read for it.
pub struct Frame {
    pub outcome: Result<Reply, Failure>,
    pub end: int,
}

/// Whether `end` is the position just past the first `byte` that `s` holds at
/// or after `from`.
pub open spec fn ends_at(s: Seq<u8>, from: int, byte: u8, end: int) -> bool {
    &&& 0 <= from < end <= s.len()
    &&& s[end - 1] == byte
    &&& forall|i: int| from <= i < end - 1 ==> s[i] != byte
}

/// The position just past the first `byte` that `s` holds at or after `from`,
/// or `None` where there is no such byte.
pub open spec fn first_after(s: Seq<u8>, from: int, byte: u8) -> Option<int> {
    if exists|end: int| ends_at(s, from, byte, end) {
        Some(choose|end: int| ends_at(s, from, byte, end))
    } else {
        None
    }
}

/// `text` without its line terminator: a carriage return and a line feed, or
/// a line feed alone.
pub open spec fn strip_terminator(text: Seq<u8>) -> Seq<u8> {
    if text.len() >= 2 && text[text.len() - 2] == 13 && text[text.len() - 1] == 10 {
        text.take(text.len() - 2)
    } else if text.len() >= 1 && text[text.len() - 1] == 10 {
        text.take(text.len() - 1)
    } else {
        text
    }
}

/// The bytes of the status line `+OK`, terminator included.
pub open spec fn ok_line() -> Seq<u8> {
    seq![43u8, 79u8, 75u8, 13u8, 10u8]
}

/// What a header line says that needs nothing after it.
///
/// * `+`: `Okay` for the line `+OK`, else the string that follows the tag,
///   without the terminator.
/// * `-`: the server's error, with the text that follows the tag.
/// * `:`: the integer that follows the tag. Text that is no integer stands
///   for nothing: a line with such text is not admitted (see
///   [`simple_line_sound`]).
/// * any other tag is out of the grammar; the failure carries the line.
pub open spec fn simple_value(line: Seq<u8>) -> Result<Reply, Failure> {
    if line[0] == 43 {
        if line == ok_line() {
            Ok(Reply::Okay)
        } else {
            Ok(Reply::String(strip_terminator(line.skip(1))))
        }
    } else if line[0] == 45 {
        Err(Failure::RedisError(utf8_lossy(line.skip(1))))
    } else if line[0] == 58 {
        Ok(Reply::Integer(parse_integer_spec(line.skip(1))->0))
    } else {
        Err(Failure::UnexpectedResponse(utf8_lossy(line)))
    }
}

/// Whether a header line can be read: the text of an integer line writes an
/// integer. The server is trusted to send nothing else, and a line that
/// breaks this is a defect that no reply and no failure stands for.
pub open spec fn simple_line_sound(line: Seq<u8>) -> bool {
    line[0] == 58 ==> parse_integer_spec(line.skip(1)) is Some
}

/// The bulk string whose header line is `s[start..end]`.
///
/// A negative length is `Nil`. Otherwise the payload is the declared number
/// of bytes after the header, whatever they are, and two more bytes are
/// passed over as its terminator. `None` where these have not all arrived.
pub open spec fn bulk_string_at(s: Seq<u8>, start: int, end: int) -> Option<Frame> {
    match parse_integer_spec(s.subrange(start + 1, end)) {
        None => Some(
            Frame {
                outcome: Err(Failure::UnexpectedResponse(utf8_lossy(s.subrange(start, end)))),
                end,
            },
        ),
        Some(n) => if n < 0 {
            Some(Frame { outcome: Ok(Reply::Nil), end })
        } else if end + n + 2 > s.len() {
            None
        } else {
            Some(Frame { outcome: Ok(Reply::String(s.subrange(end, end + n))), end: end + n + 2 })
        },
    }
}

/// The array whose header line is `s[start..end]`.
///
/// A negative count is `Nil`, which is not the empty array. Otherwise the
/// declared number of frames follow, each of any kind. The first of them that
/// fails ends the array with its failure.
pub open spec fn array_at(s: Seq<u8>, start: int, end: int) -> Option<Frame>
    decreases s.len() - start, 0nat, 0nat,
{
    match parse_integer_spec(s.subrange(start + 1, end)) {
        None => Some(
            Frame {
                outcome: Err(Failure::UnexpectedResponse(utf8_lossy(s.subrange(start, end)))),
                end,
            },
        ),
        Some(n) => if n < 0 {
            Some(Frame { outcome: Ok(Reply::Nil), end })
        } else if start < end <= s.len() {
            elements_at(s, end, n as nat, Seq::empty())
        } else {
            None
        },
    }
}

/// The array that `items` and the next `remaining` frames of `s` from `pos`
/// make, in that order.
pub open spec fn elements_at(s: Seq<u8>, pos: int, remaining: nat, items: Seq<Reply>) -> Option<
    Frame,
>
    decreases s.len() - pos, remaining, 0nat,
{
    if remaining == 0 {
        Some(Frame { outcome: Ok(Reply::Array(items)), end: pos })
    } else {
        match frame_at(s, pos) {
            None => None,
            Some(frame) => match frame.outcome {
                Err(_) => Some(frame),
                Ok(reply) => if pos < frame.end <= s.len() {
                    elements_at(s, frame.end, (remaining - 1) as nat, items.push(reply))
                } else {
                    None
                },
            },
        }
    }
}

/// The frame that starts at `pos` in `s`, or `None` where `s` does not hold
/// all of it yet.
pub open spec fn frame_at(s: Seq<u8>, pos: int) -> Option<Frame>
    decreases s.len() - pos, 0nat, 1nat,
{
    match first_after(s, pos, 10) {
        None => None,
        Some(end) => if s[pos] == 36 {
            bulk_string_at(s, pos, end)
        } else if s[pos] == 42 {
            array_at(s, pos, end)
        } else {
            Some(Frame { outcome: simple_value(s.subrange(pos, end)), end })
        },
    }
}

/// Whether the frame that starts at `pos` can be read as far as `s` holds
/// it: every integer line in it, at whatever depth, writes an integer.
pub open spec fn sound_at(s: Seq<u8>, pos: int) -> bool
    decreases s.len() - pos, 0nat, 1nat,
{
    match first_after(s, pos, 10) {
        None => true,
        Some(end) => if s[pos] == 42 {
            array_sound(s, pos, end)
        } else {
            simple_line_sound(s.subrange(pos, end))
        },
    }
}

/// Whether the array whose header line is `s[start..end]` can be read as
/// far as `s` holds it: each of its frames can, up to the first that fails.
pub open spec fn array_sound(s: Seq<u8>, start: int, end: int) -> bool
    decreases s.len() - start, 0nat, 0nat,
{
    match parse_integer_spec(s.subrange(start + 1, end)) {
        None => true,
        Some(n) => if n >= 0 && start < end <= s.len() {
            elements_sound(s, end, n as nat)
        } else {
            true
        },
    }
}

/// Whether the next `remaining` frames of `s` from `pos` can be read as far
/// as `s` holds them, up to the first that fails.
pub open spec fn elements_sound(s: Seq<u8>, pos: int, remaining: nat) -> bool
    decreases s.len() - pos, remaining, 0nat,
{
    if remaining == 0 {
        true
    } else {
        sound_at(s, pos) && match frame_at(s, pos) {
            None => true,
            Some(frame) => match frame.outcome {
                Err(_) => true,
                Ok(_) => if pos < frame.end <= s.len() {
                    elements_sound(s, frame.end, (remaining - 1) as nat)
                } else {
                    true
                },
            },
        }
    }
}

/// Whether the next `count` frames of `s` from `pos`, one after the other,
/// can be read as far as `s` holds them.
pub open spec fn frames_sound(s: Seq<u8>, pos: int, count: nat) -> bool
    decreases s.len() - pos, count,
{
    if count == 0 {
        true
    } else {
        sound_at(s, pos) && match frame_at(s, pos) {
            None => true,
            Some(frame) => if pos < frame.end <= s.len() {
                frames_sound(s, frame.end, (count - 1) as nat)
            } else {
                true
            },
        }
    }
}

/// What reading some frames one after the other gives: their outcomes in the
/// order in which they were read, and the bytes that are left.
pub struct Reading {
    pub outcomes: Seq<Result<Reply, Failure>>,
    pub rest: Seq<u8>,
}

/// What reading `count` frames one after the other from the start of `s`
/// gives: their outcomes in the order in which they stand, and the bytes that
/// are left. `None` where `s` does not hold that many frames in full.
pub open spec fn frames_from(s: Seq<u8>, count: nat) -> Option<Reading>
    decreases count,
{
    if count == 0 {
        Some(Reading { outcomes: Seq::empty(), rest: s })
    } else {
        match frame_at(s, 0) {
            None => None,
            Some(frame) => match frames_from(s.skip(frame.end), (count - 1) as nat) {
                None => None,
                Some(reading) => Some(
                    Reading { outcomes: seq![frame.outcome] + reading.outcomes, rest: reading.rest },
                ),
            },
        }
    }
}

/// The model of what a decoding function returns.
pub open spec fn result_view(r: Result<Value, Error>) -> Result<Reply, Failure> {
    match r {
        Ok(value) => Ok(value@),
        Err(error) => Err(error@),
    }
}

/// The models of what a run of decoding gave, one for one.
pub open spec fn result_views(outcomes: Seq<Result<Value, Error>>) -> Seq<Result<Reply, Failure>> {
    Seq::new(outcomes.len(), |i: int| result_view(outcomes[i]))
}

/// The frame that stands for what a decoding function returns.
pub open spec fn decoded(r: Option<(Result<Value, Error>, usize)>) -> Option<Frame> {
    match r {
        None => None,
        Some((outcome, end)) => Some(Frame { outcome: result_view(outcome), end: end as int }),
    }
}

/// A reading with `read` in front of its outcomes.
pub open spec fn joined(read: Seq<Result<Reply, Failure>>, more: Option<Reading>) -> Option<
    Reading,
> {
    match more {
        None => None,
        Some(reading) => Some(Reading { outcomes: read + reading.outcomes, rest: reading.rest }),
    }
}

/// Looks for the first `byte` of `input` at or after `start`, and returns the
/// position just past it: the end of the line that starts at `start`. The
/// result is `None` where `input` holds no such byte yet.
pub fn read_until(input: &[u8], start: usize, byte: u8) -> (end: Option<usize>)
    requires
        start <= input.len(),
    ensures
        match end {
            Some(end) => first_after(input@, start as int, byte) == Some(end as int),
            None => first_after(input@, start as int, byte) is None,
        },
{
    let mut i: usize = start;
    while i < input.len()
        invariant
            start <= i <= input.len(),
            forall|j: int| start <= j < i ==> input@[j] != byte,
        decreases input.len() - i,
    {
        if input[i] == byte {
            proof {
                lemma_first_after(input@, start as int, byte, i as int + 1);
            }
            return Some(i + 1);
        }
        i += 1;
    }
    None
}

/// Whether `buf` is the status line `+OK`, terminator included.
fn is_ok_line(buf: &[u8]) -> (r: bool)
    ensures
        r == (buf@ == ok_line()),
{
    let r = buf.len() == 5 && buf[0] == 43 && buf[1] == 79 && buf[2] == 75 && buf[3] == 13
        && buf[4] == 10;
    proof {
        if r {
            assert(buf@ =~= ok_line());
        }
    }
    r
}

/// The failure for bytes that are outside the reply grammar.
fn unexpected(bytes: &[u8]) -> (error: Error)
    ensures
        error@ == Failure::UnexpectedResponse(utf8_lossy(bytes@)),
{
    Error::UnexpectedResponse(lossy_text(bytes))
}

/// Whether a header line can be read: its text writes an integer if it is an
/// integer line.
pub fn is_simple_line_sound(buf: &[u8]) -> (r: bool)
    requires
        buf.len() > 0,
    ensures
        r == simple_line_sound(buf@),
{
    buf[0] != 58 || parse_integer(slice_subrange(buf, 1, buf.len())).is_some()
}

/// Decodes a header line that needs nothing after it: a status line, an
/// error line or an integer. A line with any other tag is reported as an
/// unexpected response that carries the line.
///
/// An integer line whose text writes no integer is not admitted: it is a
/// defect, not a failure to report. [`is_simple_line_sound`] tests for it.
pub fn parse_simple_value(buf: &[u8]) -> (r: Result<Value, Error>)
    requires
        buf.len() > 0,
        simple_line_sound(buf@),
    ensures
        result_view(r) == simple_value(buf@),
{
    let tag = buf[0];
    let rest = slice_subrange(buf, 1, buf.len());
    if tag == 43 {
        if is_ok_line(buf) {
            Ok(Value::Okay)
        } else {
            let n = rest.len();
            let keep: usize = if n >= 2 && rest[n - 2] == 13 && rest[n - 1] == 10 {
                n - 2
            } else if n >= 1 && rest[n - 1] == 10 {
                n - 1
            } else {
                n
            };
            let text = slice_to_vec(slice_subrange(rest, 0, keep));
            assert(text@ =~= strip_terminator(rest@));
            Ok(Value::String(text))
        }
    } else if tag == 45 {
        Err(Error::RedisError(lossy_text(rest)))
    } else if tag == 58 {
        match parse_integer(rest) {
            Some(n) => Ok(Value::Integer(n)),
            None => unreached(),
        }
    } else {
        Err(unexpected(buf))
    }
}

/// Decodes the bulk string whose header line is `input[start..end]`.
///
/// A negative length gives `Nil`. Otherwise the payload is taken by its
/// declared length, so it may hold any bytes, line terminators included, and
/// the two bytes after it are passed over. The result is `None` where the
/// payload and its terminator have not all arrived.
pub fn parse_string(input: &[u8], start: usize, end: usize) -> (r: Option<
    (Result<Value, Error>, usize),
>)
    requires
        start < end <= input.len(),
    ensures
        decoded(r) == bulk_string_at(input@, start as int, end as int),
{
    let header = slice_subrange(input, start, end);
    let digits = slice_subrange(input, start + 1, end);
    match parse_integer(digits) {
        None => Some((Err(unexpected(header)), end)),
        Some(n) => {
            if n < 0 {
                Some((Ok(Value::Nil), end))
            } else {
                let available: usize = input.len() - end;
                if available < 2 || n as u64 > (available - 2) as u64 {
                    None
                } else {
                    let length: usize = n as usize;
                    let payload = slice_to_vec(slice_subrange(input, end, end + length));
                    Some((Ok(Value::String(payload)), end + length + 2))
                }
            }
        },
    }
}

/// Decodes the array whose header line is `input[start..end]`.
///
/// A negative count gives `Nil`. Otherwise the declared number of frames are
/// decoded in order, each of any kind, arrays included. The first of them
/// that fails ends the array with its failure, and the frames after it are
/// left unread. The result is `None` where the frames have not all arrived.
///
/// An array that holds an integer line whose text writes no integer is not
/// admitted.
pub fn parse_array(input: &[u8], start: usize, end: usize) -> (r: Option<
    (Result<Value, Error>, usize),
>)
    requires
        start < end <= input.len(),
        array_sound(input@, start as int, end as int),
    ensures
        decoded(r) == array_at(input@, start as int, end as int),
        r matches Some((_, next)) ==> end <= next <= input.len(),
    decreases input.len() - start, 0nat, 0nat,
{
    let header = slice_subrange(input, start, end);
    let digits = slice_subrange(input, start + 1, end);
    match parse_integer(digits) {
        None => Some((Err(unexpected(header)), end)),
        Some(n) => {
            if n < 0 {
                return Some((Ok(Value::Nil), end));
            }
            let ghost s = input@;
            let mut values: Vec<Value> = Vec::new();
            let mut pos: usize = end;
            let mut i: i64 = 0;
            assert(replies(values@) =~= Seq::<Reply>::empty());
            while i < n
                invariant
                    s == input@,
                    0 <= i <= n,
                    start < end <= pos <= input.len(),
                    array_at(s, start as int, end as int) == elements_at(
                        s,
                        pos as int,
                        (n - i) as nat,
                        replies(values@),
                    ),
                    elements_sound(s, pos as int, (n - i) as nat),
                decreases n - i,
            {
                proof {
                    lemma_frame_bounds(s, pos as int);
                }
                match read_value(input, pos) {
                    None => {
                        return None;
                    },
                    Some((Err(error), next)) => {
                        return Some((Err(error), next));
                    },
                    Some((Ok(value), next)) => {
                        assert(replies(values@.push(value)) =~= replies(values@).push(value@));
                        values.push(value);
                        pos = next;
                        i += 1;
                    },
                }
            }
            proof {
                lemma_array_view(values);
            }
            Some((Ok(Value::Array(values)), pos))
        },
    }
}

/// Decodes the frame that starts at `pos`.
///
/// The result is `None` where `input` does not hold the whole frame yet:
/// nothing has been read then, and the same call can be made again once more
/// bytes have arrived. Otherwise it is the reply, or the failure that the
/// frame reports, with the position just past the last byte read for it.
///
/// A frame that holds an integer line whose text writes no integer is not
/// admitted: the server is trusted to send none, and one that arrives is a
/// defect, not a failure to report. [`is_sound`] tests for it.
pub fn read_value(input: &[u8], pos: usize) -> (r: Option<(Result<Value, Error>, usize)>)
    requires
        pos <= input.len(),
        sound_at(input@, pos as int),
    ensures
        decoded(r) == frame_at(input@, pos as int),
        r matches Some((_, next)) ==> pos < next <= input.len(),
    decreases input.len() - pos, 0nat, 1nat,
{
    match read_until(input, pos, 10) {
        None => None,
        Some(end) => {
            let tag = input[pos];
            if tag == 36 {
                parse_string(input, pos, end)
            } else if tag == 42 {
                parse_array(input, pos, end)
            } else {
                let line = slice_subrange(input, pos, end);
                Some((parse_simple_value(line), end))
            }
        },
    }
}

/// Whether the frame that starts at `pos` can be read as far as `input`
/// holds it: every integer line in it writes an integer.
pub fn is_sound(input: &[u8], pos: usize) -> (r: bool)
    requires
        pos <= input.len(),
    ensures
        r == sound_at(input@, pos as int),
    decreases input.len() - pos,
{
    match read_until(input, pos, 10) {
        None => true,
        Some(end) => {
            if input[pos] != 42 {
                return is_simple_line_sound(slice_subrange(input, pos, end));
            }
            match parse_integer(slice_subrange(input, pos + 1, end)) {
                None => true,
                Some(n) => {
                    if n < 0 {
                        return true;
                    }
                    let ghost s = input@;
                    let mut at: usize = end;
                    let mut i: i64 = 0;
                    while i < n
                        invariant
                            s == input@,
                            0 <= i <= n,
                            pos < end <= at <= input.len(),
                            sound_at(s, pos as int) == elements_sound(
                                s,
                                at as int,
                                (n - i) as nat,
                            ),
                        decreases n - i,
                    {
                        if !is_sound(input, at) {
                            return false;
                        }
                        match read_value(input, at) {
                            Some((Ok(_), next)) => {
                                at = next;
                                i += 1;
                            },
                            _ => {
                                return true;
                            },
                        }
                    }
                    true
                },
            }
        },
    }
}

/// Whether the next `count` frames of `input` from `pos` can be read as
/// far as `input` holds them.
pub fn are_sound(input: &[u8], pos: usize, count: usize) -> (r: bool)
    requires
        pos <= input.len(),
    ensures
        r == frames_sound(input@, pos as int, count as nat),
{
    let ghost s = input@;
    let mut at: usize = pos;
    let mut i: usize = 0;
    while i < count
        invariant
            s == input@,
            i <= count,
            pos <= at <= input.len(),
            frames_sound(s, pos as int, count as nat) == frames_sound(
                s,
                at as int,
                (count - i) as nat,
            ),
        decreases count - i,
    {
        if !is_sound(input, at) {
            return false;
        }
        match read_value(input, at) {
            Some((_, next)) => {
                at = next;
                i += 1;
            },
            None => {
                return true;
            },
        }
    }
    true
}

/// There is at most one position just past the first `byte` from `from`.
pub proof fn lemma_first_after(s: Seq<u8>, from: int, byte: u8, end: int)
    requires
        ends_at(s, from, byte, end),
    ensures
        first_after(s, from, byte) == Some(end),
{
}

/// A frame ends after the position at which it starts, and within the bytes.
pub proof fn lemma_frame_bounds(s: Seq<u8>, pos: int)
    requires
        0 <= pos <= s.len(),
    ensures
        frame_at(s, pos) matches Some(frame) ==> pos < frame.end <= s.len(),
    decreases s.len() - pos, 0nat, 1nat,
{
    if let Some(end) = first_after(s, pos, 10) {
        if s[pos] == 42 {
            if let Some(n) = parse_integer_spec(s.subrange(pos + 1, end)) {
                if n >= 0 {
                    lemma_elements_bounds(s, end, n as nat, Seq::empty());
                }
            }
        }
    }
}

/// A run of frames ends at or after the position at which it starts, and
/// within the bytes.
pub proof fn lemma_elements_bounds(s: Seq<u8>, pos: int, remaining: nat, items: Seq<Reply>)
    requires
        0 <= pos <= s.len(),
    ensures
        elements_at(s, pos, remaining, items) matches Some(frame) ==> pos <= frame.end <= s.len(),
    decreases s.len() - pos, remaining, 0nat,
{
    if remaining > 0 {
        lemma_frame_bounds(s, pos);
        if let Some(frame) = frame_at(s, pos) {
            if let Ok(reply) = frame.outcome {
                lemma_elements_bounds(s, frame.end, (remaining - 1) as nat, items.push(reply));
            }
        }
    }
}

/// Equal windows of two sequences have equal parts.
pub proof fn lemma_window_part(s: Seq<u8>, pos: int, t: Seq<u8>, at: int, len: int, a: int, b: int)
    requires
        0 <= pos,
        0 <= at,
        pos + len <= s.len(),
        at + len <= t.len(),
        0 <= a <= b <= len,
        t.subrange(at, at + len) == s.subrange(pos, pos + len),
    ensures
        t.subrange(at + a, at + b) == s.subrange(pos + a, pos + b),
{
    let left = t.subrange(at + a, at + b);
    let right = s.subrange(pos + a, pos + b);
    assert forall|i: int| 0 <= i < b - a implies #[trigger] left[i] == right[i] by {
        assert(t.subrange(at, at + len)[a + i] == t[at + a + i]);
    }
}

/// **A frame is decided by its own bytes.** Where the bytes of a frame of
/// `s` stand in `t` too, at whatever position, `t` holds the same frame
/// there: what comes before the frame, and what comes after it, plays no part.
pub proof fn lemma_frame_window(s: Seq<u8>, pos: int, t: Seq<u8>, at: int)
    requires
        0 <= pos <= s.len(),
        0 <= at <= t.len(),
        frame_at(s, pos) is Some,
        at + (frame_at(s, pos)->0.end - pos) <= t.len(),
        t.subrange(at, at + (frame_at(s, pos)->0.end - pos)) == s.subrange(
            pos,
            frame_at(s, pos)->0.end,
        ),
    ensures
        frame_at(t, at) == Some(
            Frame {
                outcome: frame_at(s, pos)->0.outcome,
                end: at + (frame_at(s, pos)->0.end - pos),
            },
        ),
    decreases s.len() - pos, 0nat, 1nat,
{
    let frame = frame_at(s, pos)->0;
    let len = frame.end - pos;
    let end = first_after(s, pos, 10)->0;
    let d = end - pos;
    lemma_frame_bounds(s, pos);
    let counted = parse_integer_spec(s.subrange(pos + 1, end));
    assert(end <= frame.end) by {
        if s[pos] == 42 {
            if let Some(n) = counted {
                if n >= 0 {
                    lemma_elements_bounds(s, end, n as nat, Seq::empty());
                }
            }
        }
    }
    let wt = t.subrange(at, at + len);
    assert(t[at + d - 1] == 10) by {
        assert(wt[d - 1] == t[at + d - 1]);
    }
    assert forall|i: int| at <= i < at + d - 1 implies t[i] != 10 by {
        assert(wt[i - at] == t[i]);
    }
    lemma_first_after(t, at, 10, at + d);
    lemma_window_part(s, pos, t, at, len, 0, d);
    lemma_window_part(s, pos, t, at, len, 1, d);
    if s[pos] == 36 {
        if let Some(n) = counted {
            if n >= 0 {
                lemma_window_part(s, pos, t, at, len, d, d + n);
            }
        }
    } else if s[pos] == 42 {
        if let Some(n) = counted {
            if n >= 0 {
                lemma_window_part(s, pos, t, at, len, d, len);
                lemma_elements_window(s, end, t, at + d, n as nat, Seq::empty());
            }
        }
    }
}

/// A run of frames is decided by its own bytes.
pub proof fn lemma_elements_window(
    s: Seq<u8>,
    pos: int,
    t: Seq<u8>,
    at: int,
    remaining: nat,
    items: Seq<Reply>,
)
    requires
        0 <= pos <= s.len(),
        0 <= at <= t.len(),
        elements_at(s, pos, remaining, items) is Some,
        at + (elements_at(s, pos, remaining, items)->0.end - pos) <= t.len(),
        t.subrange(at, at + (elements_at(s, pos, remaining, items)->0.end - pos)) == s.subrange(
            pos,
            elements_at(s, pos, remaining, items)->0.end,
        ),
    ensures
        elements_at(t, at, remaining, items) == Some(
            Frame {
                outcome: elements_at(s, pos, remaining, items)->0.outcome,
                end: at + (elements_at(s, pos, remaining, items)->0.end - pos),
            },
        ),
    decreases s.len() - pos, remaining, 0nat,
{
    if remaining > 0 {
        let whole = elements_at(s, pos, remaining, items)->0;
        let len = whole.end - pos;
        let first = frame_at(s, pos)->0;
        lemma_frame_bounds(s, pos);
        lemma_elements_bounds(s, pos, remaining, items);
        match first.outcome {
            Err(_) => {
                lemma_frame_window(s, pos, t, at);
            },
            Ok(reply) => {
                let d = first.end - pos;
                lemma_elements_bounds(s, first.end, (remaining - 1) as nat, items.push(reply));
                lemma_window_part(s, pos, t, at, len, 0, d);
                lemma_frame_window(s, pos, t, at);
                lemma_window_part(s, pos, t, at, len, d, len);
                lemma_elements_window(
                    s,
                    first.end,
                    t,
                    at + d,
                    (remaining - 1) as nat,
                    items.push(reply),
                );
            },
        }
    }
}

/// The frame at a position of a stream is the frame at the start of what the
/// stream holds from that position on.
pub proof fn lemma_frame_shift(s: Seq<u8>, pos: int)
    requires
        0 <= pos <= s.len(),
    ensures
        frame_at(s.skip(pos), 0) == match frame_at(s, pos) {
            None => None,
            Some(frame) => Some(Frame { outcome: frame.outcome, end: frame.end - pos }),
        },
{
    let t = s.skip(pos);
    if let Some(frame) = frame_at(s, pos) {
        lemma_frame_bounds(s, pos);
        assert(t.subrange(0, frame.end - pos) =~= s.subrange(pos, frame.end));
        lemma_frame_window(s, pos, t, 0);
    } else if let Some(frame) = frame_at(t, 0) {
        lemma_frame_bounds(t, 0);
        assert(s.subrange(pos, pos + frame.end) =~= t.subrange(0, frame.end));
        lemma_frame_window(t, 0, s, pos);
    }
}

/// What is left after reading frames is a tail of what was there.
pub proof fn lemma_frames_rest(s: Seq<u8>, count: nat)
    requires
        frames_from(s, count) is Some,
    ensures
        frames_from(s, count)->0.rest.len() <= s.len(),
        frames_from(s, count)->0.rest == s.skip(s.len() - frames_from(s, count)->0.rest.len()),
        frames_from(s, count)->0.outcomes.len() == count,
    decreases count,
{
    if count > 0 {
        let frame = frame_at(s, 0)->0;
        lemma_frame_bounds(s, 0);
        lemma_frames_rest(s.skip(frame.end), (count - 1) as nat);
    }
}

/// **What a transaction reads is decided by the bytes it consumes.** Where
/// reading `count` frames from `s` leaves `rest`, the same frames are read
/// from the consumed bytes followed by anything else, and that is then left.
pub proof fn lemma_frames_window(s: Seq<u8>, count: nat, other: Seq<u8>)
    requires
        frames_from(s, count) is Some,
    ensures
        frames_from(s, count)->0.rest.len() <= s.len(),
        frames_from(s.take(s.len() - frames_from(s, count)->0.rest.len()) + other, count) == Some(
            Reading { outcomes: frames_from(s, count)->0.outcomes, rest: other },
        ),
    decreases count,
{
    lemma_frames_rest(s, count);
    let rest = frames_from(s, count)->0.rest;
    let used = s.len() - rest.len();
    let t = s.take(used) + other;
    if count > 0 {
        let frame = frame_at(s, 0)->0;
        lemma_frame_bounds(s, 0);
        let tail = s.skip(frame.end);
        lemma_frames_rest(tail, (count - 1) as nat);
        assert(t.subrange(0, frame.end) =~= s.subrange(0, frame.end));
        lemma_frame_window(s, 0, t, 0);
        lemma_frames_window(tail, (count - 1) as nat, other);
        assert(tail.take(tail.len() - rest.len()) + other =~= t.skip(frame.end));
    }
}

/// **Transactions do not see each other's bytes.** Let one transaction read
/// `first` frames from a stream and another, after it, `second` frames. Then
/// the stream is the bytes that the first consumed, the bytes that the second
/// consumed and what is left; the first reads the same from its own bytes
/// followed by anything else, and so does the second.
pub proof fn lemma_transactions_isolated(s: Seq<u8>, first: nat, second: nat, other: Seq<u8>)
    requires
        frames_from(s, first) is Some,
        frames_from(frames_from(s, first)->0.rest, second) is Some,
    ensures
        ({
            let a = frames_from(s, first)->0;
            let b = frames_from(a.rest, second)->0;
            let own_a = s.take(s.len() - a.rest.len());
            let own_b = a.rest.take(a.rest.len() - b.rest.len());
            &&& a.rest.len() <= s.len()
            &&& b.rest.len() <= a.rest.len()
            &&& s == own_a + own_b + b.rest
            &&& frames_from(own_a + other, first) == Some(
                Reading { outcomes: a.outcomes, rest: other },
            )
            &&& frames_from(own_b + other, second) == Some(
                Reading { outcomes: b.outcomes, rest: other },
            )
        }),
{
    let a = frames_from(s, first)->0;
    lemma_frames_rest(s, first);
    lemma_frames_rest(a.rest, second);
    lemma_frames_window(s, first, other);
    lemma_frames_window(a.rest, second, other);
}

} // verus!
