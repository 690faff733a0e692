//! The wire format, written down as an encoder, and the laws that tie it to
//! the frame decoder.
//!
//! This library never sends a reply. `encoding` is what a server that keeps
//! to the protocol emits for one, and the laws prove that the decoder reads
//! such bytes back to the reply they were written for.

use vstd::prelude::*;
use crate::decimal::{
    decimal,
    is_space,
    lemma_parse_integer_line,
    lemma_signed_decimal_bytes,
    parse_integer_spec,
    signed_decimal,
};
use crate::error::Failure;
use crate::frame::{
    elements_at,
    elements_sound,
    first_after,
    frame_at,
    frames_from,
    frames_sound,
    lemma_first_after,
    ok_line,
    simple_value,
    sound_at,
    strip_terminator,
    Frame,
    Reading,
};
use crate::value::Reply;

verus! {

/// The line terminator: a carriage return and a line feed.
pub open spec fn crlf() -> Seq<u8> {
    seq![13u8, 10u8]
}

/// A header line: the tag, the text and the terminator.
pub open spec fn header(tag: u8, text: Seq<u8>) -> Seq<u8> {
    seq![tag] + text + crlf()
}

/// A bulk string: `$`, the length in decimal and a terminator, then the bytes
/// and a terminator.
pub open spec fn bulk_string(bytes: Seq<u8>) -> Seq<u8> {
    header(36, decimal(bytes.len())) + bytes + crlf()
}

/// The encodings of `items`, one for one.
pub open spec fn encodings(items: Seq<Reply>) -> Seq<Seq<u8>>
    decreases items,
{
    Seq::new(
        items.len(),
        |i: int|
            if 0 <= i < items.len() {
                encoding(items[i])
            } else {
                Seq::empty()
            },
    )
}

/// The frame that carries `reply`.
///
/// * `Okay` is the status line `+OK`.
/// * `Nil` is the bulk string of length -1.
/// * An integer is `:` and its decimal text.
/// * A string is a bulk string.
/// * An array is `*`, its count in decimal and a terminator, then the frames
///   of its items in order.
pub open spec fn encoding(reply: Reply) -> Seq<u8>
    decreases reply,
{
    match reply {
        Reply::Okay => ok_line(),
        Reply::Nil => header(36, signed_decimal(-1)),
        Reply::Integer(n) => header(58, signed_decimal(n)),
        Reply::String(bytes) => bulk_string(bytes),
        Reply::Array(items) => header(42, decimal(items.len())) + encodings(items).flatten(),
    }
}

/// The frame of `Nil` that stands for an absent array.
pub open spec fn nil_array() -> Seq<u8> {
    header(42, signed_decimal(-1))
}

/// A status line that carries `text`.
pub open spec fn status_line(text: Seq<u8>) -> Seq<u8> {
    header(43, text)
}

/// Whether `text` holds no line feed.
pub open spec fn one_line(text: Seq<u8>) -> bool {
    forall|i: int| 0 <= i < text.len() ==> #[trigger] text[i] != 10
}

/// A header line is found where it was written: it ends at its own
/// terminator.
pub proof fn lemma_header_at(s: Seq<u8>, pos: int, tag: u8, text: Seq<u8>, rest: Seq<u8>)
    requires
        0 <= pos <= s.len(),
        tag != 10,
        one_line(text),
        s.skip(pos) == header(tag, text) + rest,
    ensures
        first_after(s, pos, 10) == Some(pos + text.len() + 3),
        s[pos] == tag,
        s.subrange(pos, pos + text.len() + 3) == header(tag, text),
        s.subrange(pos + 1, pos + text.len() + 3) == text + crlf(),
        s.skip(pos + text.len() + 3) == rest,
{
    let h = header(tag, text);
    let tail = s.skip(pos);
    let end = pos + text.len() + 3;
    assert(tail.len() == h.len() + rest.len());
    assert forall|i: int| 0 <= i < h.len() implies s[pos + i] == h[i] by {
        assert(tail[i] == s[pos + i]);
    }
    assert(s[pos] == h[0]);
    assert(s[end - 1] == h[h.len() - 1]);
    assert forall|i: int| pos <= i < end - 1 implies s[i] != 10 by {
        assert(s[pos + (i - pos)] == h[i - pos]);
    }
    lemma_first_after(s, pos, 10, end);
    assert(s.subrange(pos + 1, end) =~= text + crlf()) by {
        assert forall|i: int| 0 <= i < text.len() + 2 implies s.subrange(pos + 1, end)[i] == (text
            + crlf())[i] by {
            assert(s[pos + (i + 1)] == h[i + 1]);
        }
    }
    assert forall|i: int| 0 <= i < rest.len() implies s.skip(end)[i] == rest[i] by {
        assert(tail[h.len() + i] == s[pos + h.len() + i]);
    }
}

/// The decimal text of a number is one line.
pub proof fn lemma_decimal_one_line(i: int)
    ensures
        one_line(signed_decimal(i)),
        i >= 0 ==> one_line(decimal(i as nat)),
{
    lemma_signed_decimal_bytes(i);
}

/// The terminator is white space.
pub proof fn lemma_crlf_space()
    ensures
        forall|k: int| 0 <= k < crlf().len() ==> is_space(#[trigger] crlf()[k]),
{
}

/// **Round trip.** Where a stream holds the encoding of a reply, the decoder
/// reads that reply back and ends just past it, whatever comes before and
/// after.
pub proof fn lemma_decode_encoding(s: Seq<u8>, pos: int, reply: Reply, rest: Seq<u8>)
    requires
        reply.representable(),
        0 <= pos <= s.len(),
        s.skip(pos) == encoding(reply) + rest,
    ensures
        frame_at(s, pos) == Some(
            Frame { outcome: Ok(reply), end: pos + encoding(reply).len() },
        ),
    decreases reply,
{
    lemma_crlf_space();
    match reply {
        Reply::Okay => {
            let text = seq![79u8, 75u8];
            assert(ok_line() =~= header(43, text));
            lemma_header_at(s, pos, 43, text, rest);
        },
        Reply::Nil => {
            lemma_decimal_one_line(-1);
            lemma_header_at(s, pos, 36, signed_decimal(-1), rest);
            lemma_parse_integer_line(-1, crlf());
        },
        Reply::Integer(n) => {
            lemma_decimal_one_line(n);
            lemma_header_at(s, pos, 58, signed_decimal(n), rest);
            lemma_parse_integer_line(n, crlf());
            let end = pos + signed_decimal(n).len() + 3;
            let line = s.subrange(pos, end);
            assert(line.skip(1) =~= signed_decimal(n) + crlf());
            assert(line[0] == 58);
            assert(parse_integer_spec(line.skip(1)) == Some(n));
            assert(simple_value(line) == Ok::<Reply, Failure>(Reply::Integer(n)));
        },
        Reply::String(bytes) => {
            let n = bytes.len() as int;
            lemma_decimal_one_line(n);
            let text = decimal(n as nat);
            let after_header = bytes + crlf() + rest;
            assert(encoding(reply) + rest =~= header(36, text) + after_header);
            lemma_header_at(s, pos, 36, text, after_header);
            lemma_parse_integer_line(n, crlf());
            let end = pos + text.len() + 3;
            assert(s.subrange(end, end + n) =~= bytes);
        },
        Reply::Array(items) => {
            let n = items.len() as int;
            lemma_decimal_one_line(n);
            let text = decimal(n as nat);
            let body = encodings(items).flatten();
            let after_header = body + rest;
            assert(encoding(reply) + rest =~= header(42, text) + after_header);
            lemma_header_at(s, pos, 42, text, after_header);
            lemma_parse_integer_line(n, crlf());
            let end = pos + text.len() + 3;
            assert(items.skip(0) =~= items);
            assert(items.take(0) =~= Seq::<Reply>::empty());
            lemma_decode_encodings(s, end, items, 0, rest);
            assert(encoding(reply).len() == text.len() + 3 + body.len());
        },
    }
}

/// The encodings of the items from `k` on are the encoding of the item at `k`
/// and then those of the items after it.
pub proof fn lemma_encodings_step(items: Seq<Reply>, k: int)
    requires
        0 <= k < items.len(),
    ensures
        encodings(items.skip(k)).flatten() == encoding(items[k]) + encodings(
            items.skip(k + 1),
        ).flatten(),
{
    let here = encodings(items.skip(k));
    assert(here.first() == encoding(items[k]));
    assert(here.drop_first() =~= encodings(items.skip(k + 1)));
}

/// Where a stream holds the encodings of the items of an array from the one
/// at `k` on, the decoder reads them in order and completes the array.
pub proof fn lemma_decode_encodings(
    s: Seq<u8>,
    pos: int,
    items: Seq<Reply>,
    k: int,
    rest: Seq<u8>,
)
    requires
        0 <= k <= items.len(),
        forall|i: int| 0 <= i < items.len() ==> (#[trigger] items[i]).representable(),
        0 <= pos <= s.len(),
        s.skip(pos) == encodings(items.skip(k)).flatten() + rest,
    ensures
        elements_at(s, pos, (items.len() - k) as nat, items.take(k)) == Some(
            Frame {
                outcome: Ok(Reply::Array(items)),
                end: pos + encodings(items.skip(k)).flatten().len(),
            },
        ),
    decreases items, items.len() - k,
{
    if k == items.len() {
        assert(items.take(k) =~= items);
    } else {
        let item = items[k];
        let tail = encodings(items.skip(k + 1)).flatten();
        lemma_encodings_step(items, k);
        assert(s.skip(pos) =~= encoding(item) + (tail + rest));
        lemma_decode_encoding(s, pos, item, tail + rest);
        let end = pos + encoding(item).len();
        assert(s.skip(end) =~= tail + rest) by {
            assert forall|i: int| 0 <= i < (tail + rest).len() implies s.skip(end)[i] == (tail
                + rest)[i] by {
                assert(s.skip(pos)[encoding(item).len() + i] == s[end + i]);
            }
        }
        lemma_encoding_nonempty(item);
        assert(items.take(k).push(item) =~= items.take(k + 1));
        lemma_decode_encodings(s, end, items, k + 1, rest);
    }
}

/// **What a server that keeps to the protocol sends can be read.** Where a
/// stream holds the encoding of a reply, every integer line of that frame
/// writes an integer, so the decoder admits the frame.
pub proof fn lemma_encoding_sound(s: Seq<u8>, pos: int, reply: Reply, rest: Seq<u8>)
    requires
        reply.representable(),
        0 <= pos <= s.len(),
        s.skip(pos) == encoding(reply) + rest,
    ensures
        sound_at(s, pos),
    decreases reply,
{
    lemma_crlf_space();
    match reply {
        Reply::Okay => {
            let text = seq![79u8, 75u8];
            assert(ok_line() =~= header(43, text));
            lemma_header_at(s, pos, 43, text, rest);
        },
        Reply::Nil => {
            lemma_decimal_one_line(-1);
            lemma_header_at(s, pos, 36, signed_decimal(-1), rest);
        },
        Reply::Integer(n) => {
            lemma_decimal_one_line(n);
            lemma_header_at(s, pos, 58, signed_decimal(n), rest);
            lemma_parse_integer_line(n, crlf());
            let end = pos + signed_decimal(n).len() + 3;
            let line = s.subrange(pos, end);
            assert(line.skip(1) =~= signed_decimal(n) + crlf());
        },
        Reply::String(bytes) => {
            let n = bytes.len() as int;
            lemma_decimal_one_line(n);
            let text = decimal(n as nat);
            let after_header = bytes + crlf() + rest;
            assert(encoding(reply) + rest =~= header(36, text) + after_header);
            lemma_header_at(s, pos, 36, text, after_header);
        },
        Reply::Array(items) => {
            let n = items.len() as int;
            lemma_decimal_one_line(n);
            let text = decimal(n as nat);
            let after_header = encodings(items).flatten() + rest;
            assert(encoding(reply) + rest =~= header(42, text) + after_header);
            lemma_header_at(s, pos, 42, text, after_header);
            lemma_parse_integer_line(n, crlf());
            let end = pos + text.len() + 3;
            assert(items.skip(0) =~= items);
            lemma_encodings_sound(s, end, items, 0, rest);
        },
    }
}

/// Where a stream holds the encodings of the items of an array from the one
/// at `k` on, each of those frames can be read.
pub proof fn lemma_encodings_sound(s: Seq<u8>, pos: int, items: Seq<Reply>, k: int, rest: Seq<u8>)
    requires
        0 <= k <= items.len(),
        forall|i: int| 0 <= i < items.len() ==> (#[trigger] items[i]).representable(),
        0 <= pos <= s.len(),
        s.skip(pos) == encodings(items.skip(k)).flatten() + rest,
    ensures
        elements_sound(s, pos, (items.len() - k) as nat),
    decreases items, items.len() - k,
{
    if k < items.len() {
        let item = items[k];
        let tail = encodings(items.skip(k + 1)).flatten();
        lemma_encodings_step(items, k);
        assert(s.skip(pos) =~= encoding(item) + (tail + rest));
        lemma_encoding_sound(s, pos, item, tail + rest);
        lemma_decode_encoding(s, pos, item, tail + rest);
        let end = pos + encoding(item).len();
        assert(s.skip(end) =~= tail + rest) by {
            assert forall|i: int| 0 <= i < (tail + rest).len() implies s.skip(end)[i] == (tail
                + rest)[i] by {
                assert(s.skip(pos)[encoding(item).len() + i] == s[end + i]);
            }
        }
        lemma_encoding_nonempty(item);
        lemma_encodings_sound(s, end, items, k + 1, rest);
    }
}

/// Where a stream holds the encodings of some replies one after the other,
/// each of those frames can be read.
pub proof fn lemma_replies_sound(s: Seq<u8>, pos: int, replies: Seq<Reply>, k: int, rest: Seq<u8>)
    requires
        0 <= k <= replies.len(),
        forall|i: int| 0 <= i < replies.len() ==> (#[trigger] replies[i]).representable(),
        0 <= pos <= s.len(),
        s.skip(pos) == encodings(replies.skip(k)).flatten() + rest,
    ensures
        frames_sound(s, pos, (replies.len() - k) as nat),
    decreases replies.len() - k,
{
    if k < replies.len() {
        let reply = replies[k];
        let tail = encodings(replies.skip(k + 1)).flatten();
        lemma_encodings_step(replies, k);
        assert(s.skip(pos) =~= encoding(reply) + (tail + rest));
        lemma_encoding_sound(s, pos, reply, tail + rest);
        lemma_decode_encoding(s, pos, reply, tail + rest);
        let end = pos + encoding(reply).len();
        assert(s.skip(end) =~= tail + rest) by {
            assert forall|i: int| 0 <= i < (tail + rest).len() implies s.skip(end)[i] == (tail
                + rest)[i] by {
                assert(s.skip(pos)[encoding(reply).len() + i] == s[end + i]);
            }
        }
        lemma_encoding_nonempty(reply);
        lemma_replies_sound(s, end, replies, k + 1, rest);
    }
}

/// The encoding of a reply holds at least a tag and a terminator.
pub proof fn lemma_encoding_nonempty(reply: Reply)
    ensures
        encoding(reply).len() >= 3,
{
}

/// The outcomes of frames that carry `replies`, one for one.
pub open spec fn successes(replies: Seq<Reply>) -> Seq<Result<Reply, Failure>> {
    Seq::new(replies.len(), |i: int| Ok(replies[i]))
}

/// **Replies come back in the order in which they were sent.** Where a stream
/// holds the encodings of some replies one after the other, reading as many
/// frames gives those replies in that order, whatever their sizes, and leaves
/// what follows them.
pub proof fn lemma_replies_in_order(replies: Seq<Reply>, rest: Seq<u8>)
    requires
        forall|i: int| 0 <= i < replies.len() ==> (#[trigger] replies[i]).representable(),
    ensures
        frames_from(encodings(replies).flatten() + rest, replies.len()) == Some(
            Reading { outcomes: successes(replies), rest },
        ),
    decreases replies.len(),
{
    let s = encodings(replies).flatten() + rest;
    if replies.len() == 0 {
        assert(successes(replies) =~= Seq::<Result<Reply, Failure>>::empty());
    } else {
        let head = replies[0];
        let later = replies.skip(1);
        let tail = encodings(later).flatten();
        assert(replies.skip(0) =~= replies);
        lemma_encodings_step(replies, 0);
        assert(s =~= encoding(head) + (tail + rest));
        assert(s.skip(0) =~= s);
        lemma_decode_encoding(s, 0, head, tail + rest);
        let end = encoding(head).len() as int;
        assert(s.skip(end) =~= tail + rest);
        lemma_replies_in_order(later, rest);
        assert(seq![Ok::<Reply, Failure>(head)] + successes(later) =~= successes(replies));
    }
}

/// **Status lines.** A status line other than `+OK` reads back as the string
/// it carries.
pub proof fn lemma_decode_status_line(s: Seq<u8>, pos: int, text: Seq<u8>, rest: Seq<u8>)
    requires
        one_line(text),
        text != seq![79u8, 75u8],
        0 <= pos <= s.len(),
        s.skip(pos) == status_line(text) + rest,
    ensures
        frame_at(s, pos) == Some(
            Frame { outcome: Ok(Reply::String(text)), end: pos + text.len() + 3 },
        ),
{
    lemma_header_at(s, pos, 43, text, rest);
    let end = pos + text.len() + 3;
    let line = s.subrange(pos, end);
    assert(line.skip(1) =~= text + crlf());
    assert(strip_terminator(text + crlf()) =~= text);
    if line == ok_line() {
        assert(text =~= seq![79u8, 75u8]);
    }
}

/// **Absent arrays.** An array header with the count -1 reads as `Nil`.
pub proof fn lemma_decode_nil_array(s: Seq<u8>, pos: int, rest: Seq<u8>)
    requires
        0 <= pos <= s.len(),
        s.skip(pos) == nil_array() + rest,
    ensures
        frame_at(s, pos) == Some(Frame { outcome: Ok(Reply::Nil), end: pos + nil_array().len() }),
{
    lemma_crlf_space();
    lemma_decimal_one_line(-1);
    lemma_header_at(s, pos, 42, signed_decimal(-1), rest);
    lemma_parse_integer_line(-1, crlf());
}

} // verus!
