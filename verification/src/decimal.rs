//! Decimal text of integers, as the wire format writes lengths, counts and
//! numeric replies.

use vstd::prelude::*;

verus! {

/// The ASCII digit that stands for `d`, for `0 <= d <= 9`.
pub open spec fn digit(d: int) -> u8 {
    (48 + d) as u8
}

/// Whether `b` is an ASCII digit.
pub open spec fn is_digit(b: u8) -> bool {
    48 <= b <= 57
}

/// Whether `b` is ASCII white space: space, tab, line feed, vertical tab,
/// form feed or carriage return.
pub open spec fn is_space(b: u8) -> bool {
    b == 32 || (9 <= b <= 13)
}

/// The decimal digits of `n`, most significant first, without leading zeros.
pub open spec fn decimal(n: nat) -> Seq<u8>
    decreases n,
{
    if n < 10 {
        seq![digit(n as int)]
    } else {
        decimal(n / 10).push(digit((n % 10) as int))
    }
}

/// The decimal text of `i`: a minus sign for a negative number, then the
/// digits of its magnitude.
pub open spec fn signed_decimal(i: int) -> Seq<u8> {
    if i < 0 {
        seq![45u8] + decimal((-i) as nat)
    } else {
        decimal(i as nat)
    }
}

/// Whether every byte of `s` is an ASCII digit.
pub open spec fn all_digits(s: Seq<u8>) -> bool {
    forall|i: int| 0 <= i < s.len() ==> is_digit(#[trigger] s[i])
}

/// The number that a string of digits writes, most significant digit first.
pub open spec fn digits_value(s: Seq<u8>) -> nat
    decreases s.len(),
{
    if s.len() == 0 {
        0
    } else {
        (digits_value(s.drop_last()) * 10 + (s.last() - 48)) as nat
    }
}

/// `s` without its leading white space.
pub open spec fn trim_start(s: Seq<u8>) -> Seq<u8>
    decreases s.len(),
{
    if s.len() > 0 && is_space(s[0]) {
        trim_start(s.skip(1))
    } else {
        s
    }
}

/// `s` without its trailing white space.
pub open spec fn trim_end(s: Seq<u8>) -> Seq<u8>
    decreases s.len(),
{
    if s.len() > 0 && is_space(s.last()) {
        trim_end(s.drop_last())
    } else {
        s
    }
}

/// `s` without white space at either end.
pub open spec fn trim(s: Seq<u8>) -> Seq<u8> {
    trim_end(trim_start(s))
}

/// The digits of a piece of trimmed integer text: what follows the sign, if
/// there is one.
pub open spec fn unsigned_part(t: Seq<u8>) -> Seq<u8> {
    if t.len() > 0 && (t[0] == 43 || t[0] == 45) {
        t.skip(1)
    } else {
        t
    }
}

/// The integer that `s` writes. The text may have white space at either end;
/// between, it is an optional `+` or `-` and at least one digit. The result is
/// `None` for any other text, and for a number outside the signed 64-bit
/// range.
pub open spec fn parse_integer_spec(s: Seq<u8>) -> Option<int> {
    let t = trim(s);
    let body = unsigned_part(t);
    if body.len() == 0 || !all_digits(body) {
        None
    } else {
        let value: int = if t[0] == 45 {
            -(digits_value(body) as int)
        } else {
            digits_value(body) as int
        };
        if i64::MIN <= value <= i64::MAX {
            Some(value)
        } else {
            None
        }
    }
}

/// Appends the decimal text of `n` to `buffer`.
pub fn push_decimal(buffer: &mut Vec<u8>, n: u128)
    ensures
        final(buffer)@ == old(buffer)@ + decimal(n as nat),
    decreases n,
{
    if n >= 10 {
        push_decimal(buffer, n / 10);
    }
    let d: u8 = (n % 10) as u8;
    buffer.push(48 + d);
}

/// Appends the decimal text of `i` to `buffer`, with a minus sign where `i`
/// is negative.
pub fn push_signed_decimal(buffer: &mut Vec<u8>, i: i64)
    ensures
        final(buffer)@ == old(buffer)@ + signed_decimal(i as int),
{
    if i < 0 {
        buffer.push(45);
        let magnitude: u128 = if i == i64::MIN {
            9223372036854775808u128
        } else {
            (-i) as u128
        };
        push_decimal(buffer, magnitude);
    } else {
        push_decimal(buffer, i as u128);
    }
}

/// Whether `b` is ASCII white space.
pub fn is_space_byte(b: u8) -> (r: bool)
    ensures
        r == is_space(b),
{
    b == 32 || (9 <= b && b <= 13)
}

/// Reads the integer that `text` writes: white space at either end is passed
/// over, then an optional sign and at least one digit are expected. The result
/// is `None` for any other text and for a number that a signed 64-bit integer
/// cannot hold.
pub fn parse_integer(text: &[u8]) -> (r: Option<i64>)
    ensures
        match parse_integer_spec(text@) {
            Some(v) => r == Some(v as i64),
            None => r is None,
        },
{
    let ghost s = text@;
    let len = text.len();
    let mut lo: usize = 0;
    assert(s.skip(0) =~= s);
    while lo < len && is_space_byte(text[lo])
        invariant
            s == text@,
            len == s.len(),
            lo <= len,
            trim_start(s) == trim_start(s.skip(lo as int)),
        decreases len - lo,
    {
        assert(s.skip(lo as int).skip(1) =~= s.skip(lo as int + 1));
        lo += 1;
    }
    let ghost front = s.skip(lo as int);
    let mut hi: usize = len;
    while hi > lo && is_space_byte(text[hi - 1])
        invariant
            s == text@,
            len == s.len(),
            front == s.skip(lo as int),
            lo <= hi <= len,
            trim_end(front) == trim_end(s.subrange(lo as int, hi as int)),
        decreases hi - lo,
    {
        assert(s.subrange(lo as int, hi as int).drop_last() =~= s.subrange(
            lo as int,
            hi as int - 1,
        ));
        hi -= 1;
    }
    let ghost t = s.subrange(lo as int, hi as int);
    let negative = lo < hi && text[lo] == 45;
    let signed = lo < hi && (text[lo] == 43 || text[lo] == 45);
    let start: usize = if signed {
        lo + 1
    } else {
        lo
    };
    let ghost body = s.subrange(start as int, hi as int);
    if start == hi {
        return None;
    }
    let mut magnitude: u64 = 0;
    let mut i: usize = start;
    while i < hi
        invariant
            s == text@,
            body == s.subrange(start as int, hi as int),
            start <= i <= hi <= s.len(),
            start < hi,
            trim(s) == t,
            unsigned_part(t) == body,
            all_digits(body.take(i - start)),
            magnitude == digits_value(body.take(i - start)),
            magnitude <= 9223372036854775808,
        decreases hi - i,
    {
        let b = text[i];
        let ghost seen = body.take(i - start + 1);
        assert(seen.drop_last() =~= body.take(i - start));
        assert(seen.last() == b);
        if !(48 <= b && b <= 57) {
            return None;
        }
        let next: u128 = magnitude as u128 * 10 + (b - 48) as u128;
        if next > 9223372036854775808 {
            proof {
                if all_digits(body) {
                    lemma_digits_value_prefix(body, i - start + 1);
                }
            }
            return None;
        }
        magnitude = next as u64;
        i += 1;
    }
    assert(body.take(hi - start) =~= body);
    if negative {
        if magnitude == 9223372036854775808 {
            Some(i64::MIN)
        } else {
            Some(-(magnitude as i64))
        }
    } else if magnitude == 9223372036854775808 {
        None
    } else {
        Some(magnitude as i64)
    }
}

/// Every byte of `decimal(n)` is a digit, and there is at least one.
pub proof fn lemma_decimal_digits(n: nat)
    ensures
        decimal(n).len() >= 1,
        all_digits(decimal(n)),
    decreases n,
{
    if n >= 10 {
        lemma_decimal_digits(n / 10);
    }
}

/// `decimal(n)` writes `n`.
pub proof fn lemma_decimal_value(n: nat)
    ensures
        digits_value(decimal(n)) == n,
    decreases n,
{
    if n < 10 {
        let s = decimal(n);
        assert(digits_value(s.drop_last()) == 0);
    } else {
        lemma_decimal_value(n / 10);
        let s = decimal(n);
        assert(s.drop_last() =~= decimal(n / 10));
    }
}

/// Text that neither starts nor ends with white space is its own trimming.
pub proof fn lemma_trim_tight(s: Seq<u8>)
    requires
        s.len() > 0,
        !is_space(s[0]),
        !is_space(s.last()),
    ensures
        trim(s) == s,
{
}

/// Reading back the decimal text of a signed 64-bit number gives that number.
pub proof fn lemma_parse_signed_decimal(i: int)
    requires
        i64::MIN <= i <= i64::MAX,
    ensures
        parse_integer_spec(signed_decimal(i)) == Some(i),
{
    let s = signed_decimal(i);
    if i < 0 {
        let m = (-i) as nat;
        lemma_decimal_digits(m);
        lemma_decimal_value(m);
        let d = decimal(m);
        lemma_trim_tight(s);
        assert(s.skip(1) =~= d);
    } else {
        let m = i as nat;
        lemma_decimal_digits(m);
        lemma_decimal_value(m);
        lemma_trim_tight(s);
    }
}

/// The decimal text of a number holds its sign and digits only: no white
/// space, and so no line terminator.
pub proof fn lemma_signed_decimal_bytes(i: int)
    ensures
        signed_decimal(i).len() >= 1,
        forall|k: int|
            0 <= k < signed_decimal(i).len() ==> {
                let b = #[trigger] signed_decimal(i)[k];
                is_digit(b) || (b == 45 && k == 0)
            },
        is_digit(signed_decimal(i).last()),
{
    if i < 0 {
        lemma_decimal_digits((-i) as nat);
    } else {
        lemma_decimal_digits(i as nat);
    }
}

/// Trailing white space does not change what integer text writes.
pub proof fn lemma_parse_integer_line(i: int, tail: Seq<u8>)
    requires
        i64::MIN <= i <= i64::MAX,
        forall|k: int| 0 <= k < tail.len() ==> is_space(#[trigger] tail[k]),
    ensures
        parse_integer_spec(signed_decimal(i) + tail) == Some(i),
{
    let text = signed_decimal(i);
    lemma_signed_decimal_bytes(i);
    lemma_parse_signed_decimal(i);
    lemma_trim_tight(text);
    lemma_trim_end_tail(text, tail);
}

/// White space after text that does not end with white space is trimmed
/// away, and nothing else is.
pub proof fn lemma_trim_end_tail(text: Seq<u8>, tail: Seq<u8>)
    requires
        text.len() > 0,
        !is_space(text.last()),
        forall|k: int| 0 <= k < tail.len() ==> is_space(#[trigger] tail[k]),
    ensures
        trim_end(text + tail) == text,
    decreases tail.len(),
{
    if tail.len() > 0 {
        assert((text + tail).drop_last() =~= text + tail.drop_last());
        lemma_trim_end_tail(text, tail.drop_last());
    }
}

/// A string of digits writes at least what any of its prefixes writes.
pub proof fn lemma_digits_value_prefix(s: Seq<u8>, k: int)
    requires
        0 <= k <= s.len(),
        all_digits(s),
    ensures
        digits_value(s.take(k)) <= digits_value(s),
    decreases s.len(),
{
    if k == s.len() {
        assert(s.take(k) =~= s);
    } else {
        let front = s.drop_last();
        lemma_digits_value_prefix(front, k);
        assert(front.take(k) =~= s.take(k));
    }
}

} // verus!
