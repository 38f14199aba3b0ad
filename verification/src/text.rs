//! Small text helpers shared by the other modules.

use vstd::prelude::*;
use vstd::std_specs::iter::IteratorSpec;
use vstd::string::{StrSliceExecFns, StringExecFns};
use vstd::utf8::{encode_utf8, encode_utf8_decode_utf8};

verus! {

broadcast use vstd::string::group_string_axioms;

/// Whether `a` and `b` hold the same characters. The two are compared byte
/// by byte; equal bytes spell equal texts.
pub fn text_eq(a: &str, b: &str) -> (same: bool)
    ensures
        same == (a@ == b@),
{
    let left = a.as_bytes();
    let right = b.as_bytes();
    proof {
        encode_utf8_decode_utf8(a@);
        encode_utf8_decode_utf8(b@);
    }
    if left.len() != right.len() {
        return false;
    }
    let mut at: usize = 0;
    while at < left.len()
        invariant
            at <= left.len(),
            left@.len() == right@.len(),
            left@ == encode_utf8(a@),
            right@ == encode_utf8(b@),
            forall|i: int| 0 <= i < at ==> left@[i] == right@[i],
        decreases left.len() - at,
    {
        if left[at] != right[at] {
            return false;
        }
        at = at + 1;
    }
    proof {
        assert(left@ =~= right@);
    }
    true
}

/// The lower-case form of an ASCII capital; any other character as it is.
pub open spec fn lower_char(c: char) -> char {
    if 'A' <= c <= 'Z' {
        ((c as u32) + 32) as char
    } else {
        c
    }
}

/// `text` with its ASCII capitals in lower case.
pub open spec fn lower_text(text: Seq<char>) -> Seq<char> {
    text.map_values(|c: char| lower_char(c))
}

fn to_lower(c: char) -> (low: char)
    ensures
        low == lower_char(c),
{
    if c >= 'A' && c <= 'Z' {
        ((c as u8) + 32) as char
    } else {
        c
    }
}

/// The characters of `text` with the ASCII capitals in lower case.
pub fn lower_chars(text: &str) -> (out: Vec<char>)
    ensures
        out@ == lower_text(text@),
{
    let mut out: Vec<char> = Vec::new();
    let mut rest = text.chars();
    loop
        invariant
            rest.obeys_prophetic_iter_laws(),
            out@.len() + rest.remaining().len() == text@.len(),
            rest.remaining() == text@.skip(out@.len() as int),
            out@ == lower_text(text@.take(out@.len() as int)),
        decreases text@.len() - out@.len(),
    {
        let ghost before = out@;
        match rest.next() {
            Some(c) => {
                out.push(to_lower(c));
                proof {
                    let done = before.len() as int;
                    assert(c == text@[done]);
                    assert(text@.skip(done).drop_first() =~= text@.skip(done + 1));
                    assert(lower_text(text@.take(done + 1)) =~= lower_text(text@.take(done)).push(
                        lower_char(c),
                    ));
                }
            },
            None => {
                proof {
                    assert(text@.take(text@.len() as int) =~= text@);
                }
                return out;
            },
        }
    }
}

/// Whether the characters spell `word`.
pub fn spells(chars: &Vec<char>, word: &str) -> (same: bool)
    ensures
        same == (chars@ == word@),
{
    let mut rest = word.chars();
    let mut at: usize = 0;
    loop
        invariant
            rest.obeys_prophetic_iter_laws(),
            at <= chars@.len(),
            at + rest.remaining().len() == word@.len(),
            rest.remaining() == word@.skip(at as int),
            forall|i: int| 0 <= i < at ==> chars@[i] == word@[i],
        decreases word@.len() - at,
    {
        match rest.next() {
            Some(c) => {
                proof {
                    assert(c == word@[at as int]);
                    assert(word@.skip(at as int).drop_first() =~= word@.skip(at + 1));
                }
                if at >= chars.len() || chars[at] != c {
                    return false;
                }
                at = at + 1;
            },
            None => {
                proof {
                    if at == chars@.len() {
                        assert(chars@ =~= word@);
                    }
                }
                return at == chars.len();
            },
        }
    }
}

/// The text of a single decimal digit.
pub open spec fn digit_text(d: nat) -> Seq<char> {
    if d == 0 {
        "0"@
    } else if d == 1 {
        "1"@
    } else if d == 2 {
        "2"@
    } else if d == 3 {
        "3"@
    } else if d == 4 {
        "4"@
    } else if d == 5 {
        "5"@
    } else if d == 6 {
        "6"@
    } else if d == 7 {
        "7"@
    } else if d == 8 {
        "8"@
    } else {
        "9"@
    }
}

/// The decimal numeral of `n`, without sign or leading zeros.
pub open spec fn decimal_text(n: nat) -> Seq<char>
    decreases n,
{
    if n < 10 {
        digit_text(n)
    } else {
        decimal_text(n / 10) + digit_text(n % 10)
    }
}

fn digit_str(d: u64) -> (s: &'static str)
    requires
        d < 10,
    ensures
        s@ == digit_text(d as nat),
{
    if d == 0 {
        "0"
    } else if d == 1 {
        "1"
    } else if d == 2 {
        "2"
    } else if d == 3 {
        "3"
    } else if d == 4 {
        "4"
    } else if d == 5 {
        "5"
    } else if d == 6 {
        "6"
    } else if d == 7 {
        "7"
    } else if d == 8 {
        "8"
    } else {
        "9"
    }
}

/// Renders `n` as a decimal numeral.
pub fn decimal(n: u64) -> (out: String)
    ensures
        out@ == decimal_text(n as nat),
    decreases n,
{
    if n < 10 {
        digit_str(n).to_owned()
    } else {
        let mut out = decimal(n / 10);
        out.append(digit_str(n % 10));
        out
    }
}

/// `needle` occurs in `hay` as a run of consecutive characters.
pub open spec fn has_infix(hay: Seq<char>, needle: Seq<char>) -> bool {
    exists|at: int|
        0 <= at && at + needle.len() <= hay.len() && #[trigger] hay.subrange(
            at,
            at + needle.len(),
        ) == needle
}

/// The characters of `text`.
pub fn chars_of(text: &str) -> (out: Vec<char>)
    ensures
        out@ == text@,
{
    let mut out: Vec<char> = Vec::new();
    let mut rest = text.chars();
    loop
        invariant
            rest.obeys_prophetic_iter_laws(),
            out@.len() + rest.remaining().len() == text@.len(),
            rest.remaining() == text@.skip(out@.len() as int),
            out@ == text@.take(out@.len() as int),
        decreases text@.len() - out@.len(),
    {
        let ghost done = out@.len() as int;
        match rest.next() {
            Some(c) => {
                out.push(c);
                proof {
                    assert(c == text@[done]);
                    assert(text@.skip(done).drop_first() =~= text@.skip(done + 1));
                    assert(text@.take(done + 1) =~= text@.take(done).push(c));
                }
            },
            None => {
                proof {
                    assert(text@.take(text@.len() as int) =~= text@);
                }
                return out;
            },
        }
    }
}

fn occurs_at(hay: &Vec<char>, needle: &Vec<char>, at: usize) -> (here: bool)
    requires
        at + needle@.len() <= hay@.len(),
    ensures
        here == (hay@.subrange(at as int, at + needle@.len()) == needle@),
{
    let mut j: usize = 0;
    let size = hay.len();
    while j < needle.len()
        invariant
            j <= needle@.len(),
            size == hay@.len(),
            at + needle@.len() <= hay@.len(),
            forall|k: int| 0 <= k < j ==> hay@[at + k] == needle@[k],
        decreases needle.len() - j,
    {
        if hay[at + j] != needle[j] {
            proof {
                assert(hay@.subrange(at as int, at + needle@.len())[j as int] == hay@[at + j]);
            }
            return false;
        }
        j = j + 1;
    }
    proof {
        assert(hay@.subrange(at as int, at + needle@.len()) =~= needle@);
    }
    true
}

/// Whether `needle` occurs somewhere in `hay`.
pub fn contains_text(hay: &str, needle: &str) -> (found: bool)
    ensures
        found == has_infix(hay@, needle@),
{
    let hay_chars = chars_of(hay);
    let needle_chars = chars_of(needle);
    if needle_chars.len() > hay_chars.len() {
        return false;
    }
    let last: usize = hay_chars.len() - needle_chars.len();
    let mut at: usize = 0;
    loop
        invariant
            at <= last,
            last == hay_chars@.len() - needle_chars@.len(),
            hay_chars@ == hay@,
            needle_chars@ == needle@,
            forall|k: int|
                0 <= k < at ==> #[trigger] hay@.subrange(k, k + needle@.len()) != needle@,
        decreases last - at,
    {
        if occurs_at(&hay_chars, &needle_chars, at) {
            return true;
        }
        if at == last {
            return false;
        }
        at = at + 1;
    }
}

/// `text` without the slashes at its end.
pub open spec fn without_trailing_slashes(text: Seq<char>) -> Seq<char>
    decreases text.len(),
{
    if text.len() > 0 && text.last() == '/' {
        without_trailing_slashes(text.drop_last())
    } else {
        text
    }
}

proof fn lemma_slashes_fall(text: Seq<char>, end: int)
    requires
        0 <= end <= text.len(),
        forall|i: int| end <= i < text.len() ==> text[i] == '/',
    ensures
        without_trailing_slashes(text) == without_trailing_slashes(text.take(end)),
    decreases text.len() - end,
{
    if end < text.len() {
        assert(text.last() == '/');
        assert(text.drop_last().take(end) =~= text.take(end));
        lemma_slashes_fall(text.drop_last(), end);
    } else {
        assert(text.take(end) =~= text);
    }
}

/// Removes every slash at the end of `text`, and nothing else.
pub fn trim_trailing_slashes(text: &str) -> (out: &str)
    ensures
        out@ == without_trailing_slashes(text@),
{
    let chars = chars_of(text);
    let mut end: usize = chars.len();
    while end > 0 && chars[end - 1] == '/'
        invariant
            end <= chars@.len(),
            chars@ == text@,
            forall|i: int| end <= i < chars@.len() ==> chars@[i] == '/',
        decreases end,
    {
        end = end - 1;
    }
    proof {
        lemma_slashes_fall(text@, end as int);
        let kept = text@.take(end as int);
        assert(kept =~= text@.subrange(0, end as int));
        if end > 0 {
            assert(kept.last() == chars@[end - 1]);
        }
    }
    text.substring_char(0, end)
}

/// The number that a run of decimal digits denotes.
pub open spec fn digits_value(digits: Seq<u8>) -> nat
    decreases digits.len(),
{
    if digits.len() == 0 {
        0
    } else {
        digits_value(digits.drop_last()) * 10 + (digits.last() - 48) as nat
    }
}

/// Every byte is an ASCII digit.
pub open spec fn all_digits(bytes: Seq<u8>) -> bool {
    forall|i: int| 0 <= i < bytes.len() ==> 48 <= #[trigger] bytes[i] <= 57
}

/// The `u64` that `bytes` spell: an optional plus sign and at least one
/// decimal digit, with a value that fits.
pub open spec fn parsed_u64(bytes: Seq<u8>) -> Option<u64> {
    let digits = if bytes.len() > 0 && bytes[0] == 43 {
        bytes.drop_first()
    } else {
        bytes
    };
    if digits.len() > 0 && all_digits(digits) && digits_value(digits) <= u64::MAX {
        Some(digits_value(digits) as u64)
    } else {
        None
    }
}

proof fn lemma_digits_grow(digits: Seq<u8>, upto: int)
    requires
        0 <= upto <= digits.len(),
    ensures
        digits_value(digits.take(upto)) <= digits_value(digits),
    decreases digits.len() - upto,
{
    if upto < digits.len() {
        assert(digits.take(upto + 1).drop_last() =~= digits.take(upto));
        assert(digits_value(digits.take(upto)) <= digits_value(digits.take(upto + 1)))
            by (nonlinear_arith)
            requires
                digits_value(digits.take(upto + 1)) == digits_value(digits.take(upto)) * 10 + (
                digits.take(upto + 1).last() - 48) as nat,
        ;
        lemma_digits_grow(digits, upto + 1);
    } else {
        assert(digits.take(upto) =~= digits);
    }
}

/// Reads a `u64` from its decimal spelling.
pub fn parse_u64(bytes: &[u8]) -> (out: Option<u64>)
    ensures
        out == parsed_u64(bytes@),
{
    let start: usize = if bytes.len() > 0 && bytes[0] == 43 {
        1
    } else {
        0
    };
    if start == bytes.len() {
        return None;
    }
    let ghost digits = if start == 1 {
        bytes@.drop_first()
    } else {
        bytes@
    };
    let mut value: u64 = 0;
    let mut at: usize = start;
    proof {
        assert(digits.take(0) =~= Seq::<u8>::empty());
    }
    while at < bytes.len()
        invariant
            start <= at <= bytes.len(),
            start <= 1,
            digits == (if bytes@.len() > 0 && bytes@[0] == 43 {
                bytes@.drop_first()
            } else {
                bytes@
            }),
            digits.len() == bytes@.len() - start,
            forall|i: int| 0 <= i < digits.len() ==> digits[i] == bytes@[i + start],
            all_digits(digits.take(at - start)),
            value == digits_value(digits.take(at - start)),
        decreases bytes.len() - at,
    {
        let byte = bytes[at];
        if byte < 48 || byte > 57 {
            proof {
                assert(digits[at - start] == byte);
                assert(!all_digits(digits));
            }
            return None;
        }
        let digit: u64 = (byte - 48) as u64;
        proof {
            let next = digits.take(at - start + 1);
            assert(next.drop_last() =~= digits.take(at - start));
            assert(next.last() == byte);
            assert forall|i: int| 0 <= i < next.len() implies 48 <= #[trigger] next[i] <= 57 by {
                if i < at - start {
                    assert(digits.take(at - start)[i] == next[i]);
                }
            }
        }
        if value > (u64::MAX - digit) / 10 {
            proof {
                lemma_digits_grow(digits, at - start + 1);
                assert(value * 10 + digit > u64::MAX);
                assert(digits_value(digits.take(at - start + 1)) == value * 10 + digit);
            }
            return None;
        }
        value = value * 10 + digit;
        at = at + 1;
    }
    proof {
        assert(digits.take(digits.len() as int) =~= digits);
    }
    Some(value)
}

} // verus!
