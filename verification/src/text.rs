//! Text as bytes: slicing by byte offsets and the few string operations the
//! engine needs.

use vstd::prelude::*;
use vstd::string::{StringExecFns, StringSliceAdditionalSpecFns};
use vstd::utf8::*;

verus! {

broadcast use {vstd::utf8::group_utf8_lib, vstd::string::group_string_axioms};

/// The UTF-8 bytes of a text.
pub open spec fn bytes_of(text: Seq<char>) -> Seq<u8> {
    encode_utf8(text)
}

/// Whether `[start, end)` is a byte range of `text` that cuts no character.
pub open spec fn is_span(text: Seq<char>, start: int, end: int) -> bool {
    &&& 0 <= start <= end <= bytes_of(text).len()
    &&& is_char_boundary(bytes_of(text), start)
    &&& is_char_boundary(bytes_of(text), end)
}

/// The text held by the byte range `[start, end)` of `text`.
pub open spec fn slice_of(text: Seq<char>, start: int, end: int) -> Seq<char> {
    decode_utf8(bytes_of(text).subrange(start, end))
}

/// The start and the end of a text cut no character.
pub proof fn lemma_text_ends(text: Seq<char>)
    ensures
        is_char_boundary(bytes_of(text), 0),
        is_char_boundary(bytes_of(text), bytes_of(text).len() as int),
        valid_utf8(bytes_of(text)),
{
    encode_utf8_valid_utf8(text);
    is_char_boundary_start_end_of_seq(bytes_of(text));
}

/// The bytes of two texts, one after the other, are the bytes of the first
/// and then those of the second; and where the first ends no character is
/// cut.
pub proof fn lemma_bytes_concat(a: Seq<char>, b: Seq<char>)
    ensures
        bytes_of(a + b) == bytes_of(a) + bytes_of(b),
        is_char_boundary(bytes_of(a + b), bytes_of(a).len() as int),
    decreases a.len(),
{
    if a.len() == 0 {
        assert(a + b =~= b);
        assert(bytes_of(a) + bytes_of(b) =~= bytes_of(b));
    } else {
        lemma_bytes_concat(a.drop_first(), b);
        assert((a + b).drop_first() =~= a.drop_first() + b);
        assert((a + b)[0] == a[0]);
        assert(bytes_of(a + b) =~= bytes_of(a) + bytes_of(b));
    }
    let whole = bytes_of(a + b);
    let at = bytes_of(a).len() as int;
    lemma_text_ends(a + b);
    lemma_text_ends(b);
    if at < whole.len() {
        assert(whole[at] == bytes_of(b)[0]);
        is_char_boundary_iff_not_is_continuation_byte(bytes_of(b), 0);
        is_char_boundary_iff_not_is_continuation_byte(whole, at);
    }
}

/// Whether `[start, end)` can be cut out of `text`.
pub fn span_ok(text: &str, start: usize, end: usize) -> (r: bool)
    ensures
        r == is_span(text@, start as int, end as int),
{
    let n = byte_len(text);
    start <= end && end <= n && text.is_char_boundary(start) && text.is_char_boundary(end)
}

/// The part of `text` in the byte range `[start, end)`.
pub fn substr<'a>(text: &'a str, start: usize, end: usize) -> (r: &'a str)
    requires
        is_span(text@, start as int, end as int),
    ensures
        r@ == slice_of(text@, start as int, end as int),
        bytes_of(r@) == bytes_of(text@).subrange(start as int, end as int),
{
    let (head, _) = text.split_at(end);
    proof {
        let b = bytes_of(text@);
        assert(head.spec_bytes() == b.subrange(0, end as int));
        assert(is_char_boundary(b.subrange(0, end as int), start as int)) by {
            lemma_boundary_of_prefix(b, start as int, end as int);
        }
    }
    let (_, tail) = head.split_at(start);
    proof {
        let b = bytes_of(text@);
        assert(tail.spec_bytes() =~= b.subrange(start as int, end as int));
    }
    tail
}

/// A character boundary of a text is one of each prefix that reaches it.
pub proof fn lemma_boundary_of_prefix(b: Seq<u8>, i: int, j: int)
    requires
        valid_utf8(b),
        0 <= i <= j <= b.len(),
        is_char_boundary(b, i),
        is_char_boundary(b, j),
    ensures
        is_char_boundary(b.subrange(0, j), i),
{
    let p = b.subrange(0, j);
    valid_utf8_split(b, j);
    if i == j {
        is_char_boundary_start_end_of_seq(p);
    } else {
        is_char_boundary_iff_not_is_continuation_byte(b, i);
        is_char_boundary_iff_not_is_continuation_byte(p, i);
    }
}

/// Two parts of a text that meet make up the part from the start of the
/// first to the end of the second.
pub proof fn lemma_slice_join(text: Seq<char>, a: int, b: int, c: int)
    requires
        is_span(text, a, b),
        is_span(text, b, c),
    ensures
        slice_of(text, a, b) + slice_of(text, b, c) == slice_of(text, a, c),
        is_span(text, a, c),
{
    let whole = bytes_of(text);
    let part = whole.subrange(a, c);
    lemma_text_ends(text);
    let head = whole.subrange(0, c);
    valid_utf8_split(whole, c);
    lemma_boundary_of_prefix(whole, a, c);
    valid_utf8_split(head, a);
    assert(head.subrange(a, head.len() as int) =~= part);
    let at = b - a;
    if at == 0 || at == part.len() {
        is_char_boundary_start_end_of_seq(part);
    } else {
        is_char_boundary_iff_not_is_continuation_byte(whole, b);
        assert(part[at] == whole[b]);
        is_char_boundary_iff_not_is_continuation_byte(part, at);
    }
    decode_utf8_split(part, at);
    assert(part.subrange(0, at) =~= whole.subrange(a, b));
    assert(part.subrange(at, part.len() as int) =~= whole.subrange(b, c));
}

/// The part of a text from its start to its end is the text; a part that
/// ends where it starts is empty.
pub proof fn lemma_slice_ends(text: Seq<char>, at: int)
    requires
        0 <= at <= bytes_of(text).len(),
    ensures
        slice_of(text, 0, bytes_of(text).len() as int) == text,
        slice_of(text, at, at) == Seq::<char>::empty(),
{
    let whole = bytes_of(text);
    assert(whole.subrange(0, whole.len() as int) =~= whole);
    encode_utf8_decode_utf8(text);
    assert(whole.subrange(at, at) =~= Seq::<u8>::empty());
    assert(decode_utf8(Seq::<u8>::empty()) =~= Seq::<char>::empty());
}

/// The number of bytes of `text`.
pub fn byte_len(text: &str) -> (n: usize)
    ensures
        n as int == bytes_of(text@).len(),
{
    text.as_bytes().len()
}

/// Whether two texts are the same.
pub fn same_text(a: &str, b: &str) -> (r: bool)
    ensures
        r == (a@ == b@),
{
    let x = a.as_bytes();
    let y = b.as_bytes();
    if x.len() != y.len() {
        return false;
    }
    let mut i: usize = 0;
    while i < x.len()
        invariant
            i <= x.len(),
            x.len() == y.len(),
            x@ == bytes_of(a@),
            y@ == bytes_of(b@),
            forall|k: int| 0 <= k < i ==> x@[k] == y@[k],
        decreases x.len() - i,
    {
        if x[i] != y[i] {
            return false;
        }
        i += 1;
    }
    proof {
        assert(x@ =~= y@);
        encode_utf8_decode_utf8(a@);
        encode_utf8_decode_utf8(b@);
    }
    true
}

/// What `str::to_uppercase` makes of a text.
pub uninterp spec fn uppercase(text: Seq<char>) -> Seq<char>;

/// What `str::to_lowercase` makes of a text.
pub uninterp spec fn lowercase(text: Seq<char>) -> Seq<char>;

/// The characters of the Unicode property `White_Space`.
pub open spec fn is_white_space(c: char) -> bool {
    let n = c as u32;
    ||| 0x09 <= n <= 0x0D
    ||| n == 0x20
    ||| n == 0x85
    ||| n == 0xA0
    ||| n == 0x1680
    ||| 0x2000 <= n <= 0x200A
    ||| n == 0x2028
    ||| n == 0x2029
    ||| n == 0x202F
    ||| n == 0x205F
    ||| n == 0x3000
}

/// `text` without its leading white space.
pub open spec fn trimmed_start(text: Seq<char>) -> Seq<char>
    decreases text.len(),
{
    if text.len() > 0 && is_white_space(text[0]) {
        trimmed_start(text.drop_first())
    } else {
        text
    }
}

/// `text` without its trailing white space.
pub open spec fn trimmed_end(text: Seq<char>) -> Seq<char>
    decreases text.len(),
{
    if text.len() > 0 && is_white_space(text.last()) {
        trimmed_end(text.drop_last())
    } else {
        text
    }
}

/// `text` without its leading and trailing white space.
pub open spec fn trimmed(text: Seq<char>) -> Seq<char> {
    trimmed_end(trimmed_start(text))
}

/// `text` without the line feeds at its end.
pub open spec fn without_final_newlines(text: Seq<char>) -> Seq<char>
    decreases text.len(),
{
    if text.len() > 0 && text.last() == '\n' {
        without_final_newlines(text.drop_last())
    } else {
        text
    }
}

/// Whether `needle` occurs in `hay` at the position `at`.
pub open spec fn occurs_at<T>(hay: Seq<T>, needle: Seq<T>, at: int) -> bool {
    &&& 0 <= at
    &&& at + needle.len() <= hay.len()
    &&& hay.subrange(at, at + needle.len()) == needle
}

/// `str::to_uppercase`.
#[verifier::external_body]
pub(crate) fn to_upper(text: &str) -> (r: String)
    ensures
        r@ == uppercase(text@),
{
    text.to_uppercase()
}

/// `str::to_lowercase`.
#[verifier::external_body]
pub(crate) fn to_lower(text: &str) -> (r: String)
    ensures
        r@ == lowercase(text@),
{
    text.to_lowercase()
}

/// `str::trim`: the text between the leading and the trailing white space,
/// white space being the Unicode property `White_Space`.
#[verifier::external_body]
pub(crate) fn trim<'a>(text: &'a str) -> (r: &'a str)
    ensures
        r@ == trimmed(text@),
{
    text.trim()
}

/// `str::trim_end_matches` with a line feed: the text before the line feeds
/// that end it.
#[verifier::external_body]
pub(crate) fn trim_final_newlines<'a>(text: &'a str) -> (r: &'a str)
    ensures
        r@ == without_final_newlines(text@),
{
    text.trim_end_matches('\n')
}

/// The first place at or after `from` where `needle` occurs in `hay`.
pub open spec fn first_from(hay: Seq<u8>, needle: Seq<u8>, from: int) -> Option<int>
    decreases hay.len() - needle.len() - from,
{
    if from < 0 || from + needle.len() > hay.len() {
        None
    } else if occurs_at(hay, needle, from) {
        Some(from)
    } else if from + needle.len() == hay.len() {
        None
    } else {
        first_from(hay, needle, from + 1)
    }
}

/// Whether the bytes of `needle` occur in those of `hay`.
pub open spec fn occurs_in(hay: Seq<char>, needle: Seq<char>) -> bool {
    first_from(bytes_of(hay), bytes_of(needle), 0) is Some
}

/// Whether `needle` occurs in `hay` at the place `at`.
pub fn matches_at(hay: &[u8], needle: &[u8], at: usize) -> (r: bool)
    requires
        at + needle.len() <= hay.len(),
    ensures
        r == occurs_at(hay@, needle@, at as int),
{
    let mut k: usize = 0;
    while k < needle.len()
        invariant
            k <= needle.len(),
            at + needle.len() <= hay.len(),
            forall|j: int| 0 <= j < k ==> hay[at + j] == needle[j],
        decreases needle.len() - k,
    {
        if hay[at + k] != needle[k] {
            assert(hay@.subrange(at as int, at + needle.len())[k as int] != needle@[k as int]);
            return false;
        }
        k += 1;
    }
    assert(hay@.subrange(at as int, at + needle.len()) =~= needle@);
    true
}

/// The first place at or after `from` where `needle` occurs in `hay`.
pub fn find_bytes(hay: &[u8], needle: &[u8], from: usize) -> (r: Option<usize>)
    ensures
        match r {
            Some(at) => first_from(hay@, needle@, from as int) == Some(at as int) && from <= at
                && at + needle.len() <= hay.len(),
            None => first_from(hay@, needle@, from as int) is None,
        },
{
    if needle.len() > hay.len() || from > hay.len() - needle.len() {
        return None;
    }
    let last = hay.len() - needle.len();
    let mut at: usize = from;
    while at < last
        invariant
            from <= at <= last,
            last == hay.len() - needle.len(),
            first_from(hay@, needle@, from as int) == first_from(hay@, needle@, at as int),
        decreases last - at,
    {
        if matches_at(hay, needle, at) {
            return Some(at);
        }
        at += 1;
    }
    if matches_at(hay, needle, at) {
        Some(at)
    } else {
        None
    }
}

/// Whether `needle` occurs in `hay`.
pub fn contains_text(hay: &str, needle: &str) -> (r: bool)
    ensures
        r == occurs_in(hay@, needle@),
{
    find_bytes(hay.as_bytes(), needle.as_bytes(), 0).is_some()
}

/// `String::push`: the text with one more character at its end.
#[verifier::external_body]
pub(crate) fn push_char(text: &mut String, c: char)
    ensures
        final(text)@ == old(text)@.push(c),
{
    text.push(c)
}

/// The text without its last character; an empty text stays empty.
pub open spec fn without_last(text: Seq<char>) -> Seq<char> {
    if text.len() > 0 {
        text.drop_last()
    } else {
        text
    }
}

/// `String::pop`: the text without its last character.
#[verifier::external_body]
pub(crate) fn pop_char(text: &mut String)
    ensures
        final(text)@ == without_last(old(text)@),
{
    text.pop();
}

/// Whether `text` starts with the character `c`.
pub fn starts_with_char(text: &str, c: char) -> (r: bool)
    ensures
        r == (text@.len() > 0 && text@[0] == c),
{
    text.unicode_len() > 0 && text.get_char(0) == c
}

/// An owned copy of `text`.
pub fn owned(text: &str) -> (r: String)
    ensures
        r@ == text@,
{
    text.to_owned()
}

/// Whether `c` is one of the digits `0` to `9`.
pub open spec fn is_digit(c: char) -> bool {
    '0' <= c <= '9'
}

/// The value of the digit `c`.
pub open spec fn digit_of(c: char) -> int {
    c as u32 - '0' as u32
}

/// Whether `text` is made of the digits `0` to `9` alone.
pub open spec fn all_digits(text: Seq<char>) -> bool {
    forall|i: int| 0 <= i < text.len() ==> is_digit(#[trigger] text[i])
}

/// The number that a run of digits writes in base ten; 0 for no digit.
pub open spec fn decimal_value(text: Seq<char>) -> nat
    decreases text.len(),
{
    if text.len() == 0 {
        0
    } else {
        (10 * decimal_value(text.drop_last()) + digit_of(text.last())) as nat
    }
}

/// The largest number that [`parse_decimal`] reads.
pub const DECIMAL_LIMIT: u64 = 999_999_999_999_999_999;

/// The number that `text` writes in base ten, where `text` is a run of one
/// or more digits that writes no more than [`DECIMAL_LIMIT`].
pub open spec fn decimal_of(text: Seq<char>) -> Option<u64> {
    if text.len() > 0 && all_digits(text) && decimal_value(text) <= DECIMAL_LIMIT {
        Some(decimal_value(text) as u64)
    } else {
        None
    }
}

/// A run of digits that has a part over the limit is over the limit.
pub proof fn lemma_decimal_grows(text: Seq<char>, n: int)
    requires
        all_digits(text),
        0 <= n <= text.len(),
    ensures
        decimal_value(text.subrange(0, n)) <= decimal_value(text),
    decreases text.len() - n,
{
    if n < text.len() {
        let next = text.subrange(0, n + 1);
        assert(next.drop_last() =~= text.subrange(0, n));
        assert(next.last() == text[n]);
        assert(is_digit(text[n]));
        lemma_decimal_grows(text, n + 1);
    } else {
        assert(text.subrange(0, n) =~= text);
    }
}

/// Reads a number written in base ten.
pub fn parse_decimal(text: &str) -> (r: Option<u64>)
    ensures
        r == decimal_of(text@),
{
    let n = text.unicode_len();
    if n == 0 || !text.is_ascii() {
        proof {
            if n > 0 {
                assert(!all_digits(text@)) by {
                    if all_digits(text@) {
                        assert forall|i: int| 0 <= i < text@.len() implies (text@[i] as nat)
                            < 128 by {
                            assert(is_digit(text@[i]));
                        }
                    }
                }
            }
        }
        return None;
    }
    let mut value: u64 = 0;
    let mut i: usize = 0;
    while i < n
        invariant
            i <= n,
            n == text@.len(),
            text.is_ascii(),
            all_digits(text@.subrange(0, i as int)),
            value as nat == decimal_value(text@.subrange(0, i as int)),
            value <= DECIMAL_LIMIT,
        decreases n - i,
    {
        let b = text.get_ascii(i);
        let ghost next = text@.subrange(0, i + 1);
        proof {
            assert(next.drop_last() =~= text@.subrange(0, i as int));
            assert(next.last() == text@[i as int]);
        }
        if b < 48 || b > 57 {
            proof {
                assert(!is_digit(text@[i as int]));
            }
            return None;
        }
        let d: u64 = (b - 48) as u64;
        proof {
            assert(is_digit(text@[i as int]));
            assert(digit_of(text@[i as int]) == d);
            assert forall|k: int| 0 <= k < next.len() implies is_digit(#[trigger] next[k]) by {
                if k < i {
                    assert(next[k] == text@.subrange(0, i as int)[k]);
                }
            }
        }
        if value > (DECIMAL_LIMIT - d) / 10 {
            proof {
                assert(decimal_value(next) > DECIMAL_LIMIT);
                if all_digits(text@) {
                    lemma_decimal_grows(text@, i + 1);
                }
            }
            return None;
        }
        value = value * 10 + d;
        i += 1;
    }
    proof {
        assert(text@.subrange(0, n as int) =~= text@);
    }
    Some(value)
}

/// The digits of `n` in base ten.
pub open spec fn decimal_text(n: nat) -> Seq<char>
    decreases n,
{
    if n < 10 {
        seq![digit_char(n)]
    } else {
        decimal_text(n / 10).push(digit_char(n % 10))
    }
}

/// The digit that writes `d`.
pub open spec fn digit_char(d: nat) -> char {
    if d == 0 {
        '0'
    } else if d == 1 {
        '1'
    } else if d == 2 {
        '2'
    } else if d == 3 {
        '3'
    } else if d == 4 {
        '4'
    } else if d == 5 {
        '5'
    } else if d == 6 {
        '6'
    } else if d == 7 {
        '7'
    } else if d == 8 {
        '8'
    } else {
        '9'
    }
}

/// The digit that writes `d`, as a text.
pub fn digit_text(d: u64) -> (r: &'static str)
    requires
        d < 10,
    ensures
        r@ == seq![digit_char(d as nat)],
{
    proof {
        reveal_strlit("0");
        reveal_strlit("1");
        reveal_strlit("2");
        reveal_strlit("3");
        reveal_strlit("4");
        reveal_strlit("5");
        reveal_strlit("6");
        reveal_strlit("7");
        reveal_strlit("8");
        reveal_strlit("9");
    }
    let r = if d == 0 {
        "0"
    } else if d == 1 {
        "1"
    } else if d == 2 {
        "2"
    } else if d == 3 {
        "3"
    } else if d == 4 {
        "4"
    } else if d == 5 {
        "5"
    } else if d == 6 {
        "6"
    } else if d == 7 {
        "7"
    } else if d == 8 {
        "8"
    } else {
        "9"
    };
    assert(r@ =~= seq![digit_char(d as nat)]);
    r
}

/// Writes `n` in base ten.
pub fn decimal(n: u64) -> (r: String)
    ensures
        r@ == decimal_text(n as nat),
    decreases n,
{
    if n < 10 {
        owned(digit_text(n))
    } else {
        let mut s = decimal(n / 10);
        s.append(digit_text(n % 10));
        assert(s@ =~= decimal_text(n as nat));
        s
    }
}

} // verus!
