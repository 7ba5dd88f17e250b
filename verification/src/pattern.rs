//! Regular-expression matching, done by the `regex` crate.
//!
//! What a search returns is a function of the pattern and the text alone, so
//! each search has a name in specifications. The engine itself is not verified:
//! the functions here state what the `regex` crate documents of its results.

use crate::text::{bytes_of, is_span, owned, slice_of, substr};
use vstd::prelude::*;

verus! {

/// A match: the byte offsets `(start, end)` of the matched part of the text.
pub type Span = (usize, usize);

/// The leftmost match of `pattern` in `text`, as `Regex::find` reports it.
/// A pattern that does not compile matches nothing.
pub uninterp spec fn first_match(pattern: Seq<char>, text: Seq<char>) -> Option<Span>;

/// The successive non-overlapping matches of `pattern` in `text`, as
/// `Regex::find_iter` yields them.
pub uninterp spec fn all_matches(pattern: Seq<char>, text: Seq<char>) -> Seq<Span>;

/// The capture groups of the leftmost match of `pattern` in `text`, as
/// `Regex::captures` reports them: entry 0 is the whole match, entry `i` the
/// group `i`, `None` where the group took no part in the match.
pub uninterp spec fn first_captures(pattern: Seq<char>, text: Seq<char>) -> Option<
    Seq<Option<Span>>,
>;

/// The capture groups of each successive match of `pattern` in `text`, as
/// `Regex::captures_iter` yields them.
pub uninterp spec fn all_captures(pattern: Seq<char>, text: Seq<char>) -> Seq<Seq<Option<Span>>>;

/// Whether every span of `spans` is a byte range of `text` that cuts no
/// character, each span ending before the next one starts.
pub open spec fn spans_in_order(text: Seq<char>, spans: Seq<Span>) -> bool {
    &&& forall|i: int|
        0 <= i < spans.len() ==> is_span(text, (#[trigger] spans[i]).0 as int, spans[i].1 as int)
    &&& forall|i: int, j: int|
        0 <= i < j < spans.len() ==> (#[trigger] spans[i]).1 <= (#[trigger] spans[j]).0
}

/// Whether `groups` is what a match reports: the whole match first, and every
/// group that took part a byte range of `text` that cuts no character.
pub open spec fn groups_in_text(text: Seq<char>, groups: Seq<Option<Span>>) -> bool {
    &&& groups.len() >= 1
    &&& groups[0] is Some
    &&& forall|i: int|
        0 <= i < groups.len() ==> ((#[trigger] groups[i]) matches Some(m) ==> is_span(
            text,
            m.0 as int,
            m.1 as int,
        ))
}

/// `Regex::is_match`: whether `pattern` matches anywhere in `text`, which is
/// whether `Regex::find` would report a match.
#[verifier::external_body]
pub(crate) fn has_match(pattern: &str, text: &str) -> (r: bool)
    ensures
        r == (first_match(pattern@, text@) is Some),
{
    match regex::Regex::new(pattern) {
        Ok(re) => re.is_match(text),
        Err(_) => false,
    }
}

/// `Regex::find`: the leftmost match. Its offsets lie in the text, on
/// character boundaries, start before end.
#[verifier::external_body]
pub(crate) fn find_first(pattern: &str, text: &str) -> (r: Option<Span>)
    ensures
        r == first_match(pattern@, text@),
        r matches Some(m) ==> is_span(text@, m.0 as int, m.1 as int),
{
    match regex::Regex::new(pattern) {
        Ok(re) => re.find(text).map(|m| (m.start(), m.end())),
        Err(_) => None,
    }
}

/// `Regex::find_iter`: the successive matches, which do not overlap and come
/// in the order of the text.
#[verifier::external_body]
pub(crate) fn find_all(pattern: &str, text: &str) -> (r: Vec<Span>)
    ensures
        r@ == all_matches(pattern@, text@),
        spans_in_order(text@, r@),
{
    match regex::Regex::new(pattern) {
        Ok(re) => re.find_iter(text).map(|m| (m.start(), m.end())).collect(),
        Err(_) => Vec::new(),
    }
}

/// `Regex::captures`: the groups of the leftmost match, as `Captures::iter`
/// lists them.
#[verifier::external_body]
pub(crate) fn capture_first(pattern: &str, text: &str) -> (r: Option<Vec<Option<Span>>>)
    ensures
        r.deep_view() == first_captures(pattern@, text@),
        r matches Some(groups) ==> groups_in_text(text@, groups@),
{
    match regex::Regex::new(pattern) {
        Ok(re) => re.captures(text).map(
            |c| c.iter().map(|g| g.map(|m| (m.start(), m.end()))).collect(),
        ),
        Err(_) => None,
    }
}

/// `Regex::captures_iter`: the groups of each successive match.
#[verifier::external_body]
pub(crate) fn capture_all(pattern: &str, text: &str) -> (r: Vec<Vec<Option<Span>>>)
    ensures
        r.deep_view() == all_captures(pattern@, text@),
        forall|i: int| 0 <= i < r.len() ==> groups_in_text(text@, (#[trigger] r[i])@),
{
    match regex::Regex::new(pattern) {
        Ok(re) => re.captures_iter(text).map(
            |c| c.iter().map(|g| g.map(|m| (m.start(), m.end()))).collect(),
        ).collect(),
        Err(_) => Vec::new(),
    }
}

/// The parts of `text` that the spans leave out: what precedes the first
/// span, what lies between each two, and what follows the last.
pub open spec fn gaps_of(text: Seq<char>, spans: Seq<Span>) -> Seq<Seq<char>> {
    Seq::new(
        spans.len() + 1,
        |i: int|
            slice_of(
                text,
                if i == 0 {
                    0
                } else {
                    spans[i - 1].1 as int
                },
                if i == spans.len() {
                    bytes_of(text).len() as int
                } else {
                    spans[i].0 as int
                },
            ),
    )
}

/// The parts one after the other, with `with` between each two.
pub open spec fn joined(parts: Seq<Seq<char>>, with: Seq<char>) -> Seq<char>
    decreases parts.len(),
{
    if parts.len() == 0 {
        Seq::empty()
    } else if parts.len() == 1 {
        parts[0]
    } else {
        joined(parts.drop_last(), with) + with + parts.last()
    }
}

/// `text` with each of the spans replaced by `with`.
pub open spec fn spliced(text: Seq<char>, spans: Seq<Span>, with: Seq<char>) -> Seq<char> {
    joined(gaps_of(text, spans), with)
}

/// `Regex::replace_all` with a replacement that is taken literally
/// (`NoExpand`): the text with each successive match of `Regex::find_iter`
/// replaced by `with`, and the text itself where nothing matches.
#[verifier::external_body]
pub(crate) fn replace_each(pattern: &str, text: &str, with: &str) -> (r: String)
    ensures
        r@ == spliced(text@, all_matches(pattern@, text@), with@),
{
    match regex::Regex::new(pattern) {
        Ok(re) => re.replace_all(text, regex::NoExpand(with)).into_owned(),
        Err(_) => text.to_string(),
    }
}

/// The text of each group of a match.
pub open spec fn texts_of(text: Seq<char>, groups: Seq<Option<Span>>) -> Seq<Option<Seq<char>>> {
    Seq::new(
        groups.len(),
        |i: int|
            match groups[i] {
                Some(m) => Some(slice_of(text, m.0 as int, m.1 as int)),
                None => None,
            },
    )
}

/// The text of each group of the leftmost match of `pattern` in `text`.
pub open spec fn capture_texts(pattern: Seq<char>, text: Seq<char>) -> Option<
    Seq<Option<Seq<char>>>,
> {
    match first_captures(pattern, text) {
        Some(groups) => Some(texts_of(text, groups)),
        None => None,
    }
}

/// The text of the leftmost match of `pattern` in `text`.
pub open spec fn match_text(pattern: Seq<char>, text: Seq<char>) -> Option<Seq<char>> {
    match first_match(pattern, text) {
        Some(m) => Some(slice_of(text, m.0 as int, m.1 as int)),
        None => None,
    }
}

/// The text of each group of a match in `text`.
pub fn group_texts(text: &str, groups: &Vec<Option<Span>>) -> (r: Vec<Option<String>>)
    requires
        groups_in_text(text@, groups@),
    ensures
        r.deep_view() == texts_of(text@, groups@),
{
    let mut out: Vec<Option<String>> = Vec::new();
    let mut i: usize = 0;
    while i < groups.len()
        invariant
            i <= groups.len(),
            groups_in_text(text@, groups@),
            out.len() == i,
            forall|k: int|
                0 <= k < i ==> (#[trigger] out[k]).deep_view() == texts_of(text@, groups@)[k],
        decreases groups.len() - i,
    {
        let item = match groups[i] {
            Some(m) => Some(owned(substr(text, m.0, m.1))),
            None => None,
        };
        out.push(item);
        i += 1;
    }
    assert(out.deep_view() =~= texts_of(text@, groups@));
    out
}

/// The text of each group of the leftmost match of `pattern` in `text`.
pub fn captured(pattern: &str, text: &str) -> (r: Option<Vec<Option<String>>>)
    ensures
        r.deep_view() == capture_texts(pattern@, text@),
{
    match capture_first(pattern, text) {
        Some(groups) => Some(group_texts(text, &groups)),
        None => None,
    }
}

/// The text of the leftmost match of `pattern` in `text`.
pub fn first_text(pattern: &str, text: &str) -> (r: Option<String>)
    ensures
        r.deep_view() == match_text(pattern@, text@),
{
    match find_first(pattern, text) {
        Some(m) => Some(owned(substr(text, m.0, m.1))),
        None => None,
    }
}

/// The texts of the groups 0 to `required` of a match with `total` groups
/// besides the whole match, where all of them took part in it.
pub open spec fn leading_groups(
    groups: Option<Seq<Option<Seq<char>>>>,
    required: int,
    total: int,
) -> Option<Seq<Seq<char>>> {
    match groups {
        Some(g) => if g.len() == total + 1 && 0 <= required <= total && (forall|i: int|
            0 <= i <= required ==> (#[trigger] g[i]) is Some) {
            Some(Seq::new((required + 1) as nat, |i: int| g[i]->0))
        } else {
            None
        },
        None => None,
    }
}

/// The texts of the groups 0 to `required` of a match, where the match has
/// `total` groups besides the whole match and all of them took part in it.
pub fn required_groups(groups: &Option<Vec<Option<String>>>, required: usize, total: usize) -> (r:
    Option<Vec<String>>)
    ensures
        r.deep_view() == leading_groups(groups.deep_view(), required as int, total as int),
        r matches Some(v) ==> v.len() == required + 1,
{
    match groups {
        Some(g) => {
            assert(g.deep_view().len() == g.len());
            if required > total || total == usize::MAX || g.len() != total + 1 {
                return None;
            }
            let mut out: Vec<String> = Vec::new();
            let mut i: usize = 0;
            while i <= required
                invariant
                    i <= required + 1,
                    required <= total,
                    g.len() == total + 1,
                    groups.deep_view() == Some(g.deep_view()),
                    out.len() == i,
                    forall|k: int| 0 <= k < i ==> (#[trigger] g.deep_view()[k]) is Some,
                    forall|k: int| 0 <= k < i ==> (#[trigger] out[k])@ == g.deep_view()[k]->0,
                decreases required + 1 - i,
            {
                match &g[i] {
                    Some(t) => {
                        out.push(t.clone());
                    },
                    None => {
                        assert(g.deep_view()[i as int] is None);
                        return None;
                    },
                }
                i += 1;
            }
            assert(out.deep_view() =~= Seq::new(
                (required + 1) as nat,
                |i: int| g.deep_view()[i]->0,
            ));
            Some(out)
        },
        None => None,
    }
}

} // verus!
