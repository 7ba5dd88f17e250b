//! The filter pipeline: severity threshold and text match, with a fuzzy
//! fallback, then time range, then structural similarity. Fuzzy matching is
//! done by the `nucleo-matcher` crate.

use crate::level::LogLevel;
use crate::record::{records_of, ParsedLine, Record};
use crate::instant::Instant;
use crate::seqs::{
    ascending_below, both, lemma_filter_ascending, lemma_filter_narrower, lemma_filter_twice,
    lemma_positions_ascending, positions,
};
use crate::text::{contains_text, lowercase, occurs_in, same_text, to_lower};
use crate::timeindex::{filter_by_time_range, time_test, TimeIndex, TimeRange};
use vstd::prelude::*;
use vstd::std_specs::iter::IteratorSpec;
use vstd::string::StrSliceExecFns;

verus! {

/// The records that pass a filter, by their places in ascending order, and
/// whether they were found by fuzzy matching.
#[derive(Debug, Clone)]
pub struct FilterResult {
    pub indices: Vec<usize>,
    pub is_fuzzy: bool,
}

/// What a [`FilterResult`] holds, as mathematical values.
pub struct Filtered {
    pub indices: Seq<usize>,
    pub is_fuzzy: bool,
}

impl View for FilterResult {
    type V = Filtered;

    open spec fn view(&self) -> Filtered {
        Filtered { indices: self.indices@, is_fuzzy: self.is_fuzzy }
    }
}

/// The score that `Pattern::score` of `nucleo-matcher` gives `text` under
/// the fuzzy pattern `pattern`, case ignored; none where the text does not
/// match.
pub uninterp spec fn fuzzy_score_of(pattern: Seq<char>, text: Seq<char>) -> Option<u32>;

/// The longest text, in characters, that the fuzzy matcher takes.
pub const FUZZY_LIMIT: usize = 0xffff_ffff;

/// The most that a word of a fuzzy pattern may weigh. The matcher adds up
/// the score of a word in 16 bits: at most 26 for each character that it
/// takes and 10 more for the first, so 2520 characters stay below its limit
/// and 2521 may pass it.
pub const WORD_LIMIT: usize = 2520;

/// The longest fuzzy pattern, in characters, that is handed to the matcher.
/// It adds up the scores of the words in 32 bits: at most 36 for each
/// character that it takes, of which there are at most two for a character
/// of the pattern.
pub const PATTERN_LIMIT: usize = 59_652_323;

/// What a character of a pattern adds to the weight of its word: the most
/// characters that the matcher takes for it. It may take a backslash twice.
pub open spec fn weight_of(c: char) -> nat {
    if c == '\\' {
        2
    } else {
        1
    }
}

/// Whether the character at `i` parts two words of a fuzzy pattern: it is a
/// space, and no backslash stands before it.
pub open spec fn parts_words(pattern: Seq<char>, i: int) -> bool {
    pattern[i] == ' ' && (i == 0 || pattern[i - 1] != '\\')
}

/// The weight of the word that the first `upto` characters of a pattern end
/// in: that of the characters after the last one that parts two words.
pub open spec fn open_word(pattern: Seq<char>, upto: int) -> nat
    decreases upto,
{
    if upto <= 0 || upto > pattern.len() {
        0
    } else if parts_words(pattern, upto - 1) {
        0
    } else {
        open_word(pattern, upto - 1) + weight_of(pattern[upto - 1])
    }
}

/// The weight of the heaviest word among the first `upto` characters of a
/// pattern.
pub open spec fn heaviest_word(pattern: Seq<char>, upto: int) -> nat
    decreases upto,
{
    if upto <= 0 {
        0
    } else {
        let before = heaviest_word(pattern, upto - 1);
        let now = open_word(pattern, upto);
        if now > before {
            now
        } else {
            before
        }
    }
}

/// Whether the fuzzy matcher can take the pattern: it has no more than
/// `PATTERN_LIMIT` characters, and none of its words weighs more than
/// `WORD_LIMIT`.
pub open spec fn pattern_fits(pattern: Seq<char>) -> bool {
    pattern.len() <= PATTERN_LIMIT && heaviest_word(pattern, pattern.len() as int) <= WORD_LIMIT
}

/// Whether the fuzzy matcher can take the pattern and the text.
pub open spec fn matchable(pattern: Seq<char>, text: Seq<char>) -> bool {
    pattern_fits(pattern) && text.len() <= FUZZY_LIMIT
}

/// The fuzzy score of a text under a pattern where the matcher can take
/// both; none where it cannot.
pub open spec fn score_within(pattern: Seq<char>, text: Seq<char>) -> Option<u32> {
    if matchable(pattern, text) {
        fuzzy_score_of(pattern, text)
    } else {
        None
    }
}

/// `Pattern::new` with `CaseMatching::Ignore`, `Normalization::Smart` and
/// `AtomKind::Fuzzy`, and `Pattern::score` on the text with a matcher of the
/// default configuration. The matcher refuses a text of more than `u32::MAX`
/// characters; its score of a word, in 16 bits, can overflow on a word of
/// which it takes more than `WORD_LIMIT` characters, and its sum of these
/// scores, in 32 bits, on a pattern of more than `PATTERN_LIMIT` characters:
/// all three are left out.
#[verifier::external_body]
pub(crate) fn fuzzy_score(pattern: &str, text: &str) -> (r: Option<u32>)
    requires
        matchable(pattern@, text@),
    ensures
        r == fuzzy_score_of(pattern@, text@),
{
    let mut matcher = nucleo_matcher::Matcher::new(nucleo_matcher::Config::DEFAULT);
    let pat = nucleo_matcher::pattern::Pattern::new(
        pattern,
        nucleo_matcher::pattern::CaseMatching::Ignore,
        nucleo_matcher::pattern::Normalization::Smart,
        nucleo_matcher::pattern::AtomKind::Fuzzy,
    );
    let mut buf = Vec::new();
    pat.score(nucleo_matcher::Utf32Str::new(text, &mut buf), &mut matcher)
}

/// Whether a record passes the severity threshold: there is no threshold,
/// or the record has no severity, or its severity is at least the threshold.
pub open spec fn passes_level(record: Record, min_level: Option<LogLevel>) -> bool {
    match (min_level, record.level) {
        (Some(min), Some(level)) => level.rank() >= min.rank(),
        _ => true,
    }
}

/// Whether the line of a record holds the pattern, case ignored.
pub open spec fn holds_text(record: Record, pattern: Seq<char>) -> bool {
    occurs_in(lowercase(record.raw), lowercase(pattern))
}

/// Whether the line of a record matches the pattern fuzzily. Nothing
/// matches a pattern that the matcher cannot take.
pub open spec fn holds_fuzzily(record: Record, pattern: Seq<char>) -> bool {
    score_within(pattern, record.raw) is Some
}

/// The severity test on the places of `records`.
pub open spec fn level_test(records: Seq<Record>, min_level: Option<LogLevel>) -> spec_fn(
    usize,
) -> bool {
    |i: usize| i < records.len() && passes_level(records[i as int], min_level)
}

/// The exact text test on the places of `records`.
pub open spec fn exact_test(records: Seq<Record>, pattern: Seq<char>) -> spec_fn(usize) -> bool {
    |i: usize| i < records.len() && holds_text(records[i as int], pattern)
}

/// The fuzzy text test on the places of `records`.
pub open spec fn fuzzy_test(records: Seq<Record>, pattern: Seq<char>) -> spec_fn(usize) -> bool {
    |i: usize| i < records.len() && holds_fuzzily(records[i as int], pattern)
}

/// The similarity test on the places of `records`: the template of the
/// record is `template`.
pub open spec fn template_test(records: Seq<Record>, template: Seq<char>) -> spec_fn(
    usize,
) -> bool {
    |i: usize| i < records.len() && records[i as int].template == template
}

/// The places of the records that pass the severity threshold.
pub open spec fn admissible(records: Seq<Record>, min_level: Option<LogLevel>) -> Seq<usize> {
    positions(records.len()).filter(level_test(records, min_level))
}

/// The admissible records whose line holds the pattern, case ignored.
pub open spec fn exact_pass(
    records: Seq<Record>,
    pattern: Seq<char>,
    min_level: Option<LogLevel>,
) -> Seq<usize> {
    admissible(records, min_level).filter(exact_test(records, pattern))
}

/// The admissible records whose line matches the pattern fuzzily.
pub open spec fn fuzzy_pass(
    records: Seq<Record>,
    pattern: Seq<char>,
    min_level: Option<LogLevel>,
) -> Seq<usize> {
    admissible(records, min_level).filter(fuzzy_test(records, pattern))
}

/// The result of the text and severity filter. An empty pattern keeps all
/// the admissible records. Else the exact pass is the result where it keeps
/// any record; the fuzzy pass is the result only where the exact pass keeps
/// none, and the result is fuzzy where the fuzzy pass keeps any.
pub open spec fn filtered(
    records: Seq<Record>,
    pattern: Seq<char>,
    min_level: Option<LogLevel>,
) -> Filtered {
    if pattern.len() == 0 {
        Filtered { indices: admissible(records, min_level), is_fuzzy: false }
    } else if exact_pass(records, pattern, min_level).len() > 0 {
        Filtered { indices: exact_pass(records, pattern, min_level), is_fuzzy: false }
    } else {
        Filtered {
            indices: fuzzy_pass(records, pattern, min_level),
            is_fuzzy: fuzzy_pass(records, pattern, min_level).len() > 0,
        }
    }
}

/// The heaviest word of a pattern is no lighter than that of a head of it.
pub proof fn lemma_heaviest_grows(pattern: Seq<char>, upto: int, to: int)
    requires
        upto <= to,
    ensures
        heaviest_word(pattern, upto) <= heaviest_word(pattern, to),
    decreases to - upto,
{
    if upto < to {
        lemma_heaviest_grows(pattern, upto, to - 1);
    }
}

/// Whether the fuzzy matcher can take the pattern.
pub fn fits_matcher(pattern: &str) -> (r: bool)
    ensures
        r == pattern_fits(pattern@),
{
    broadcast use {vstd::string::axiom_spec_iter, vstd::string::next_postcondition};

    if pattern.unicode_len() > PATTERN_LIMIT {
        return false;
    }
    let mut rest = pattern.chars();
    let mut open: usize = 0;
    let mut escaped = false;
    let ghost mut done: int = 0;
    let ghost len = pattern@.len() as int;
    proof {
        assert(pattern@.subrange(0, len) =~= pattern@);
    }
    loop
        invariant
            len == pattern@.len(),
            len <= PATTERN_LIMIT,
            0 <= done <= len,
            rest.remaining() == pattern@.subrange(done, len),
            open == open_word(pattern@, done),
            open <= WORD_LIMIT,
            heaviest_word(pattern@, done) <= WORD_LIMIT,
            escaped == (done > 0 && pattern@[done - 1] == '\\'),
        decreases len - done,
    {
        let ghost before = rest;
        match rest.next() {
            Some(c) => {
                proof {
                    assert(before.remaining().len() > 0);
                    assert(c == pattern@[done]);
                    assert(rest.remaining() =~= pattern@.subrange(done + 1, len));
                }
                if c == ' ' && !escaped {
                    open = 0;
                } else if c == '\\' {
                    open = open + 2;
                } else {
                    open = open + 1;
                }
                escaped = c == '\\';
                proof {
                    done = done + 1;
                }
                if open > WORD_LIMIT {
                    proof {
                        lemma_heaviest_grows(pattern@, done, len);
                    }
                    return false;
                }
            },
            None => {
                proof {
                    assert(before.remaining().len() == 0);
                    assert(done == len);
                }
                return true;
            },
        }
    }
}

/// The fuzzy score of a text under a pattern of which it is known whether
/// the matcher can take it.
pub fn score_where(fits: bool, pattern: &str, text: &str) -> (r: Option<u32>)
    requires
        fits == pattern_fits(pattern@),
    ensures
        r == score_within(pattern@, text@),
{
    if fits && text.unicode_len() <= FUZZY_LIMIT {
        fuzzy_score(pattern, text)
    } else {
        None
    }
}

/// The fuzzy score of a text under a pattern; none where the text does not
/// match, and none where the matcher cannot take the pattern or the text.
pub fn fuzzy_score_within(pattern: &str, text: &str) -> (r: Option<u32>)
    ensures
        r == score_within(pattern@, text@),
{
    score_where(fits_matcher(pattern), pattern, text)
}

/// Whether a line passes the severity threshold.
pub fn level_ok(line: &ParsedLine, min_level: Option<LogLevel>) -> (r: bool)
    ensures
        r == passes_level(line@, min_level),
{
    match (min_level, line.level) {
        (Some(min), Some(level)) => level.at_least(min),
        _ => true,
    }
}

/// The places of the lines that pass the severity threshold.
pub fn admissible_lines(lines: &[ParsedLine], min_level: Option<LogLevel>) -> (r: Vec<usize>)
    ensures
        r@ == admissible(records_of(lines@), min_level),
{
    let mut out: Vec<usize> = Vec::new();
    let mut i: usize = 0;
    let ghost records = records_of(lines@);
    let ghost all = positions(records.len());
    let ghost test = level_test(records, min_level);
    proof {
        reveal(Seq::filter);
        assert(all.subrange(0, 0) =~= Seq::empty());
    }
    while i < lines.len()
        invariant
            i <= lines.len(),
            records == records_of(lines@),
            all == positions(records.len()),
            test == level_test(records, min_level),
            out@ == all.subrange(0, i as int).filter(test),
        decreases lines.len() - i,
    {
        proof {
            reveal(Seq::filter);
            let upto = all.subrange(0, i + 1);
            assert(upto.drop_last() =~= all.subrange(0, i as int));
            assert(upto.last() == i);
        }
        if level_ok(&lines[i], min_level) {
            out.push(i);
        }
        i += 1;
    }
    proof {
        assert(all.subrange(0, lines.len() as int) =~= all);
    }
    out
}

/// The candidates whose line holds the pattern, case ignored.
pub fn exact_matches(lines: &[ParsedLine], pattern: &str, candidates: &Vec<usize>) -> (r: Vec<
    usize,
>)
    ensures
        r@ == candidates@.filter(exact_test(records_of(lines@), pattern@)),
{
    let pattern_lower = to_lower(pattern);
    let mut out: Vec<usize> = Vec::new();
    let mut k: usize = 0;
    let ghost test = exact_test(records_of(lines@), pattern@);
    proof {
        reveal(Seq::filter);
        assert(candidates@.subrange(0, 0) =~= Seq::empty());
    }
    while k < candidates.len()
        invariant
            k <= candidates.len(),
            test == exact_test(records_of(lines@), pattern@),
            pattern_lower@ == lowercase(pattern@),
            out@ == candidates@.subrange(0, k as int).filter(test),
        decreases candidates.len() - k,
    {
        let i = candidates[k];
        proof {
            reveal(Seq::filter);
            let upto = candidates@.subrange(0, k + 1);
            assert(upto.drop_last() =~= candidates@.subrange(0, k as int));
            assert(upto.last() == i);
        }
        if i < lines.len() {
            let raw_lower = to_lower(lines[i].raw.as_str());
            if contains_text(raw_lower.as_str(), pattern_lower.as_str()) {
                out.push(i);
            }
        }
        k += 1;
    }
    proof {
        assert(candidates@.subrange(0, candidates.len() as int) =~= candidates@);
    }
    out
}

/// The candidates whose line matches the pattern fuzzily.
pub fn fuzzy_matches_of(lines: &[ParsedLine], pattern: &str, candidates: &Vec<usize>) -> (r: Vec<
    usize,
>)
    ensures
        r@ == candidates@.filter(fuzzy_test(records_of(lines@), pattern@)),
{
    let fits = fits_matcher(pattern);
    let mut out: Vec<usize> = Vec::new();
    let mut k: usize = 0;
    let ghost test = fuzzy_test(records_of(lines@), pattern@);
    proof {
        reveal(Seq::filter);
        assert(candidates@.subrange(0, 0) =~= Seq::empty());
    }
    while k < candidates.len()
        invariant
            k <= candidates.len(),
            fits == pattern_fits(pattern@),
            test == fuzzy_test(records_of(lines@), pattern@),
            out@ == candidates@.subrange(0, k as int).filter(test),
        decreases candidates.len() - k,
    {
        let i = candidates[k];
        proof {
            reveal(Seq::filter);
            let upto = candidates@.subrange(0, k + 1);
            assert(upto.drop_last() =~= candidates@.subrange(0, k as int));
            assert(upto.last() == i);
        }
        if i < lines.len() {
            if score_where(fits, pattern, lines[i].raw.as_str()).is_some() {
                out.push(i);
            }
        }
        k += 1;
    }
    proof {
        assert(candidates@.subrange(0, candidates.len() as int) =~= candidates@);
    }
    out
}

/// The lines that pass the severity threshold and match the pattern: by
/// their places, in the order of the lines. A line matches where it holds
/// the pattern, case ignored. Only where no admissible line does, the lines
/// that match the pattern fuzzily are the result; a pattern that the
/// matcher cannot take, for a word of more than `WORD_LIMIT` characters,
/// matches no line fuzzily. Lines without a severity pass every threshold.
pub fn filter_lines(lines: &[ParsedLine], pattern: &str, min_level: Option<LogLevel>) -> (r:
    FilterResult)
    ensures
        r@ == filtered(records_of(lines@), pattern@, min_level),
        ascending_below(r.indices@, lines.len() as int),
        pattern@.len() > 0 && exact_pass(records_of(lines@), pattern@, min_level).len() > 0
            ==> !r.is_fuzzy && r.indices@ == exact_pass(records_of(lines@), pattern@, min_level),
{
    let ghost records = records_of(lines@);
    let candidates = admissible_lines(lines, min_level);
    proof {
        lemma_positions_ascending(records.len());
        lemma_filter_ascending(
            positions(records.len()),
            level_test(records, min_level),
            lines.len() as int,
        );
        lemma_filter_ascending(candidates@, exact_test(records, pattern@), lines.len() as int);
        lemma_filter_ascending(candidates@, fuzzy_test(records, pattern@), lines.len() as int);
    }
    if pattern.is_empty() {
        return FilterResult { indices: candidates, is_fuzzy: false };
    }
    let exact = exact_matches(lines, pattern, &candidates);
    if exact.len() > 0 {
        return FilterResult { indices: exact, is_fuzzy: false };
    }
    let fuzzy = fuzzy_matches_of(lines, pattern, &candidates);
    let is_fuzzy = fuzzy.len() > 0;
    FilterResult { indices: fuzzy, is_fuzzy }
}

/// The candidates whose line has the given template.
pub fn filter_by_template(lines: &[ParsedLine], template: &str, indices: &[usize]) -> (r: Vec<
    usize,
>)
    ensures
        r@ == indices@.filter(template_test(records_of(lines@), template@)),
{
    let mut out: Vec<usize> = Vec::new();
    let mut k: usize = 0;
    let ghost test = template_test(records_of(lines@), template@);
    proof {
        reveal(Seq::filter);
        assert(indices@.subrange(0, 0) =~= Seq::empty());
    }
    while k < indices.len()
        invariant
            k <= indices.len(),
            test == template_test(records_of(lines@), template@),
            out@ == indices@.subrange(0, k as int).filter(test),
        decreases indices.len() - k,
    {
        let i = indices[k];
        proof {
            reveal(Seq::filter);
            let upto = indices@.subrange(0, k + 1);
            assert(upto.drop_last() =~= indices@.subrange(0, k as int));
            assert(upto.last() == i);
        }
        if i < lines.len() && same_text(lines[i].template.as_str(), template) {
            out.push(i);
        }
        k += 1;
    }
    proof {
        assert(indices@.subrange(0, indices.len() as int) =~= indices@);
    }
    out
}

/// What is left of a result after the time range and the template are
/// applied, in that order, each where there is one.
pub open spec fn narrowed(
    records: Seq<Record>,
    resolved: Seq<Option<Instant>>,
    found: Filtered,
    range: Option<TimeRange>,
    template: Option<Seq<char>>,
) -> Filtered {
    let by_time = match range {
        Some(r) => found.indices.filter(time_test(resolved, r)),
        None => found.indices,
    };
    Filtered {
        indices: match template {
            Some(t) => by_time.filter(template_test(records, t)),
            None => by_time,
        },
        is_fuzzy: found.is_fuzzy,
    }
}

/// The time range that applies: there is one only where there are both an
/// index and a range.
pub open spec fn range_in_force(index: Option<&TimeIndex>, range: Option<&TimeRange>) -> Option<
    TimeRange,
> {
    match (index, range) {
        (Some(_), Some(r)) => Some(*r),
        _ => None,
    }
}

/// The instants that the time range is held against.
pub open spec fn instants_of(index: Option<&TimeIndex>) -> Seq<Option<Instant>> {
    match index {
        Some(i) => i.resolved(),
        None => Seq::empty(),
    }
}

/// The whole filter: text and severity, then the time range where there are
/// an index and a range, then the template where one is given. The result is
/// fuzzy where the text filter was.
pub fn apply_filters(
    lines: &[ParsedLine],
    pattern: &str,
    min_level: Option<LogLevel>,
    index: Option<&TimeIndex>,
    range: Option<&TimeRange>,
    template: Option<&str>,
) -> (r: FilterResult)
    ensures
        r@ == narrowed(
            records_of(lines@),
            instants_of(index),
            filtered(records_of(lines@), pattern@, min_level),
            range_in_force(index, range),
            match template {
                Some(t) => Some(t@),
                None => None,
            },
        ),
        ascending_below(r.indices@, lines.len() as int),
{
    let found = filter_lines(lines, pattern, min_level);
    let mut indices = found.indices;
    match (index, range) {
        (Some(i), Some(r)) => {
            proof {
                lemma_filter_ascending(indices@, time_test(i.resolved(), *r), lines.len() as int);
            }
            indices = filter_by_time_range(i, r, indices.as_slice());
        },
        _ => {},
    }
    match template {
        Some(t) => {
            proof {
                lemma_filter_ascending(
                    indices@,
                    template_test(records_of(lines@), t@),
                    lines.len() as int,
                );
            }
            indices = filter_by_template(lines, t, indices.as_slice());
        },
        None => {},
    }
    FilterResult { indices, is_fuzzy: found.is_fuzzy }
}

/// Whether the threshold `higher` lets pass no record that `lower` stops.
pub open spec fn at_least_as_strict(higher: Option<LogLevel>, lower: Option<LogLevel>) -> bool {
    match (lower, higher) {
        (None, _) => true,
        (Some(l), Some(h)) => l.rank() <= h.rank(),
        (Some(_), None) => false,
    }
}

/// One more test on two results of which one is narrower leaves one
/// narrower.
pub proof fn lemma_one_more_test(
    s: Seq<usize>,
    p: spec_fn(usize) -> bool,
    q: spec_fn(usize) -> bool,
    t: spec_fn(usize) -> bool,
)
    requires
        forall|i: int| 0 <= i < s.len() ==> (p(#[trigger] s[i]) ==> q(s[i])),
    ensures
        s.filter(p).filter(t) == s.filter(both(p, t)),
        s.filter(q).filter(t) == s.filter(both(q, t)),
        forall|i: int| 0 <= i < s.len() ==> (both(p, t)(#[trigger] s[i]) ==> both(q, t)(s[i])),
        s.filter(p).filter(t).len() <= s.filter(q).filter(t).len(),
{
    lemma_filter_twice(s, p, t);
    lemma_filter_twice(s, q, t);
    lemma_filter_narrower(s, both(p, t), both(q, t));
}

/// Time range and template leave the narrower of two results no longer than
/// the other.
pub proof fn lemma_narrowed_monotone(
    records: Seq<Record>,
    resolved: Seq<Option<Instant>>,
    s: Seq<usize>,
    p: spec_fn(usize) -> bool,
    q: spec_fn(usize) -> bool,
    a: Filtered,
    b: Filtered,
    range: Option<TimeRange>,
    template: Option<Seq<char>>,
)
    requires
        a.indices == s.filter(p),
        b.indices == s.filter(q),
        forall|i: int| 0 <= i < s.len() ==> (p(#[trigger] s[i]) ==> q(s[i])),
    ensures
        narrowed(records, resolved, a, range, template).indices.len() <= narrowed(
            records,
            resolved,
            b,
            range,
            template,
        ).indices.len(),
{
    lemma_filter_narrower(s, p, q);
    match range {
        Some(r) => {
            let t = time_test(resolved, r);
            lemma_one_more_test(s, p, q, t);
            match template {
                Some(m) => {
                    lemma_one_more_test(s, both(p, t), both(q, t), template_test(records, m));
                },
                None => {},
            }
        },
        None => {
            match template {
                Some(m) => {
                    lemma_one_more_test(s, p, q, template_test(records, m));
                },
                None => {},
            }
        },
    }
}

/// Raising the severity threshold never lets more records through, the
/// pattern, the time range and the template staying as they are, unless the
/// raise turns an exact result into a fuzzy one: with a higher threshold the
/// exact pass may come up empty where it did not before, and the fuzzy pass
/// that then takes its place may keep more records than the exact pass did.
pub proof fn lemma_filter_monotone(
    records: Seq<Record>,
    resolved: Seq<Option<Instant>>,
    pattern: Seq<char>,
    lower: Option<LogLevel>,
    higher: Option<LogLevel>,
    range: Option<TimeRange>,
    template: Option<Seq<char>>,
)
    requires
        at_least_as_strict(higher, lower),
    ensures
        ({
            let low = narrowed(records, resolved, filtered(records, pattern, lower), range, template);
            let high = narrowed(
                records,
                resolved,
                filtered(records, pattern, higher),
                range,
                template,
            );
            high.indices.len() <= low.indices.len() || (high.is_fuzzy && !low.is_fuzzy)
        }),
{
    let s = positions(records.len());
    let lp = level_test(records, higher);
    let lq = level_test(records, lower);
    assert forall|i: int| 0 <= i < s.len() && lp(#[trigger] s[i]) implies lq(s[i]) by {}
    let e = exact_test(records, pattern);
    let f = fuzzy_test(records, pattern);
    lemma_one_more_test(s, lp, lq, e);
    lemma_one_more_test(s, lp, lq, f);
    let found_low = filtered(records, pattern, lower);
    let found_high = filtered(records, pattern, higher);
    if pattern.len() == 0 {
        lemma_narrowed_monotone(records, resolved, s, lp, lq, found_high, found_low, range, template);
    } else if exact_pass(records, pattern, higher).len() > 0 {
        lemma_narrowed_monotone(
            records,
            resolved,
            s,
            both(lp, e),
            both(lq, e),
            found_high,
            found_low,
            range,
            template,
        );
    } else if exact_pass(records, pattern, lower).len() > 0 {
        if fuzzy_pass(records, pattern, higher).len() == 0 {
            reveal(Seq::filter);
            let none = found_high.indices;
            assert(none =~= Seq::empty());
            assert(narrowed(records, resolved, found_high, range, template).indices.len() == 0) by {
                match range {
                    Some(r) => {
                        none.lemma_filter_len(time_test(resolved, r));
                        match template {
                            Some(m) => {
                                none.filter(time_test(resolved, r)).lemma_filter_len(
                                    template_test(records, m),
                                );
                            },
                            None => {},
                        }
                    },
                    None => {
                        match template {
                            Some(m) => {
                                none.lemma_filter_len(template_test(records, m));
                            },
                            None => {},
                        }
                    },
                }
            }
        }
    } else {
        lemma_narrowed_monotone(
            records,
            resolved,
            s,
            both(lp, f),
            both(lq, f),
            found_high,
            found_low,
            range,
            template,
        );
    }
}

} // verus!
