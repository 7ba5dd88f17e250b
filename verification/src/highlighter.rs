//! The inline tokenizer and the styling of lines.

use crate::pattern::{
    all_captures, all_matches, capture_all, find_all, find_first, first_match, groups_in_text,
    Span as ByteSpan,
};
use crate::level::LogLevel;
use crate::parser::{join3, LEVEL_PATTERN};
use crate::record::{LogFormat, ParsedLine, Record};
use crate::source::{lines_of, split_lines};
use crate::style::{
    extend_spans, lemma_piece_offsets, lemma_text_concat, offset_of, pieces_of, push_span,
    text_of_pieces, Color, Line, Modifier, Piece, Span, Style,
};
use crate::text::{
    byte_len, bytes_of, decimal_of, find_bytes, first_from, is_span, lemma_slice_ends,
    lemma_slice_join, lemma_text_ends, lowercase, owned, parse_decimal, slice_of, span_ok, substr,
    to_lower,
};
use vstd::prelude::*;
use vstd::string::StringExecFns;

verus! {

/// What a token is, for the action that a click on it offers.
#[derive(Debug, Clone, Copy, PartialEq, Eq, Structural)]
pub enum TokenKind {
    Url,
    Ip,
    Uuid,
    Path,
    HttpMethod,
    Process,
    KeyValue,
    QuotedString,
    Other,
}

/// A token of a text: the byte range it takes, its style and its kind.
#[derive(Debug, Clone, Copy, PartialEq, Eq, Structural)]
pub struct MatchRegion {
    pub start: usize,
    pub end: usize,
    pub style: Style,
    pub kind: TokenKind,
}

/// A URL of the web.
pub const URL_PATTERN: &'static str = r#"https?://[^\s,\]>)"']+"#;

/// A UUID, in either case.
pub const UUID_PATTERN: &'static str =
    r"(?i)\b[0-9a-f]{8}-[0-9a-f]{4}-[0-9a-f]{4}-[0-9a-f]{4}-[0-9a-f]{12}\b";

/// An IPv6 address: in full, shortened, the loopback, or a local link.
pub const IPV6_PATTERN: &'static str =
    r"(?i)\b(?:[0-9a-f]{1,4}:){7}[0-9a-f]{1,4}\b|(?i)\b(?:[0-9a-f]{1,4}:){1,7}:|(?i)\b(?:[0-9a-f]{1,4}:){1,6}:[0-9a-f]{1,4}\b|(?i)::(?:[0-9a-f]{1,4}:){0,5}[0-9a-f]{1,4}\b|\b::1\b|\b::\b";

/// An IPv4 address, each of its four numbers a group, with a port or
/// without.
pub const IPV4_PATTERN: &'static str = r"\b(\d{1,3})\.(\d{1,3})\.(\d{1,3})\.(\d{1,3})(?::\d{1,5})?\b";

/// A memory address in hexadecimal.
pub const POINTER_PATTERN: &'static str = r"\b0x[0-9a-fA-F]{4,16}\b";

/// A Unix path of two segments or more.
pub const PATH_PATTERN: &'static str = r"(?:\./|~/|/)[\w.\-]+(?:/[\w.\-]+)+";

/// A process with its id: `name[pid]`.
pub const PROCESS_PATTERN: &'static str = r"\b[a-zA-Z][\w.\-]*\[\d+\]";

/// A method of HTTP.
pub const HTTP_METHOD_PATTERN: &'static str = r"\b(?:GET|POST|PUT|DELETE|PATCH|HEAD|OPTIONS)\b";

/// The key of a `key=value` pair, as a group, with its `=`.
pub const KEY_VALUE_PATTERN: &'static str = r"(?:^|\s)(\w[\w.]*)=";

/// A string between double quotes.
pub const QUOTED_PATTERN: &'static str = r#""[^"]{1,200}""#;

/// A constant such as `true` or `null`.
pub const KEYWORD_PATTERN: &'static str = r"(?i)\b(?:true|false|null|nil|none|undefined|NaN)\b";

/// A version number of three parts.
pub const VERSION_PATTERN: &'static str = r"\bv?\d+\.\d+\.\d+\b";

/// A protocol version such as `HTTP/1.1`.
pub const PROTOCOL_PATTERN: &'static str = r"HTTP/\d+(?:\.\d+)?";

/// A date, with a time of day or without.
pub const DATE_PATTERN: &'static str =
    r"\b\d{4}-\d{2}-\d{2}(?:[T ]\d{2}:\d{2}:\d{2}(?:[.,]\d+)?(?:Z|[+\-]\d{2}:?\d{2})?)?";

/// A number of two digits or more, or with a unit or a percent sign, or with
/// a decimal point.
pub const NUMBER_PATTERN: &'static str =
    r"\b(?:\d+(?:\.\d+)?(?:ns|µs|us|ms|s|m|h|d|KB|MB|GB|TB|B)\b|\d+(?:\.\d+)?%|\d{2,}(?:\.\d+)?\b|\d+\.\d+\b)";

/// The recognizers of the tokenizer, written here in the order in which
/// they have their turn: the more specific a pattern, the earlier. Numbers
/// come last, so that they take no digit of an address, an identifier, a
/// version or a date.
#[derive(Debug, Clone, Copy, PartialEq, Eq, Structural)]
pub enum Recognizer {
    Url,
    Uuid,
    Ipv6,
    Ipv4,
    Pointer,
    Path,
    Process,
    HttpMethod,
    KeyValue,
    Quoted,
    Keyword,
    Version,
    Protocol,
    Date,
    Number,
}

/// The number of recognizers.
pub const RECOGNIZER_COUNT: usize = 15;

/// The recognizer that has the turn `turn`.
pub open spec fn recognizer_at(turn: int) -> Recognizer {
    if turn <= 0 {
        Recognizer::Url
    } else if turn == 1 {
        Recognizer::Uuid
    } else if turn == 2 {
        Recognizer::Ipv6
    } else if turn == 3 {
        Recognizer::Ipv4
    } else if turn == 4 {
        Recognizer::Pointer
    } else if turn == 5 {
        Recognizer::Path
    } else if turn == 6 {
        Recognizer::Process
    } else if turn == 7 {
        Recognizer::HttpMethod
    } else if turn == 8 {
        Recognizer::KeyValue
    } else if turn == 9 {
        Recognizer::Quoted
    } else if turn == 10 {
        Recognizer::Keyword
    } else if turn == 11 {
        Recognizer::Version
    } else if turn == 12 {
        Recognizer::Protocol
    } else if turn == 13 {
        Recognizer::Date
    } else {
        Recognizer::Number
    }
}

/// The recognizer that has the turn `turn`.
pub fn recognizer(turn: usize) -> (r: Recognizer)
    ensures
        r == recognizer_at(turn as int),
{
    if turn == 0 {
        Recognizer::Url
    } else if turn == 1 {
        Recognizer::Uuid
    } else if turn == 2 {
        Recognizer::Ipv6
    } else if turn == 3 {
        Recognizer::Ipv4
    } else if turn == 4 {
        Recognizer::Pointer
    } else if turn == 5 {
        Recognizer::Path
    } else if turn == 6 {
        Recognizer::Process
    } else if turn == 7 {
        Recognizer::HttpMethod
    } else if turn == 8 {
        Recognizer::KeyValue
    } else if turn == 9 {
        Recognizer::Quoted
    } else if turn == 10 {
        Recognizer::Keyword
    } else if turn == 11 {
        Recognizer::Version
    } else if turn == 12 {
        Recognizer::Protocol
    } else if turn == 13 {
        Recognizer::Date
    } else {
        Recognizer::Number
    }
}

/// Whether a text writes a number from 0 to 255 in one to three digits.
pub open spec fn is_octet(text: Seq<char>) -> bool {
    decimal_of(text) matches Some(n) && n <= 255
}

/// Whether the groups of a match of the IPv4 pattern are an address: each
/// of the four numbers is from 0 to 255.
pub open spec fn is_address(text: Seq<char>, groups: Seq<Option<ByteSpan>>) -> bool {
    &&& groups.len() >= 5
    &&& groups[0] is Some
    &&& forall|i: int|
        1 <= i <= 4 ==> ((#[trigger] groups[i]) matches Some(m) && is_span(
            text,
            m.0 as int,
            m.1 as int,
        ) && is_octet(slice_of(text, m.0 as int, m.1 as int)))
}

/// The matches of the IPv4 pattern that are addresses.
pub open spec fn address_spans(text: Seq<char>, all: Seq<Seq<Option<ByteSpan>>>) -> Seq<ByteSpan>
    decreases all.len(),
{
    if all.len() == 0 {
        Seq::empty()
    } else if is_address(text, all.last()) {
        address_spans(text, all.drop_last()).push(all.last()[0].unwrap())
    } else {
        address_spans(text, all.drop_last())
    }
}

/// The span that a match of the key pattern claims: from the start of the
/// key to the end of the match, which is the `=`.
pub open spec fn key_span(text: Seq<char>, groups: Seq<Option<ByteSpan>>) -> Option<ByteSpan> {
    if groups.len() >= 2 {
        match (groups[0], groups[1]) {
            (Some(whole), Some(key)) => if is_span(text, key.0 as int, whole.1 as int) {
                Some((key.0, whole.1))
            } else {
                None
            },
            _ => None,
        }
    } else {
        None
    }
}

/// The spans that the matches of the key pattern claim.
pub open spec fn key_spans(text: Seq<char>, all: Seq<Seq<Option<ByteSpan>>>) -> Seq<ByteSpan>
    decreases all.len(),
{
    if all.len() == 0 {
        Seq::empty()
    } else {
        match key_span(text, all.last()) {
            Some(span) => key_spans(text, all.drop_last()).push(span),
            None => key_spans(text, all.drop_last()),
        }
    }
}

impl Recognizer {
    /// The pattern of the recognizer.
    pub open spec fn pattern_of(self) -> Seq<char> {
        match self {
            Recognizer::Url => URL_PATTERN@,
            Recognizer::Uuid => UUID_PATTERN@,
            Recognizer::Ipv6 => IPV6_PATTERN@,
            Recognizer::Ipv4 => IPV4_PATTERN@,
            Recognizer::Pointer => POINTER_PATTERN@,
            Recognizer::Path => PATH_PATTERN@,
            Recognizer::Process => PROCESS_PATTERN@,
            Recognizer::HttpMethod => HTTP_METHOD_PATTERN@,
            Recognizer::KeyValue => KEY_VALUE_PATTERN@,
            Recognizer::Quoted => QUOTED_PATTERN@,
            Recognizer::Keyword => KEYWORD_PATTERN@,
            Recognizer::Version => VERSION_PATTERN@,
            Recognizer::Protocol => PROTOCOL_PATTERN@,
            Recognizer::Date => DATE_PATTERN@,
            Recognizer::Number => NUMBER_PATTERN@,
        }
    }

    /// The style in which the tokens of the recognizer are drawn. A protocol
    /// version has no style of its own: it is claimed only to keep the
    /// number recognizer off its digits.
    pub open spec fn style_of(self) -> Style {
        match self {
            Recognizer::Url => Style::plain().fg_of(Color::Blue).with(Modifier::Underlined),
            Recognizer::Uuid => Style::plain().fg_of(Color::Magenta),
            Recognizer::Ipv6 => Style::plain().fg_of(Color::Cyan).with(Modifier::Bold),
            Recognizer::Ipv4 => Style::plain().fg_of(Color::Cyan).with(Modifier::Bold),
            Recognizer::Pointer => Style::plain().fg_of(Color::Indexed(208)),
            Recognizer::Path => Style::plain().fg_of(Color::Indexed(108)),
            Recognizer::Process => Style::plain().fg_of(Color::Blue).with(Modifier::Bold),
            Recognizer::HttpMethod => Style::plain().fg_of(Color::Magenta).with(Modifier::Bold),
            Recognizer::KeyValue => Style::plain().fg_of(Color::Blue).with(Modifier::Bold),
            Recognizer::Quoted => Style::plain().fg_of(Color::Indexed(222)),
            Recognizer::Keyword => Style::plain().fg_of(Color::LightRed).with(Modifier::Italic),
            Recognizer::Version => Style::plain().fg_of(Color::Cyan),
            Recognizer::Protocol => Style::plain(),
            Recognizer::Date => Style::plain().fg_of(Color::DarkGray),
            Recognizer::Number => Style::plain().fg_of(Color::Cyan),
        }
    }

    /// The kind of the tokens of the recognizer.
    pub open spec fn kind_of(self) -> TokenKind {
        match self {
            Recognizer::Url => TokenKind::Url,
            Recognizer::Uuid => TokenKind::Uuid,
            Recognizer::Ipv6 => TokenKind::Ip,
            Recognizer::Ipv4 => TokenKind::Ip,
            Recognizer::Path => TokenKind::Path,
            Recognizer::Process => TokenKind::Process,
            Recognizer::HttpMethod => TokenKind::HttpMethod,
            Recognizer::KeyValue => TokenKind::KeyValue,
            Recognizer::Quoted => TokenKind::QuotedString,
            _ => TokenKind::Other,
        }
    }

    /// The candidates of the recognizer in `text`, in the order of the text:
    /// the matches of its pattern; for IPv4 those of them that are
    /// addresses; for `key=value` the key with its `=`.
    pub open spec fn candidates_of(self, text: Seq<char>) -> Seq<ByteSpan> {
        match self {
            Recognizer::Ipv4 => address_spans(text, all_captures(IPV4_PATTERN@, text)),
            Recognizer::KeyValue => key_spans(text, all_captures(KEY_VALUE_PATTERN@, text)),
            _ => all_matches(self.pattern_of(), text),
        }
    }

    /// The pattern of the recognizer.
    pub fn pattern(self) -> (r: &'static str)
        ensures
            r@ == self.pattern_of(),
    {
        match self {
            Recognizer::Url => URL_PATTERN,
            Recognizer::Uuid => UUID_PATTERN,
            Recognizer::Ipv6 => IPV6_PATTERN,
            Recognizer::Ipv4 => IPV4_PATTERN,
            Recognizer::Pointer => POINTER_PATTERN,
            Recognizer::Path => PATH_PATTERN,
            Recognizer::Process => PROCESS_PATTERN,
            Recognizer::HttpMethod => HTTP_METHOD_PATTERN,
            Recognizer::KeyValue => KEY_VALUE_PATTERN,
            Recognizer::Quoted => QUOTED_PATTERN,
            Recognizer::Keyword => KEYWORD_PATTERN,
            Recognizer::Version => VERSION_PATTERN,
            Recognizer::Protocol => PROTOCOL_PATTERN,
            Recognizer::Date => DATE_PATTERN,
            Recognizer::Number => NUMBER_PATTERN,
        }
    }

    /// The style in which the tokens of the recognizer are drawn.
    pub fn style(self) -> (r: Style)
        ensures
            r == self.style_of(),
    {
        let plain = Style::new();
        match self {
            Recognizer::Url => plain.fg(Color::Blue).add_modifier(Modifier::Underlined),
            Recognizer::Uuid => plain.fg(Color::Magenta),
            Recognizer::Ipv6 => plain.fg(Color::Cyan).add_modifier(Modifier::Bold),
            Recognizer::Ipv4 => plain.fg(Color::Cyan).add_modifier(Modifier::Bold),
            Recognizer::Pointer => plain.fg(Color::Indexed(208)),
            Recognizer::Path => plain.fg(Color::Indexed(108)),
            Recognizer::Process => plain.fg(Color::Blue).add_modifier(Modifier::Bold),
            Recognizer::HttpMethod => plain.fg(Color::Magenta).add_modifier(Modifier::Bold),
            Recognizer::KeyValue => plain.fg(Color::Blue).add_modifier(Modifier::Bold),
            Recognizer::Quoted => plain.fg(Color::Indexed(222)),
            Recognizer::Keyword => plain.fg(Color::LightRed).add_modifier(Modifier::Italic),
            Recognizer::Version => plain.fg(Color::Cyan),
            Recognizer::Protocol => plain,
            Recognizer::Date => plain.fg(Color::DarkGray),
            Recognizer::Number => plain.fg(Color::Cyan),
        }
    }

    /// The kind of the tokens of the recognizer.
    pub fn kind(self) -> (r: TokenKind)
        ensures
            r == self.kind_of(),
    {
        match self {
            Recognizer::Url => TokenKind::Url,
            Recognizer::Uuid => TokenKind::Uuid,
            Recognizer::Ipv6 => TokenKind::Ip,
            Recognizer::Ipv4 => TokenKind::Ip,
            Recognizer::Path => TokenKind::Path,
            Recognizer::Process => TokenKind::Process,
            Recognizer::HttpMethod => TokenKind::HttpMethod,
            Recognizer::KeyValue => TokenKind::KeyValue,
            Recognizer::Quoted => TokenKind::QuotedString,
            _ => TokenKind::Other,
        }
    }

    /// The candidates of the recognizer in `text`.
    pub fn candidates(self, text: &str) -> (r: Vec<ByteSpan>)
        ensures
            r@ == self.candidates_of(text@),
            all_spans(text@, r@),
    {
        match self {
            Recognizer::Ipv4 => {
                let all = capture_all(IPV4_PATTERN, text);
                valid_addresses(text, &all)
            },
            Recognizer::KeyValue => {
                let all = capture_all(KEY_VALUE_PATTERN, text);
                keys_of(text, &all)
            },
            _ => find_all(self.pattern(), text),
        }
    }
}

/// Whether the groups of a match of the IPv4 pattern are an address.
pub fn is_valid_ipv4(text: &str, groups: &Vec<Option<ByteSpan>>) -> (r: bool)
    ensures
        r == is_address(text@, groups@),
{
    if groups.len() < 5 || groups[0].is_none() {
        return false;
    }
    let mut i: usize = 1;
    while i <= 4
        invariant
            1 <= i <= 5,
            groups.len() >= 5,
            groups[0] is Some,
            forall|k: int|
                1 <= k < i ==> ((#[trigger] groups[k]) matches Some(m) && is_span(
                    text@,
                    m.0 as int,
                    m.1 as int,
                ) && is_octet(slice_of(text@, m.0 as int, m.1 as int))),
        decreases 5 - i,
    {
        let ok = match groups[i] {
            Some(m) => {
                if span_ok(text, m.0, m.1) {
                    match parse_decimal(substr(text, m.0, m.1)) {
                        Some(n) => n <= 255,
                        None => false,
                    }
                } else {
                    false
                }
            },
            None => false,
        };
        if !ok {
            return false;
        }
        i += 1;
    }
    true
}

/// The matches of the IPv4 pattern that are addresses.
pub fn valid_addresses(text: &str, all: &Vec<Vec<Option<ByteSpan>>>) -> (r: Vec<ByteSpan>)
    requires
        forall|i: int| 0 <= i < all.len() ==> groups_in_text(text@, (#[trigger] all[i])@),
    ensures
        r@ == address_spans(text@, all.deep_view()),
        all_spans(text@, r@),
{
    let mut out: Vec<ByteSpan> = Vec::new();
    let mut k: usize = 0;
    assert(all.deep_view().subrange(0, 0) =~= Seq::empty());
    while k < all.len()
        invariant
            k <= all.len(),
            forall|i: int| 0 <= i < all.len() ==> groups_in_text(text@, (#[trigger] all[i])@),
            out@ == address_spans(text@, all.deep_view().subrange(0, k as int)),
            all_spans(text@, out@),
        decreases all.len() - k,
    {
        proof {
            let upto = all.deep_view().subrange(0, k + 1);
            assert(upto.drop_last() =~= all.deep_view().subrange(0, k as int));
            assert(upto.last() =~= all[k as int]@);
            assert(groups_in_text(text@, all[k as int]@));
        }
        if is_valid_ipv4(text, &all[k]) {
            match all[k][0] {
                Some(m) => {
                    out.push(m);
                },
                None => {},
            }
        }
        k += 1;
    }
    assert(all.deep_view().subrange(0, all.len() as int) =~= all.deep_view());
    out
}

/// The spans that the matches of the key pattern claim.
pub fn keys_of(text: &str, all: &Vec<Vec<Option<ByteSpan>>>) -> (r: Vec<ByteSpan>)
    ensures
        r@ == key_spans(text@, all.deep_view()),
        all_spans(text@, r@),
{
    let mut out: Vec<ByteSpan> = Vec::new();
    let mut k: usize = 0;
    assert(all.deep_view().subrange(0, 0) =~= Seq::empty());
    while k < all.len()
        invariant
            k <= all.len(),
            out@ == key_spans(text@, all.deep_view().subrange(0, k as int)),
            all_spans(text@, out@),
        decreases all.len() - k,
    {
        proof {
            let upto = all.deep_view().subrange(0, k + 1);
            assert(upto.drop_last() =~= all.deep_view().subrange(0, k as int));
            assert(upto.last() =~= all[k as int]@);
        }
        let groups = &all[k];
        if groups.len() >= 2 {
            match (groups[0], groups[1]) {
                (Some(whole), Some(key)) => {
                    if span_ok(text, key.0, whole.1) {
                        out.push((key.0, whole.1));
                    }
                },
                _ => {},
            }
        }
        k += 1;
    }
    assert(all.deep_view().subrange(0, all.len() as int) =~= all.deep_view());
    out
}

/// Whether two regions have a byte in common.
pub open spec fn overlap(a: MatchRegion, b: MatchRegion) -> bool {
    a.start < b.end && b.start < a.end
}

/// Whether a region has a byte in common with one of `regions`.
pub open spec fn overlaps_any(regions: Seq<MatchRegion>, new: MatchRegion) -> bool {
    exists|i: int| 0 <= i < regions.len() && overlap(#[trigger] regions[i], new)
}

/// Whether a region has a byte in common with one of those already claimed.
pub fn overlaps(existing: &Vec<MatchRegion>, new: &MatchRegion) -> (r: bool)
    ensures
        r == overlaps_any(existing@, *new),
{
    let mut i: usize = 0;
    while i < existing.len()
        invariant
            i <= existing.len(),
            forall|k: int| 0 <= k < i ==> !overlap(#[trigger] existing[k], *new),
        decreases existing.len() - i,
    {
        if existing[i].start < new.end && new.start < existing[i].end {
            return true;
        }
        i += 1;
    }
    false
}

/// The regions after the candidates of one recognizer had their turn: each
/// candidate, in the order of the text, is claimed unless it has a byte in
/// common with a region claimed before it. A candidate that holds no byte
/// claims nothing.
pub open spec fn claimed(
    regions: Seq<MatchRegion>,
    candidates: Seq<ByteSpan>,
    style: Style,
    kind: TokenKind,
) -> Seq<MatchRegion>
    decreases candidates.len(),
{
    if candidates.len() == 0 {
        regions
    } else {
        let before = claimed(regions, candidates.drop_last(), style, kind);
        let new = MatchRegion {
            start: candidates.last().0,
            end: candidates.last().1,
            style,
            kind,
        };
        if new.start >= new.end || overlaps_any(before, new) {
            before
        } else {
            before.push(new)
        }
    }
}

/// Whether every region is a byte range of `text` that cuts no character.
pub open spec fn regions_in_text(text: Seq<char>, regions: Seq<MatchRegion>) -> bool {
    forall|i: int|
        0 <= i < regions.len() ==> is_span(
            text,
            (#[trigger] regions[i]).start as int,
            regions[i].end as int,
        )
}

/// Whether no two of the regions have a byte in common.
pub open spec fn disjoint(regions: Seq<MatchRegion>) -> bool {
    forall|i: int, j: int|
        0 <= i < j < regions.len() ==> !overlap(#[trigger] regions[i], #[trigger] regions[j])
}

/// Whether each of the regions holds at least one byte.
pub open spec fn non_empty(regions: Seq<MatchRegion>) -> bool {
    forall|i: int| 0 <= i < regions.len() ==> (#[trigger] regions[i]).start < regions[i].end
}

/// Whether each of the regions ends no later than the next one starts.
pub open spec fn in_a_row(regions: Seq<MatchRegion>) -> bool {
    forall|i: int, j: int|
        0 <= i < j < regions.len() ==> (#[trigger] regions[i]).end <= (#[trigger] regions[j]).start
}

/// Whether every span is a byte range of `text` that cuts no character.
pub open spec fn all_spans(text: Seq<char>, spans: Seq<ByteSpan>) -> bool {
    forall|i: int|
        0 <= i < spans.len() ==> is_span(text, (#[trigger] spans[i]).0 as int, spans[i].1 as int)
}

/// Gives the candidates of one recognizer their turn.
pub fn claim(
    regions: &mut Vec<MatchRegion>,
    candidates: &Vec<ByteSpan>,
    style: Style,
    kind: TokenKind,
)
    ensures
        final(regions)@ == claimed(old(regions)@, candidates@, style, kind),
{
    let mut k: usize = 0;
    assert(candidates@.subrange(0, 0) =~= Seq::empty());
    while k < candidates.len()
        invariant
            k <= candidates.len(),
            regions@ == claimed(old(regions)@, candidates@.subrange(0, k as int), style, kind),
        decreases candidates.len() - k,
    {
        let new = MatchRegion { start: candidates[k].0, end: candidates[k].1, style, kind };
        proof {
            let upto = candidates@.subrange(0, k + 1);
            assert(upto.drop_last() =~= candidates@.subrange(0, k as int));
            assert(upto.last() == candidates[k as int]);
        }
        if new.start < new.end && !overlaps(regions, &new) {
            regions.push(new);
        }
        k += 1;
    }
    assert(candidates@.subrange(0, candidates.len() as int) =~= candidates@);
}

/// Whether each of the regions is among `before` or is a candidate of
/// `candidates` with the given kind.
pub open spec fn from_either(
    regions: Seq<MatchRegion>,
    before: Seq<MatchRegion>,
    candidates: Seq<ByteSpan>,
    kind: TokenKind,
) -> bool {
    forall|i: int|
        0 <= i < regions.len() ==> before.contains(#[trigger] regions[i]) || (regions[i].kind
            == kind && candidates.contains((regions[i].start, regions[i].end)))
}

/// A turn keeps what was claimed before it, claims only candidates, keeps
/// the regions apart, keeps them within the text, and claims no region
/// that holds no byte.
pub proof fn lemma_claimed(
    text: Seq<char>,
    regions: Seq<MatchRegion>,
    candidates: Seq<ByteSpan>,
    style: Style,
    kind: TokenKind,
)
    ensures
        regions.len() <= claimed(regions, candidates, style, kind).len(),
        claimed(regions, candidates, style, kind).subrange(0, regions.len() as int) == regions,
        from_either(claimed(regions, candidates, style, kind), regions, candidates, kind),
        disjoint(regions) ==> disjoint(claimed(regions, candidates, style, kind)),
        non_empty(regions) ==> non_empty(claimed(regions, candidates, style, kind)),
        regions_in_text(text, regions) && all_spans(text, candidates) ==> regions_in_text(
            text,
            claimed(regions, candidates, style, kind),
        ),
    decreases candidates.len(),
{
    let out = claimed(regions, candidates, style, kind);
    if candidates.len() == 0 {
        assert(out.subrange(0, regions.len() as int) =~= regions);
        assert forall|i: int| 0 <= i < out.len() implies regions.contains(#[trigger] out[i]) by {
            assert(regions[i] == out[i]);
        }
    } else {
        let head = candidates.drop_last();
        let before = claimed(regions, head, style, kind);
        lemma_claimed(text, regions, head, style, kind);
        let new = MatchRegion {
            start: candidates.last().0,
            end: candidates.last().1,
            style,
            kind,
        };
        assert(out.subrange(0, regions.len() as int) =~= before.subrange(
            0,
            regions.len() as int,
        ));
        assert forall|i: int| 0 <= i < out.len() implies regions.contains(#[trigger] out[i]) || (
        out[i].kind == kind && candidates.contains((out[i].start, out[i].end))) by {
            if i < before.len() {
                assert(out[i] == before[i]);
                if !regions.contains(before[i]) {
                    let span = (before[i].start, before[i].end);
                    assert(head.contains(span));
                    let k = choose|k: int| 0 <= k < head.len() && head[k] == span;
                    assert(candidates[k] == span);
                }
            } else {
                assert(candidates[candidates.len() - 1] == (new.start, new.end));
            }
        }
        if disjoint(regions) {
            assert forall|i: int, j: int| 0 <= i < j < out.len() implies !overlap(
                #[trigger] out[i],
                #[trigger] out[j],
            ) by {
                if j < before.len() {
                    assert(out[i] == before[i] && out[j] == before[j]);
                } else {
                    assert(out[i] == before[i]);
                }
            }
        }
        if non_empty(regions) {
            assert forall|i: int| 0 <= i < out.len() implies (#[trigger] out[i]).start
                < out[i].end by {
                if i < before.len() {
                    assert(out[i] == before[i]);
                }
            }
        }
        if regions_in_text(text, regions) && all_spans(text, candidates) {
            assert forall|i: int| 0 <= i < head.len() implies is_span(
                text,
                (#[trigger] head[i]).0 as int,
                head[i].1 as int,
            ) by {
                assert(head[i] == candidates[i]);
            }
            assert(is_span(
                text,
                candidates[candidates.len() - 1].0 as int,
                candidates[candidates.len() - 1].1 as int,
            ));
            assert forall|i: int| 0 <= i < out.len() implies is_span(
                text,
                (#[trigger] out[i]).start as int,
                out[i].end as int,
            ) by {
                if i < before.len() {
                    assert(out[i] == before[i]);
                }
            }
        }
    }
}

/// Where a region that starts at `start` goes into regions in the order of
/// their starts: after the last region that starts no later.
pub open spec fn place_of(sorted: Seq<MatchRegion>, start: usize) -> int
    decreases sorted.len(),
{
    if sorted.len() == 0 {
        0
    } else if sorted.last().start <= start {
        sorted.len() as int
    } else {
        place_of(sorted.drop_last(), start)
    }
}

/// The regions in the order of their starts; regions with the same start
/// keep the order in which they were claimed.
pub open spec fn ordered(regions: Seq<MatchRegion>) -> Seq<MatchRegion>
    decreases regions.len(),
{
    if regions.len() == 0 {
        Seq::empty()
    } else {
        let before = ordered(regions.drop_last());
        before.insert(place_of(before, regions.last().start), regions.last())
    }
}

/// Whether the regions are in the order of their starts.
pub open spec fn by_start(regions: Seq<MatchRegion>) -> bool {
    forall|i: int, j: int|
        0 <= i < j < regions.len() ==> (#[trigger] regions[i]).start <= (
        #[trigger] regions[j]).start
}

/// The place of a region lies within the regions; what comes before it
/// starts no later, what comes after starts later.
pub proof fn lemma_place_of(sorted: Seq<MatchRegion>, start: usize)
    requires
        by_start(sorted),
    ensures
        0 <= place_of(sorted, start) <= sorted.len(),
        forall|i: int| 0 <= i < place_of(sorted, start) ==> (#[trigger] sorted[i]).start <= start,
        forall|i: int|
            place_of(sorted, start) <= i < sorted.len() ==> (#[trigger] sorted[i]).start > start,
    decreases sorted.len(),
{
    if sorted.len() > 0 {
        let head = sorted.drop_last();
        assert forall|i: int, j: int| 0 <= i < j < head.len() implies (#[trigger] head[i]).start
            <= (#[trigger] head[j]).start by {
            assert(head[i] == sorted[i] && head[j] == sorted[j]);
        }
        lemma_place_of(head, start);
        if sorted.last().start <= start {
            assert forall|i: int| 0 <= i < sorted.len() implies (#[trigger] sorted[i]).start
                <= start by {
                if i < sorted.len() - 1 {
                    assert(sorted[i].start <= sorted[sorted.len() - 1].start);
                }
            }
        } else {
            assert forall|i: int| 0 <= i < place_of(sorted, start) implies (
            #[trigger] sorted[i]).start <= start by {
                assert(sorted[i] == head[i]);
            }
            assert forall|i: int| place_of(sorted, start) <= i < sorted.len() implies (
            #[trigger] sorted[i]).start > start by {
                if i < sorted.len() - 1 {
                    assert(sorted[i] == head[i]);
                }
            }
        }
    }
}

/// Ordering the regions puts them in the order of their starts and neither
/// adds nor loses a region.
pub proof fn lemma_ordered(regions: Seq<MatchRegion>)
    ensures
        by_start(ordered(regions)),
        ordered(regions).len() == regions.len(),
        forall|r: MatchRegion| ordered(regions).contains(r) <==> regions.contains(r),
    decreases regions.len(),
{
    let out = ordered(regions);
    if regions.len() == 0 {
        assert forall|r: MatchRegion| out.contains(r) <==> regions.contains(r) by {}
    } else {
        let head = regions.drop_last();
        let before = ordered(head);
        let new = regions.last();
        lemma_ordered(head);
        lemma_place_of(before, new.start);
        let at = place_of(before, new.start);
        assert forall|i: int, j: int| 0 <= i < j < out.len() implies (#[trigger] out[i]).start <= (
        #[trigger] out[j]).start by {
            if i < at {
                assert(out[i] == before[i]);
            } else if i > at {
                assert(out[i] == before[i - 1]);
            }
            if j < at {
                assert(out[j] == before[j]);
            } else if j > at {
                assert(out[j] == before[j - 1]);
            }
        }
        assert forall|r: MatchRegion| out.contains(r) <==> regions.contains(r) by {
            if out.contains(r) {
                let i = choose|i: int| 0 <= i < out.len() && out[i] == r;
                if i == at {
                    assert(regions[regions.len() - 1] == r);
                } else {
                    let k = if i < at {
                        i
                    } else {
                        i - 1
                    };
                    assert(before[k] == r);
                    assert(before.contains(r));
                    assert(head.contains(r));
                    let m = choose|m: int| 0 <= m < head.len() && head[m] == r;
                    assert(regions[m] == r);
                }
            }
            if regions.contains(r) {
                let m = choose|m: int| 0 <= m < regions.len() && regions[m] == r;
                if m == regions.len() - 1 {
                    assert(out[at] == r);
                } else {
                    assert(head[m] == r);
                    assert(head.contains(r));
                    assert(before.contains(r));
                    let k = choose|k: int| 0 <= k < before.len() && before[k] == r;
                    if k < at {
                        assert(out[k] == r);
                    } else {
                        assert(out[k + 1] == r);
                    }
                }
            }
        }
    }
}

/// Puts the regions in the order of their starts.
pub fn sort_by_start(regions: &Vec<MatchRegion>) -> (r: Vec<MatchRegion>)
    ensures
        r@ == ordered(regions@),
{
    let mut out: Vec<MatchRegion> = Vec::new();
    let mut k: usize = 0;
    assert(regions@.subrange(0, 0) =~= Seq::empty());
    while k < regions.len()
        invariant
            k <= regions.len(),
            out@ == ordered(regions@.subrange(0, k as int)),
            out.len() == k,
        decreases regions.len() - k,
    {
        let new = regions[k];
        proof {
            let upto = regions@.subrange(0, k + 1);
            assert(upto.drop_last() =~= regions@.subrange(0, k as int));
            assert(upto.last() == new);
        }
        let mut at: usize = out.len();
        assert(out@.subrange(0, out.len() as int) =~= out@);
        while at > 0 && out[at - 1].start > new.start
            invariant
                at <= out.len(),
                place_of(out@, new.start) == place_of(out@.subrange(0, at as int), new.start),
            decreases at,
        {
            proof {
                let part = out@.subrange(0, at as int);
                assert(part.last() == out[at - 1]);
                assert(part.drop_last() =~= out@.subrange(0, at - 1));
            }
            at -= 1;
        }
        proof {
            let part = out@.subrange(0, at as int);
            if at > 0 {
                assert(part.last() == out[at - 1]);
            }
            assert(out@.subrange(0, out.len() as int) =~= out@);
        }
        out.insert(at, new);
        k += 1;
    }
    assert(regions@.subrange(0, regions.len() as int) =~= regions@);
    out
}

/// The regions claimed after the first `turns` recognizers had their turn.
pub open spec fn regions_after(text: Seq<char>, turns: int) -> Seq<MatchRegion>
    decreases turns,
{
    if turns <= 0 {
        Seq::empty()
    } else {
        let rec = recognizer_at(turns - 1);
        claimed(
            regions_after(text, turns - 1),
            rec.candidates_of(text),
            rec.style_of(),
            rec.kind_of(),
        )
    }
}

/// The tokens of a text: what the recognizers claimed, each in its turn, in
/// the order of the text.
pub open spec fn regions_of(text: Seq<char>) -> Seq<MatchRegion> {
    ordered(regions_after(text, RECOGNIZER_COUNT as int))
}

/// Whatever the recognizers claim lies within the text and holds a byte,
/// and no two regions have a byte in common.
pub proof fn lemma_regions_after(text: Seq<char>, turns: int)
    requires
        forall|t: int| 0 <= t < turns ==> all_spans(text, #[trigger] recognizer_at(t).candidates_of(text)),
    ensures
        disjoint(regions_after(text, turns)),
        non_empty(regions_after(text, turns)),
        regions_in_text(text, regions_after(text, turns)),
    decreases turns,
{
    if turns > 0 {
        lemma_regions_after(text, turns - 1);
        let rec = recognizer_at(turns - 1);
        assert(all_spans(text, recognizer_at(turns - 1).candidates_of(text)));
        lemma_claimed(
            text,
            regions_after(text, turns - 1),
            rec.candidates_of(text),
            rec.style_of(),
            rec.kind_of(),
        );
    }
}

/// Regions of which no two have a byte in common, place by place, stay so
/// when they are put in the order of their starts.
pub proof fn lemma_ordered_disjoint(regions: Seq<MatchRegion>)
    requires
        disjoint(regions),
    ensures
        disjoint(ordered(regions)),
    decreases regions.len(),
{
    let out = ordered(regions);
    if regions.len() > 0 {
        let head = regions.drop_last();
        let before = ordered(head);
        let new = regions.last();
        assert forall|i: int, j: int| 0 <= i < j < head.len() implies !overlap(
            #[trigger] head[i],
            #[trigger] head[j],
        ) by {
            assert(head[i] == regions[i] && head[j] == regions[j]);
        }
        lemma_ordered_disjoint(head);
        lemma_ordered(head);
        lemma_place_of(before, new.start);
        let at = place_of(before, new.start);
        assert forall|k: int| 0 <= k < before.len() implies !overlap(
            #[trigger] before[k],
            new,
        ) && !overlap(new, before[k]) by {
            assert(before.contains(before[k]));
            assert(head.contains(before[k]));
            let m = choose|m: int| 0 <= m < head.len() && head[m] == before[k];
            assert(regions[m] == before[k]);
            assert(!overlap(regions[m], regions[regions.len() - 1]));
        }
        assert forall|i: int, j: int| 0 <= i < j < out.len() implies !overlap(
            #[trigger] out[i],
            #[trigger] out[j],
        ) by {
            if i < at {
                assert(out[i] == before[i]);
            } else if i > at {
                assert(out[i] == before[i - 1]);
            }
            if j < at {
                assert(out[j] == before[j]);
            } else if j > at {
                assert(out[j] == before[j - 1]);
            }
        }
    }
}

/// Regions that hold a byte each, of which no two have a byte in common,
/// come one after the other in the order of their starts.
pub proof fn lemma_ordered_in_a_row(regions: Seq<MatchRegion>)
    requires
        disjoint(regions),
        non_empty(regions),
    ensures
        non_empty(ordered(regions)),
        in_a_row(ordered(regions)),
{
    lemma_ordered(regions);
    lemma_ordered_disjoint(regions);
    let out = ordered(regions);
    assert forall|i: int| 0 <= i < out.len() implies (#[trigger] out[i]).start < out[i].end by {
        assert(out.contains(out[i]));
        assert(regions.contains(out[i]));
        let k = choose|k: int| 0 <= k < regions.len() && regions[k] == out[i];
        assert(regions[k].start < regions[k].end);
    }
    assert forall|i: int, j: int| 0 <= i < j < out.len() implies (#[trigger] out[i]).end <= (
    #[trigger] out[j]).start by {
        assert(!overlap(out[i], out[j]));
        assert(out[i].start <= out[j].start);
        assert(out[j].start < out[j].end);
    }
}

/// Regions that are apart and within the text stay so in any order.
pub proof fn lemma_ordered_keeps(text: Seq<char>, regions: Seq<MatchRegion>)
    requires
        disjoint(regions),
        regions_in_text(text, regions),
    ensures
        regions_in_text(text, ordered(regions)),
        apart(ordered(regions)),
        apart(regions),
{
    lemma_ordered(regions);
    let out = ordered(regions);
    assert forall|i: int| 0 <= i < out.len() implies is_span(
        text,
        (#[trigger] out[i]).start as int,
        out[i].end as int,
    ) by {
        assert(out.contains(out[i]));
        assert(regions.contains(out[i]));
        let k = choose|k: int| 0 <= k < regions.len() && regions[k] == out[i];
        assert(is_span(text, regions[k].start as int, regions[k].end as int));
    }
    assert forall|a: MatchRegion, b: MatchRegion|
        regions.contains(a) && regions.contains(b) && a != b implies !overlap(a, b) by {
        let i = choose|i: int| 0 <= i < regions.len() && regions[i] == a;
        let j = choose|j: int| 0 <= j < regions.len() && regions[j] == b;
        if i < j {
            assert(!overlap(regions[i], regions[j]));
        } else {
            assert(!overlap(regions[j], regions[i]));
        }
    }
    assert forall|a: MatchRegion, b: MatchRegion|
        out.contains(a) && out.contains(b) && a != b implies !overlap(a, b) by {
        assert(regions.contains(a) && regions.contains(b));
    }
}

/// Whether no two different regions of the sequence have a byte in common.
pub open spec fn apart(regions: Seq<MatchRegion>) -> bool {
    forall|a: MatchRegion, b: MatchRegion|
        regions.contains(a) && regions.contains(b) && a != b ==> !overlap(a, b)
}

/// The tokens of a text. The recognizers have their turn in a fixed order,
/// and a match that has a byte in common with a token claimed before it is
/// left out; so no two tokens, at whatever two places of the result, have a
/// byte in common. They come in the order of the text: each holds a byte
/// and ends no later than the next one starts.
pub fn collect_all_regions(text: &str) -> (r: Vec<MatchRegion>)
    ensures
        r@ == regions_of(text@),
        by_start(r@),
        regions_in_text(text@, r@),
        disjoint(r@),
        apart(r@),
        non_empty(r@),
        in_a_row(r@),
{
    let mut regions: Vec<MatchRegion> = Vec::new();
    let mut turn: usize = 0;
    while turn < RECOGNIZER_COUNT
        invariant
            turn <= RECOGNIZER_COUNT,
            regions@ == regions_after(text@, turn as int),
            forall|t: int|
                0 <= t < turn ==> all_spans(text@, #[trigger] recognizer_at(t).candidates_of(text@)),
        decreases RECOGNIZER_COUNT - turn,
    {
        let rec = recognizer(turn);
        let candidates = rec.candidates(text);
        claim(&mut regions, &candidates, rec.style(), rec.kind());
        turn += 1;
    }
    proof {
        lemma_regions_after(text@, RECOGNIZER_COUNT as int);
        lemma_ordered(regions@);
        lemma_ordered_keeps(text@, regions@);
        lemma_ordered_disjoint(regions@);
        lemma_ordered_in_a_row(regions@);
    }
    sort_by_start(&regions)
}

/// Every region of the tokenizer was claimed by one of the recognizers, with
/// the kind and among the candidates of that recognizer.
pub proof fn lemma_region_origin(text: Seq<char>, turns: int, r: MatchRegion)
    requires
        regions_after(text, turns).contains(r),
    ensures
        exists|t: int|
            0 <= t < turns && (#[trigger] recognizer_at(t)).kind_of() == r.kind && recognizer_at(
                t,
            ).candidates_of(text).contains((r.start, r.end)),
    decreases turns,
{
    if turns > 0 {
        let rec = recognizer_at(turns - 1);
        let before = regions_after(text, turns - 1);
        let out = regions_after(text, turns);
        lemma_claimed(text, before, rec.candidates_of(text), rec.style_of(), rec.kind_of());
        let i = choose|i: int| 0 <= i < out.len() && out[i] == r;
        if before.contains(out[i]) {
            lemma_region_origin(text, turns - 1, r);
            let t = choose|t: int|
                0 <= t < turns - 1 && (#[trigger] recognizer_at(t)).kind_of() == r.kind
                    && recognizer_at(t).candidates_of(text).contains((r.start, r.end));
            assert(0 <= t < turns);
        } else {
            assert(recognizer_at(turns - 1).kind_of() == r.kind);
        }
    }
}

/// Every span of the addresses is the whole of a match of the IPv4 pattern
/// whose four numbers are each from 0 to 255.
pub proof fn lemma_address_spans(text: Seq<char>, all: Seq<Seq<Option<ByteSpan>>>, span: ByteSpan)
    requires
        address_spans(text, all).contains(span),
    ensures
        exists|k: int|
            0 <= k < all.len() && is_address(text, #[trigger] all[k]) && all[k][0] == Some(span),
    decreases all.len(),
{
    if all.len() > 0 {
        let head = all.drop_last();
        let spans = address_spans(text, all);
        let i = choose|i: int| 0 <= i < spans.len() && spans[i] == span;
        if is_address(text, all.last()) && i == spans.len() - 1 {
            assert(is_address(text, all[all.len() - 1]));
        } else {
            assert(address_spans(text, head)[i] == span);
            lemma_address_spans(text, head, span);
            let k = choose|k: int|
                0 <= k < head.len() && is_address(text, #[trigger] head[k]) && head[k][0] == Some(
                    span,
                );
            assert(all[k] == head[k]);
        }
    }
}

/// No token of the kind `Ip` is an IPv4 match with a number above 255: such
/// a token is a match of the IPv6 pattern, or the whole of a match of the
/// IPv4 pattern of which each of the four numbers is from 0 to 255.
pub proof fn lemma_ip_tokens_valid(text: Seq<char>, r: MatchRegion)
    requires
        regions_of(text).contains(r),
        r.kind == TokenKind::Ip,
    ensures
        all_matches(IPV6_PATTERN@, text).contains((r.start, r.end)) || (exists|k: int|
            0 <= k < all_captures(IPV4_PATTERN@, text).len() && is_address(
                text,
                #[trigger] all_captures(IPV4_PATTERN@, text)[k],
            ) && all_captures(IPV4_PATTERN@, text)[k][0] == Some((r.start, r.end))),
{
    let n = RECOGNIZER_COUNT as int;
    lemma_ordered(regions_after(text, n));
    lemma_region_origin(text, n, r);
    let t = choose|t: int|
        0 <= t < n && (#[trigger] recognizer_at(t)).kind_of() == r.kind && recognizer_at(
            t,
        ).candidates_of(text).contains((r.start, r.end));
    assert(t == 2 || t == 3);
    if t == 3 {
        lemma_address_spans(text, all_captures(IPV4_PATTERN@, text), (r.start, r.end));
    }
}

/// A piece of a tokenized text: a token with its kind, or the text between
/// two tokens, which has no kind.
pub struct Cut {
    pub text: Seq<char>,
    pub style: Style,
    pub kind: Option<TokenKind>,
}

/// The pieces of a text from the byte `pos` on, given the regions from the
/// region `k` on: before each region the text that no region takes, in the
/// base style, then the region in its own style; after the last region the
/// rest of the text.
pub open spec fn cuts_from(
    text: Seq<char>,
    regions: Seq<MatchRegion>,
    base: Style,
    k: int,
    pos: int,
) -> Seq<Cut>
    decreases regions.len() - k,
{
    if k < 0 || k >= regions.len() {
        if pos < bytes_of(text).len() {
            seq![Cut { text: slice_of(text, pos, bytes_of(text).len() as int), style: base, kind: None }]
        } else {
            Seq::empty()
        }
    } else {
        let r = regions[k];
        let gap = if r.start > pos {
            seq![Cut { text: slice_of(text, pos, r.start as int), style: base, kind: None }]
        } else {
            Seq::empty()
        };
        gap + seq![
            Cut {
                text: slice_of(text, r.start as int, r.end as int),
                style: r.style,
                kind: Some(r.kind),
            },
        ] + cuts_from(text, regions, base, k + 1, r.end as int)
    }
}

/// The pieces of a text, given its regions: the whole text in the base style
/// where there is no region.
pub open spec fn cuts_of(text: Seq<char>, regions: Seq<MatchRegion>, base: Style) -> Seq<Cut> {
    if regions.len() == 0 {
        seq![Cut { text, style: base, kind: None }]
    } else {
        cuts_from(text, regions, base, 0, 0)
    }
}

/// The pieces of a tokenized text.
pub open spec fn tokens_of(text: Seq<char>, base: Style) -> Seq<Cut> {
    cuts_of(text, regions_of(text), base)
}

/// What each entry of a tokenized text holds.
pub open spec fn cuts_in(entries: Seq<(Span, Option<TokenKind>, String)>) -> Seq<Cut> {
    Seq::new(
        entries.len(),
        |i: int| Cut { text: entries[i].2@, style: entries[i].0.style, kind: entries[i].1 },
    )
}

/// Whether each entry has the same text in its span and beside it.
pub open spec fn entries_agree(entries: Seq<(Span, Option<TokenKind>, String)>) -> bool {
    forall|i: int| 0 <= i < entries.len() ==> (#[trigger] entries[i]).0.content@ == entries[i].2@
}

/// The pieces as styled text, without their kinds.
pub open spec fn pieces_of_cuts(cuts: Seq<Cut>) -> Seq<Piece> {
    Seq::new(cuts.len(), |i: int| Piece { content: cuts[i].text, style: cuts[i].style })
}

/// The text of the pieces, one after the other.
pub open spec fn text_of_cuts(cuts: Seq<Cut>) -> Seq<char> {
    text_of_pieces(pieces_of_cuts(cuts))
}

/// The text of two runs of pieces, one after the other, is the text of the
/// first and then that of the second; the text of one piece is its own.
pub proof fn lemma_cuts_concat(first: Seq<Cut>, second: Seq<Cut>)
    ensures
        text_of_cuts(first + second) == text_of_cuts(first) + text_of_cuts(second),
        first.len() == 0 ==> text_of_cuts(first) == Seq::<char>::empty(),
        second.len() == 1 ==> text_of_cuts(second) == second[0].text,
{
    assert(pieces_of_cuts(first + second) =~= pieces_of_cuts(first) + pieces_of_cuts(second));
    lemma_text_concat(pieces_of_cuts(first), pieces_of_cuts(second));
}

/// From a byte that no region has taken yet, the pieces make up the rest of
/// the text: nothing of it is left out and nothing comes twice.
pub proof fn lemma_cuts_from_tile(
    text: Seq<char>,
    regions: Seq<MatchRegion>,
    base: Style,
    k: int,
    pos: int,
)
    requires
        regions_in_text(text, regions),
        by_start(regions),
        disjoint(regions),
        non_empty(regions),
        0 <= k <= regions.len(),
        is_span(text, pos, pos),
        k < regions.len() ==> pos <= regions[k].start,
    ensures
        text_of_cuts(cuts_from(text, regions, base, k, pos)) == slice_of(
            text,
            pos,
            bytes_of(text).len() as int,
        ),
    decreases regions.len() - k,
{
    let len = bytes_of(text).len() as int;
    lemma_text_ends(text);
    lemma_slice_ends(text, pos);
    if k >= regions.len() {
        let rest = cuts_from(text, regions, base, k, pos);
        lemma_cuts_concat(Seq::empty(), rest);
    } else {
        let r = regions[k];
        let start = r.start as int;
        let end = r.end as int;
        assert(is_span(text, start, end));
        if k + 1 < regions.len() {
            assert(!overlap(regions[k], regions[k + 1]));
            assert(regions[k].start <= regions[k + 1].start);
            assert(regions[k + 1].start < regions[k + 1].end);
        }
        lemma_cuts_from_tile(text, regions, base, k + 1, end);
        let gap = if start > pos {
            seq![Cut { text: slice_of(text, pos, start), style: base, kind: None }]
        } else {
            Seq::empty()
        };
        let token = seq![Cut { text: slice_of(text, start, end), style: r.style, kind: Some(r.kind) }];
        let rest = cuts_from(text, regions, base, k + 1, end);
        lemma_cuts_concat(Seq::empty(), gap);
        lemma_cuts_concat(gap, token);
        lemma_cuts_concat(gap + token, rest);
        lemma_slice_join(text, pos, start, end);
        lemma_slice_join(text, pos, end, len);
        assert(text_of_cuts(gap) =~= slice_of(text, pos, start));
        assert(text_of_cuts(gap + token) =~= slice_of(text, pos, end));
    }
}

/// The pieces of a text make up the text, nothing left out and nothing
/// twice, where the regions lie in the text in the order of their starts,
/// hold a byte each, and no two have a byte in common.
pub proof fn lemma_cuts_tile(text: Seq<char>, regions: Seq<MatchRegion>, base: Style)
    requires
        regions_in_text(text, regions),
        by_start(regions),
        disjoint(regions),
        non_empty(regions),
    ensures
        text_of_cuts(cuts_of(text, regions, base)) == text,
{
    lemma_text_ends(text);
    lemma_slice_ends(text, 0);
    if regions.len() == 0 {
        lemma_cuts_concat(Seq::empty(), cuts_of(text, regions, base));
    } else {
        lemma_cuts_from_tile(text, regions, base, 0, 0);
    }
}

/// Adds an entry for the part of `text` from `start` to `end`.
fn push_entry(
    out: &mut Vec<(Span, Option<TokenKind>, String)>,
    text: &str,
    start: usize,
    end: usize,
    style: Style,
    kind: Option<TokenKind>,
)
    requires
        is_span(text@, start as int, end as int),
        entries_agree(old(out)@),
    ensures
        cuts_in(final(out)@) == cuts_in(old(out)@).push(
            Cut { text: slice_of(text@, start as int, end as int), style, kind },
        ),
        entries_agree(final(out)@),
{
    let part = substr(text, start, end);
    out.push((Span::of(part, style), kind, owned(part)));
    assert(cuts_in(out@) =~= cuts_in(old(out)@).push(
        Cut { text: slice_of(text@, start as int, end as int), style, kind },
    ));
}

/// Cuts a text into pieces along the given regions.
pub fn cut_text(text: &str, regions: &Vec<MatchRegion>, base_style: Style) -> (r: Vec<
    (Span, Option<TokenKind>, String),
>)
    requires
        regions_in_text(text@, regions@),
    ensures
        cuts_in(r@) == cuts_of(text@, regions@, base_style),
        entries_agree(r@),
{
    let mut out: Vec<(Span, Option<TokenKind>, String)> = Vec::new();
    if regions.len() == 0 {
        out.push((Span::of(text, base_style), None, owned(text)));
        assert(cuts_in(out@) =~= cuts_of(text@, regions@, base_style));
        return out;
    }
    let len = byte_len(text);
    let mut pos: usize = 0;
    let mut k: usize = 0;
    proof {
        assert(cuts_in(out@) =~= Seq::empty());
        lemma_text_ends(text@);
    }
    while k < regions.len()
        invariant
            k <= regions.len(),
            regions_in_text(text@, regions@),
            len == bytes_of(text@).len(),
            is_span(text@, pos as int, pos as int),
            entries_agree(out@),
            cuts_in(out@) + cuts_from(text@, regions@, base_style, k as int, pos as int)
                == cuts_from(text@, regions@, base_style, 0, 0),
        decreases regions.len() - k,
    {
        let region = regions[k];
        let ghost before = cuts_in(out@);
        let ghost rest = cuts_from(text@, regions@, base_style, k + 1, region.end as int);
        let ghost token = Cut {
            text: slice_of(text@, region.start as int, region.end as int),
            style: region.style,
            kind: Some(region.kind),
        };
        proof {
            assert(is_span(text@, regions[k as int].start as int, regions[k as int].end as int));
        }
        if region.start > pos {
            push_entry(&mut out, text, pos, region.start, base_style, None);
            proof {
                let gap = Cut {
                    text: slice_of(text@, pos as int, region.start as int),
                    style: base_style,
                    kind: None,
                };
                assert(before.push(gap).push(token) + rest =~= before + (seq![gap] + seq![token]
                    + rest));
            }
        } else {
            proof {
                assert(before.push(token) + rest =~= before + (Seq::empty() + seq![token] + rest));
            }
        }
        push_entry(&mut out, text, region.start, region.end, region.style, Some(region.kind));
        pos = region.end;
        k += 1;
    }
    if pos < len {
        let ghost before = cuts_in(out@);
        proof {
            lemma_text_ends(text@);
        }
        push_entry(&mut out, text, pos, len, base_style, None);
        proof {
            assert(cuts_in(out@) =~= before + cuts_from(
                text@,
                regions@,
                base_style,
                k as int,
                pos as int,
            ));
        }
    } else {
        proof {
            assert(cuts_in(out@) =~= cuts_in(out@) + Seq::empty());
        }
    }
    out
}

/// The pieces of a text with the kind of each, for the action that a click
/// on a token offers: each entry holds the styled span, the kind of the
/// token, none for text between tokens, and the text itself. The entries
/// make up the text, nothing of it left out and nothing twice.
pub fn tokenize_with_metadata(text: &str, base_style: Style) -> (r: Vec<
    (Span, Option<TokenKind>, String),
>)
    ensures
        cuts_in(r@) == tokens_of(text@, base_style),
        entries_agree(r@),
        text_of_cuts(cuts_in(r@)) == text@,
{
    let regions = collect_all_regions(text);
    proof {
        lemma_cuts_tile(text@, regions@, base_style);
    }
    cut_text(text, &regions, base_style)
}

/// The pieces of a text as styled spans: the tokens in their styles, the
/// text between them in the base style. The spans make up the text.
pub fn tokenize_with_patterns(text: &str, base_style: Style) -> (r: Vec<Span>)
    ensures
        pieces_of(r@) == pieces_of_cuts(tokens_of(text@, base_style)),
        text_of_pieces(pieces_of(r@)) == text@,
{
    let entries = tokenize_with_metadata(text, base_style);
    let mut out: Vec<Span> = Vec::new();
    let mut i: usize = 0;
    while i < entries.len()
        invariant
            i <= entries.len(),
            out.len() == i,
            entries_agree(entries@),
            forall|k: int|
                0 <= k < i ==> (#[trigger] out[k])@ == (Piece {
                    content: entries[k].2@,
                    style: entries[k].0.style,
                }),
        decreases entries.len() - i,
    {
        out.push(Span::of(entries[i].2.as_str(), entries[i].0.style));
        i += 1;
    }
    assert(pieces_of(out@) =~= pieces_of_cuts(cuts_in(entries@)));
    out
}

/// The style of a record by its severity.
pub open spec fn level_style_of(level: Option<LogLevel>) -> Style {
    match level {
        Some(LogLevel::Fatal) => Style::plain().fg_of(Color::Red).with(Modifier::Bold),
        Some(LogLevel::Error) => Style::plain().fg_of(Color::Red),
        Some(LogLevel::Warn) => Style::plain().fg_of(Color::Yellow),
        Some(LogLevel::Info) => Style::plain().fg_of(Color::Green),
        Some(LogLevel::Debug) => Style::plain().fg_of(Color::Indexed(249)),
        Some(LogLevel::Trace) => Style::plain().fg_of(Color::Indexed(243)),
        None => Style::plain(),
    }
}

/// The style of a record by its severity.
pub fn level_style(level: Option<LogLevel>) -> (r: Style)
    ensures
        r == level_style_of(level),
{
    let plain = Style::new();
    match level {
        Some(LogLevel::Fatal) => plain.fg(Color::Red).add_modifier(Modifier::Bold),
        Some(LogLevel::Error) => plain.fg(Color::Red),
        Some(LogLevel::Warn) => plain.fg(Color::Yellow),
        Some(LogLevel::Info) => plain.fg(Color::Green),
        Some(LogLevel::Debug) => plain.fg(Color::Indexed(249)),
        Some(LogLevel::Trace) => plain.fg(Color::Indexed(243)),
        None => plain,
    }
}

/// The style of a timestamp.
pub fn timestamp_style() -> (r: Style)
    ensures
        r == Style::plain().fg_of(Color::DarkGray),
{
    Style::new().fg(Color::DarkGray)
}

/// The byte at which the timestamp of a record ends in its line; none
/// where the record has no timestamp or the line does not hold it.
pub open spec fn stamp_end(record: Record) -> Option<usize> {
    match record.timestamp {
        Some(stamp) => match first_from(bytes_of(record.raw), bytes_of(stamp), 0) {
            Some(at) => if is_span(record.raw, 0, at + bytes_of(stamp).len()) {
                Some((at + bytes_of(stamp).len()) as usize)
            } else {
                None
            },
            None => None,
        },
        None => None,
    }
}

/// The byte at which the timestamp of a line ends in the line.
pub fn timestamp_end(parsed: &ParsedLine) -> (r: Option<usize>)
    ensures
        r == stamp_end(parsed@),
        r matches Some(end) ==> is_span(parsed.raw@, 0, end as int) && is_span(
            parsed.raw@,
            end as int,
            bytes_of(parsed.raw@).len() as int,
        ),
{
    match &parsed.timestamp {
        Some(stamp) => {
            let hay = parsed.raw.as_str().as_bytes();
            let needle = stamp.as_str().as_bytes();
            match find_bytes(hay, needle, 0) {
                Some(at) => {
                    let end = at + needle.len();
                    if span_ok(parsed.raw.as_str(), 0, end) {
                        proof {
                            lemma_text_ends(parsed.raw@);
                        }
                        Some(end)
                    } else {
                        None
                    }
                },
                None => None,
            }
        },
        None => None,
    }
}

/// The pieces of a text in which the first level keyword is a badge: what
/// precedes the keyword in the base style, the keyword in bold, and what
/// follows it tokenized.
pub open spec fn badge_pieces(rest: Seq<char>, keyword: ByteSpan, style: Style) -> Seq<Piece> {
    let before = if keyword.0 > 0 {
        seq![Piece { content: slice_of(rest, 0, keyword.0 as int), style }]
    } else {
        Seq::empty()
    };
    before + seq![
        Piece {
            content: slice_of(rest, keyword.0 as int, keyword.1 as int),
            style: style.with(Modifier::Bold),
        },
    ] + pieces_of_cuts(
        tokens_of(slice_of(rest, keyword.1 as int, bytes_of(rest).len() as int), style),
    )
}

/// The pieces of what follows the timestamp of an unstructured line: with
/// the level keyword as a badge where the record has a severity and the
/// text a keyword, else tokenized as it is.
pub open spec fn plain_rest_of(record: Record, rest: Seq<char>) -> Seq<Piece> {
    let style = level_style_of(record.level);
    match first_match(LEVEL_PATTERN@, rest) {
        Some(keyword) => if record.level is Some {
            badge_pieces(rest, keyword, style)
        } else {
            pieces_of_cuts(tokens_of(rest, style))
        },
        None => pieces_of_cuts(tokens_of(rest, style)),
    }
}

/// The line up to the end of its timestamp, in the style of timestamps.
pub open spec fn stamp_piece(record: Record, end: usize) -> Piece {
    Piece {
        content: slice_of(record.raw, 0, end as int),
        style: Style::plain().fg_of(Color::DarkGray),
    }
}

/// What follows the timestamp in the line.
pub open spec fn after_stamp(record: Record, end: usize) -> Seq<char> {
    slice_of(record.raw, end as int, bytes_of(record.raw).len() as int)
}

/// An unstructured line, styled: the line up to the end of its timestamp in
/// the style of timestamps, then the rest; without a timestamp the whole
/// line tokenized, in the style of its severity.
pub open spec fn plain_line_of(record: Record) -> Seq<Piece> {
    match stamp_end(record) {
        Some(end) => seq![stamp_piece(record, end)] + plain_rest_of(
            record,
            after_stamp(record, end),
        ),
        None => pieces_of_cuts(tokens_of(record.raw, level_style_of(record.level))),
    }
}

/// A syslog line, styled: the line up to the end of its timestamp in the
/// style of timestamps, then the rest tokenized.
pub open spec fn syslog_line_of(record: Record) -> Seq<Piece> {
    let style = level_style_of(record.level);
    match stamp_end(record) {
        Some(end) => seq![stamp_piece(record, end)] + pieces_of_cuts(
            tokens_of(after_stamp(record, end), style),
        ),
        None => pieces_of_cuts(tokens_of(record.raw, style)),
    }
}

/// The badge of a severity, `???` for none.
pub open spec fn badge_of(level: Option<LogLevel>) -> Seq<char> {
    match level {
        Some(l) => l.badge(),
        None => "???"@,
    }
}

/// The extra fields as one text: `key=value`, with a space between each
/// two.
pub open spec fn extras_text(fields: Seq<(Seq<char>, Seq<char>)>) -> Seq<char>
    decreases fields.len(),
{
    if fields.len() == 0 {
        Seq::empty()
    } else if fields.len() == 1 {
        fields[0].0 + "="@ + fields[0].1
    } else {
        extras_text(fields.drop_last()) + " "@ + fields.last().0 + "="@ + fields.last().1
    }
}

/// The style of the extra fields.
pub open spec fn dim_style() -> Style {
    Style::plain().fg_of(Color::DarkGray).with(Modifier::Dim)
}

/// The style of the badge of a structured line: the style of the severity
/// in bold, on a background of the colour of the severity.
pub open spec fn badge_style_of(level: Option<LogLevel>) -> Style {
    let style = level_style_of(level).with(Modifier::Bold);
    match style.fg {
        Some(color) => style.bg_of(color),
        None => style,
    }
}

/// A structured line, styled: the badge of its severity, the timestamp, the
/// message tokenized, and the extra fields dimmed.
pub open spec fn compact_line_of(record: Record) -> Seq<Piece> {
    let style = level_style_of(record.level);
    let badge = seq![
        Piece { content: "["@ + badge_of(record.level) + "] "@, style: badge_style_of(record.level) },
    ];
    let stamp = match record.timestamp {
        Some(t) => seq![Piece { content: t + " "@, style: Style::plain().fg_of(Color::DarkGray) }],
        None => Seq::empty(),
    };
    let extras = if record.extra_fields.len() > 0 {
        seq![Piece { content: "  "@, style: dim_style() }] + pieces_of_cuts(
            tokens_of(extras_text(record.extra_fields), dim_style()),
        )
    } else {
        Seq::empty()
    };
    badge + stamp + pieces_of_cuts(tokens_of(record.message, style)) + extras
}

/// A line, styled by its format: unstructured and syslog lines as they are
/// written, every structured format in the compact form.
pub open spec fn line_of(record: Record) -> Seq<Piece> {
    match record.format {
        LogFormat::Plain => plain_line_of(record),
        LogFormat::Syslog => syslog_line_of(record),
        _ => compact_line_of(record),
    }
}

/// The badge of a severity.
pub fn level_badge(level: Option<LogLevel>) -> (r: &'static str)
    ensures
        r@ == badge_of(level),
{
    match level {
        Some(l) => l.short_name(),
        None => "???",
    }
}

/// Styles an unstructured line.
pub fn highlight_plain_line(parsed: &ParsedLine) -> (r: Line)
    ensures
        r@ == plain_line_of(parsed@),
{
    let style = level_style(parsed.level);
    let raw = parsed.raw.as_str();
    match timestamp_end(parsed) {
        Some(end) => {
            let mut spans: Vec<Span> = Vec::new();
            assert(pieces_of(spans@) =~= Seq::empty());
            push_span(&mut spans, substr(raw, 0, end), timestamp_style());
            let rest = substr(raw, end, byte_len(raw));
            let keyword = if parsed.level.is_some() {
                find_first(LEVEL_PATTERN, rest)
            } else {
                None
            };
            match keyword {
                Some(m) => {
                    proof {
                        lemma_text_ends(rest@);
                    }
                    if m.0 > 0 {
                        push_span(&mut spans, substr(rest, 0, m.0), style);
                    }
                    push_span(
                        &mut spans,
                        substr(rest, m.0, m.1),
                        style.add_modifier(Modifier::Bold),
                    );
                    let after = substr(rest, m.1, byte_len(rest));
                    extend_spans(&mut spans, tokenize_with_patterns(after, style));
                    assert(pieces_of(spans@) =~= seq![stamp_piece(parsed@, end)] + badge_pieces(
                        rest@,
                        m,
                        style,
                    ));
                },
                None => {
                    extend_spans(&mut spans, tokenize_with_patterns(rest, style));
                },
            }
            Line::from(spans)
        },
        None => Line::from(tokenize_with_patterns(raw, style)),
    }
}

/// Styles a syslog line.
pub fn highlight_syslog_line(parsed: &ParsedLine) -> (r: Line)
    ensures
        r@ == syslog_line_of(parsed@),
{
    let style = level_style(parsed.level);
    let raw = parsed.raw.as_str();
    match timestamp_end(parsed) {
        Some(end) => {
            let mut spans: Vec<Span> = Vec::new();
            assert(pieces_of(spans@) =~= Seq::empty());
            push_span(&mut spans, substr(raw, 0, end), timestamp_style());
            let rest = substr(raw, end, byte_len(raw));
            extend_spans(&mut spans, tokenize_with_patterns(rest, style));
            Line::from(spans)
        },
        None => Line::from(tokenize_with_patterns(raw, style)),
    }
}

/// The extra fields as one text.
pub fn join_extras(fields: &Vec<(String, String)>) -> (r: String)
    ensures
        r@ == extras_text(fields.deep_view()),
{
    let mut out = String::new();
    let mut i: usize = 0;
    let ghost all = fields.deep_view();
    assert(all.subrange(0, 0) =~= Seq::empty());
    while i < fields.len()
        invariant
            i <= fields.len(),
            all == fields.deep_view(),
            out@ == extras_text(all.subrange(0, i as int)),
        decreases fields.len() - i,
    {
        proof {
            let upto = all.subrange(0, i + 1);
            assert(upto.drop_last() =~= all.subrange(0, i as int));
            assert(upto.last() == (fields[i as int].0@, fields[i as int].1@));
            if i == 0 {
                assert(upto[0] == upto.last());
            }
        }
        if i > 0 {
            out.append(" ");
        }
        out.append(fields[i].0.as_str());
        out.append("=");
        out.append(fields[i].1.as_str());
        proof {
            let upto = all.subrange(0, i + 1);
            if i == 0 {
                assert(out@ =~= upto[0].0 + "="@ + upto[0].1);
            } else {
                assert(out@ =~= extras_text(upto.drop_last()) + " "@ + upto.last().0 + "="@
                    + upto.last().1);
            }
        }
        i += 1;
    }
    assert(all.subrange(0, fields.len() as int) =~= all);
    out
}

/// Styles a structured line in the compact form.
pub fn highlight_json_line(parsed: &ParsedLine) -> (r: Line)
    ensures
        r@ == compact_line_of(parsed@),
{
    let style = level_style(parsed.level);
    let mut spans: Vec<Span> = Vec::new();
    assert(pieces_of(spans@) =~= Seq::empty());
    let badge = join3("[", level_badge(parsed.level), "] ");
    let bold = style.add_modifier(Modifier::Bold);
    let badge_style = match bold.fg {
        Some(color) => bold.bg(color),
        None => bold,
    };
    push_span(&mut spans, badge.as_str(), badge_style);
    match &parsed.timestamp {
        Some(t) => {
            let mut stamp = t.clone();
            stamp.append(" ");
            push_span(&mut spans, stamp.as_str(), timestamp_style());
        },
        None => {},
    }
    let ghost head = pieces_of(spans@);
    extend_spans(&mut spans, tokenize_with_patterns(parsed.message.as_str(), style));
    assert(parsed.extra_fields.deep_view().len() == parsed.extra_fields.len());
    if parsed.extra_fields.len() > 0 {
        let extras = join_extras(&parsed.extra_fields);
        let dim = Style::new().fg(Color::DarkGray).add_modifier(Modifier::Dim);
        let ghost so_far = pieces_of(spans@);
        push_span(&mut spans, "  ", dim);
        extend_spans(&mut spans, tokenize_with_patterns(extras.as_str(), dim));
        assert(pieces_of(spans@) =~= so_far + (seq![Piece { content: "  "@, style: dim_style() }]
            + pieces_of_cuts(tokens_of(extras_text(parsed@.extra_fields), dim_style()))));
    } else {
        assert(pieces_of(spans@) =~= pieces_of(spans@) + Seq::empty());
    }
    proof {
        let rec = parsed@;
        let st = level_style_of(rec.level);
        let b = seq![
            Piece { content: "["@ + badge_of(rec.level) + "] "@, style: badge_style_of(rec.level) },
        ];
        let stamp = match rec.timestamp {
            Some(t) => seq![
                Piece { content: t + " "@, style: Style::plain().fg_of(Color::DarkGray) },
            ],
            None => Seq::empty(),
        };
        assert(head =~= b + stamp);
    }
    Line::from(spans)
}

/// Styles a line for display.
pub fn highlight_line(parsed: &ParsedLine) -> (r: Line)
    ensures
        r@ == line_of(parsed@),
{
    match parsed.format {
        LogFormat::Plain => highlight_plain_line(parsed),
        LogFormat::Syslog => highlight_syslog_line(parsed),
        _ => highlight_json_line(parsed),
    }
}

/// The lines of a pretty-printed document, each indented by two spaces, in
/// the style of the record.
pub open spec fn body_lines(lines: Seq<Seq<char>>, style: Style) -> Seq<Seq<Piece>> {
    Seq::new(lines.len(), |i: int| seq![Piece { content: "  "@ + lines[i], style }])
}

/// The lines of a record for display: for a JSON record in pretty mode a
/// header with the badge of its severity and then the pretty-printed
/// document, line by line; for every other record, and out of pretty mode,
/// its one styled line.
pub open spec fn expanded_of(record: Record, pretty: bool) -> Seq<Seq<Piece>> {
    if pretty && record.format == LogFormat::Json && record.pretty_json is Some {
        let style = level_style_of(record.level);
        seq![
            seq![
                Piece {
                    content: "--- ["@ + badge_of(record.level) + "] "@,
                    style: style.with(Modifier::Bold),
                },
            ],
        ] + body_lines(lines_of(record.pretty_json->0), style)
    } else {
        seq![line_of(record)]
    }
}

/// The pieces of each line.
pub open spec fn lines_view(lines: Seq<Line>) -> Seq<Seq<Piece>> {
    Seq::new(lines.len(), |i: int| lines[i]@)
}

/// A line of one span.
pub fn single(content: &str, style: Style) -> (r: Line)
    ensures
        r@ == seq![Piece { content: content@, style }],
{
    let mut spans: Vec<Span> = Vec::new();
    assert(pieces_of(spans@) =~= Seq::empty());
    push_span(&mut spans, content, style);
    let r = Line::from(spans);
    assert(r@ =~= seq![Piece { content: content@, style }]);
    r
}

/// Styles a record for display, in one line or, for a JSON record in pretty
/// mode, in the lines of its pretty-printed document.
pub fn highlight_line_expanded(parsed: &ParsedLine, pretty: bool) -> (r: Vec<Line>)
    ensures
        lines_view(r@) == expanded_of(parsed@, pretty),
{
    let mut lines: Vec<Line> = Vec::new();
    if pretty && parsed.format == LogFormat::Json {
        match &parsed.pretty_json {
            Some(document) => {
                let style = level_style(parsed.level);
                let header = join3("--- [", level_badge(parsed.level), "] ");
                lines.push(single(header.as_str(), style.add_modifier(Modifier::Bold)));
                let body = split_lines(document.as_str());
                let ghost texts = body.deep_view();
                let ghost head = lines_view(lines@);
                let mut i: usize = 0;
                assert(lines_view(lines@) =~= head + body_lines(texts.subrange(0, 0), style));
                while i < body.len()
                    invariant
                        i <= body.len(),
                        texts == body.deep_view(),
                        lines_view(lines@) == head + body_lines(texts.subrange(0, i as int), style),
                    decreases body.len() - i,
                {
                    let mut text = owned("  ");
                    text.append(body[i].as_str());
                    let ghost before = lines_view(lines@);
                    lines.push(single(text.as_str(), style));
                    proof {
                        assert(texts[i as int] == body[i as int]@);
                        assert(lines_view(lines@) =~= before.push(
                            seq![Piece { content: "  "@ + texts[i as int], style }],
                        ));
                        assert(body_lines(texts.subrange(0, i + 1), style) =~= body_lines(
                            texts.subrange(0, i as int),
                            style,
                        ).push(seq![Piece { content: "  "@ + texts[i as int], style }]));
                    }
                    i += 1;
                }
                proof {
                    assert(texts.subrange(0, body.len() as int) =~= texts);
                    assert(head =~= seq![
                        seq![
                            Piece {
                                content: "--- ["@ + badge_of(parsed@.level) + "] "@,
                                style: level_style_of(parsed@.level).with(Modifier::Bold),
                            },
                        ],
                    ]);
                }
                return lines;
            },
            None => {},
        }
    }
    lines.push(highlight_line(parsed));
    assert(lines_view(lines@) =~= seq![line_of(parsed@)]);
    lines
}

/// The style of a search match.
pub open spec fn match_style() -> Style {
    Style::plain().bg_of(Color::Yellow).fg_of(Color::Black)
}

/// The successive places from `from` on where `needle` occurs in `hay`, each
/// search starting where the match before it ends.
pub open spec fn occurrences(hay: Seq<u8>, needle: Seq<u8>, from: int) -> Seq<ByteSpan>
    decreases hay.len() - from,
{
    if needle.len() == 0 {
        Seq::empty()
    } else {
        match first_from(hay, needle, from) {
            Some(at) => if at < from || at + needle.len() > hay.len() || hay.len() > usize::MAX {
                Seq::empty()
            } else {
                seq![(at as usize, (at + needle.len()) as usize)] + occurrences(
                    hay,
                    needle,
                    at + needle.len(),
                )
            },
            None => Seq::empty(),
        }
    }
}

/// The successive places where `needle` occurs in `hay`.
pub fn find_occurrences(hay: &[u8], needle: &[u8]) -> (r: Vec<ByteSpan>)
    ensures
        r@ == occurrences(hay@, needle@, 0),
{
    let mut out: Vec<ByteSpan> = Vec::new();
    if needle.len() == 0 {
        return out;
    }
    let mut from: usize = 0;
    assert(out@ + occurrences(hay@, needle@, 0) =~= occurrences(hay@, needle@, 0));
    loop
        invariant
            needle.len() > 0,
            from <= hay.len(),
            out@ + occurrences(hay@, needle@, from as int) == occurrences(hay@, needle@, 0),
        ensures
            out@ == occurrences(hay@, needle@, 0),
        decreases hay.len() - from,
    {
        match find_bytes(hay, needle, from) {
            Some(at) => {
                let end = at + needle.len();
                proof {
                    assert(out@.push((at, end)) + occurrences(hay@, needle@, end as int) =~= out@
                        + (seq![(at, end)] + occurrences(hay@, needle@, end as int)));
                }
                out.push((at, end));
                from = end;
            },
            None => {
                proof {
                    assert(out@ + Seq::empty() =~= out@);
                }
                break;
            },
        }
    }
    out
}

/// Whether a match has a byte in common with the bytes `a` to `b`.
pub open spec fn touches(m: ByteSpan, a: int, b: int) -> bool {
    m.0 < b && m.1 > a
}

/// How far the bytes `a` to `b` are dealt with after the first `k` matches:
/// to the end of the last of them that touches the bytes, and no further
/// than `b`.
pub open spec fn reach(a: int, b: int, found: Seq<ByteSpan>, k: int) -> int
    decreases k,
{
    if k <= 0 || k > found.len() {
        a
    } else if touches(found[k - 1], a, b) {
        if found[k - 1].1 < b {
            found[k - 1].1 as int
        } else {
            b
        }
    } else {
        reach(a, b, found, k - 1)
    }
}

/// The pieces that the first `k` matches make of the bytes `a` to `b` of
/// `full`, which have the style `style`: for each match that touches them,
/// what lies before the match and is not dealt with yet, in the style of the
/// bytes, then the part of the match that lies in them, in the style of a
/// search match.
pub open spec fn overlaid(
    full: Seq<char>,
    style: Style,
    a: int,
    b: int,
    found: Seq<ByteSpan>,
    k: int,
) -> Seq<Piece>
    decreases k,
{
    if k <= 0 || k > found.len() {
        Seq::empty()
    } else {
        let before = overlaid(full, style, a, b, found, k - 1);
        let m = found[k - 1];
        if touches(m, a, b) {
            let local = reach(a, b, found, k - 1);
            let from = if m.0 > a {
                m.0 as int
            } else {
                a
            };
            let to = if m.1 < b {
                m.1 as int
            } else {
                b
            };
            let gap = if from > local {
                seq![Piece { content: slice_of(full, local, from), style }]
            } else {
                Seq::empty()
            };
            let hit = if from < to {
                seq![Piece { content: slice_of(full, from, to), style: match_style() }]
            } else {
                Seq::empty()
            };
            before + gap + hit
        } else {
            before
        }
    }
}

/// The pieces that the matches make of the bytes `a` to `b` of `full`: the
/// matches within them in the style of a search match, the rest in their own
/// style.
pub open spec fn span_overlay(full: Seq<char>, style: Style, a: int, b: int, found: Seq<ByteSpan>) -> Seq<
    Piece,
> {
    let n = found.len() as int;
    overlaid(full, style, a, b, found, n) + if reach(a, b, found, n) < b {
        seq![Piece { content: slice_of(full, reach(a, b, found, n), b), style }]
    } else {
        Seq::empty()
    }
}

/// The pieces that the matches make of the first `n` pieces.
pub open spec fn overlay(full: Seq<char>, pieces: Seq<Piece>, found: Seq<ByteSpan>, n: int) -> Seq<
    Piece,
>
    decreases n,
{
    if n <= 0 || n > pieces.len() {
        Seq::empty()
    } else {
        overlay(full, pieces, found, n - 1) + span_overlay(
            full,
            pieces[n - 1].style,
            offset_of(pieces, n - 1),
            offset_of(pieces, n),
            found,
        )
    }
}

/// The places where the pattern occurs in the text of the pieces, case
/// ignored.
pub open spec fn search_matches(pieces: Seq<Piece>, pattern: Seq<char>) -> Seq<ByteSpan> {
    occurrences(bytes_of(lowercase(text_of_pieces(pieces))), bytes_of(lowercase(pattern)), 0)
}

/// Whether the matches of the pattern can be shown on the pieces: there is
/// a pattern, the text has as many bytes in lower case as it has itself,
/// the pattern occurs, and no match cuts a character of the text.
pub open spec fn can_overlay(pieces: Seq<Piece>, pattern: Seq<char>) -> bool {
    let full = text_of_pieces(pieces);
    &&& pattern.len() > 0
    &&& bytes_of(lowercase(full)).len() == bytes_of(full).len()
    &&& search_matches(pieces, pattern).len() > 0
    &&& all_spans(full, search_matches(pieces, pattern))
}

/// The pieces with every place where the pattern occurs, case ignored, in
/// the style of a search match. The pieces are cut where a match starts or
/// ends; outside the matches nothing changes. Where the matches cannot be
/// shown the pieces stay as they are.
pub open spec fn searched(pieces: Seq<Piece>, pattern: Seq<char>) -> Seq<Piece> {
    if can_overlay(pieces, pattern) {
        overlay(
            text_of_pieces(pieces),
            pieces,
            search_matches(pieces, pattern),
            pieces.len() as int,
        )
    } else {
        pieces
    }
}

/// Whether the matches come one after the other: each ends no earlier than
/// it starts, and no later than the next one starts.
pub open spec fn in_sequence(found: Seq<ByteSpan>) -> bool {
    &&& forall|i: int| 0 <= i < found.len() ==> (#[trigger] found[i]).0 <= found[i].1
    &&& forall|i: int, j: int|
        0 <= i < j < found.len() ==> (#[trigger] found[i]).1 <= (#[trigger] found[j]).0
}

/// The successive places where a text occurs come one after the other, none
/// before the place from which they were looked for.
pub proof fn lemma_occurrences_in_sequence(hay: Seq<u8>, needle: Seq<u8>, from: int)
    requires
        0 <= from,
    ensures
        in_sequence(occurrences(hay, needle, from)),
        forall|i: int|
            0 <= i < occurrences(hay, needle, from).len() ==> from <= (#[trigger] occurrences(
                hay,
                needle,
                from,
            )[i]).0,
    decreases hay.len() - from,
{
    let found = occurrences(hay, needle, from);
    if needle.len() > 0 {
        match first_from(hay, needle, from) {
            Some(at) => {
                if !(at < from || at + needle.len() > hay.len() || hay.len() > usize::MAX) {
                    let next = at + needle.len();
                    let rest = occurrences(hay, needle, next);
                    lemma_occurrences_in_sequence(hay, needle, next);
                    assert(found == seq![(at as usize, next as usize)] + rest);
                    assert forall|i: int| 0 <= i < found.len() implies from <= (
                    #[trigger] found[i]).0 && found[i].0 <= found[i].1 by {
                        if i > 0 {
                            assert(found[i] == rest[i - 1]);
                        }
                    }
                    assert forall|i: int, j: int| 0 <= i < j < found.len() implies (
                    #[trigger] found[i]).1 <= (#[trigger] found[j]).0 by {
                        assert(found[j] == rest[j - 1]);
                        if i > 0 {
                            assert(found[i] == rest[i - 1]);
                        }
                    }
                }
            },
            None => {},
        }
    }
}

/// How far a run of bytes is dealt with lies within the run, cuts no
/// character, and is no further than where the next match starts.
pub proof fn lemma_reach(full: Seq<char>, a: int, b: int, found: Seq<ByteSpan>, k: int)
    requires
        is_span(full, a, b),
        all_spans(full, found),
        in_sequence(found),
        0 <= k <= found.len(),
    ensures
        a <= reach(a, b, found, k) <= b,
        is_span(full, reach(a, b, found, k), reach(a, b, found, k)),
        k < found.len() ==> reach(a, b, found, k) <= a || reach(a, b, found, k) <= found[k].0,
    decreases k,
{
    if k > 0 {
        let m = found[k - 1];
        assert(is_span(full, m.0 as int, m.1 as int));
        lemma_reach(full, a, b, found, k - 1);
        if k < found.len() {
            assert(found[k - 1].1 <= found[k].0);
            assert(found[k - 1].0 <= found[k - 1].1);
        }
    }
}

/// The pieces that the first `k` matches make of a run of bytes hold the
/// text of the run as far as it is dealt with.
pub proof fn lemma_overlaid_text(
    full: Seq<char>,
    style: Style,
    a: int,
    b: int,
    found: Seq<ByteSpan>,
    k: int,
)
    requires
        is_span(full, a, b),
        all_spans(full, found),
        in_sequence(found),
        0 <= k <= found.len(),
    ensures
        text_of_pieces(overlaid(full, style, a, b, found, k)) == slice_of(
            full,
            a,
            reach(a, b, found, k),
        ),
    decreases k,
{
    lemma_slice_ends(full, a);
    if k <= 0 {
        assert(text_of_pieces(Seq::empty()) =~= Seq::<char>::empty());
    } else {
        let before = overlaid(full, style, a, b, found, k - 1);
        let m = found[k - 1];
        lemma_overlaid_text(full, style, a, b, found, k - 1);
        lemma_reach(full, a, b, found, k - 1);
        assert(is_span(full, m.0 as int, m.1 as int));
        if touches(m, a, b) {
            let local = reach(a, b, found, k - 1);
            let from = if m.0 > a {
                m.0 as int
            } else {
                a
            };
            let to = if m.1 < b {
                m.1 as int
            } else {
                b
            };
            let gap = if from > local {
                seq![Piece { content: slice_of(full, local, from), style }]
            } else {
                Seq::empty()
            };
            let hit = if from < to {
                seq![Piece { content: slice_of(full, from, to), style: match_style() }]
            } else {
                Seq::empty()
            };
            assert(local <= from <= to);
            lemma_slice_ends(full, local);
            lemma_slice_ends(full, from);
            lemma_text_concat(Seq::empty(), gap);
            lemma_text_concat(Seq::empty(), hit);
            assert(text_of_pieces(Seq::empty()) =~= Seq::<char>::empty());
            assert(text_of_pieces(gap) =~= slice_of(full, local, from));
            assert(text_of_pieces(hit) =~= slice_of(full, from, to));
            lemma_text_concat(before, gap);
            lemma_text_concat(before + gap, hit);
            lemma_slice_join(full, a, local, from);
            lemma_slice_join(full, a, from, to);
        }
    }
}

/// The pieces that the matches make of a run of bytes hold the text of the
/// run.
pub proof fn lemma_span_overlay_text(
    full: Seq<char>,
    style: Style,
    a: int,
    b: int,
    found: Seq<ByteSpan>,
)
    requires
        is_span(full, a, b),
        all_spans(full, found),
        in_sequence(found),
    ensures
        text_of_pieces(span_overlay(full, style, a, b, found)) == slice_of(full, a, b),
{
    let n = found.len() as int;
    let local = reach(a, b, found, n);
    let head = overlaid(full, style, a, b, found, n);
    lemma_overlaid_text(full, style, a, b, found, n);
    lemma_reach(full, a, b, found, n);
    if local < b {
        let rest = seq![Piece { content: slice_of(full, local, b), style }];
        lemma_text_concat(head, rest);
        lemma_slice_join(full, a, local, b);
    } else {
        assert(head + Seq::empty() =~= head);
    }
}

/// The pieces that the matches make of the first `n` pieces hold the text
/// of those pieces.
pub proof fn lemma_overlay_text(full: Seq<char>, pieces: Seq<Piece>, found: Seq<ByteSpan>, n: int)
    requires
        full == text_of_pieces(pieces),
        all_spans(full, found),
        in_sequence(found),
        0 <= n <= pieces.len(),
    ensures
        text_of_pieces(overlay(full, pieces, found, n)) == slice_of(full, 0, offset_of(pieces, n)),
        is_span(full, 0, offset_of(pieces, n)),
    decreases n,
{
    lemma_text_ends(full);
    lemma_slice_ends(full, 0);
    if n <= 0 {
        assert(pieces.subrange(0, 0) =~= Seq::empty());
        assert(text_of_pieces(Seq::empty()) =~= Seq::<char>::empty());
        assert(bytes_of(Seq::<char>::empty()) =~= Seq::<u8>::empty());
    } else {
        lemma_overlay_text(full, pieces, found, n - 1);
        lemma_piece_offsets(pieces, n - 1);
        let a = offset_of(pieces, n - 1);
        let b = offset_of(pieces, n);
        lemma_span_overlay_text(full, pieces[n - 1].style, a, b, found);
        lemma_text_concat(
            overlay(full, pieces, found, n - 1),
            span_overlay(full, pieces[n - 1].style, a, b, found),
        );
        lemma_slice_join(full, 0, a, b);
    }
}

/// A search changes no text: the pieces of the result, one after the other,
/// hold what the pieces held before.
pub proof fn lemma_searched_text(pieces: Seq<Piece>, pattern: Seq<char>)
    ensures
        text_of_pieces(searched(pieces, pattern)) == text_of_pieces(pieces),
{
    if can_overlay(pieces, pattern) {
        let full = text_of_pieces(pieces);
        let found = search_matches(pieces, pattern);
        let n = pieces.len() as int;
        lemma_occurrences_in_sequence(
            bytes_of(lowercase(full)),
            bytes_of(lowercase(pattern)),
            0,
        );
        lemma_overlay_text(full, pieces, found, n);
        assert(pieces.subrange(0, n) =~= pieces);
        lemma_slice_ends(full, 0);
    }
}

/// The text of the spans of a line, one after the other.
pub fn line_text(line: &Line) -> (r: String)
    ensures
        r@ == text_of_pieces(line@),
{
    let mut full = String::new();
    let mut i: usize = 0;
    let ghost pieces = line@;
    assert(pieces.subrange(0, 0) =~= Seq::empty());
    while i < line.spans.len()
        invariant
            i <= line.spans.len(),
            pieces == line@,
            full@ == text_of_pieces(pieces.subrange(0, i as int)),
        decreases line.spans.len() - i,
    {
        proof {
            let upto = pieces.subrange(0, i + 1);
            assert(upto.drop_last() =~= pieces.subrange(0, i as int));
            assert(upto.last() == line.spans[i as int]@);
        }
        full.append(line.spans[i].content.as_str());
        i += 1;
    }
    assert(pieces.subrange(0, line.spans.len() as int) =~= pieces);
    full
}

/// Whether every span is a byte range of `text` that cuts no character.
pub fn spans_ok(text: &str, spans: &Vec<ByteSpan>) -> (r: bool)
    ensures
        r == all_spans(text@, spans@),
{
    let mut i: usize = 0;
    while i < spans.len()
        invariant
            i <= spans.len(),
            forall|k: int|
                0 <= k < i ==> is_span(text@, (#[trigger] spans[k]).0 as int, spans[k].1 as int),
        decreases spans.len() - i,
    {
        if !span_ok(text, spans[i].0, spans[i].1) {
            return false;
        }
        i += 1;
    }
    true
}

/// Adds to `out` the pieces that the matches make of one span, which takes
/// the bytes `a` to `b` of `full`.
pub fn overlay_span(
    out: &mut Vec<Span>,
    full: &str,
    style: Style,
    a: usize,
    b: usize,
    found: &Vec<ByteSpan>,
)
    requires
        is_span(full@, a as int, b as int),
        all_spans(full@, found@),
    ensures
        pieces_of(final(out)@) == pieces_of(old(out)@) + span_overlay(
            full@,
            style,
            a as int,
            b as int,
            found@,
        ),
{
    let mut local: usize = a;
    let mut k: usize = 0;
    let ghost start = pieces_of(out@);
    let highlight = Style::new().bg(Color::Yellow).fg(Color::Black);
    proof {
        assert(start + Seq::empty() =~= start);
        lemma_text_ends(full@);
    }
    while k < found.len()
        invariant
            k <= found.len(),
            is_span(full@, a as int, b as int),
            all_spans(full@, found@),
            highlight == match_style(),
            local == reach(a as int, b as int, found@, k as int),
            a <= local <= b,
            is_span(full@, local as int, local as int),
            pieces_of(out@) == start + overlaid(full@, style, a as int, b as int, found@, k as int),
        decreases found.len() - k,
    {
        let m = found[k];
        proof {
            assert(is_span(full@, found[k as int].0 as int, found[k as int].1 as int));
        }
        if m.0 < b && m.1 > a {
            let from = if m.0 > a {
                m.0
            } else {
                a
            };
            let to = if m.1 < b {
                m.1
            } else {
                b
            };
            let ghost before = overlaid(full@, style, a as int, b as int, found@, k as int);
            let ghost gap = if from > local {
                seq![Piece { content: slice_of(full@, local as int, from as int), style }]
            } else {
                Seq::empty()
            };
            let ghost hit = if from < to {
                seq![Piece { content: slice_of(full@, from as int, to as int), style: match_style() }]
            } else {
                Seq::empty()
            };
            if from > local {
                push_span(out, substr(full, local, from), style);
            }
            proof {
                assert(pieces_of(out@) =~= start + (before + gap));
            }
            if from < to {
                push_span(out, substr(full, from, to), highlight);
            }
            proof {
                assert(pieces_of(out@) =~= start + (before + gap + hit));
            }
            local = to;
        }
        k += 1;
    }
    if local < b {
        push_span(out, substr(full, local, b), style);
        proof {
            let n = found.len() as int;
            assert(pieces_of(out@) =~= start + (overlaid(
                full@,
                style,
                a as int,
                b as int,
                found@,
                n,
            ) + seq![Piece { content: slice_of(full@, local as int, b as int), style }]));
        }
    } else {
        proof {
            let n = found.len() as int;
            assert(pieces_of(out@) =~= start + (overlaid(
                full@,
                style,
                a as int,
                b as int,
                found@,
                n,
            ) + Seq::empty()));
        }
    }
}

/// Shows the matches of a search on a styled line: every place where the
/// pattern occurs in the text of the line, case ignored, gets the style of a
/// search match, across the spans of the line. The line stays as it is
/// where the pattern is empty or does not occur, and where the text would
/// change its length in lower case. The text of the line stays what it was.
pub fn apply_search_highlight(line: Line, pattern: &str) -> (r: Line)
    ensures
        r@ == searched(line@, pattern@),
        text_of_pieces(r@) == text_of_pieces(line@),
{
    proof {
        lemma_searched_text(line@, pattern@);
    }
    if pattern.is_empty() {
        return line;
    }
    let full = line_text(&line);
    let lower = to_lower(full.as_str());
    let needle = to_lower(pattern);
    if byte_len(lower.as_str()) != byte_len(full.as_str()) {
        return line;
    }
    let found = find_occurrences(lower.as_str().as_bytes(), needle.as_str().as_bytes());
    if found.len() == 0 || !spans_ok(full.as_str(), &found) {
        return line;
    }
    let mut out: Vec<Span> = Vec::new();
    let mut at: usize = 0;
    let mut i: usize = 0;
    let ghost pieces = line@;
    let total = byte_len(full.as_str());
    proof {
        assert(pieces_of(out@) =~= Seq::empty());
        assert(pieces.subrange(0, 0) =~= Seq::empty());
    }
    while i < line.spans.len()
        invariant
            i <= line.spans.len(),
            pieces == line@,
            full@ == text_of_pieces(pieces),
            total == bytes_of(full@).len(),
            all_spans(full@, found@),
            at == offset_of(pieces, i as int),
            pieces_of(out@) == overlay(full@, pieces, found@, i as int),
        decreases line.spans.len() - i,
    {
        proof {
            lemma_piece_offsets(pieces, i as int);
            assert(pieces[i as int] == line.spans[i as int]@);
        }
        let len = byte_len(line.spans[i].content.as_str());
        let end = at + len;
        overlay_span(&mut out, full.as_str(), line.spans[i].style, at, end, &found);
        at = end;
        i += 1;
    }
    Line::from(out)
}

} // verus!
