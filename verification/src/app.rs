//! The state of the viewer: what is shown, what is filtered, and which mode
//! the keys are in.

use crate::command::{command_at, commands, Action, COMMAND_COUNT};
use crate::filter::{
    apply_filters, filtered, fits_matcher, narrowed, pattern_fits, score_where, score_within,
    FilterResult, Filtered,
};
use crate::instant::Instant;
use crate::highlighter::TokenKind;
use crate::level::LogLevel;
use crate::parser::{detect_format, detected, parse_line, parsed};
use crate::record::{records_of, LogFormat, ParsedLine, Record};
use crate::seqs::{ascending_below, positions};
use crate::source::{lines_of, split_lines};
use crate::text::{owned, pop_char, push_char, without_last};
use crate::timeindex::{
    bucket_range_to_time_range, build_time_index_in, compute_sparkline, earliest, latest,
    range_of_buckets, readings, timestamp_texts, SparklineData, TimeIndex, TimeModeState,
    TimeRange, MAX_BUCKETS,
};
use crate::timestamp::current_year;
use vstd::prelude::*;
use vstd::string::{StrSliceExecFns, StringExecFns};

verus! {

/// The mode that the keys are in.
#[derive(Debug, Clone, Copy, PartialEq, Eq, Structural)]
pub enum AppMode {
    Normal,
    Filter,
    ContextMenu,
    Cursor,
    CommandPalette,
    TimeRange,
}

/// What the menu of a token offers.
#[derive(Debug, Clone, Copy, PartialEq, Eq, Structural)]
pub enum MenuAction {
    FilterByValue,
    OpenInBrowser,
    LookupAbuseIPDB,
}

impl MenuAction {
    /// The words of the menu item.
    pub open spec fn label_of(self) -> Seq<char> {
        match self {
            MenuAction::FilterByValue => "Filter by this value"@,
            MenuAction::OpenInBrowser => "Open in browser"@,
            MenuAction::LookupAbuseIPDB => "Lookup on AbuseIPDB"@,
        }
    }

    /// The words of the menu item.
    pub fn label(self) -> (r: &'static str)
        ensures
            r@ == self.label_of(),
    {
        match self {
            MenuAction::FilterByValue => "Filter by this value",
            MenuAction::OpenInBrowser => "Open in browser",
            MenuAction::LookupAbuseIPDB => "Lookup on AbuseIPDB",
        }
    }
}

/// The menu of a token, while it is open.
#[derive(Debug)]
pub struct ContextMenuState {
    pub token_value: String,
    pub token_kind: TokenKind,
    pub items: Vec<MenuAction>,
    pub selected: usize,
    pub position: (u16, u16),
}

/// The viewer: the lines it holds, which of them pass the filters, what part
/// of them is on the screen, and the mode that the keys are in.
pub struct App {
    pub parsed_lines: Vec<ParsedLine>,
    pub format: LogFormat,
    /// The first of the filtered lines that is on the screen.
    pub scroll_offset: usize,
    /// The rows of the screen that hold lines.
    pub viewport_height: usize,
    pub quit: bool,
    pub mode: AppMode,
    pub filter_pattern: String,
    /// The places of the lines that pass the filters, in ascending order.
    pub filtered_indices: Vec<usize>,
    pub is_fuzzy: bool,
    pub json_pretty: bool,
    pub source_name: String,
    pub follow_mode: bool,
    pub follow_paused: bool,
    pub min_level: Option<LogLevel>,
    /// The severities that the lines have, in ascending order.
    pub available_levels: Vec<LogLevel>,
    pub context_menu: Option<ContextMenuState>,
    pub wrap: bool,
    pub h_scroll: usize,
    /// The cursor, as a place among the filtered lines.
    pub cursor_position: usize,
    /// The frames for which the notice of a copy is still shown.
    pub yank_flash: u8,
    /// The template that the lines must have, where similar lines are
    /// asked for.
    pub similar_template: Option<String>,
    pub palette_input: String,
    pub palette_selected: usize,
    /// The commands that the palette shows, by their places in the table.
    pub palette_filtered: Vec<usize>,
    pub time_index: Option<TimeIndex>,
    pub sparkline_data: Option<SparklineData>,
    pub time_range: Option<TimeRange>,
    pub time_mode: Option<TimeModeState>,
    pub sparkline_visible: bool,
    pub sparkline_width: usize,
}

/// The severity of each rank.
pub open spec fn level_at(rank: int) -> LogLevel {
    if rank <= 0 {
        LogLevel::Trace
    } else if rank == 1 {
        LogLevel::Debug
    } else if rank == 2 {
        LogLevel::Info
    } else if rank == 3 {
        LogLevel::Warn
    } else if rank == 4 {
        LogLevel::Error
    } else {
        LogLevel::Fatal
    }
}

/// The severity of each rank.
pub fn level_of_rank(rank: usize) -> (r: LogLevel)
    ensures
        r == level_at(rank as int),
{
    if rank == 0 {
        LogLevel::Trace
    } else if rank == 1 {
        LogLevel::Debug
    } else if rank == 2 {
        LogLevel::Info
    } else if rank == 3 {
        LogLevel::Warn
    } else if rank == 4 {
        LogLevel::Error
    } else {
        LogLevel::Fatal
    }
}

/// The number of records that have the severity `level`.
pub open spec fn count_of(records: Seq<Record>, level: LogLevel) -> nat
    decreases records.len(),
{
    if records.len() == 0 {
        0
    } else {
        count_of(records.drop_last(), level) + if records.last().level == Some(level) {
            1nat
        } else {
            0nat
        }
    }
}

/// The severities of the first `ranks` ranks that some record has, each
/// with the number of records that have it.
pub open spec fn counts_upto(records: Seq<Record>, ranks: int) -> Seq<(LogLevel, usize)>
    decreases ranks,
{
    if ranks <= 0 {
        Seq::empty()
    } else {
        let before = counts_upto(records, ranks - 1);
        let level = level_at(ranks - 1);
        if count_of(records, level) > 0 {
            before.push((level, count_of(records, level) as usize))
        } else {
            before
        }
    }
}

/// The severities that some record has, in ascending order, each with the
/// number of records that have it.
pub open spec fn level_tally(records: Seq<Record>) -> Seq<(LogLevel, usize)> {
    counts_upto(records, 6)
}

/// The severities that some record has, in ascending order.
pub open spec fn levels_present(records: Seq<Record>) -> Seq<LogLevel> {
    Seq::new(level_tally(records).len(), |i: int| level_tally(records)[i].0)
}

/// The records of the lines, each parsed under `format`.
pub open spec fn parsed_all(lines: Seq<Seq<char>>, format: LogFormat) -> Seq<Record> {
    Seq::new(lines.len(), |i: int| parsed(lines[i], format))
}

/// Parses each of the lines under `format`.
pub fn parse_all(lines: &Vec<String>, format: LogFormat) -> (r: Vec<ParsedLine>)
    ensures
        records_of(r@) == parsed_all(lines.deep_view(), format),
        r.len() == lines.len(),
{
    let mut out: Vec<ParsedLine> = Vec::new();
    let mut i: usize = 0;
    while i < lines.len()
        invariant
            i <= lines.len(),
            out.len() == i,
            forall|k: int| 0 <= k < i ==> (#[trigger] out[k])@ == parsed(lines[k]@, format),
        decreases lines.len() - i,
    {
        out.push(parse_line(lines[i].as_str(), format));
        i += 1;
    }
    assert(records_of(out@) =~= parsed_all(lines.deep_view(), format));
    out
}

/// The number of lines that have the severity `level`.
pub fn count_level(lines: &Vec<ParsedLine>, level: LogLevel) -> (r: usize)
    ensures
        r == count_of(records_of(lines@), level),
{
    let mut count: usize = 0;
    let mut i: usize = 0;
    let ghost records = records_of(lines@);
    assert(records.subrange(0, 0) =~= Seq::empty());
    while i < lines.len()
        invariant
            i <= lines.len(),
            records == records_of(lines@),
            count <= i,
            count == count_of(records.subrange(0, i as int), level),
        decreases lines.len() - i,
    {
        proof {
            let upto = records.subrange(0, i + 1);
            assert(upto.drop_last() =~= records.subrange(0, i as int));
            assert(upto.last() == lines[i as int]@);
        }
        match lines[i].level {
            Some(l) => {
                if l == level {
                    count += 1;
                }
            },
            None => {},
        }
        i += 1;
    }
    assert(records.subrange(0, lines.len() as int) =~= records);
    count
}

/// The severities that some line has, in ascending order, each with the
/// number of lines that have it.
pub fn tally_levels(lines: &Vec<ParsedLine>) -> (r: Vec<(LogLevel, usize)>)
    ensures
        r@ == level_tally(records_of(lines@)),
{
    let mut out: Vec<(LogLevel, usize)> = Vec::new();
    let mut rank: usize = 0;
    while rank < 6
        invariant
            rank <= 6,
            out@ == counts_upto(records_of(lines@), rank as int),
        decreases 6 - rank,
    {
        let level = level_of_rank(rank);
        let count = count_level(lines, level);
        if count > 0 {
            out.push((level, count));
        }
        rank += 1;
    }
    out
}

/// The places 0 to `n` - 1.
pub fn all_positions(n: usize) -> (r: Vec<usize>)
    ensures
        r@ == positions(n as nat),
{
    let mut out: Vec<usize> = Vec::new();
    let mut i: usize = 0;
    while i < n
        invariant
            i <= n,
            out.len() == i,
            forall|k: int| 0 <= k < i ==> out[k] == k,
        decreases n - i,
    {
        out.push(i);
        i += 1;
    }
    assert(out@ =~= positions(n as nat));
    out
}

/// Whether the index is the one that the viewer keeps for the records: the
/// index of the records where some record wrote a timestamp that could be
/// read, and none where no record did.
pub open spec fn is_index_of(index: Option<TimeIndex>, records: Seq<Record>, year: i32) -> bool {
    let read = readings(timestamp_texts(records), None, year).0;
    match index {
        Some(t) => t.indexes(records, year) && t.min_ts is Some && t.max_ts is Some,
        None => earliest(read, None) is None || latest(read, None) is None,
    }
}

impl App {
    /// The records of the lines.
    pub open spec fn records(&self) -> Seq<Record> {
        records_of(self.parsed_lines@)
    }

    /// Whether the viewer is whole: the filtered lines are lines, the screen
    /// starts within them, the index and the histogram are whole, the menu
    /// has its selection among its items, and the palette shows commands of
    /// the table.
    pub open spec fn wf(&self) -> bool {
        &&& forall|i: int|
            0 <= i < self.filtered_indices.len() ==> (#[trigger] self.filtered_indices[i])
                < self.parsed_lines.len()
        &&& self.scroll_offset <= self.filtered_indices.len()
        &&& self.time_index matches Some(t) ==> t.wf()
        &&& self.sparkline_data matches Some(s) ==> s.wf()
        &&& self.context_menu matches Some(m) ==> m.selected < m.items.len()
        &&& forall|i: int|
            0 <= i < self.palette_filtered.len() ==> (#[trigger] self.palette_filtered[i])
                < COMMAND_COUNT
        &&& self.sparkline_width <= MAX_BUCKETS
    }

    /// Whether the viewer is whole.
    pub fn is_well_formed(&self) -> (r: bool)
        ensures
            r == self.wf(),
    {
        if self.scroll_offset > self.filtered_indices.len() || self.sparkline_width as u64
            > MAX_BUCKETS {
            return false;
        }
        let mut i: usize = 0;
        while i < self.filtered_indices.len()
            invariant
                i <= self.filtered_indices.len(),
                forall|k: int|
                    0 <= k < i ==> (#[trigger] self.filtered_indices[k]) < self.parsed_lines.len(),
            decreases self.filtered_indices.len() - i,
        {
            if self.filtered_indices[i] >= self.parsed_lines.len() {
                return false;
            }
            i += 1;
        }
        let mut j: usize = 0;
        while j < self.palette_filtered.len()
            invariant
                j <= self.palette_filtered.len(),
                forall|k: int| 0 <= k < j ==> (#[trigger] self.palette_filtered[k]) < COMMAND_COUNT,
            decreases self.palette_filtered.len() - j,
        {
            if self.palette_filtered[j] >= COMMAND_COUNT {
                return false;
            }
            j += 1;
        }
        let index_ok = match &self.time_index {
            Some(t) => t.is_well_formed(),
            None => true,
        };
        let histogram_ok = match &self.sparkline_data {
            Some(s) => s.is_well_formed(),
            None => true,
        };
        let menu_ok = match &self.context_menu {
            Some(m) => m.selected < m.items.len(),
            None => true,
        };
        index_ok && histogram_ok && menu_ok
    }

    /// What the viewer is when it starts on the given lines: the format is
    /// detected, every line parsed and shown, nothing filtered, and the
    /// histogram is on where the lines have timestamps.
    pub open spec fn starts_on(&self, lines: Seq<Seq<char>>) -> bool {
        &&& self.format == detected(lines)
        &&& self.records() == parsed_all(lines, self.format)
        &&& self.filtered_indices@ == positions(lines.len())
        &&& self.available_levels@ == levels_present(self.records())
        &&& exists|year: i32| is_index_of(self.time_index, self.records(), year)
        &&& self.sparkline_visible == self.time_index is Some
        &&& self.palette_filtered@ == positions(COMMAND_COUNT as nat)
        &&& self.scroll_offset == 0
        &&& self.viewport_height == 24
        &&& !self.quit
        &&& self.mode == AppMode::Normal
        &&& self.filter_pattern@.len() == 0
        &&& !self.is_fuzzy
        &&& !self.json_pretty
        &&& self.source_name@ == "stdin"@
        &&& !self.follow_mode
        &&& !self.follow_paused
        &&& self.min_level is None
        &&& self.context_menu is None
        &&& !self.wrap
        &&& self.h_scroll == 0
        &&& self.cursor_position == 0
        &&& self.yank_flash == 0
        &&& self.similar_template is None
        &&& self.palette_input@.len() == 0
        &&& self.palette_selected == 0
        &&& self.sparkline_data is None
        &&& self.time_range is None
        &&& self.time_mode is None
        &&& self.sparkline_width == 0
    }

    /// The viewer of the given lines.
    pub fn new(lines: Vec<String>) -> (r: App)
        ensures
            r.wf(),
            r.starts_on(lines.deep_view()),
    {
        let format = detect_format(lines.as_slice());
        let parsed_lines = parse_all(&lines, format);
        let filtered_indices = all_positions(parsed_lines.len());
        let tally = tally_levels(&parsed_lines);
        let mut available_levels: Vec<LogLevel> = Vec::new();
        let mut k: usize = 0;
        while k < tally.len()
            invariant
                k <= tally.len(),
                available_levels.len() == k,
                forall|j: int| 0 <= j < k ==> available_levels[j] == tally[j].0,
            decreases tally.len() - k,
        {
            available_levels.push(tally[k].0);
            k += 1;
        }
        let year = current_year();
        let index = build_time_index_in(parsed_lines.as_slice(), year);
        let time_index = if index.has_timestamps() {
            Some(index)
        } else {
            None
        };
        let sparkline_visible = time_index.is_some();
        let r = App {
            parsed_lines,
            format,
            scroll_offset: 0,
            viewport_height: 24,
            quit: false,
            mode: AppMode::Normal,
            filter_pattern: String::new(),
            filtered_indices,
            is_fuzzy: false,
            json_pretty: false,
            source_name: owned("stdin"),
            follow_mode: false,
            follow_paused: false,
            min_level: None,
            available_levels,
            context_menu: None,
            wrap: false,
            h_scroll: 0,
            cursor_position: 0,
            yank_flash: 0,
            similar_template: None,
            palette_input: String::new(),
            palette_selected: 0,
            palette_filtered: all_positions(COMMAND_COUNT),
            time_index,
            sparkline_data: None,
            time_range: None,
            time_mode: None,
            sparkline_visible,
            sparkline_width: 0,
        };
        proof {
            assert(r.available_levels@ =~= levels_present(r.records()));
            assert(is_index_of(r.time_index, r.records(), year));
            assert(lines.deep_view().len() == lines.len());
        }
        r
    }

    /// The number of lines that pass the filters.
    pub fn total_lines(&self) -> (r: usize)
        ensures
            r == self.filtered_indices.len(),
    {
        self.filtered_indices.len()
    }

    /// The number of lines.
    pub fn total_lines_unfiltered(&self) -> (r: usize)
        ensures
            r == self.parsed_lines.len(),
    {
        self.parsed_lines.len()
    }

    /// The first of the filtered lines that is on the screen.
    pub fn scroll_offset(&self) -> (r: usize)
        ensures
            r == self.scroll_offset,
    {
        self.scroll_offset
    }

    /// Scrolls up by `n` lines, no further than the first line.
    pub fn scroll_up(&mut self, n: usize)
        ensures
            *final(self) == old(self).scrolled_up(n as int),
            old(self).wf() ==> final(self).wf(),
    {
        self.scroll_offset = self.scroll_offset.saturating_sub(n);
    }

    /// Scrolls to the first line.
    pub fn scroll_to_top(&mut self)
        ensures
            *final(self) == (App { scroll_offset: 0, ..*old(self) }),
            old(self).wf() ==> final(self).wf(),
    {
        self.scroll_offset = 0;
    }

    /// Scrolls past the last line; the screen shows the last lines once the
    /// height of the screen is set.
    pub fn scroll_to_bottom(&mut self)
        ensures
            *final(self) == (App {
                scroll_offset: old(self).filtered_indices.len(),
                ..*old(self)
            }),
            old(self).wf() ==> final(self).wf(),
    {
        self.scroll_offset = self.filtered_indices.len();
    }

    /// Asks the viewer to end.
    pub fn quit(&mut self)
        ensures
            *final(self) == (App { quit: true, ..*old(self) }),
    {
        self.quit = true;
    }

    /// Whether the viewer was asked to end.
    pub fn should_quit(&self) -> (r: bool)
        ensures
            r == self.quit,
    {
        self.quit
    }

    /// The format of the lines.
    pub fn format(&self) -> (r: LogFormat)
        ensures
            r == self.format,
    {
        self.format
    }

    /// Switches pretty mode on or off.
    pub fn toggle_pretty(&mut self)
        ensures
            *final(self) == (App { json_pretty: !old(self).json_pretty, ..*old(self) }),
    {
        self.json_pretty = !self.json_pretty;
    }

    /// Whether pretty mode is on.
    pub fn is_pretty(&self) -> (r: bool)
        ensures
            r == self.json_pretty,
    {
        self.json_pretty
    }

    /// Switches line wrapping on or off, and scrolls back to the left.
    pub fn toggle_wrap(&mut self)
        ensures
            *final(self) == (App { wrap: !old(self).wrap, h_scroll: 0, ..*old(self) }),
    {
        self.wrap = !self.wrap;
        self.h_scroll = 0;
    }

    /// Whether lines are wrapped.
    pub fn is_wrap(&self) -> (r: bool)
        ensures
            r == self.wrap,
    {
        self.wrap
    }

    /// The viewer scrolled right by `n` columns.
    pub open spec fn scrolled_right(&self, n: int) -> App {
        App {
            h_scroll: if self.h_scroll + n > usize::MAX {
                usize::MAX
            } else {
                (self.h_scroll + n) as usize
            },
            ..*self
        }
    }

    /// The viewer scrolled left by `n` columns, no further than the first.
    pub open spec fn scrolled_left(&self, n: int) -> App {
        App {
            h_scroll: if self.h_scroll >= n {
                (self.h_scroll - n) as usize
            } else {
                0
            },
            ..*self
        }
    }

    /// Scrolls right by `n` columns.
    pub fn scroll_right(&mut self, n: usize)
        ensures
            *final(self) == old(self).scrolled_right(n as int),
    {
        self.h_scroll = self.h_scroll.saturating_add(n);
    }

    /// Scrolls left by `n` columns, no further than the first.
    pub fn scroll_left(&mut self, n: usize)
        ensures
            *final(self) == old(self).scrolled_left(n as int),
    {
        self.h_scroll = self.h_scroll.saturating_sub(n);
    }

    /// The columns scrolled to the right.
    pub fn h_scroll(&self) -> (r: usize)
        ensures
            r == self.h_scroll,
    {
        self.h_scroll
    }

    /// The name of the source of the lines.
    pub fn set_source_name(&mut self, name: String)
        ensures
            *final(self) == (App { source_name: name, ..*old(self) }),
    {
        self.source_name = name;
    }

    /// The name of the source of the lines.
    pub fn source_name(&self) -> (r: &str)
        ensures
            r@ == self.source_name@,
    {
        self.source_name.as_str()
    }

    /// Whether the keys go to the filter.
    pub fn is_filter_mode(&self) -> (r: bool)
        ensures
            r == (self.mode == AppMode::Filter),
    {
        self.mode == AppMode::Filter
    }

    /// The pattern of the filter.
    pub fn filter_pattern(&self) -> (r: &str)
        ensures
            r@ == self.filter_pattern@,
    {
        self.filter_pattern.as_str()
    }

    /// Whether the filtered lines were found by fuzzy matching.
    pub fn is_fuzzy(&self) -> (r: bool)
        ensures
            r == self.is_fuzzy,
    {
        self.is_fuzzy
    }

    /// Sends the keys to the filter.
    pub fn enter_filter_mode(&mut self)
        ensures
            *final(self) == (App { mode: AppMode::Filter, ..*old(self) }),
    {
        self.mode = AppMode::Filter;
    }

    /// Takes the keys back from the filter.
    pub fn exit_filter_mode(&mut self)
        ensures
            *final(self) == (App { mode: AppMode::Normal, ..*old(self) }),
    {
        self.mode = AppMode::Normal;
    }

    /// Whether new lines are followed.
    pub fn set_follow_mode(&mut self, enabled: bool)
        ensures
            *final(self) == (App { follow_mode: enabled, ..*old(self) }),
    {
        self.follow_mode = enabled;
    }

    /// Whether new lines are followed.
    pub fn is_follow_mode(&self) -> (r: bool)
        ensures
            r == self.follow_mode,
    {
        self.follow_mode
    }

    /// Pauses or resumes following.
    pub fn toggle_follow_pause(&mut self)
        ensures
            *final(self) == (App { follow_paused: !old(self).follow_paused, ..*old(self) }),
    {
        self.follow_paused = !self.follow_paused;
    }

    /// Whether following is paused.
    pub fn is_follow_paused(&self) -> (r: bool)
        ensures
            r == self.follow_paused,
    {
        self.follow_paused
    }

    /// The severity threshold.
    pub fn min_level(&self) -> (r: Option<LogLevel>)
        ensures
            r == self.min_level,
    {
        self.min_level
    }

    /// The severities that the lines have, each with the number of lines
    /// that have it, in ascending order.
    pub fn level_counts(&self) -> (r: Vec<(LogLevel, usize)>)
        ensures
            r@ == level_tally(self.records()),
    {
        tally_levels(&self.parsed_lines)
    }

    /// The mode that the keys are in.
    pub fn mode(&self) -> (r: AppMode)
        ensures
            r == self.mode,
    {
        self.mode
    }

    /// Shows the notice of a copy for the next frames.
    pub fn set_yank_flash(&mut self)
        ensures
            *final(self) == (App { yank_flash: 3, ..*old(self) }),
    {
        self.yank_flash = 3;
    }

    /// Counts one frame off the notice of a copy.
    pub fn tick_yank_flash(&mut self)
        ensures
            *final(self) == (App {
                yank_flash: if old(self).yank_flash > 0 {
                    (old(self).yank_flash - 1) as u8
                } else {
                    0
                },
                ..*old(self)
            }),
    {
        self.yank_flash = self.yank_flash.saturating_sub(1);
    }

    /// Whether the notice of a copy is still shown.
    pub fn show_yank_flash(&self) -> (r: bool)
        ensures
            r == (self.yank_flash > 0),
    {
        self.yank_flash > 0
    }

    /// The rows that the filtered line at `place` takes on the screen: one,
    /// and in pretty mode, for a line that holds JSON, one for each line of
    /// the pretty-printed document and one for its header.
    pub open spec fn entry_height(&self, place: int) -> int {
        let record = self.records()[self.filtered_indices[place] as int];
        match record.pretty_json {
            Some(document) => if self.json_pretty {
                if lines_of(document).len() >= usize::MAX {
                    usize::MAX as int
                } else {
                    (lines_of(document).len() + 1) as int
                }
            } else {
                1
            },
            None => 1,
        }
    }

    /// The number of filtered lines from `from` on that are on a screen
    /// with `room` rows left: lines are taken until they fill the rows, the
    /// line that fills them included.
    pub open spec fn fits_forward(&self, from: int, room: int) -> int
        decreases self.filtered_indices.len() - from,
    {
        if from < 0 || from >= self.filtered_indices.len() {
            0
        } else if self.entry_height(from) >= room {
            1
        } else {
            1 + self.fits_forward(from + 1, room - self.entry_height(from))
        }
    }

    /// The number of filtered lines before `upto`, taken backward, that are
    /// on a screen with `room` rows left.
    pub open spec fn fits_backward(&self, upto: int, room: int) -> int
        decreases upto,
    {
        if upto <= 0 || upto > self.filtered_indices.len() {
            0
        } else if self.entry_height(upto - 1) >= room {
            1
        } else {
            1 + self.fits_backward(upto - 1, room - self.entry_height(upto - 1))
        }
    }

    /// The furthest that the screen scrolls: so far that the last lines
    /// fill it.
    pub open spec fn max_scroll(&self) -> int {
        self.filtered_indices.len() - self.fits_backward(
            self.filtered_indices.len() as int,
            self.viewport_height as int,
        )
    }

    /// The first place from which the lines up to `place` fit in `room`
    /// rows, each line whole.
    pub open spec fn first_fit(&self, place: int, room: int) -> int
        decreases place + 1,
    {
        if place < 0 || place >= self.filtered_indices.len() {
            0
        } else if self.entry_height(place) > room {
            place + 1
        } else {
            self.first_fit(place - 1, room - self.entry_height(place))
        }
    }

    /// Where the screen starts once it has followed the cursor: at the
    /// cursor where the cursor is above the screen; where the cursor is
    /// below it, as far down as shows the cursor as the last line; else
    /// where it was.
    pub open spec fn scroll_for_cursor(&self) -> int {
        let cursor = self.cursor_position as int;
        let top = self.scroll_offset as int;
        let visible = self.fits_forward(top, self.viewport_height as int);
        let last_visible = top + if visible > 0 {
            visible - 1
        } else {
            0
        };
        if cursor < top {
            cursor
        } else if cursor > last_visible && cursor < self.filtered_indices.len() {
            let fit = self.first_fit(cursor, self.viewport_height as int);
            if fit > cursor {
                cursor
            } else {
                fit
            }
        } else {
            top
        }
    }

    /// The rows that the filtered line at `place` takes on the screen.
    pub fn display_line_count(&self, place: usize) -> (r: usize)
        requires
            self.wf(),
            place < self.filtered_indices.len(),
        ensures
            r == self.entry_height(place as int),
            r >= 1,
    {
        let idx = self.filtered_indices[place];
        if self.json_pretty {
            match &self.parsed_lines[idx].pretty_json {
                Some(document) => {
                    let lines = split_lines(document.as_str());
                    assert(lines.deep_view().len() == lines.len());
                    return lines.len().saturating_add(1);
                },
                None => {},
            }
        }
        1
    }

    /// The number of filtered lines from `start` on that are on the screen.
    pub fn viewport_entries_from(&self, start: usize) -> (r: usize)
        requires
            self.wf(),
            start <= self.filtered_indices.len(),
        ensures
            r == self.fits_forward(start as int, self.viewport_height as int),
            r <= self.filtered_indices.len() - start,
    {
        let mut room: usize = self.viewport_height;
        let mut count: usize = 0;
        let mut place: usize = start;
        while place < self.filtered_indices.len()
            invariant
                self.wf(),
                start <= place <= self.filtered_indices.len(),
                count == place - start,
                self.fits_forward(start as int, self.viewport_height as int) == count
                    + self.fits_forward(place as int, room as int),
            decreases self.filtered_indices.len() - place,
        {
            let height = self.display_line_count(place);
            count += 1;
            if height >= room {
                return count;
            }
            room -= height;
            place += 1;
        }
        count
    }

    /// The number of filtered lines, taken from the last backward, that are
    /// on the screen.
    pub fn viewport_entries_from_end(&self) -> (r: usize)
        requires
            self.wf(),
        ensures
            r == self.fits_backward(
                self.filtered_indices.len() as int,
                self.viewport_height as int,
            ),
            r <= self.filtered_indices.len(),
    {
        let mut room: usize = self.viewport_height;
        let mut count: usize = 0;
        let mut upto: usize = self.filtered_indices.len();
        while upto > 0
            invariant
                self.wf(),
                upto <= self.filtered_indices.len(),
                count == self.filtered_indices.len() - upto,
                self.fits_backward(
                    self.filtered_indices.len() as int,
                    self.viewport_height as int,
                ) == count + self.fits_backward(upto as int, room as int),
            decreases upto,
        {
            let height = self.display_line_count(upto - 1);
            count += 1;
            if height >= room {
                return count;
            }
            room -= height;
            upto -= 1;
        }
        count
    }

    /// Brings the screen back where it has scrolled too far.
    pub fn clamp_scroll(&mut self)
        requires
            old(self).wf(),
        ensures
            *final(self) == (App {
                scroll_offset: if old(self).scroll_offset > old(self).max_scroll() {
                    old(self).max_scroll() as usize
                } else {
                    old(self).scroll_offset
                },
                ..*old(self)
            }),
            final(self).wf(),
    {
        let max = self.filtered_indices.len() - self.viewport_entries_from_end();
        if self.scroll_offset > max {
            self.scroll_offset = max;
        }
    }

    /// Sets the rows of the screen that hold lines.
    pub fn set_viewport_height(&mut self, height: usize)
        requires
            old(self).wf(),
        ensures
            final(self).wf(),
            ({
                let resized = App { viewport_height: height, ..*old(self) };
                *final(self) == (App {
                    scroll_offset: if resized.scroll_offset > resized.max_scroll() {
                        resized.max_scroll() as usize
                    } else {
                        resized.scroll_offset
                    },
                    ..resized
                })
            }),
    {
        self.viewport_height = height;
        self.clamp_scroll();
    }

    /// The viewer scrolled down by `n` lines, no further than the last lines
    /// fill the screen.
    pub open spec fn scrolled_down(&self, n: int) -> App {
        App {
            scroll_offset: if self.scroll_offset + n > self.max_scroll() {
                self.max_scroll() as usize
            } else {
                (self.scroll_offset + n) as usize
            },
            ..*self
        }
    }

    /// The viewer scrolled up by `n` lines, no further than the first line.
    pub open spec fn scrolled_up(&self, n: int) -> App {
        App {
            scroll_offset: if self.scroll_offset >= n {
                (self.scroll_offset - n) as usize
            } else {
                0
            },
            ..*self
        }
    }

    /// The lines that a step of a page moves by: those on the screen, less
    /// one.
    pub open spec fn page_step(&self) -> int {
        let shown = self.fits_forward(self.scroll_offset as int, self.viewport_height as int);
        if shown > 0 {
            shown - 1
        } else {
            0
        }
    }

    /// Scrolls down by `n` lines, no further than the last lines fill the
    /// screen.
    pub fn scroll_down(&mut self, n: usize)
        requires
            old(self).wf(),
        ensures
            final(self).wf(),
            *final(self) == old(self).scrolled_down(n as int),
    {
        let sum = self.scroll_offset.saturating_add(n);
        let max = self.filtered_indices.len() - self.viewport_entries_from_end();
        self.scroll_offset = if sum > max {
            max
        } else {
            sum
        };
    }

    /// Scrolls down by a screen, less one line.
    pub fn page_down(&mut self)
        requires
            old(self).wf(),
        ensures
            final(self).wf(),
            *final(self) == old(self).scrolled_down(old(self).page_step()),
    {
        let step = self.viewport_entries_from(self.scroll_offset).saturating_sub(1);
        self.scroll_down(step);
    }

    /// Scrolls up by a screen, less one line.
    pub fn page_up(&mut self)
        requires
            old(self).wf(),
        ensures
            final(self).wf(),
            *final(self) == old(self).scrolled_up(old(self).page_step()),
    {
        let step = self.viewport_entries_from(self.scroll_offset).saturating_sub(1);
        self.scroll_up(step);
    }

    /// The lines that are on the screen, each with its number in the input,
    /// counted from one.
    pub fn visible_parsed_lines_numbered(&self) -> (r: Vec<(usize, &ParsedLine)>)
        requires
            self.wf(),
        ensures
            r.len() == self.fits_forward(self.scroll_offset as int, self.viewport_height as int),
            forall|k: int|
                0 <= k < r.len() ==> (#[trigger] r[k]).0 == self.filtered_indices[self.scroll_offset
                    + k] + 1 && *r[k].1 == self.parsed_lines[self.filtered_indices[self.scroll_offset
                    + k] as int] && r[k].1@ == self.records()[self.filtered_indices[self.scroll_offset
                    + k] as int],
    {
        let start = self.scroll_offset;
        let count = self.viewport_entries_from(start);
        let mut out: Vec<(usize, &ParsedLine)> = Vec::new();
        let mut k: usize = 0;
        while k < count
            invariant
                self.wf(),
                k <= count,
                start + count <= self.filtered_indices.len(),
                out.len() == k,
                forall|j: int|
                    0 <= j < k ==> (#[trigger] out[j]).0 == self.filtered_indices[start + j] + 1
                        && *out[j].1 == self.parsed_lines[self.filtered_indices[start + j] as int]
                        && out[j].1@ == self.records()[self.filtered_indices[start + j] as int],
            decreases count - k,
        {
            let i = self.filtered_indices[start + k];
            out.push((i + 1, &self.parsed_lines[i]));
            k += 1;
        }
        out
    }

    /// The number of filtered lines that are on the screen.
    pub fn visible_entry_count(&self) -> (r: usize)
        requires
            self.wf(),
        ensures
            r == self.fits_forward(self.scroll_offset as int, self.viewport_height as int),
            r <= self.filtered_indices.len() - self.scroll_offset,
    {
        self.viewport_entries_from(self.scroll_offset)
    }

    /// Whether the screen has scrolled as far as it goes.
    pub fn is_at_bottom(&self) -> (r: bool)
        requires
            self.wf(),
        ensures
            r == (self.scroll_offset >= self.max_scroll()),
    {
        let max = self.filtered_indices.len() - self.viewport_entries_from_end();
        self.scroll_offset >= max
    }

    /// Gives the keys to the cursor, which starts on the first line of the
    /// screen.
    pub fn enter_cursor_mode(&mut self)
        ensures
            *final(self) == (App {
                cursor_position: old(self).scroll_offset,
                mode: AppMode::Cursor,
                ..*old(self)
            }),
    {
        self.cursor_position = self.scroll_offset;
        self.mode = AppMode::Cursor;
    }

    /// Takes the keys back from the cursor.
    pub fn exit_cursor_mode(&mut self)
        ensures
            *final(self) == (App { mode: AppMode::Normal, ..*old(self) }),
    {
        self.mode = AppMode::Normal;
    }

    /// Whether the keys go to the cursor.
    pub fn is_cursor_mode(&self) -> (r: bool)
        ensures
            r == (self.mode == AppMode::Cursor),
    {
        self.mode == AppMode::Cursor
    }

    /// The cursor, as a place among the filtered lines.
    pub fn cursor_position(&self) -> (r: usize)
        ensures
            r == self.cursor_position,
    {
        self.cursor_position
    }

    /// The line under the cursor, as it was read.
    pub fn cursor_line_raw(&self) -> (r: Option<&str>)
        requires
            self.wf(),
        ensures
            match r {
                Some(text) => self.cursor_position < self.filtered_indices.len() && text@
                    == self.records()[self.filtered_indices[self.cursor_position as int] as int].raw,
                None => self.cursor_position >= self.filtered_indices.len(),
            },
    {
        if self.cursor_position < self.filtered_indices.len() {
            let idx = self.filtered_indices[self.cursor_position];
            Some(self.parsed_lines[idx].raw.as_str())
        } else {
            None
        }
    }

    /// The first `n` filtered lines as they were read, with a line feed
    /// between each two.
    pub open spec fn joined_lines(&self, n: int) -> Seq<char>
        decreases n,
    {
        if n <= 0 || n > self.filtered_indices.len() {
            Seq::empty()
        } else if n == 1 {
            self.records()[self.filtered_indices[0] as int].raw
        } else {
            self.joined_lines(n - 1) + "\n"@ + self.records()[self.filtered_indices[n - 1] as int].raw
        }
    }

    /// The filtered lines as they were read, with a line feed between each
    /// two.
    pub fn all_filtered_lines_raw(&self) -> (r: String)
        requires
            self.wf(),
        ensures
            r@ == self.joined_lines(self.filtered_indices.len() as int),
    {
        let mut out = String::new();
        let mut k: usize = 0;
        while k < self.filtered_indices.len()
            invariant
                self.wf(),
                k <= self.filtered_indices.len(),
                out@ == self.joined_lines(k as int),
            decreases self.filtered_indices.len() - k,
        {
            if k > 0 {
                out.append("\n");
            }
            out.append(self.parsed_lines[self.filtered_indices[k]].raw.as_str());
            proof {
                if k == 0 {
                    assert(out@ =~= self.records()[self.filtered_indices[0] as int].raw);
                }
            }
            k += 1;
        }
        out
    }

    /// Has the screen follow the cursor.
    pub fn scroll_to_cursor(&mut self)
        requires
            old(self).wf(),
        ensures
            final(self).wf(),
            *final(self) == old(self).following_cursor(),
            final(self).scroll_offset == old(self).scroll_for_cursor(),
    {
        if self.cursor_position < self.scroll_offset {
            self.scroll_offset = self.cursor_position;
            return;
        }
        let visible = self.viewport_entries_from(self.scroll_offset);
        let last_visible = self.scroll_offset + visible.saturating_sub(1);
        if self.cursor_position > last_visible && self.cursor_position
            < self.filtered_indices.len() {
            let mut room: usize = self.viewport_height;
            let mut place: usize = self.cursor_position;
            let mut fit: usize = self.cursor_position + 1;
            loop
                invariant_except_break
                    fit == place + 1,
                    self.first_fit(self.cursor_position as int, self.viewport_height as int)
                        == self.first_fit(place as int, room as int),
                invariant
                    self.wf(),
                    *self == *old(self),
                    place < self.filtered_indices.len(),
                    place <= self.cursor_position,
                ensures
                    fit == self.first_fit(
                        self.cursor_position as int,
                        self.viewport_height as int,
                    ),
                    fit <= self.cursor_position + 1,
                    *self == *old(self),
                decreases place,
            {
                let height = self.display_line_count(place);
                if height > room {
                    break;
                }
                proof {
                    assert(self.first_fit(place as int, room as int) == self.first_fit(
                        place - 1,
                        room - height,
                    ));
                    assert(self.first_fit(-1, room - height) == 0);
                }
                room -= height;
                fit = place;
                if place == 0 {
                    break;
                }
                place -= 1;
            }
            self.scroll_offset = if fit > self.cursor_position {
                self.cursor_position
            } else {
                fit
            };
        }
    }

    /// The viewer with the screen where it follows the cursor.
    pub open spec fn following_cursor(&self) -> App {
        App { scroll_offset: self.scroll_for_cursor() as usize, ..*self }
    }

    /// The viewer with the cursor moved down by `n` lines, no further than
    /// the last line, and the screen following.
    pub open spec fn cursor_moved_down(&self, n: int) -> App {
        let last = if self.filtered_indices.len() > 0 {
            self.filtered_indices.len() - 1
        } else {
            0
        };
        (App {
            cursor_position: if self.cursor_position + n > last {
                last as usize
            } else {
                (self.cursor_position + n) as usize
            },
            ..*self
        }).following_cursor()
    }

    /// The viewer with the cursor moved up by `n` lines, no further than
    /// the first line, and the screen following.
    pub open spec fn cursor_moved_up(&self, n: int) -> App {
        (App {
            cursor_position: if self.cursor_position >= n {
                (self.cursor_position - n) as usize
            } else {
                0
            },
            ..*self
        }).following_cursor()
    }

    /// Moves the cursor down by `n` lines, no further than the last line,
    /// and has the screen follow.
    pub fn cursor_down(&mut self, n: usize)
        requires
            old(self).wf(),
        ensures
            final(self).wf(),
            *final(self) == old(self).cursor_moved_down(n as int),
    {
        let last = self.filtered_indices.len().saturating_sub(1);
        let sum = self.cursor_position.saturating_add(n);
        self.cursor_position = if sum > last {
            last
        } else {
            sum
        };
        self.scroll_to_cursor();
    }

    /// Moves the cursor up by `n` lines, no further than the first line, and
    /// has the screen follow.
    pub fn cursor_up(&mut self, n: usize)
        requires
            old(self).wf(),
        ensures
            final(self).wf(),
            *final(self) == old(self).cursor_moved_up(n as int),
    {
        self.cursor_position = self.cursor_position.saturating_sub(n);
        self.scroll_to_cursor();
    }

    /// The instants that the time range is held against.
    pub open spec fn instants(&self) -> Seq<Option<Instant>> {
        match self.time_index {
            Some(t) => t.resolved(),
            None => Seq::empty(),
        }
    }

    /// The time range that applies: there is one only where there are both
    /// an index and a range.
    pub open spec fn range_applied(&self) -> Option<TimeRange> {
        match (self.time_index, self.time_range) {
            (Some(_), Some(r)) => Some(r),
            _ => None,
        }
    }

    /// The template that the lines must have, where similar lines are asked
    /// for.
    pub open spec fn template_applied(&self) -> Option<Seq<char>> {
        match self.similar_template {
            Some(t) => Some(t@),
            None => None,
        }
    }

    /// What the filters of the viewer let through: text and severity, then
    /// the time range, then the template.
    pub open spec fn filter_outcome(&self) -> Filtered {
        narrowed(
            self.records(),
            self.instants(),
            filtered(self.records(), self.filter_pattern@, self.min_level),
            self.range_applied(),
            self.template_applied(),
        )
    }

    /// The lines that pass the filters of the viewer.
    pub fn evaluate(&self) -> (r: FilterResult)
        ensures
            r@ == self.filter_outcome(),
            ascending_below(r.indices@, self.parsed_lines.len() as int),
    {
        let template = match &self.similar_template {
            Some(t) => Some(t.as_str()),
            None => None,
        };
        apply_filters(
            self.parsed_lines.as_slice(),
            self.filter_pattern.as_str(),
            self.min_level,
            self.time_index.as_ref(),
            self.time_range.as_ref(),
            template,
        )
    }

    /// Whether the viewer is `before` with its lines filtered anew: the
    /// filtered lines are what the filters of `before` let through, the
    /// screen starts at the first of them, and in cursor mode the cursor is
    /// on the first line; nothing else differs.
    pub open spec fn is_refiltered(&self, before: App) -> bool {
        &&& self.filtered_indices@ == before.filter_outcome().indices
        &&& *self == (App {
            filtered_indices: self.filtered_indices,
            is_fuzzy: before.filter_outcome().is_fuzzy,
            scroll_offset: 0,
            cursor_position: if before.mode == AppMode::Cursor {
                0
            } else {
                before.cursor_position
            },
            ..before
        })
    }

    /// Filters the lines anew and scrolls to the first of them; in cursor
    /// mode the cursor goes to the first line too.
    pub fn recompute_filter(&mut self)
        requires
            old(self).wf(),
        ensures
            final(self).wf(),
            final(self).is_refiltered(*old(self)),
    {
        let result = self.evaluate();
        self.filtered_indices = result.indices;
        self.is_fuzzy = result.is_fuzzy;
        self.scroll_offset = 0;
        if self.mode == AppMode::Cursor {
            self.cursor_position = 0;
        }
    }

    /// Empties the pattern of the filter and takes the keys back from it.
    pub fn clear_filter(&mut self)
        requires
            old(self).wf(),
        ensures
            final(self).wf(),
            final(self).filter_pattern@ == Seq::<char>::empty(),
            (App { mode: old(self).mode, ..*final(self) }).is_refiltered(
                App { filter_pattern: final(self).filter_pattern, ..*old(self) },
            ),
            final(self).mode == AppMode::Normal,
    {
        self.filter_pattern = String::new();
        self.recompute_filter();
        self.mode = AppMode::Normal;
    }

    /// Adds a character to the pattern of the filter.
    pub fn filter_input(&mut self, c: char)
        requires
            old(self).wf(),
        ensures
            final(self).wf(),
            final(self).filter_pattern@ == old(self).filter_pattern@.push(c),
            final(self).is_refiltered(
                App { filter_pattern: final(self).filter_pattern, ..*old(self) },
            ),
    {
        push_char(&mut self.filter_pattern, c);
        self.recompute_filter();
    }

    /// Takes the last character off the pattern of the filter.
    pub fn filter_backspace(&mut self)
        requires
            old(self).wf(),
        ensures
            final(self).wf(),
            final(self).filter_pattern@ == without_last(old(self).filter_pattern@),
            final(self).is_refiltered(
                App { filter_pattern: final(self).filter_pattern, ..*old(self) },
            ),
    {
        pop_char(&mut self.filter_pattern);
        self.recompute_filter();
    }

    /// Sets the pattern of the filter.
    pub fn set_filter(&mut self, pattern: String)
        requires
            old(self).wf(),
        ensures
            final(self).wf(),
            final(self).is_refiltered(App { filter_pattern: pattern, ..*old(self) }),
    {
        self.filter_pattern = pattern;
        self.recompute_filter();
    }

    /// Keeps the lines that have the template of the line under the cursor;
    /// nothing changes where the cursor is on no line.
    pub fn filter_by_similar(&mut self)
        requires
            old(self).wf(),
        ensures
            final(self).wf(),
            old(self).cursor_position >= old(self).filtered_indices.len() ==> *final(self) == *old(
                self,
            ),
            old(self).cursor_position < old(self).filtered_indices.len() ==> {
                &&& final(self).template_applied() == Some(
                    old(self).records()[old(self).filtered_indices[old(
                        self,
                    ).cursor_position as int] as int].template,
                )
                &&& final(self).is_refiltered(
                    App {
                        similar_template: final(self).similar_template,
                        mode: AppMode::Normal,
                        ..*old(self)
                    },
                )
            },
    {
        if self.cursor_position < self.filtered_indices.len() {
            let idx = self.filtered_indices[self.cursor_position];
            let template = self.parsed_lines[idx].template.clone();
            self.similar_template = Some(template);
            self.mode = AppMode::Normal;
            self.recompute_filter();
        }
    }

    /// Shows lines of every template again.
    pub fn clear_similar(&mut self)
        requires
            old(self).wf(),
        ensures
            final(self).wf(),
            final(self).is_refiltered(App { similar_template: None, ..*old(self) }),
    {
        self.similar_template = None;
        self.recompute_filter();
    }

    /// Whether only lines of one template are shown.
    pub fn is_similar_filter(&self) -> (r: bool)
        ensures
            r == self.similar_template is Some,
    {
        self.similar_template.is_some()
    }

    /// Sets the severity threshold to `level`, or lifts it where it was
    /// `level` already.
    pub fn set_min_level(&mut self, level: LogLevel)
        requires
            old(self).wf(),
        ensures
            final(self).wf(),
            final(self).is_refiltered(
                App {
                    min_level: if old(self).min_level == Some(level) {
                        None
                    } else {
                        Some(level)
                    },
                    ..*old(self)
                },
            ),
    {
        let same = match self.min_level {
            Some(l) => l == level,
            None => false,
        };
        if same {
            self.min_level = None;
        } else {
            self.min_level = Some(level);
        }
        self.recompute_filter();
    }
}

/// The first place of `level` among `levels`.
pub open spec fn place_in(levels: Seq<LogLevel>, level: LogLevel) -> Option<int>
    decreases levels.len(),
{
    if levels.len() == 0 {
        None
    } else if levels.drop_last().contains(level) {
        place_in(levels.drop_last(), level)
    } else if levels.last() == level {
        Some(levels.len() - 1)
    } else {
        None
    }
}

/// The first place of `level` among `levels`.
pub fn find_level(levels: &Vec<LogLevel>, level: LogLevel) -> (r: Option<usize>)
    ensures
        match r {
            Some(i) => place_in(levels@, level) == Some(i as int) && i < levels.len(),
            None => place_in(levels@, level) is None,
        },
{
    let mut i: usize = 0;
    while i < levels.len()
        invariant
            i <= levels.len(),
            forall|k: int| 0 <= k < i ==> levels[k] != level,
        decreases levels.len() - i,
    {
        if levels[i] == level {
            proof {
                lemma_place_in(levels@, level, i as int);
            }
            return Some(i);
        }
        i += 1;
    }
    proof {
        lemma_place_in_none(levels@, level);
    }
    None
}

/// The place of a level is the first place that holds it.
pub proof fn lemma_place_in(levels: Seq<LogLevel>, level: LogLevel, i: int)
    requires
        0 <= i < levels.len(),
        levels[i] == level,
        forall|k: int| 0 <= k < i ==> levels[k] != level,
    ensures
        place_in(levels, level) == Some(i),
    decreases levels.len(),
{
    let head = levels.drop_last();
    if i < levels.len() - 1 {
        assert(head[i] == level);
        assert(head.contains(level));
        lemma_place_in(head, level, i);
    } else {
        assert(!head.contains(level)) by {
            if head.contains(level) {
                let k = choose|k: int| 0 <= k < head.len() && head[k] == level;
                assert(levels[k] == level);
            }
        }
    }
}

/// A level that no place holds has no place.
pub proof fn lemma_place_in_none(levels: Seq<LogLevel>, level: LogLevel)
    requires
        forall|k: int| 0 <= k < levels.len() ==> levels[k] != level,
    ensures
        place_in(levels, level) is None,
    decreases levels.len(),
{
    if levels.len() > 0 {
        let head = levels.drop_last();
        assert(!head.contains(level)) by {
            if head.contains(level) {
                let k = choose|k: int| 0 <= k < head.len() && head[k] == level;
                assert(levels[k] == level);
            }
        }
    }
}

/// The threshold after one step up: from none to the second of the
/// severities that there are, since the first would hide nothing; from a
/// severity to the next; from the last, and from a severity that there is
/// not, back to none.
pub open spec fn level_above(levels: Seq<LogLevel>, current: Option<LogLevel>) -> Option<LogLevel> {
    match current {
        None => if levels.len() > 1 {
            Some(levels[1])
        } else {
            None
        },
        Some(c) => match place_in(levels, c) {
            Some(i) => if i + 1 < levels.len() {
                Some(levels[i + 1])
            } else {
                None
            },
            None => None,
        },
    }
}

/// The threshold after one step down: from none to the last of the
/// severities that there are; from a severity to the one before it; from
/// the second and the first, and from a severity that there is not, back to
/// none.
pub open spec fn level_below(levels: Seq<LogLevel>, current: Option<LogLevel>) -> Option<LogLevel> {
    match current {
        None => if levels.len() > 0 {
            Some(levels.last())
        } else {
            None
        },
        Some(c) => match place_in(levels, c) {
            Some(i) => if i > 1 {
                Some(levels[i - 1])
            } else {
                None
            },
            None => None,
        },
    }
}

impl App {
    /// Raises the severity threshold by one step, to hide more; with one
    /// severity or none there is nothing to step through.
    pub fn cycle_level_up(&mut self)
        requires
            old(self).wf(),
        ensures
            final(self).wf(),
            old(self).available_levels.len() <= 1 ==> *final(self) == *old(self),
            old(self).available_levels.len() > 1 ==> final(self).is_refiltered(
                App {
                    min_level: level_above(old(self).available_levels@, old(self).min_level),
                    ..*old(self)
                },
            ),
    {
        if self.available_levels.len() <= 1 {
            return;
        }
        self.min_level = match self.min_level {
            None => Some(self.available_levels[1]),
            Some(current) => match find_level(&self.available_levels, current) {
                Some(i) => if i + 1 < self.available_levels.len() {
                    Some(self.available_levels[i + 1])
                } else {
                    None
                },
                None => None,
            },
        };
        self.recompute_filter();
    }

    /// Lowers the severity threshold by one step, to show more; with one
    /// severity or none there is nothing to step through.
    pub fn cycle_level_down(&mut self)
        requires
            old(self).wf(),
        ensures
            final(self).wf(),
            old(self).available_levels.len() <= 1 ==> *final(self) == *old(self),
            old(self).available_levels.len() > 1 ==> final(self).is_refiltered(
                App {
                    min_level: level_below(old(self).available_levels@, old(self).min_level),
                    ..*old(self)
                },
            ),
    {
        if self.available_levels.len() <= 1 {
            return;
        }
        self.min_level = match self.min_level {
            None => Some(self.available_levels[self.available_levels.len() - 1]),
            Some(current) => match find_level(&self.available_levels, current) {
                Some(i) => if i > 1 {
                    Some(self.available_levels[i - 1])
                } else {
                    None
                },
                None => None,
            },
        };
        self.recompute_filter();
    }
}

/// The commands whose name matches the input of the palette fuzzily, each
/// with its score, among the first `upto` commands of the table. An input
/// that the matcher cannot take matches no command.
pub open spec fn palette_scores(input: Seq<char>, upto: int) -> Seq<(usize, u32)>
    decreases upto,
{
    if upto <= 0 {
        Seq::empty()
    } else {
        let before = palette_scores(input, upto - 1);
        let name = command_at(upto - 1).name;
        match score_within(input, name) {
            Some(score) => before.push(((upto - 1) as usize, score)),
            None => before,
        }
    }
}

/// Where a command with the score `score` goes among commands in the order
/// of their scores, the highest first: after the last command that scores
/// no less.
pub open spec fn rank_of(ranked: Seq<(usize, u32)>, score: u32) -> int
    decreases ranked.len(),
{
    if ranked.len() == 0 {
        0
    } else if ranked.last().1 >= score {
        ranked.len() as int
    } else {
        rank_of(ranked.drop_last(), score)
    }
}

/// The commands in the order of their scores, the highest first; commands
/// with the same score keep the order of the table.
pub open spec fn ranked(scored: Seq<(usize, u32)>) -> Seq<(usize, u32)>
    decreases scored.len(),
{
    if scored.len() == 0 {
        Seq::empty()
    } else {
        let before = ranked(scored.drop_last());
        before.insert(rank_of(before, scored.last().1), scored.last())
    }
}

/// The commands that the palette shows for an input: all of them, in the
/// order of the table, for no input; else those whose name matches the input
/// fuzzily, the best match first.
pub open spec fn palette_outcome(input: Seq<char>) -> Seq<usize> {
    if input.len() == 0 {
        positions(COMMAND_COUNT as nat)
    } else {
        let found = ranked(palette_scores(input, COMMAND_COUNT as int));
        Seq::new(found.len(), |i: int| found[i].0)
    }
}

/// The commands whose name matches the input fuzzily, each with its score.
pub fn score_commands(input: &str) -> (r: Vec<(usize, u32)>)
    ensures
        r@ == palette_scores(input@, COMMAND_COUNT as int),
        forall|i: int| 0 <= i < r.len() ==> (#[trigger] r[i]).0 < COMMAND_COUNT,
{
    let table = commands();
    let fits = fits_matcher(input);
    let mut out: Vec<(usize, u32)> = Vec::new();
    let mut i: usize = 0;
    while i < COMMAND_COUNT
        invariant
            i <= COMMAND_COUNT,
            fits == pattern_fits(input@),
            table.len() == COMMAND_COUNT,
            forall|k: int| 0 <= k < table.len() ==> (#[trigger] table[k])@ == command_at(k),
            out@ == palette_scores(input@, i as int),
            forall|k: int| 0 <= k < out.len() ==> (#[trigger] out[k]).0 < COMMAND_COUNT,
        decreases COMMAND_COUNT - i,
    {
        let name = table[i].name;
        assert(table[i as int]@ == command_at(i as int));
        match score_where(fits, input, name) {
            Some(score) => {
                out.push((i, score));
            },
            None => {},
        }
        i += 1;
    }
    out
}

/// Puts the commands in the order of their scores, the highest first.
pub fn rank_commands(scored: &Vec<(usize, u32)>) -> (r: Vec<(usize, u32)>)
    requires
        forall|i: int| 0 <= i < scored.len() ==> (#[trigger] scored[i]).0 < COMMAND_COUNT,
    ensures
        r@ == ranked(scored@),
        forall|i: int| 0 <= i < r.len() ==> (#[trigger] r[i]).0 < COMMAND_COUNT,
{
    let mut out: Vec<(usize, u32)> = Vec::new();
    let mut k: usize = 0;
    assert(scored@.subrange(0, 0) =~= Seq::empty());
    while k < scored.len()
        invariant
            k <= scored.len(),
            out.len() == k,
            out@ == ranked(scored@.subrange(0, k as int)),
            forall|i: int| 0 <= i < scored.len() ==> (#[trigger] scored[i]).0 < COMMAND_COUNT,
            forall|i: int| 0 <= i < out.len() ==> (#[trigger] out[i]).0 < COMMAND_COUNT,
        decreases scored.len() - k,
    {
        let new = scored[k];
        proof {
            let upto = scored@.subrange(0, k + 1);
            assert(upto.drop_last() =~= scored@.subrange(0, k as int));
            assert(upto.last() == new);
        }
        let mut at: usize = out.len();
        assert(out@.subrange(0, out.len() as int) =~= out@);
        while at > 0 && out[at - 1].1 < new.1
            invariant
                at <= out.len(),
                rank_of(out@, new.1) == rank_of(out@.subrange(0, at as int), new.1),
            decreases at,
        {
            proof {
                let part = out@.subrange(0, at as int);
                assert(part.last() == out[at - 1]);
                assert(part.drop_last() =~= out@.subrange(0, at - 1));
            }
            at -= 1;
        }
        proof {
            let part = out@.subrange(0, at as int);
            if at > 0 {
                assert(part.last() == out[at - 1]);
            }
        }
        let ghost before = out@;
        out.insert(at, new);
        proof {
            assert forall|i: int| 0 <= i < out.len() implies (#[trigger] out[i]).0
                < COMMAND_COUNT by {
                if i < at {
                    assert(out[i] == before[i]);
                } else if i > at {
                    assert(out[i] == before[i - 1]);
                }
            }
        }
        k += 1;
    }
    assert(scored@.subrange(0, scored.len() as int) =~= scored@);
    out
}

/// The items of the menu of a token of the given kind: to filter by the
/// token, and for an address or a URL to look it up or to open it.
pub open spec fn menu_items(kind: TokenKind) -> Seq<MenuAction> {
    match kind {
        TokenKind::Ip => seq![MenuAction::FilterByValue, MenuAction::LookupAbuseIPDB],
        TokenKind::Url => seq![MenuAction::FilterByValue, MenuAction::OpenInBrowser],
        _ => seq![MenuAction::FilterByValue],
    }
}

/// Whether an index and a histogram are what the new records make of the
/// ones before: the index is extended by the records, and the histogram
/// built anew in its width; without an index nothing changes, and without a
/// width the histogram stays as it is.
pub open spec fn index_extended(
    before: Option<TimeIndex>,
    histogram_before: Option<SparklineData>,
    width: usize,
    added: Seq<Record>,
    after: Option<TimeIndex>,
    histogram_after: Option<SparklineData>,
) -> bool {
    match (before, after) {
        (Some(b), Some(a)) => {
            &&& exists|year: i32| a.extends(&b, added, year)
            &&& if width > 0 {
                &&& histogram_after is Some <==> a.min_ts is Some && a.max_ts is Some
                &&& histogram_after matches Some(s) ==> s.is_histogram_of(&a, width as int)
            } else {
                histogram_after == histogram_before
            }
        },
        (None, None) => histogram_after == histogram_before,
        _ => false,
    }
}

/// Extends the index by new lines and builds the histogram anew.
pub fn extend_index(
    index: Option<TimeIndex>,
    histogram: Option<SparklineData>,
    width: usize,
    lines: &[ParsedLine],
) -> (r: (Option<TimeIndex>, Option<SparklineData>))
    requires
        index matches Some(t) ==> t.wf(),
        histogram matches Some(s) ==> s.wf(),
        width <= MAX_BUCKETS,
    ensures
        index_extended(index, histogram, width, records_of(lines@), r.0, r.1),
        r.0 matches Some(t) ==> t.wf(),
        r.1 matches Some(s) ==> s.wf(),
{
    match index {
        Some(t) => {
            let mut t = t;
            t.append(lines);
            let histogram = if width > 0 {
                compute_sparkline(&t, width)
            } else {
                histogram
            };
            (Some(t), histogram)
        },
        None => (None, histogram),
    }
}

impl App {
    /// Parses new lines and adds them. Where the viewer had no lines the
    /// format is detected from the new ones. The index and the histogram
    /// are extended, the lines filtered anew, and the screen stays at the
    /// end where it was at the end.
    pub fn append_lines(&mut self, new_raw: Vec<String>)
        requires
            old(self).wf(),
        ensures
            final(self).wf(),
            final(self).format == if old(self).parsed_lines.len() == 0 && new_raw.len() > 0 {
                detected(new_raw.deep_view())
            } else {
                old(self).format
            },
            final(self).records() == old(self).records() + parsed_all(
                new_raw.deep_view(),
                final(self).format,
            ),
            index_extended(
                old(self).time_index,
                old(self).sparkline_data,
                old(self).sparkline_width,
                parsed_all(new_raw.deep_view(), final(self).format),
                final(self).time_index,
                final(self).sparkline_data,
            ),
            final(self).filtered_indices@ == final(self).filter_outcome().indices,
            final(self).is_fuzzy == final(self).filter_outcome().is_fuzzy,
            final(self).scroll_offset == if old(self).scroll_offset >= old(self).max_scroll()
                || old(self).scroll_offset > final(self).filtered_indices.len() {
                final(self).filtered_indices.len()
            } else {
                old(self).scroll_offset
            },
            *final(self) == (App {
                parsed_lines: final(self).parsed_lines,
                format: final(self).format,
                time_index: final(self).time_index,
                sparkline_data: final(self).sparkline_data,
                filtered_indices: final(self).filtered_indices,
                is_fuzzy: final(self).is_fuzzy,
                scroll_offset: final(self).scroll_offset,
                ..*old(self)
            }),
    {
        if self.parsed_lines.len() == 0 && new_raw.len() > 0 {
            self.format = detect_format(new_raw.as_slice());
        }
        let was_at_bottom = self.is_at_bottom();
        let mut new_parsed = parse_all(&new_raw, self.format);
        let ghost added = records_of(new_parsed@);
        let index = self.time_index.take();
        let sparkline = self.sparkline_data.take();
        let (index, sparkline) = extend_index(
            index,
            sparkline,
            self.sparkline_width,
            new_parsed.as_slice(),
        );
        self.time_index = index;
        self.sparkline_data = sparkline;
        let ghost lines_before = self.parsed_lines@;
        self.parsed_lines.append(&mut new_parsed);
        proof {
            assert(records_of(self.parsed_lines@) =~= records_of(lines_before) + added);
        }
        let result = self.evaluate();
        self.filtered_indices = result.indices;
        self.is_fuzzy = result.is_fuzzy;
        if was_at_bottom || self.scroll_offset > self.filtered_indices.len() {
            self.scroll_offset = self.filtered_indices.len();
        }
    }

    /// The menu of a token, while it is open.
    pub fn context_menu(&self) -> (r: Option<&ContextMenuState>)
        ensures
            match r {
                Some(m) => self.context_menu == Some(*m),
                None => self.context_menu is None,
            },
    {
        self.context_menu.as_ref()
    }

    /// Opens the menu of a token at a place of the screen.
    pub fn open_context_menu(&mut self, token_value: String, token_kind: TokenKind, position: (
        u16,
        u16,
    ))
        ensures
            old(self).wf() ==> final(self).wf(),
            final(self).has_menu_opened(*old(self), token_value@, token_kind, position),
            final(self).context_menu matches Some(m) && m.token_value == token_value,
    {
        let mut items: Vec<MenuAction> = Vec::new();
        items.push(MenuAction::FilterByValue);
        match token_kind {
            TokenKind::Ip => {
                items.push(MenuAction::LookupAbuseIPDB);
            },
            TokenKind::Url => {
                items.push(MenuAction::OpenInBrowser);
            },
            _ => {},
        }
        assert(items@ =~= menu_items(token_kind));
        self.context_menu = Some(
            ContextMenuState { token_value, token_kind, items, selected: 0, position },
        );
        self.mode = AppMode::ContextMenu;
    }

    /// Closes the menu.
    pub fn close_context_menu(&mut self)
        ensures
            old(self).wf() ==> final(self).wf(),
            *final(self) == (App { context_menu: None, mode: AppMode::Normal, ..*old(self) }),
    {
        self.context_menu = None;
        self.mode = AppMode::Normal;
    }

    /// The viewer with the item `selected` of its menu selected; the viewer
    /// as it is where no menu is open.
    pub open spec fn with_menu_item(&self, selected: int) -> App {
        App {
            context_menu: match self.context_menu {
                Some(m) => Some(ContextMenuState { selected: selected as usize, ..m }),
                None => None,
            },
            ..*self
        }
    }

    /// The item of the menu that is selected after a move up.
    pub open spec fn menu_item_above(&self) -> int {
        match self.context_menu {
            Some(m) => if m.selected > 0 {
                m.selected - 1
            } else {
                0
            },
            None => 0,
        }
    }

    /// The item of the menu that is selected after a move down, which goes
    /// no further than the last item.
    pub open spec fn menu_item_below(&self) -> int {
        match self.context_menu {
            Some(m) => if m.selected + 1 < m.items.len() {
                m.selected + 1
            } else {
                m.selected as int
            },
            None => 0,
        }
    }

    /// Moves the selection of the menu up by one item.
    pub fn menu_up(&mut self)
        ensures
            old(self).wf() ==> final(self).wf(),
            *final(self) == old(self).with_menu_item(old(self).menu_item_above()),
    {
        match self.context_menu.take() {
            Some(menu) => {
                let mut menu = menu;
                menu.selected = menu.selected.saturating_sub(1);
                self.context_menu = Some(menu);
            },
            None => {},
        }
    }

    /// Moves the selection of the menu down by one item, no further than
    /// the last.
    pub fn menu_down(&mut self)
        requires
            old(self).wf(),
        ensures
            final(self).wf(),
            *final(self) == old(self).with_menu_item(old(self).menu_item_below()),
    {
        match self.context_menu.take() {
            Some(menu) => {
                let mut menu = menu;
                if menu.selected + 1 < menu.items.len() {
                    menu.selected += 1;
                }
                self.context_menu = Some(menu);
            },
            None => {},
        }
    }

    /// Closes the menu and gives the selected item with the token; nothing
    /// where no menu is open.
    pub fn execute_menu_action(&mut self) -> (r: Option<(MenuAction, String)>)
        requires
            old(self).wf(),
        ensures
            final(self).wf(),
            match old(self).context_menu {
                Some(m) => r == Some((m.items[m.selected as int], m.token_value))
                    && *final(self) == (App {
                    context_menu: None,
                    mode: AppMode::Normal,
                    ..*old(self)
                }),
                None => r is None && *final(self) == *old(self),
            },
    {
        match self.context_menu.take() {
            Some(menu) => {
                self.mode = AppMode::Normal;
                let action = menu.items[menu.selected];
                Some((action, menu.token_value))
            },
            None => None,
        }
    }

    /// Closes the menu and gives the item at `index` with the token;
    /// nothing where no menu is open or it has no such item.
    pub fn execute_menu_item(&mut self, index: usize) -> (r: Option<(MenuAction, String)>)
        ensures
            old(self).wf() ==> final(self).wf(),
            match old(self).context_menu {
                Some(m) => *final(self) == (App {
                    context_menu: None,
                    mode: AppMode::Normal,
                    ..*old(self)
                }) && r == if index < m.items.len() {
                    Some((m.items[index as int], m.token_value))
                } else {
                    None
                },
                None => r is None && *final(self) == *old(self),
            },
    {
        match self.context_menu.take() {
            Some(menu) => {
                self.mode = AppMode::Normal;
                if index < menu.items.len() {
                    Some((menu.items[index], menu.token_value))
                } else {
                    None
                }
            },
            None => None,
        }
    }

    /// Opens the palette, with no input and every command shown.
    pub fn open_palette(&mut self)
        ensures
            old(self).wf() ==> final(self).wf(),
            final(self).palette_input@ == Seq::<char>::empty(),
            final(self).palette_filtered@ == positions(COMMAND_COUNT as nat),
            *final(self) == (App {
                palette_input: final(self).palette_input,
                palette_selected: 0,
                palette_filtered: final(self).palette_filtered,
                mode: AppMode::CommandPalette,
                ..*old(self)
            }),
    {
        self.palette_input = String::new();
        self.palette_selected = 0;
        self.palette_filtered = all_positions(COMMAND_COUNT);
        self.mode = AppMode::CommandPalette;
    }

    /// Closes the palette.
    pub fn close_palette(&mut self)
        ensures
            *final(self) == (App { mode: AppMode::Normal, ..*old(self) }),
    {
        self.mode = AppMode::Normal;
    }

    /// The input of the palette.
    pub fn palette_input(&self) -> (r: &str)
        ensures
            r@ == self.palette_input@,
    {
        self.palette_input.as_str()
    }

    /// The commands that the palette shows, by their places in the table.
    pub fn palette_filtered(&self) -> (r: &[usize])
        ensures
            r@ == self.palette_filtered@,
    {
        self.palette_filtered.as_slice()
    }

    /// The command that is selected in the palette, as a place among the
    /// commands shown.
    pub fn palette_selected(&self) -> (r: usize)
        ensures
            r == self.palette_selected,
    {
        self.palette_selected
    }

    /// Shows in the palette the commands that match its input, and selects
    /// the first of them.
    pub fn recompute_palette(&mut self)
        ensures
            old(self).wf() ==> final(self).wf(),
            final(self).palette_filtered@ == palette_outcome(old(self).palette_input@),
            *final(self) == (App {
                palette_filtered: final(self).palette_filtered,
                palette_selected: 0,
                ..*old(self)
            }),
    {
        if self.palette_input.as_str().is_empty() {
            self.palette_filtered = all_positions(COMMAND_COUNT);
        } else {
            let scored = score_commands(self.palette_input.as_str());
            let ordered = rank_commands(&scored);
            let mut shown: Vec<usize> = Vec::new();
            let mut i: usize = 0;
            while i < ordered.len()
                invariant
                    i <= ordered.len(),
                    shown.len() == i,
                    forall|k: int| 0 <= k < i ==> shown[k] == ordered[k].0,
                    forall|k: int| 0 <= k < ordered.len() ==> (#[trigger] ordered[k]).0 < COMMAND_COUNT,
                decreases ordered.len() - i,
            {
                shown.push(ordered[i].0);
                i += 1;
            }
            assert(shown@ =~= palette_outcome(self.palette_input@));
            self.palette_filtered = shown;
        }
        self.palette_selected = 0;
    }

    /// Whether the viewer is `before` with `input` as the input of its
    /// palette: the palette shows the commands that match the input, the
    /// first of them selected.
    pub open spec fn has_palette_input(&self, before: App, input: Seq<char>) -> bool {
        &&& self.palette_input@ == input
        &&& self.palette_filtered@ == palette_outcome(input)
        &&& *self == (App {
            palette_input: self.palette_input,
            palette_filtered: self.palette_filtered,
            palette_selected: 0,
            ..before
        })
    }

    /// Adds a character to the input of the palette.
    pub fn palette_type(&mut self, c: char)
        ensures
            old(self).wf() ==> final(self).wf(),
            final(self).has_palette_input(*old(self), old(self).palette_input@.push(c)),
    {
        push_char(&mut self.palette_input, c);
        self.recompute_palette();
    }

    /// Takes the last character off the input of the palette.
    pub fn palette_backspace(&mut self)
        ensures
            old(self).wf() ==> final(self).wf(),
            final(self).has_palette_input(*old(self), without_last(old(self).palette_input@)),
    {
        pop_char(&mut self.palette_input);
        self.recompute_palette();
    }

    /// The viewer with the selection of the palette moved up by one
    /// command.
    pub open spec fn palette_moved_up(&self) -> App {
        App {
            palette_selected: if self.palette_selected > 0 {
                (self.palette_selected - 1) as usize
            } else {
                0
            },
            ..*self
        }
    }

    /// The viewer with the selection of the palette moved down by one
    /// command, no further than the last.
    pub open spec fn palette_moved_down(&self) -> App {
        App {
            palette_selected: if self.palette_selected + 1 < self.palette_filtered.len() {
                (self.palette_selected + 1) as usize
            } else {
                self.palette_selected
            },
            ..*self
        }
    }

    /// Moves the selection of the palette up by one command.
    pub fn palette_up(&mut self)
        ensures
            *final(self) == old(self).palette_moved_up(),
    {
        self.palette_selected = self.palette_selected.saturating_sub(1);
    }

    /// Moves the selection of the palette down by one command, no further
    /// than the last.
    pub fn palette_down(&mut self)
        ensures
            *final(self) == old(self).palette_moved_down(),
    {
        if self.palette_selected < self.palette_filtered.len() && self.palette_selected + 1
            < self.palette_filtered.len() {
            self.palette_selected += 1;
        }
    }

    /// Closes the palette and gives what the selected command does; nothing
    /// where no command is selected.
    pub fn palette_execute(&mut self) -> (r: Option<Action>)
        requires
            old(self).wf(),
        ensures
            final(self).wf(),
            if old(self).palette_selected < old(self).palette_filtered.len() {
                r == Some(
                    command_at(
                        old(self).palette_filtered[old(self).palette_selected as int] as int,
                    ).action,
                ) && *final(self) == (App { mode: AppMode::Normal, ..*old(self) })
            } else {
                r is None && *final(self) == *old(self)
            },
    {
        if self.palette_selected < self.palette_filtered.len() {
            let idx = self.palette_filtered[self.palette_selected];
            let table = commands();
            assert(table[idx as int]@ == command_at(idx as int));
            let action = table[idx].action;
            self.close_palette();
            Some(action)
        } else {
            None
        }
    }
}

/// The most minutes that a preset of the last minutes can ask for: more do
/// not make a duration.
pub const MAX_PRESET_MINUTES: i64 = 153_722_867_280_912;

/// The range of time that a selection of buckets stands for: from the mark,
/// or the cursor where no mark is set, to the cursor, whichever way round.
pub open spec fn selected_range(histogram: Option<SparklineData>, state: TimeModeState) -> Option<
    TimeRange,
> {
    let mark = match state.range_start {
        Some(m) => m,
        None => state.cursor_bucket,
    };
    let first = if mark <= state.cursor_bucket {
        mark
    } else {
        state.cursor_bucket
    };
    let last = if mark <= state.cursor_bucket {
        state.cursor_bucket
    } else {
        mark
    };
    match histogram {
        Some(s) => if first >= s.num_buckets {
            None
        } else {
            Some(range_of_buckets(&s, first as int, last as int))
        },
        None => None,
    }
}

impl App {
    /// Whether the histogram is shown.
    pub fn is_sparkline_visible(&self) -> (r: bool)
        ensures
            r == (self.sparkline_visible && self.time_index is Some),
    {
        self.sparkline_visible && self.time_index.is_some()
    }

    /// Shows or hides the histogram.
    pub fn toggle_sparkline(&mut self)
        ensures
            *final(self) == (App { sparkline_visible: !old(self).sparkline_visible, ..*old(self) }),
    {
        self.sparkline_visible = !self.sparkline_visible;
    }

    /// The histogram.
    pub fn sparkline_data(&self) -> (r: Option<&SparklineData>)
        ensures
            match r {
                Some(s) => self.sparkline_data == Some(*s),
                None => self.sparkline_data is None,
            },
    {
        self.sparkline_data.as_ref()
    }

    /// The time range that the lines are filtered by.
    pub fn time_range(&self) -> (r: Option<&TimeRange>)
        ensures
            match r {
                Some(t) => self.time_range == Some(*t),
                None => self.time_range is None,
            },
    {
        self.time_range.as_ref()
    }

    /// The selection of a range of buckets in progress.
    pub fn time_mode_state(&self) -> (r: Option<&TimeModeState>)
        ensures
            match r {
                Some(t) => self.time_mode == Some(*t),
                None => self.time_mode is None,
            },
    {
        self.time_mode.as_ref()
    }

    /// The index of the lines by time.
    pub fn time_index(&self) -> (r: Option<&TimeIndex>)
        ensures
            match r {
                Some(t) => self.time_index == Some(*t),
                None => self.time_index is None,
            },
    {
        self.time_index.as_ref()
    }

    /// Sets the width of the histogram and builds it in that width. A width
    /// of nothing, the width that is already set, and a width of more
    /// buckets than there can be are passed over.
    pub fn set_sparkline_width(&mut self, width: usize)
        requires
            old(self).wf(),
        ensures
            final(self).wf(),
            if width != old(self).sparkline_width && 0 < width <= MAX_BUCKETS {
                &&& *final(self) == (App {
                    sparkline_width: width,
                    sparkline_data: final(self).sparkline_data,
                    ..*old(self)
                })
                &&& match old(self).time_index {
                    Some(t) => {
                        &&& final(self).sparkline_data is Some <==> t.min_ts is Some && t.max_ts
                            is Some
                        &&& final(self).sparkline_data matches Some(s) ==> s.is_histogram_of(
                            &t,
                            width as int,
                        )
                    },
                    None => final(self).sparkline_data == old(self).sparkline_data,
                }
            } else {
                *final(self) == *old(self)
            },
    {
        if width != self.sparkline_width && width > 0 && width as u64 <= MAX_BUCKETS {
            self.sparkline_width = width;
            match &self.time_index {
                Some(index) => {
                    self.sparkline_data = compute_sparkline(index, width);
                },
                None => {},
            }
        }
    }

    /// The viewer with the keys given to the selection of a time range, the
    /// cursor on the middle bucket; the viewer as it is where it has no
    /// index, hides its histogram, or has no buckets.
    pub open spec fn in_time_mode(&self) -> App {
        if self.time_index is Some && self.sparkline_visible && (self.sparkline_data matches Some(
            s,
        ) && s.num_buckets > 0) {
            App {
                time_mode: Some(
                    TimeModeState {
                        cursor_bucket: self.sparkline_data->0.num_buckets / 2,
                        range_start: None,
                        dragging: false,
                        drag_start: None,
                    },
                ),
                mode: AppMode::TimeRange,
                ..*self
            }
        } else {
            *self
        }
    }

    /// The viewer in the selection of a time range, entered where the keys
    /// were elsewhere.
    pub open spec fn in_time_mode_if_not(&self) -> App {
        if self.mode != AppMode::TimeRange {
            self.in_time_mode()
        } else {
            *self
        }
    }

    /// The viewer with the mark of the selection on the bucket of the
    /// cursor.
    pub open spec fn with_mark(&self) -> App {
        App {
            time_mode: match self.time_mode {
                Some(state) => Some(TimeModeState { range_start: Some(state.cursor_bucket), ..state }),
                None => None,
            },
            ..*self
        }
    }

    /// Gives the keys to the selection of a time range, with the cursor on
    /// the middle bucket; nothing happens without an index, with the
    /// histogram hidden, or without buckets.
    pub fn enter_time_mode(&mut self)
        ensures
            old(self).wf() ==> final(self).wf(),
            *final(self) == old(self).in_time_mode(),
    {
        if self.time_index.is_none() || !self.sparkline_visible {
            return;
        }
        let num_buckets = match &self.sparkline_data {
            Some(s) => s.num_buckets,
            None => 0,
        };
        if num_buckets == 0 {
            return;
        }
        self.time_mode = Some(
            TimeModeState {
                cursor_bucket: num_buckets / 2,
                range_start: None,
                dragging: false,
                drag_start: None,
            },
        );
        self.mode = AppMode::TimeRange;
    }

    /// Takes the keys back from the selection of a time range.
    pub fn exit_time_mode(&mut self)
        ensures
            *final(self) == (App { time_mode: None, mode: AppMode::Normal, ..*old(self) }),
    {
        self.time_mode = None;
        self.mode = AppMode::Normal;
    }

    /// The viewer with the cursor of the histogram moved left by `n`
    /// buckets, no further than the first.
    pub open spec fn time_cursor_moved_left(&self, n: int) -> App {
        App {
            time_mode: match self.time_mode {
                Some(state) => Some(
                    TimeModeState {
                        cursor_bucket: if state.cursor_bucket >= n {
                            (state.cursor_bucket - n) as usize
                        } else {
                            0
                        },
                        ..state
                    },
                ),
                None => None,
            },
            ..*self
        }
    }

    /// The viewer with the cursor of the histogram moved right by `n`
    /// buckets, no further than the last.
    pub open spec fn time_cursor_moved_right(&self, n: int) -> App {
        App {
            time_mode: match (self.time_mode, self.sparkline_data) {
                (Some(state), Some(s)) => {
                    let last = if s.num_buckets > 0 {
                        s.num_buckets - 1
                    } else {
                        0
                    };
                    Some(
                        TimeModeState {
                            cursor_bucket: if state.cursor_bucket + n > last {
                                last as usize
                            } else {
                                (state.cursor_bucket + n) as usize
                            },
                            ..state
                        },
                    )
                },
                _ => self.time_mode,
            },
            ..*self
        }
    }

    /// Moves the cursor of the histogram left by `n` buckets, no further
    /// than the first.
    pub fn time_cursor_left(&mut self, n: usize)
        ensures
            *final(self) == old(self).time_cursor_moved_left(n as int),
    {
        match self.time_mode {
            Some(state) => {
                self.time_mode = Some(
                    TimeModeState {
                        cursor_bucket: state.cursor_bucket.saturating_sub(n),
                        range_start: state.range_start,
                        dragging: state.dragging,
                        drag_start: state.drag_start,
                    },
                );
            },
            None => {},
        }
    }

    /// Moves the cursor of the histogram right by `n` buckets, no further
    /// than the last.
    pub fn time_cursor_right(&mut self, n: usize)
        ensures
            *final(self) == old(self).time_cursor_moved_right(n as int),
    {
        match (self.time_mode, &self.sparkline_data) {
            (Some(state), Some(s)) => {
                let last = s.num_buckets.saturating_sub(1);
                let sum = state.cursor_bucket.saturating_add(n);
                self.time_mode = Some(
                    TimeModeState {
                        cursor_bucket: if sum > last {
                            last
                        } else {
                            sum
                        },
                        range_start: state.range_start,
                        dragging: state.dragging,
                        drag_start: state.drag_start,
                    },
                );
            },
            _ => {},
        }
    }

    /// Sets the mark of the selection on the bucket of the cursor.
    pub fn time_mark_start(&mut self)
        ensures
            *final(self) == old(self).with_mark(),
    {
        match self.time_mode {
            Some(state) => {
                self.time_mode = Some(
                    TimeModeState {
                        cursor_bucket: state.cursor_bucket,
                        range_start: Some(state.cursor_bucket),
                        dragging: state.dragging,
                        drag_start: state.drag_start,
                    },
                );
            },
            None => {},
        }
    }

    /// Ends the selection: the lines are filtered by the time that the
    /// buckets from the mark to the cursor cover, and the keys go back.
    /// Without a selection in progress nothing happens; where the buckets
    /// stand for no range the filter stays as it is.
    pub fn time_mark_end_and_apply(&mut self)
        requires
            old(self).wf(),
        ensures
            final(self).wf(),
            match old(self).time_mode {
                Some(state) => final(self).has_applied(
                    *old(self),
                    selected_range(old(self).sparkline_data, state),
                ),
                None => *final(self) == *old(self),
            },
    {
        let state = match self.time_mode {
            Some(s) => s,
            None => { return; },
        };
        let range = self.selection_range(state);
        self.apply_range(range);
    }

    /// The range of time that a selection of buckets stands for.
    pub fn selection_range(&self, state: TimeModeState) -> (r: Option<TimeRange>)
        requires
            self.wf(),
        ensures
            r == selected_range(self.sparkline_data, state),
    {
        let mark = match state.range_start {
            Some(m) => m,
            None => state.cursor_bucket,
        };
        let (first, last) = if mark <= state.cursor_bucket {
            (mark, state.cursor_bucket)
        } else {
            (state.cursor_bucket, mark)
        };
        match &self.sparkline_data {
            Some(s) => bucket_range_to_time_range(s, first, last),
            None => None,
        }
    }

    /// Whether the viewer is `before` after a range of time was chosen: the
    /// lines are filtered by the range where there is one, and the keys are
    /// back from the selection.
    pub open spec fn has_applied(&self, before: App, range: Option<TimeRange>) -> bool {
        match range {
            Some(r) => (App { time_mode: before.time_mode, mode: before.mode, ..*self }).is_refiltered(
                App { time_range: Some(r), ..before },
            ) && self.time_mode is None && self.mode == AppMode::Normal,
            None => *self == (App { time_mode: None, mode: AppMode::Normal, ..before }),
        }
    }

    /// Filters the lines by the range, where there is one, and takes the
    /// keys back from the selection.
    pub fn apply_range(&mut self, range: Option<TimeRange>)
        requires
            old(self).wf(),
        ensures
            final(self).wf(),
            final(self).has_applied(*old(self), range),
    {
        match range {
            Some(r) => {
                self.time_range = Some(r);
                self.recompute_filter();
            },
            None => {},
        }
        self.exit_time_mode();
    }

    /// Filters the lines by the last `minutes` minutes before the latest
    /// instant, and takes the keys back from the selection. Without an
    /// index the filter stays as it is.
    pub fn time_preset(&mut self, minutes: i64)
        requires
            old(self).wf(),
            -MAX_PRESET_MINUTES <= minutes <= MAX_PRESET_MINUTES,
        ensures
            final(self).wf(),
            final(self).has_applied(*old(self), old(self).preset_range(minutes as int)),
    {
        let latest = match &self.time_index {
            Some(index) => index.max_ts,
            None => None,
        };
        let range = match latest {
            Some(t) => {
                assert(self.time_index->0.wf());
                assert(-MAX_PRESET_MINUTES <= minutes <= MAX_PRESET_MINUTES);
                let back: i64 = -60 * minutes;
                assert(back == -60 * minutes);
                Some(TimeRange { start: t.plus_seconds(back), end: t })
            },
            None => None,
        };
        self.apply_range(range);
    }

    /// The last `minutes` minutes before the latest instant of the index;
    /// no range without an index or without a latest instant.
    pub open spec fn preset_range(&self, minutes: int) -> Option<TimeRange> {
        match self.time_index {
            Some(t) => match t.max_ts {
                Some(latest) => Some(
                    TimeRange { start: latest.later_by(-60 * minutes), end: latest },
                ),
                None => None,
            },
            None => None,
        }
    }

    /// Lifts the time range.
    pub fn clear_time_range(&mut self)
        requires
            old(self).wf(),
        ensures
            final(self).wf(),
            final(self).is_refiltered(App { time_range: None, ..*old(self) }),
    {
        self.time_range = None;
        self.recompute_filter();
    }

    /// The viewer after a press of the mouse on a bucket: a selection
    /// starts there, the selection of a time range being entered first where
    /// the keys are elsewhere. The viewer as it is where it has no index or
    /// hides its histogram.
    pub open spec fn pressed_on(&self, bucket: usize) -> App {
        if self.time_index is Some && self.sparkline_visible {
            let entered = self.in_time_mode_if_not();
            App {
                time_mode: match entered.time_mode {
                    Some(state) => Some(
                        TimeModeState {
                            cursor_bucket: bucket,
                            dragging: true,
                            drag_start: Some(bucket),
                            range_start: Some(bucket),
                        },
                    ),
                    None => None,
                },
                ..entered
            }
        } else {
            *self
        }
    }

    /// The viewer after a drag of the mouse to a bucket: the cursor of the
    /// histogram follows while a selection is dragged.
    pub open spec fn dragged_to(&self, bucket: usize) -> App {
        App {
            time_mode: match self.time_mode {
                Some(state) => if state.dragging {
                    Some(TimeModeState { cursor_bucket: bucket, ..state })
                } else {
                    Some(state)
                },
                None => None,
            },
            ..*self
        }
    }

    /// Whether the viewer is `before` after a release of the mouse: the
    /// selection that was dragged is ended, and nothing happens where none
    /// was.
    pub open spec fn has_released(&self, before: App) -> bool {
        if before.is_dragging() {
            self.has_applied(before, selected_range(before.sparkline_data, before.time_mode->0))
        } else {
            *self == before
        }
    }

    /// Whether the viewer is `before` with the menu of a token opened at a
    /// place of the screen.
    pub open spec fn has_menu_opened(
        &self,
        before: App,
        value: Seq<char>,
        kind: TokenKind,
        position: (u16, u16),
    ) -> bool {
        &&& self.context_menu matches Some(m) && m.token_value@ == value && m.token_kind == kind
            && m.items@ == menu_items(kind) && m.selected == 0 && m.position == position
        &&& *self == (App {
            context_menu: self.context_menu,
            mode: AppMode::ContextMenu,
            ..before
        })
    }

    /// A press of the mouse on a bucket of the histogram: starts a
    /// selection there, entering the selection of a time range first where
    /// the keys are elsewhere. Nothing happens without an index or with the
    /// histogram hidden.
    pub fn time_mouse_down(&mut self, bucket: usize)
        ensures
            old(self).wf() ==> final(self).wf(),
            *final(self) == old(self).pressed_on(bucket),
    {
        if self.time_index.is_none() || !self.sparkline_visible {
            return;
        }
        if self.mode != AppMode::TimeRange {
            self.enter_time_mode();
        }
        match self.time_mode {
            Some(_) => {
                self.time_mode = Some(
                    TimeModeState {
                        cursor_bucket: bucket,
                        range_start: Some(bucket),
                        dragging: true,
                        drag_start: Some(bucket),
                    },
                );
            },
            None => {},
        }
    }

    /// A drag of the mouse to a bucket: the cursor follows while a
    /// selection is dragged.
    pub fn time_mouse_drag(&mut self, bucket: usize)
        ensures
            *final(self) == old(self).dragged_to(bucket),
    {
        match self.time_mode {
            Some(state) => {
                if state.dragging {
                    self.time_mode = Some(
                        TimeModeState {
                            cursor_bucket: bucket,
                            range_start: state.range_start,
                            dragging: state.dragging,
                            drag_start: state.drag_start,
                        },
                    );
                }
            },
            None => {},
        }
    }

    /// Whether a selection is being dragged.
    pub open spec fn is_dragging(&self) -> bool {
        self.time_mode matches Some(state) && state.dragging && state.drag_start is Some
    }

    /// A release of the mouse: ends the selection that was dragged, as
    /// [`App::time_mark_end_and_apply`] does.
    pub fn time_mouse_up(&mut self, bucket: usize)
        requires
            old(self).wf(),
        ensures
            final(self).wf(),
            final(self).has_released(*old(self)),
    {
        let should_apply = match self.time_mode {
            Some(state) => state.dragging && state.drag_start.is_some(),
            None => false,
        };
        if should_apply {
            self.time_mark_end_and_apply();
        }
    }
}

/// The minutes of the preset that an action stands for; none for an action
/// that is no preset.
pub open spec fn preset_minutes(action: Action) -> Option<int> {
    match action {
        Action::TimePresetLast5m => Some(5int),
        Action::TimePresetLast15m => Some(15int),
        Action::TimePresetLast1h => Some(60int),
        Action::TimePresetLast24h => Some(1440int),
        _ => None,
    }
}

/// Whether an action acts on the selection of a time range.
pub open spec fn is_time_action(action: Action) -> bool {
    match action {
        Action::EnterTimeMode
        | Action::ClearTimeRange
        | Action::ToggleSparkline
        | Action::TimeMarkStart
        | Action::TimeMarkEndApply
        | Action::TimePresetLast5m
        | Action::TimePresetLast15m
        | Action::TimePresetLast1h
        | Action::TimePresetLast24h => true,
        _ => false,
    }
}

impl App {
    /// What an action asks to be copied: for the copy of a line the line
    /// under the cursor, for the copy of all lines the filtered lines.
    pub open spec fn text_to_copy(&self, action: Action) -> Option<Seq<char>> {
        match action {
            Action::YankLine => if self.cursor_position < self.filtered_indices.len() {
                Some(self.records()[self.filtered_indices[self.cursor_position as int] as int].raw)
            } else {
                None
            },
            Action::YankAllFiltered => Some(self.joined_lines(self.filtered_indices.len() as int)),
            _ => None,
        }
    }

    /// Whether the viewer is `before` with the time range lifted, and with
    /// the keys taken back from the selection where they were there.
    pub open spec fn has_cleared_range(&self, before: App) -> bool {
        if before.mode == AppMode::TimeRange {
            (App { time_mode: before.time_mode, mode: before.mode, ..*self }).is_refiltered(
                App { time_range: None, ..before },
            ) && self.time_mode is None && self.mode == AppMode::Normal
        } else {
            self.is_refiltered(App { time_range: None, ..before })
        }
    }

    /// Whether the viewer is `before` after an action on the selection of
    /// a time range.
    pub open spec fn is_time_dispatched(&self, before: App, action: Action) -> bool {
        match action {
            Action::EnterTimeMode => *self == before.in_time_mode(),
            Action::ClearTimeRange => self.has_cleared_range(before),
            Action::ToggleSparkline => *self == (App {
                sparkline_visible: !before.sparkline_visible,
                ..before
            }),
            Action::TimeMarkStart => *self == before.in_time_mode_if_not().with_mark(),
            Action::TimeMarkEndApply => match before.time_mode {
                Some(state) => if before.mode == AppMode::TimeRange {
                    self.has_applied(before, selected_range(before.sparkline_data, state))
                } else {
                    *self == before
                },
                None => *self == before,
            },
            _ => match preset_minutes(action) {
                Some(minutes) => self.has_applied(
                    before.in_time_mode_if_not(),
                    before.in_time_mode_if_not().preset_range(minutes),
                ),
                None => *self == before,
            },
        }
    }

    /// Whether the viewer is `before` after an action that is none on the
    /// selection of a time range.
    pub open spec fn is_view_dispatched(&self, before: App, action: Action) -> bool {
        match action {
            Action::Quit => *self == (App { quit: true, ..before }),
            Action::ScrollDown => *self == before.scrolled_down(1),
            Action::ScrollUp => *self == before.scrolled_up(1),
            Action::ScrollLeft => *self == before.scrolled_left(1),
            Action::ScrollRight => *self == before.scrolled_right(1),
            Action::PageDown => *self == before.scrolled_down(before.page_step()),
            Action::PageUp => *self == before.scrolled_up(before.page_step()),
            Action::ScrollToTop => *self == (App { scroll_offset: 0, ..before }),
            Action::ScrollToBottom => *self == (App {
                scroll_offset: before.filtered_indices.len(),
                ..before
            }),
            Action::OpenFilter => *self == (App { mode: AppMode::Filter, ..before }),
            Action::CycleLevelUp => if before.available_levels.len() <= 1 {
                *self == before
            } else {
                self.is_refiltered(
                    App {
                        min_level: level_above(before.available_levels@, before.min_level),
                        ..before
                    },
                )
            },
            Action::CycleLevelDown => if before.available_levels.len() <= 1 {
                *self == before
            } else {
                self.is_refiltered(
                    App {
                        min_level: level_below(before.available_levels@, before.min_level),
                        ..before
                    },
                )
            },
            Action::TogglePretty => *self == (App { json_pretty: !before.json_pretty, ..before }),
            Action::ToggleWrap => *self == (App { wrap: !before.wrap, h_scroll: 0, ..before }),
            Action::EnterCursorMode => *self == (App {
                cursor_position: before.scroll_offset,
                mode: AppMode::Cursor,
                ..before
            }),
            Action::ToggleFollowPause => *self == (App {
                follow_paused: !before.follow_paused,
                ..before
            }),
            Action::OpenCommandPalette => {
                &&& self.palette_input@ == Seq::<char>::empty()
                &&& self.palette_filtered@ == positions(COMMAND_COUNT as nat)
                &&& *self == (App {
                    palette_input: self.palette_input,
                    palette_selected: 0,
                    palette_filtered: self.palette_filtered,
                    mode: AppMode::CommandPalette,
                    ..before
                })
            },
            _ => *self == before,
        }
    }

    /// Whether the viewer is `before` after an action.
    pub open spec fn is_dispatched(&self, before: App, action: Action) -> bool {
        if is_time_action(action) {
            self.is_time_dispatched(before, action)
        } else {
            self.is_view_dispatched(before, action)
        }
    }

    /// Does what an action on the selection of a time range asks for.
    pub fn dispatch_time(&mut self, action: Action)
        requires
            old(self).wf(),
            is_time_action(action),
        ensures
            final(self).wf(),
            final(self).is_time_dispatched(*old(self), action),
    {
        match action {
            Action::EnterTimeMode => self.enter_time_mode(),
            Action::ClearTimeRange => self.clear_range_and_leave(),
            Action::ToggleSparkline => self.toggle_sparkline(),
            Action::TimeMarkStart => self.mark_start(),
            Action::TimeMarkEndApply => self.end_selection(),
            Action::TimePresetLast5m => self.preset(5),
            Action::TimePresetLast15m => self.preset(15),
            Action::TimePresetLast1h => self.preset(60),
            Action::TimePresetLast24h => self.preset(1440),
            _ => {},
        }
    }

    /// Lifts the time range, and takes the keys back from the selection
    /// where they were there.
    pub fn clear_range_and_leave(&mut self)
        requires
            old(self).wf(),
        ensures
            final(self).wf(),
            final(self).has_cleared_range(*old(self)),
    {
        self.clear_time_range();
        if self.mode == AppMode::TimeRange {
            self.exit_time_mode();
        }
    }

    /// Sets the mark of the selection, entering the selection of a time
    /// range first where the keys are elsewhere.
    pub fn mark_start(&mut self)
        ensures
            old(self).wf() ==> final(self).wf(),
            *final(self) == old(self).in_time_mode_if_not().with_mark(),
    {
        if self.mode != AppMode::TimeRange {
            self.enter_time_mode();
        }
        self.time_mark_start();
    }

    /// Ends the selection where the keys are in it.
    pub fn end_selection(&mut self)
        requires
            old(self).wf(),
        ensures
            final(self).wf(),
            match old(self).time_mode {
                Some(state) => if old(self).mode == AppMode::TimeRange {
                    final(self).has_applied(
                        *old(self),
                        selected_range(old(self).sparkline_data, state),
                    )
                } else {
                    *final(self) == *old(self)
                },
                None => *final(self) == *old(self),
            },
    {
        if self.mode == AppMode::TimeRange {
            self.time_mark_end_and_apply();
        }
    }

    /// Filters the lines by the last `minutes` minutes, entering the
    /// selection of a time range first where the keys are elsewhere.
    pub fn preset(&mut self, minutes: i64)
        requires
            old(self).wf(),
            -MAX_PRESET_MINUTES <= minutes <= MAX_PRESET_MINUTES,
        ensures
            final(self).wf(),
            final(self).has_applied(
                old(self).in_time_mode_if_not(),
                old(self).in_time_mode_if_not().preset_range(minutes as int),
            ),
    {
        if self.mode != AppMode::TimeRange {
            self.enter_time_mode();
        }
        self.time_preset(minutes);
    }

    /// Does what an action that is none on the selection of a time range
    /// asks for. A copy is left to the caller.
    pub fn dispatch_view(&mut self, action: Action)
        requires
            old(self).wf(),
            !is_time_action(action),
        ensures
            final(self).wf(),
            final(self).is_view_dispatched(*old(self), action),
    {
        match action {
            Action::Quit => self.quit(),
            Action::ScrollDown => self.scroll_down(1),
            Action::ScrollUp => self.scroll_up(1),
            Action::ScrollLeft => self.scroll_left(1),
            Action::ScrollRight => self.scroll_right(1),
            Action::PageDown => self.page_down(),
            Action::PageUp => self.page_up(),
            Action::ScrollToTop => self.scroll_to_top(),
            Action::ScrollToBottom => self.scroll_to_bottom(),
            Action::OpenFilter => self.enter_filter_mode(),
            Action::CycleLevelUp => self.cycle_level_up(),
            Action::CycleLevelDown => self.cycle_level_down(),
            Action::TogglePretty => self.toggle_pretty(),
            Action::ToggleWrap => self.toggle_wrap(),
            Action::EnterCursorMode => self.enter_cursor_mode(),
            Action::ToggleFollowPause => self.toggle_follow_pause(),
            Action::OpenCommandPalette => self.open_palette(),
            _ => {},
        }
    }

    /// Does what an action asks for, and gives the text that the action
    /// asks to be copied. The copy itself is left to the caller, who shows
    /// its notice once it is made.
    pub fn dispatch_action(&mut self, action: Action) -> (r: Option<String>)
        requires
            old(self).wf(),
        ensures
            final(self).wf(),
            final(self).is_dispatched(*old(self), action),
            r.deep_view() == old(self).text_to_copy(action),
    {
        match action {
            Action::YankLine => match self.cursor_line_raw() {
                Some(text) => Some(owned(text)),
                None => None,
            },
            Action::YankAllFiltered => Some(self.all_filtered_lines_raw()),
            Action::EnterTimeMode
            | Action::ClearTimeRange
            | Action::ToggleSparkline
            | Action::TimeMarkStart
            | Action::TimeMarkEndApply
            | Action::TimePresetLast5m
            | Action::TimePresetLast15m
            | Action::TimePresetLast1h
            | Action::TimePresetLast24h => {
                self.dispatch_time(action);
                None
            },
            _ => {
                self.dispatch_view(action);
                None
            },
        }
    }
}

} // verus!
