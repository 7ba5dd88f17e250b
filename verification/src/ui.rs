//! From a place on the screen to the token that is drawn there.

use crate::app::{App, ContextMenuState, MenuAction};
use crate::highlighter::{
    cuts_in, expanded_of, highlight_line, highlight_line_expanded, line_of,
    line_text, stamp_end, timestamp_end, tokenize_with_metadata, tokens_of, Cut, TokenKind,
};
use crate::record::{LogFormat, ParsedLine, Record};
use crate::style::{text_of_pieces, Span, Style};
use crate::text::{byte_len, bytes_of, decimal, decimal_text, slice_of, substr};
use vstd::prelude::*;
use vstd::string::StrSliceExecFns;

verus! {

/// A rectangle of the screen, in cells.
#[derive(Debug, Clone, Copy, PartialEq, Eq, Structural)]
pub struct Area {
    pub x: u16,
    pub y: u16,
    pub width: u16,
    pub height: u16,
}

/// The columns that the line numbers take: as many as the number of the
/// last line has digits, and three at least.
pub open spec fn number_width(total: nat) -> nat {
    if decimal_text(total).len() < 3 {
        3
    } else {
        decimal_text(total).len()
    }
}

/// The columns that the line numbers take.
pub fn line_number_width(total: usize) -> (r: usize)
    ensures
        r == number_width(total as nat),
{
    let digits = decimal(total as u64);
    let n = digits.as_str().unicode_len();
    if n < 3 {
        3
    } else {
        n
    }
}

/// The text of a line that is tokenized for display: for an unstructured
/// or a syslog line what follows its timestamp, for a structured line its
/// message.
pub open spec fn tokenizable_text(record: Record) -> Seq<char> {
    match record.format {
        LogFormat::Plain | LogFormat::Syslog => match stamp_end(record) {
            Some(end) => slice_of(record.raw, end as int, bytes_of(record.raw).len() as int),
            None => record.raw,
        },
        _ => record.message,
    }
}

/// The bytes of an unstructured or a syslog line up to the end of its
/// timestamp; nothing for a structured line, which shows its timestamp
/// before the message.
pub open spec fn timestamp_prefix(record: Record) -> nat {
    match record.format {
        LogFormat::Plain | LogFormat::Syslog => match stamp_end(record) {
            Some(end) => end as nat,
            None => 0,
        },
        _ => 0,
    }
}

/// The bytes that the display puts before the message of a structured
/// line: the badge, and the timestamp with the space after it. Nothing for
/// an unstructured or a syslog line.
pub open spec fn highlight_prefix(record: Record) -> nat {
    match record.format {
        LogFormat::Plain | LogFormat::Syslog => 0,
        _ => match record.timestamp {
            Some(stamp) => if 6 + bytes_of(stamp).len() + 1 > usize::MAX {
                usize::MAX as nat
            } else {
                6 + bytes_of(stamp).len() + 1
            },
            None => 6,
        },
    }
}

/// The text of a line that is tokenized for display.
pub fn get_tokenizable_text(parsed: &ParsedLine) -> (r: &str)
    ensures
        r@ == tokenizable_text(parsed@),
{
    match parsed.format {
        LogFormat::Plain | LogFormat::Syslog => match timestamp_end(parsed) {
            Some(end) => {
                let raw = parsed.raw.as_str();
                substr(raw, end, byte_len(raw))
            },
            None => parsed.raw.as_str(),
        },
        _ => parsed.message.as_str(),
    }
}

/// The bytes of an unstructured or a syslog line up to the end of its
/// timestamp.
pub fn get_timestamp_prefix_len(parsed: &ParsedLine) -> (r: usize)
    ensures
        r == timestamp_prefix(parsed@),
{
    match parsed.format {
        LogFormat::Plain | LogFormat::Syslog => match timestamp_end(parsed) {
            Some(end) => end,
            None => 0,
        },
        _ => 0,
    }
}

/// The bytes that the display puts before the message of a structured
/// line.
pub fn get_highlight_prefix_len(parsed: &ParsedLine) -> (r: usize)
    ensures
        r == highlight_prefix(parsed@),
{
    match parsed.format {
        LogFormat::Plain | LogFormat::Syslog => 0,
        _ => match &parsed.timestamp {
            Some(stamp) => byte_len(stamp.as_str()).saturating_add(7),
            None => 6,
        },
    }
}

/// The token that holds the byte `col` of a tokenized text, among the
/// pieces from `from` on: its kind and its text. There is none where the
/// byte lies in the text between two tokens, or beyond the text.
pub open spec fn token_at(cuts: Seq<Cut>, from: int, col: int) -> Option<(TokenKind, Seq<char>)>
    decreases cuts.len() - from,
{
    if from < 0 || from >= cuts.len() || col < 0 {
        None
    } else if col < bytes_of(cuts[from].text).len() {
        match cuts[from].kind {
            Some(kind) => Some((kind, cuts[from].text)),
            None => None,
        }
    } else {
        token_at(cuts, from + 1, col - bytes_of(cuts[from].text).len())
    }
}

/// The view of a token with its text.
pub open spec fn token_view(token: Option<(TokenKind, String)>) -> Option<(TokenKind, Seq<char>)> {
    match token {
        Some(t) => Some((t.0, t.1@)),
        None => None,
    }
}

/// The token that holds the byte `col` of a tokenized text.
pub fn find_token_at_col(col: usize, tokens: &Vec<(Span, Option<TokenKind>, String)>) -> (r:
    Option<(TokenKind, String)>)
    ensures
        token_view(r) == token_at(cuts_in(tokens@), 0, col as int),
{
    let mut left: usize = col;
    let mut i: usize = 0;
    while i < tokens.len()
        invariant
            i <= tokens.len(),
            token_at(cuts_in(tokens@), 0, col as int) == token_at(
                cuts_in(tokens@),
                i as int,
                left as int,
            ),
        decreases tokens.len() - i,
    {
        let len = byte_len(tokens[i].2.as_str());
        assert(cuts_in(tokens@)[i as int].text == tokens[i as int].2@);
        if left < len {
            return match tokens[i].1 {
                Some(kind) => Some((kind, tokens[i].2.clone())),
                None => None,
            };
        }
        left -= len;
        i += 1;
    }
    None
}

/// The token at the byte `text_col` of a line as it is shown: the byte is
/// counted in the shown line, which starts with what the display puts
/// before the tokenized text.
pub open spec fn token_in_line(record: Record, text_col: int) -> Option<(TokenKind, Seq<char>)> {
    let skipped = highlight_prefix(record) + timestamp_prefix(record);
    if text_col >= skipped {
        token_at(tokens_of(tokenizable_text(record), Style::plain()), 0, text_col - skipped)
    } else {
        None
    }
}

/// The token at the byte `text_col` of a line as it is shown.
pub fn token_of_line(parsed: &ParsedLine, text_col: usize) -> (r: Option<(TokenKind, String)>)
    ensures
        token_view(r) == token_in_line(parsed@, text_col as int),
{
    let text = get_tokenizable_text(parsed);
    let stamp = get_timestamp_prefix_len(parsed);
    let extra = get_highlight_prefix_len(parsed);
    let tokens = tokenize_with_metadata(text, Style::new());
    if text_col >= extra && text_col - extra >= stamp {
        find_token_at_col(text_col - extra - stamp, &tokens)
    } else {
        None
    }
}

/// The rows that a line takes where lines are wrapped at `wrap_width`
/// columns, after a prefix of `prefix_width` columns: as many as its shown
/// text needs, and one at least.
pub open spec fn wrapped_rows(record: Record, prefix_width: int, wrap_width: int) -> int {
    let shown = bytes_of(text_of_pieces(line_of(record))).len();
    let len = if prefix_width + shown > usize::MAX {
        usize::MAX as int
    } else {
        prefix_width + shown
    };
    let rows = len / wrap_width + if len % wrap_width != 0 {
        1int
    } else {
        0int
    };
    if rows < 1 {
        1
    } else {
        rows
    }
}

/// The rows that a line takes where lines are wrapped.
pub fn rows_when_wrapped(parsed: &ParsedLine, prefix_width: usize, wrap_width: usize) -> (r: usize)
    requires
        wrap_width > 0,
    ensures
        r == wrapped_rows(parsed@, prefix_width as int, wrap_width as int),
        r >= 1,
{
    let line = highlight_line(parsed);
    let shown = line_text(&line);
    let len = prefix_width.saturating_add(byte_len(shown.as_str()));
    let whole = len / wrap_width;
    let rows = if len % wrap_width != 0 {
        assert(whole < usize::MAX) by {
            assert(whole <= len / 1) by (nonlinear_arith)
                requires
                    whole == len / wrap_width,
                    wrap_width >= 1,
            ;
            if whole == usize::MAX {
                assert(len == usize::MAX);
                assert(len % wrap_width == 0) by (nonlinear_arith)
                    requires
                        len / wrap_width == len,
                        wrap_width >= 1,
                        len >= 1,
                ;
            }
        }
        whole + 1
    } else {
        whole
    };
    if rows < 1 {
        1
    } else {
        rows
    }
}

/// The record of the line that is `k` lines below the first line of the
/// screen.
pub open spec fn visible_record(app: &App, k: int) -> Record {
    app.records()[app.filtered_indices[app.scroll_offset + k] as int]
}

/// The rows that the line `k` of the screen takes: in pretty mode those of
/// its expanded form, with wrapping those of its wrapped text, else one.
pub open spec fn row_height(app: &App, k: int, prefix_width: int, wrap_width: int) -> int {
    if app.json_pretty {
        expanded_of(visible_record(app, k), true).len() as int
    } else if app.wrap {
        wrapped_rows(visible_record(app, k), prefix_width, wrap_width)
    } else {
        1
    }
}

/// The line of the screen that holds the row `row`, counted from the line
/// `from` on, and the row within that line.
pub open spec fn entry_at(
    app: &App,
    prefix_width: int,
    wrap_width: int,
    count: int,
    from: int,
    row: int,
) -> Option<(int, int)>
    decreases count - from,
{
    if from < 0 || from >= count || row < 0 {
        None
    } else if row < row_height(app, from, prefix_width, wrap_width) {
        Some((from, row))
    } else {
        entry_at(
            app,
            prefix_width,
            wrap_width,
            count,
            from + 1,
            row - row_height(app, from, prefix_width, wrap_width),
        )
    }
}

/// The cell of the content that a cell of the screen is: its row and its
/// column within the frame of the main area. None for a cell on the frame
/// or outside it.
pub open spec fn content_cell(main: Area, column: u16, row: u16) -> Option<(int, int)> {
    let left = main.x + 1;
    let top = main.y + 1;
    let width = if main.width >= 2 {
        main.width - 2
    } else {
        0
    };
    let height = if main.height >= 2 {
        main.height - 2
    } else {
        0
    };
    if column < left || column >= left + width || row < top || row >= top + height {
        None
    } else {
        Some((row - top, column - left))
    }
}

/// The columns of the content of the main area.
pub open spec fn content_width(main: Area) -> int {
    if main.width >= 2 {
        main.width - 2
    } else {
        0
    }
}

/// The token that is drawn at a cell of the screen, the main area being
/// `main`. In pretty mode the tokens are those of the message, whatever row
/// of the expanded line is meant; with wrapping the rows of a line go on
/// one after the other; else there is one row for each line. A cell on the
/// line numbers, on text between tokens or on no line holds no token.
pub open spec fn clicked_token(app: &App, column: u16, row: u16, main: Area) -> Option<
    (TokenKind, Seq<char>),
> {
    match content_cell(main, column, row) {
        Some(cell) => token_in_cell(app, cell.0, cell.1, content_width(main)),
        None => None,
    }
}

/// The token that is drawn at a cell of the content, which is `wrap_width`
/// columns wide.
pub open spec fn token_in_cell(app: &App, row: int, column: int, wrap_width: int) -> Option<
    (TokenKind, Seq<char>),
> {
    let prefix = (number_width(app.parsed_lines.len() as nat) + 1) as int;
    let count = app.fits_forward(app.scroll_offset as int, app.viewport_height as int);
    if !app.json_pretty && app.wrap && wrap_width == 0 {
        None
    } else {
        match entry_at(app, prefix, wrap_width, count, 0, row) {
            Some(entry) => token_in_entry(
                app.json_pretty,
                app.wrap,
                visible_record(app, entry.0),
                entry.1,
                column,
                prefix,
                wrap_width,
            ),
            None => None,
        }
    }
}

/// The token at a column of a row of a line of the screen. With wrapping
/// the rows of the line go on one after the other, so the column counts on
/// from the rows before it; the columns of the line number hold no token.
/// In pretty mode the tokens are those of the message.
pub open spec fn token_in_entry(
    pretty: bool,
    wrap: bool,
    record: Record,
    sub_row: int,
    column: int,
    prefix_width: int,
    wrap_width: int,
) -> Option<(TokenKind, Seq<char>)> {
    let col = if !pretty && wrap {
        sub_row * wrap_width + column
    } else {
        column
    };
    if col < prefix_width {
        None
    } else if pretty {
        token_at(tokens_of(record.message, Style::plain()), 0, col - prefix_width)
    } else {
        token_in_line(record, col - prefix_width)
    }
}

/// The token at a column of a row of a line of the screen.
pub fn token_of_entry(
    pretty: bool,
    wrap: bool,
    parsed: &ParsedLine,
    sub_row: usize,
    column: usize,
    prefix_width: usize,
    wrap_width: usize,
) -> (r: Option<(TokenKind, String)>)
    requires
        sub_row <= 0xffff,
        column <= 0xffff,
        wrap_width <= 0xffff,
    ensures
        token_view(r) == token_in_entry(
            pretty,
            wrap,
            parsed@,
            sub_row as int,
            column as int,
            prefix_width as int,
            wrap_width as int,
        ),
{
    let col = if !pretty && wrap {
        assert(sub_row * wrap_width <= 0xffff * 0xffff) by (nonlinear_arith)
            requires
                sub_row <= 0xffff,
                wrap_width <= 0xffff,
        ;
        sub_row * wrap_width + column
    } else {
        column
    };
    if col < prefix_width {
        None
    } else if pretty {
        let tokens = tokenize_with_metadata(parsed.message.as_str(), Style::new());
        find_token_at_col(col - prefix_width, &tokens)
    } else {
        token_of_line(parsed, col - prefix_width)
    }
}

/// The cell of the content that a cell of the screen is.
pub fn cell_in_content(main: Area, column: u16, row: u16) -> (r: Option<(usize, usize)>)
    ensures
        match r {
            Some(c) => content_cell(main, column, row) == Some((c.0 as int, c.1 as int)) && c.0
                <= 0xffff && c.1 <= 0xffff,
            None => content_cell(main, column, row) is None,
        },
{
    let left: u32 = main.x as u32 + 1;
    let top: u32 = main.y as u32 + 1;
    let width: u32 = main.width.saturating_sub(2) as u32;
    let height: u32 = main.height.saturating_sub(2) as u32;
    let c: u32 = column as u32;
    let r: u32 = row as u32;
    if c < left || c >= left + width || r < top || r >= top + height {
        None
    } else {
        Some(((r - top) as usize, (c - left) as usize))
    }
}

/// The rows that the line `k` of the screen takes.
pub fn height_of_row(app: &App, parsed: &ParsedLine, prefix_width: usize, wrap_width: usize) -> (r:
    usize)
    requires
        !app.json_pretty && app.wrap ==> wrap_width > 0,
    ensures
        r == if app.json_pretty {
            expanded_of(parsed@, true).len() as int
        } else if app.wrap {
            wrapped_rows(parsed@, prefix_width as int, wrap_width as int)
        } else {
            1
        },
{
    if app.is_pretty() {
        let lines = highlight_line_expanded(parsed, true);
        assert(expanded_of(parsed@, true).len() == lines.len());
        lines.len()
    } else if app.is_wrap() {
        rows_when_wrapped(parsed, prefix_width, wrap_width)
    } else {
        1
    }
}

/// The token that is drawn at a cell of the screen, the main area being
/// `main`: its kind and its text.
pub fn token_at_position(app: &App, column: u16, row: u16, main: Area) -> (r: Option<
    (TokenKind, String),
>)
    requires
        app.wf(),
    ensures
        token_view(r) == clicked_token(app, column, row, main),
{
    let cell = match cell_in_content(main, column, row) {
        Some(c) => c,
        None => { return None; },
    };
    let prefix = line_number_width(app.total_lines_unfiltered()).saturating_add(1);
    let wrap_width = main.width.saturating_sub(2) as usize;
    let wrapping = !app.is_pretty() && app.is_wrap();
    if wrapping && wrap_width == 0 {
        return None;
    }
    proof {
        lemma_number_width_small(app.parsed_lines.len() as nat);
    }
    let visible = app.visible_parsed_lines_numbered();
    let ghost count = app.fits_forward(app.scroll_offset as int, app.viewport_height as int);
    let mut left: usize = cell.0;
    let mut k: usize = 0;
    while k < visible.len()
        invariant
            k <= visible.len(),
            visible.len() == count,
            count == app.fits_forward(app.scroll_offset as int, app.viewport_height as int),
            left <= cell.0 <= 0xffff,
            cell.1 <= 0xffff,
            wrap_width <= 0xffff,
            wrap_width == content_width(main),
            prefix == number_width(app.parsed_lines.len() as nat) + 1,
            content_cell(main, column, row) == Some((cell.0 as int, cell.1 as int)),
            wrapping == (!app.json_pretty && app.wrap),
            wrapping ==> wrap_width > 0,
            forall|j: int|
                0 <= j < visible.len() ==> (#[trigger] visible[j]).1@ == visible_record(app, j),
            entry_at(app, prefix as int, wrap_width as int, count, 0, cell.0 as int) == entry_at(
                app,
                prefix as int,
                wrap_width as int,
                count,
                k as int,
                left as int,
            ),
        decreases visible.len() - k,
    {
        let parsed = visible[k].1;
        assert(parsed@ == visible_record(app, k as int));
        let height = height_of_row(app, parsed, prefix, wrap_width);
        if left < height {
            let found = token_of_entry(
                app.is_pretty(),
                app.is_wrap(),
                parsed,
                left,
                cell.1,
                prefix,
                wrap_width,
            );
            return found;
        }
        left -= height;
        k += 1;
    }
    None
}

/// The number of a line has few digits.
pub proof fn lemma_number_width_small(total: nat)
    requires
        total <= usize::MAX,
    ensures
        number_width(total) + 1 <= usize::MAX,
{
    lemma_decimal_text_len(total);
}

/// A number has one digit at least, and no more than a tenth of it and
/// one.
pub proof fn lemma_decimal_text_len(n: nat)
    ensures
        1 <= decimal_text(n).len() <= n / 10 + 1,
    decreases n,
{
    if n >= 10 {
        lemma_decimal_text_len(n / 10);
    }
}

/// The width of the widest item of a menu with its padding; 20 for a menu
/// without items.
pub open spec fn widest_item(items: Seq<MenuAction>) -> int
    decreases items.len(),
{
    if items.len() == 0 {
        20
    } else if items.len() == 1 {
        (bytes_of(items[0].label_of()).len() + 2) as int
    } else {
        let before = widest_item(items.drop_last());
        let this = (bytes_of(items.last().label_of()).len() + 2) as int;
        if this > before {
            this
        } else {
            before
        }
    }
}

/// The item of the menu that is drawn at a cell of the screen, the screen
/// being `area`. The menu stands where it was opened, moved into the screen
/// where it would leave it, and has a frame of one cell around its items.
pub open spec fn menu_item_at(menu: ContextMenuState, column: u16, row: u16, area: Area) -> Option<
    usize,
> {
    let width = widest_item(menu.items@) + 2;
    let height = menu.items.len() + 2;
    let room_x = if area.width >= width {
        area.width - width
    } else {
        0
    };
    let room_y = if area.height >= height {
        area.height - height
    } else {
        0
    };
    let x = if menu.position.0 < room_x {
        menu.position.0 as int
    } else {
        room_x
    };
    let y = if menu.position.1 < room_y {
        menu.position.1 as int
    } else {
        room_y
    };
    if column >= x + 1 && column < x + width - 1 && row >= y + 1 && row < y + height - 1 && row
        - (y + 1) < menu.items.len() {
        Some((row - (y + 1)) as usize)
    } else {
        None
    }
}

/// The width of the widest item of a menu with its padding.
pub fn widest(items: &Vec<MenuAction>) -> (r: u128)
    ensures
        r == widest_item(items@),
        r <= usize::MAX + 2,
{
    if items.len() == 0 {
        return 20;
    }
    let mut best: u128 = 0;
    let mut i: usize = 0;
    assert(items@.subrange(0, 0) =~= Seq::empty());
    while i < items.len()
        invariant
            i <= items.len(),
            items.len() > 0,
            best <= usize::MAX + 2,
            i > 0 ==> best == widest_item(items@.subrange(0, i as int)),
        decreases items.len() - i,
    {
        let this: u128 = byte_len(items[i].label()) as u128 + 2;
        proof {
            let upto = items@.subrange(0, i + 1);
            assert(upto.drop_last() =~= items@.subrange(0, i as int));
            assert(upto.last() == items[i as int]);
            assert(upto[0] == items[0]);
        }
        if i == 0 || this > best {
            best = this;
        }
        i += 1;
    }
    assert(items@.subrange(0, items.len() as int) =~= items@);
    best
}

/// The item of the open menu that is drawn at a cell of the screen; none
/// where no menu is open or the cell holds no item.
pub fn menu_item_at_position(app: &App, column: u16, row: u16, area: Area) -> (r: Option<usize>)
    ensures
        r == match app.context_menu {
            Some(menu) => menu_item_at(menu, column, row, area),
            None => None,
        },
{
    let menu = match app.context_menu() {
        Some(m) => m,
        None => { return None; },
    };
    let width: u128 = widest(&menu.items) + 2;
    let height: u128 = menu.items.len() as u128 + 2;
    let room_x: u128 = if area.width as u128 >= width {
        area.width as u128 - width
    } else {
        0
    };
    let room_y: u128 = if area.height as u128 >= height {
        area.height as u128 - height
    } else {
        0
    };
    let x: u128 = if (menu.position.0 as u128) < room_x {
        menu.position.0 as u128
    } else {
        room_x
    };
    let y: u128 = if (menu.position.1 as u128) < room_y {
        menu.position.1 as u128
    } else {
        room_y
    };
    let c: u128 = column as u128;
    let r: u128 = row as u128;
    if c >= x + 1 && c < x + width - 1 && r >= y + 1 && r < y + height - 1 && r - (y + 1)
        < menu.items.len() as u128 {
        Some((r - (y + 1)) as usize)
    } else {
        None
    }
}

/// The bucket of the histogram that is drawn at a cell of the screen, the
/// histogram being drawn in `strip` with one cell left free at either side
/// and one column for each bucket.
pub open spec fn bucket_at(num_buckets: usize, column: u16, row: u16, strip: Area) -> Option<usize> {
    let bucket = column - strip.x - 1;
    if strip.y <= row && row < strip.y + strip.height && 0 <= bucket && bucket < num_buckets
        && column + 1 < strip.x + strip.width {
        Some(bucket as usize)
    } else {
        None
    }
}

/// The bucket of the histogram that is drawn at a cell of the screen; none
/// where the histogram is not shown or the cell holds no bucket.
pub fn sparkline_bucket_at_position(app: &App, column: u16, row: u16, strip: Area) -> (r: Option<
    usize,
>)
    ensures
        r == match app.sparkline_data {
            Some(s) => if app.sparkline_visible && app.time_index is Some {
                bucket_at(s.num_buckets, column, row, strip)
            } else {
                None
            },
            None => None,
        },
{
    if !app.is_sparkline_visible() {
        return None;
    }
    let num_buckets = match app.sparkline_data() {
        Some(s) => s.num_buckets,
        None => { return None; },
    };
    let c: u32 = column as u32;
    let r: u32 = row as u32;
    let left: u32 = strip.x as u32 + 1;
    let top: u32 = strip.y as u32;
    if top <= r && r < top + strip.height as u32 && c >= left && ((c - left) as usize) < num_buckets
        && c + 1 < strip.x as u32 + strip.width as u32 {
        Some((c - left) as usize)
    } else {
        None
    }
}

/// How far the screen has come through the filtered lines, in hundredths:
/// the share of the lines up to the last line of the screen; all of them
/// where there are none.
pub open spec fn percent_shown(app: &App) -> int {
    let total = app.filtered_indices.len() as int;
    let reached = app.scroll_offset + app.fits_forward(
        app.scroll_offset as int,
        app.viewport_height as int,
    );
    if total == 0 {
        100
    } else if reached > total {
        100
    } else {
        reached * 100 / total
    }
}

/// How far the screen has come through the filtered lines, in hundredths.
pub fn scroll_percent(app: &App) -> (r: usize)
    requires
        app.wf(),
    ensures
        r == percent_shown(app),
        r <= 100,
{
    let total = app.total_lines();
    if total == 0 {
        return 100;
    }
    let reached = app.scroll_offset() + app.visible_entry_count();
    let share: u128 = (reached as u128 * 100) / (total as u128);
    assert(share <= 100) by (nonlinear_arith)
        requires
            reached <= total,
            total > 0,
            share == (reached * 100) / (total as int),
    ;
    share as usize
}

} // verus!
