//! Keys and the mouse: what each does in each mode of the viewer. Reading
//! them from the terminal, and what reaches beyond the viewer, the copy to
//! the clipboard and the opening of an address, are left to the caller.

use crate::app::{selected_range, App, AppMode, MenuAction, MAX_PRESET_MINUTES};
use crate::command::{command_at, Action};
use crate::text::{owned, without_last};
use crate::ui::{
    bucket_at, clicked_token, menu_item_at, menu_item_at_position, sparkline_bucket_at_position,
    token_at_position, Area,
};
use vstd::prelude::*;
use vstd::string::StringExecFns;

verus! {

/// A key of the keyboard.
#[derive(Debug, Clone, Copy, PartialEq, Eq, Structural)]
pub enum Key {
    Char(char),
    Esc,
    Enter,
    Backspace,
    Up,
    Down,
    Left,
    Right,
    PageUp,
    PageDown,
    Other,
}

/// What the left button or the wheel of the mouse does.
#[derive(Debug, Clone, Copy, PartialEq, Eq, Structural)]
pub enum Mouse {
    Down,
    Drag,
    Up,
    ScrollDown,
    ScrollUp,
    ScrollLeft,
    ScrollRight,
    Other,
}

/// What is left for the caller to do.
#[derive(Debug, Clone, PartialEq, Eq)]
pub enum Effect {
    Nothing,
    /// Copy the text to the clipboard, and show the notice of the copy
    /// once it is made.
    Copy(String),
    /// Open the address.
    Open(String),
}

/// What an [`Effect`] holds, as mathematical values.
pub enum Task {
    Nothing,
    Copy(Seq<char>),
    Open(Seq<char>),
}

impl View for Effect {
    type V = Task;

    open spec fn view(&self) -> Task {
        match self {
            Effect::Nothing => Task::Nothing,
            Effect::Copy(text) => Task::Copy(text@),
            Effect::Open(address) => Task::Open(address@),
        }
    }
}

/// One step of the viewer.
#[derive(Debug, Clone, Copy, PartialEq, Eq, Structural)]
pub enum Step {
    Nothing,
    /// A command.
    Act(Action),
    ClosePalette,
    PaletteUp,
    PaletteDown,
    /// Run the command that is selected in the palette.
    PaletteRun,
    PaletteBackspace,
    PaletteType(char),
    TimeLeft(usize),
    TimeRight(usize),
    /// Filter by the last minutes, the keys being in the selection.
    TimePreset(i64),
    TimeMarkStart,
    TimeMarkEnd,
    /// Lift the time range and leave the selection.
    TimeClear,
    TimeExit,
    MenuUp,
    MenuDown,
    /// Run the item that is selected in the menu.
    MenuRun,
    MenuClose,
    CursorDown,
    CursorUp,
    Similar,
    CursorExit,
    FilterExit,
    FilterClear,
    FilterBackspace,
    FilterType(char),
    ClearSimilar,
    ClearTimeRange,
}

/// What a key does in the palette.
pub open spec fn palette_step(key: Key) -> Step {
    match key {
        Key::Esc => Step::ClosePalette,
        Key::Up => Step::PaletteUp,
        Key::Down => Step::PaletteDown,
        Key::Enter => Step::PaletteRun,
        Key::Backspace => Step::PaletteBackspace,
        Key::Char(c) => Step::PaletteType(c),
        _ => Step::Nothing,
    }
}

/// What a key does in the selection of a time range.
pub open spec fn time_step(key: Key) -> Step {
    match key {
        Key::Left => Step::TimeLeft(1),
        Key::Right => Step::TimeRight(1),
        Key::Enter => Step::TimeMarkEnd,
        Key::Esc => Step::TimeExit,
        Key::Char(c) => if c == 'h' {
            Step::TimeLeft(1)
        } else if c == 'l' {
            Step::TimeRight(1)
        } else if c == 'H' {
            Step::TimeLeft(5)
        } else if c == 'L' {
            Step::TimeRight(5)
        } else if c == '[' {
            Step::TimeMarkStart
        } else if c == ']' {
            Step::TimeMarkEnd
        } else if c == '1' {
            Step::TimePreset(5)
        } else if c == '2' {
            Step::TimePreset(15)
        } else if c == '3' {
            Step::TimePreset(60)
        } else if c == '4' {
            Step::TimePreset(1440)
        } else if c == 'Y' {
            Step::Act(Action::YankAllFiltered)
        } else if c == 'c' {
            Step::TimeClear
        } else if c == 'q' {
            Step::Act(Action::Quit)
        } else {
            Step::Nothing
        },
        _ => Step::Nothing,
    }
}

/// What a key does in the menu of a token: any key but those that move and
/// run closes the menu.
pub open spec fn menu_step(key: Key) -> Step {
    match key {
        Key::Up => Step::MenuUp,
        Key::Down => Step::MenuDown,
        Key::Enter => Step::MenuRun,
        Key::Char(c) => if c == 'k' {
            Step::MenuUp
        } else if c == 'j' {
            Step::MenuDown
        } else {
            Step::MenuClose
        },
        _ => Step::MenuClose,
    }
}

/// What a key does in cursor mode.
pub open spec fn cursor_step(key: Key) -> Step {
    match key {
        Key::Down => Step::CursorDown,
        Key::Up => Step::CursorUp,
        Key::Right => Step::Act(Action::ScrollRight),
        Key::Left => Step::Act(Action::ScrollLeft),
        Key::Esc => Step::CursorExit,
        Key::Char(c) => if c == 'j' {
            Step::CursorDown
        } else if c == 'k' {
            Step::CursorUp
        } else if c == 'y' {
            Step::Act(Action::YankLine)
        } else if c == 'Y' {
            Step::Act(Action::YankAllFiltered)
        } else if c == 's' {
            Step::Similar
        } else if c == 'l' {
            Step::Act(Action::ScrollRight)
        } else if c == 'h' {
            Step::Act(Action::ScrollLeft)
        } else if c == 'q' {
            Step::Act(Action::Quit)
        } else if c == '?' {
            Step::Act(Action::OpenCommandPalette)
        } else {
            Step::Nothing
        },
        _ => Step::Nothing,
    }
}

/// What a key does in the filter: escape empties the pattern, and leaves
/// the filter where the pattern is empty already.
pub open spec fn filter_step(key: Key, pattern_is_empty: bool) -> Step {
    match key {
        Key::Esc => if pattern_is_empty {
            Step::FilterExit
        } else {
            Step::FilterClear
        },
        Key::Enter => Step::FilterExit,
        Key::Backspace => Step::FilterBackspace,
        Key::Char(c) => Step::FilterType(c),
        _ => Step::Nothing,
    }
}

/// What a key does where no mode has the keys. Escape lifts the filter by
/// template, else the time range, else ends the viewer; the space bar pauses
/// where new lines are followed, and pages down where they are not.
pub open spec fn normal_step(key: Key, similar: bool, ranged: bool, following: bool) -> Step {
    match key {
        Key::Esc => if similar {
            Step::ClearSimilar
        } else if ranged {
            Step::ClearTimeRange
        } else {
            Step::Act(Action::Quit)
        },
        Key::Down => Step::Act(Action::ScrollDown),
        Key::Up => Step::Act(Action::ScrollUp),
        Key::Right => Step::Act(Action::ScrollRight),
        Key::Left => Step::Act(Action::ScrollLeft),
        Key::PageDown => Step::Act(Action::PageDown),
        Key::PageUp => Step::Act(Action::PageUp),
        Key::Enter => Step::Act(Action::EnterCursorMode),
        Key::Char(c) => if c == 'q' {
            Step::Act(Action::Quit)
        } else if c == 'j' {
            Step::Act(Action::ScrollDown)
        } else if c == 'k' {
            Step::Act(Action::ScrollUp)
        } else if c == 'l' {
            Step::Act(Action::ScrollRight)
        } else if c == 'h' {
            Step::Act(Action::ScrollLeft)
        } else if c == ' ' {
            if following {
                Step::Act(Action::ToggleFollowPause)
            } else {
                Step::Act(Action::PageDown)
            }
        } else if c == 'g' {
            Step::Act(Action::ScrollToTop)
        } else if c == 'G' {
            Step::Act(Action::ScrollToBottom)
        } else if c == '/' {
            Step::Act(Action::OpenFilter)
        } else if c == 'p' {
            Step::Act(Action::TogglePretty)
        } else if c == 'w' {
            Step::Act(Action::ToggleWrap)
        } else if c == 'v' {
            Step::Act(Action::CycleLevelUp)
        } else if c == 'V' {
            Step::Act(Action::CycleLevelDown)
        } else if c == 'Y' {
            Step::Act(Action::YankAllFiltered)
        } else if c == 't' {
            Step::Act(Action::EnterTimeMode)
        } else if c == '?' {
            Step::Act(Action::OpenCommandPalette)
        } else {
            Step::Nothing
        },
        _ => Step::Nothing,
    }
}

/// What a key does, by the mode that the keys are in.
pub open spec fn step_of_key(app: &App, key: Key) -> Step {
    match app.mode {
        AppMode::CommandPalette => palette_step(key),
        AppMode::TimeRange => time_step(key),
        AppMode::ContextMenu => menu_step(key),
        AppMode::Cursor => cursor_step(key),
        AppMode::Filter => filter_step(key, app.filter_pattern@.len() == 0),
        AppMode::Normal => normal_step(
            key,
            app.similar_template is Some,
            app.time_range is Some,
            app.follow_mode,
        ),
    }
}

/// What a key does in the selection of a time range.
pub fn time_key(key: Key) -> (r: Step)
    ensures
        r == time_step(key),
{
    match key {
        Key::Left => Step::TimeLeft(1),
        Key::Right => Step::TimeRight(1),
        Key::Enter => Step::TimeMarkEnd,
        Key::Esc => Step::TimeExit,
        Key::Char(c) => if c == 'h' {
            Step::TimeLeft(1)
        } else if c == 'l' {
            Step::TimeRight(1)
        } else if c == 'H' {
            Step::TimeLeft(5)
        } else if c == 'L' {
            Step::TimeRight(5)
        } else if c == '[' {
            Step::TimeMarkStart
        } else if c == ']' {
            Step::TimeMarkEnd
        } else if c == '1' {
            Step::TimePreset(5)
        } else if c == '2' {
            Step::TimePreset(15)
        } else if c == '3' {
            Step::TimePreset(60)
        } else if c == '4' {
            Step::TimePreset(1440)
        } else if c == 'Y' {
            Step::Act(Action::YankAllFiltered)
        } else if c == 'c' {
            Step::TimeClear
        } else if c == 'q' {
            Step::Act(Action::Quit)
        } else {
            Step::Nothing
        },
        _ => Step::Nothing,
    }
}

/// What a key does in cursor mode.
pub fn cursor_key(key: Key) -> (r: Step)
    ensures
        r == cursor_step(key),
{
    match key {
        Key::Down => Step::CursorDown,
        Key::Up => Step::CursorUp,
        Key::Right => Step::Act(Action::ScrollRight),
        Key::Left => Step::Act(Action::ScrollLeft),
        Key::Esc => Step::CursorExit,
        Key::Char(c) => if c == 'j' {
            Step::CursorDown
        } else if c == 'k' {
            Step::CursorUp
        } else if c == 'y' {
            Step::Act(Action::YankLine)
        } else if c == 'Y' {
            Step::Act(Action::YankAllFiltered)
        } else if c == 's' {
            Step::Similar
        } else if c == 'l' {
            Step::Act(Action::ScrollRight)
        } else if c == 'h' {
            Step::Act(Action::ScrollLeft)
        } else if c == 'q' {
            Step::Act(Action::Quit)
        } else if c == '?' {
            Step::Act(Action::OpenCommandPalette)
        } else {
            Step::Nothing
        },
        _ => Step::Nothing,
    }
}

/// What a key does where no mode has the keys.
pub fn normal_key(key: Key, similar: bool, ranged: bool, following: bool) -> (r: Step)
    ensures
        r == normal_step(key, similar, ranged, following),
{
    match key {
        Key::Esc => if similar {
            Step::ClearSimilar
        } else if ranged {
            Step::ClearTimeRange
        } else {
            Step::Act(Action::Quit)
        },
        Key::Down => Step::Act(Action::ScrollDown),
        Key::Up => Step::Act(Action::ScrollUp),
        Key::Right => Step::Act(Action::ScrollRight),
        Key::Left => Step::Act(Action::ScrollLeft),
        Key::PageDown => Step::Act(Action::PageDown),
        Key::PageUp => Step::Act(Action::PageUp),
        Key::Enter => Step::Act(Action::EnterCursorMode),
        Key::Char(c) => if c == 'q' {
            Step::Act(Action::Quit)
        } else if c == 'j' {
            Step::Act(Action::ScrollDown)
        } else if c == 'k' {
            Step::Act(Action::ScrollUp)
        } else if c == 'l' {
            Step::Act(Action::ScrollRight)
        } else if c == 'h' {
            Step::Act(Action::ScrollLeft)
        } else if c == ' ' {
            if following {
                Step::Act(Action::ToggleFollowPause)
            } else {
                Step::Act(Action::PageDown)
            }
        } else if c == 'g' {
            Step::Act(Action::ScrollToTop)
        } else if c == 'G' {
            Step::Act(Action::ScrollToBottom)
        } else if c == '/' {
            Step::Act(Action::OpenFilter)
        } else if c == 'p' {
            Step::Act(Action::TogglePretty)
        } else if c == 'w' {
            Step::Act(Action::ToggleWrap)
        } else if c == 'v' {
            Step::Act(Action::CycleLevelUp)
        } else if c == 'V' {
            Step::Act(Action::CycleLevelDown)
        } else if c == 'Y' {
            Step::Act(Action::YankAllFiltered)
        } else if c == 't' {
            Step::Act(Action::EnterTimeMode)
        } else if c == '?' {
            Step::Act(Action::OpenCommandPalette)
        } else {
            Step::Nothing
        },
        _ => Step::Nothing,
    }
}

/// What a key does, by the mode that the keys are in.
pub fn key_step(app: &App, key: Key) -> (r: Step)
    ensures
        r == step_of_key(app, key),
{
    match app.mode() {
        AppMode::CommandPalette => match key {
            Key::Esc => Step::ClosePalette,
            Key::Up => Step::PaletteUp,
            Key::Down => Step::PaletteDown,
            Key::Enter => Step::PaletteRun,
            Key::Backspace => Step::PaletteBackspace,
            Key::Char(c) => Step::PaletteType(c),
            _ => Step::Nothing,
        },
        AppMode::TimeRange => time_key(key),
        AppMode::ContextMenu => match key {
            Key::Up => Step::MenuUp,
            Key::Down => Step::MenuDown,
            Key::Enter => Step::MenuRun,
            Key::Char(c) => if c == 'k' {
                Step::MenuUp
            } else if c == 'j' {
                Step::MenuDown
            } else {
                Step::MenuClose
            },
            _ => Step::MenuClose,
        },
        AppMode::Cursor => cursor_key(key),
        AppMode::Filter => match key {
            Key::Esc => if app.filter_pattern().is_empty() {
                Step::FilterExit
            } else {
                Step::FilterClear
            },
            Key::Enter => Step::FilterExit,
            Key::Backspace => Step::FilterBackspace,
            Key::Char(c) => Step::FilterType(c),
            _ => Step::Nothing,
        },
        AppMode::Normal => normal_key(
            key,
            app.is_similar_filter(),
            app.time_range().is_some(),
            app.is_follow_mode(),
        ),
    }
}

/// Where the reputation of an address is looked up.
pub const LOOKUP_ADDRESS: &'static str = "https://www.abuseipdb.com/check/";

/// What running an item of the menu leaves to the caller: nothing for the
/// filter, the lookup of the token, or the token itself to open.
pub open spec fn item_task(item: MenuAction, value: Seq<char>) -> Task {
    match item {
        MenuAction::FilterByValue => Task::Nothing,
        MenuAction::LookupAbuseIPDB => Task::Open(LOOKUP_ADDRESS@ + value),
        MenuAction::OpenInBrowser => Task::Open(value),
    }
}

/// Whether the viewer is `before` after an item of the menu was run on a
/// token: the filter by the token sets the pattern of the filter, the other
/// items change nothing.
pub open spec fn is_item_run(after: App, before: App, item: MenuAction, value: String) -> bool {
    match item {
        MenuAction::FilterByValue => after.is_refiltered(App { filter_pattern: value, ..before }),
        _ => after == before,
    }
}

/// Runs an item of the menu on a token.
pub fn execute_action(app: &mut App, item: MenuAction, value: String) -> (r: Effect)
    requires
        old(app).wf(),
    ensures
        final(app).wf(),
        is_item_run(*final(app), *old(app), item, value),
        r@ == item_task(item, value@),
{
    match item {
        MenuAction::FilterByValue => {
            app.set_filter(value);
            Effect::Nothing
        },
        MenuAction::LookupAbuseIPDB => {
            let mut address = owned(LOOKUP_ADDRESS);
            address.append(value.as_str());
            Effect::Open(address)
        },
        MenuAction::OpenInBrowser => Effect::Open(value),
    }
}

/// What a command leaves to the caller: the copy of what it asks to be
/// copied.
pub open spec fn action_task(before: App, action: Action) -> Task {
    match before.text_to_copy(action) {
        Some(text) => Task::Copy(text),
        None => Task::Nothing,
    }
}

/// Does what a command asks for.
pub fn act(app: &mut App, action: Action) -> (r: Effect)
    requires
        old(app).wf(),
    ensures
        final(app).wf(),
        final(app).is_dispatched(*old(app), action),
        r@ == action_task(*old(app), action),
{
    match app.dispatch_action(action) {
        Some(text) => Effect::Copy(text),
        None => Effect::Nothing,
    }
}

/// The viewer with its palette closed.
pub open spec fn palette_closed(before: App) -> App {
    App { mode: AppMode::Normal, ..before }
}

/// The command that is selected in the palette.
pub open spec fn palette_choice(before: App) -> Option<Action> {
    if before.palette_selected < before.palette_filtered.len() {
        Some(
            command_at(
                before.palette_filtered[before.palette_selected as int] as int,
            ).action,
        )
    } else {
        None
    }
}

/// Whether the viewer is `before` after a step in the palette.
pub open spec fn is_palette_stepped(after: App, before: App, step: Step) -> bool {
    match step {
        Step::ClosePalette => after == palette_closed(before),
        Step::PaletteUp => after == before.palette_moved_up(),
        Step::PaletteDown => after == before.palette_moved_down(),
        Step::PaletteRun => match palette_choice(before) {
            Some(action) => after.is_dispatched(palette_closed(before), action),
            None => after == before,
        },
        Step::PaletteBackspace => after.has_palette_input(
            before,
            without_last(before.palette_input@),
        ),
        Step::PaletteType(c) => after.has_palette_input(before, before.palette_input@.push(c)),
        _ => after == before,
    }
}

/// What a step in the palette leaves to the caller.
pub open spec fn palette_task(before: App, step: Step) -> Task {
    match step {
        Step::PaletteRun => match palette_choice(before) {
            Some(action) => action_task(palette_closed(before), action),
            None => Task::Nothing,
        },
        _ => Task::Nothing,
    }
}

/// Takes a step in the palette.
pub fn palette_apply(app: &mut App, step: Step) -> (r: Effect)
    requires
        old(app).wf(),
    ensures
        final(app).wf(),
        is_palette_stepped(*final(app), *old(app), step),
        r@ == palette_task(*old(app), step),
{
    match step {
        Step::ClosePalette => {
            app.close_palette();
            Effect::Nothing
        },
        Step::PaletteUp => {
            app.palette_up();
            Effect::Nothing
        },
        Step::PaletteDown => {
            app.palette_down();
            Effect::Nothing
        },
        Step::PaletteRun => match app.palette_execute() {
            Some(action) => act(app, action),
            None => Effect::Nothing,
        },
        Step::PaletteBackspace => {
            app.palette_backspace();
            Effect::Nothing
        },
        Step::PaletteType(c) => {
            app.palette_type(c);
            Effect::Nothing
        },
        _ => Effect::Nothing,
    }
}

/// The minutes of a preset that can be asked for.
pub open spec fn is_preset(minutes: i64) -> bool {
    -MAX_PRESET_MINUTES <= minutes <= MAX_PRESET_MINUTES
}

/// Whether the viewer is `before` after a step in the selection of a time
/// range.
pub open spec fn is_time_stepped(after: App, before: App, step: Step) -> bool {
    match step {
        Step::TimeLeft(n) => after == before.time_cursor_moved_left(n as int),
        Step::TimeRight(n) => after == before.time_cursor_moved_right(n as int),
        Step::TimePreset(minutes) => if is_preset(minutes) {
            after.has_applied(before, before.preset_range(minutes as int))
        } else {
            after == before
        },
        Step::TimeMarkStart => after == before.with_mark(),
        Step::TimeMarkEnd => match before.time_mode {
            Some(state) => after.has_applied(
                before,
                selected_range(before.sparkline_data, state),
            ),
            None => after == before,
        },
        Step::TimeClear => (App { time_mode: before.time_mode, mode: before.mode, ..after }).is_refiltered(
            App { time_range: None, ..before },
        ) && after.time_mode is None && after.mode == AppMode::Normal,
        Step::TimeExit => after == (App { time_mode: None, mode: AppMode::Normal, ..before }),
        Step::ClearTimeRange => after.is_refiltered(App { time_range: None, ..before }),
        _ => after == before,
    }
}

/// Takes a step in the selection of a time range.
pub fn time_apply(app: &mut App, step: Step)
    requires
        old(app).wf(),
    ensures
        final(app).wf(),
        is_time_stepped(*final(app), *old(app), step),
{
    match step {
        Step::TimeLeft(n) => app.time_cursor_left(n),
        Step::TimeRight(n) => app.time_cursor_right(n),
        Step::TimePreset(minutes) => {
            if -MAX_PRESET_MINUTES <= minutes && minutes
                <= MAX_PRESET_MINUTES {
                app.time_preset(minutes);
            }
        },
        Step::TimeMarkStart => app.time_mark_start(),
        Step::TimeMarkEnd => app.time_mark_end_and_apply(),
        Step::TimeClear => {
            app.clear_time_range();
            app.exit_time_mode();
        },
        Step::TimeExit => app.exit_time_mode(),
        Step::ClearTimeRange => app.clear_time_range(),
        _ => {},
    }
}

/// The viewer with its menu closed.
pub open spec fn menu_closed(before: App) -> App {
    App { context_menu: None, mode: AppMode::Normal, ..before }
}

/// Whether the viewer is `before` after a step in the menu of a token.
pub open spec fn is_menu_stepped(after: App, before: App, step: Step) -> bool {
    match step {
        Step::MenuUp => after == before.with_menu_item(before.menu_item_above()),
        Step::MenuDown => after == before.with_menu_item(before.menu_item_below()),
        Step::MenuRun => match before.context_menu {
            Some(m) => is_item_run(
                after,
                menu_closed(before),
                m.items[m.selected as int],
                m.token_value,
            ),
            None => after == before,
        },
        Step::MenuClose => after == menu_closed(before),
        _ => after == before,
    }
}

/// What a step in the menu of a token leaves to the caller.
pub open spec fn menu_task(before: App, step: Step) -> Task {
    match step {
        Step::MenuRun => match before.context_menu {
            Some(m) => item_task(m.items[m.selected as int], m.token_value@),
            None => Task::Nothing,
        },
        _ => Task::Nothing,
    }
}

/// Takes a step in the menu of a token.
pub fn menu_apply(app: &mut App, step: Step) -> (r: Effect)
    requires
        old(app).wf(),
    ensures
        final(app).wf(),
        is_menu_stepped(*final(app), *old(app), step),
        r@ == menu_task(*old(app), step),
{
    match step {
        Step::MenuUp => {
            app.menu_up();
            Effect::Nothing
        },
        Step::MenuDown => {
            app.menu_down();
            Effect::Nothing
        },
        Step::MenuRun => match app.execute_menu_action() {
            Some((item, value)) => execute_action(app, item, value),
            None => Effect::Nothing,
        },
        Step::MenuClose => {
            app.close_context_menu();
            Effect::Nothing
        },
        _ => Effect::Nothing,
    }
}

/// Whether the viewer is `before` after a step of the cursor or of the
/// filter.
pub open spec fn is_line_stepped(after: App, before: App, step: Step) -> bool {
    match step {
        Step::CursorDown => after == before.cursor_moved_down(1),
        Step::CursorUp => after == before.cursor_moved_up(1),
        Step::Similar => if before.cursor_position < before.filtered_indices.len() {
            after.template_applied() == Some(
                before.records()[before.filtered_indices[before.cursor_position as int] as int].template,
            ) && after.is_refiltered(
                App { similar_template: after.similar_template, mode: AppMode::Normal, ..before },
            )
        } else {
            after == before
        },
        Step::CursorExit => after == (App { mode: AppMode::Normal, ..before }),
        Step::FilterExit => after == (App { mode: AppMode::Normal, ..before }),
        Step::FilterClear => after.filter_pattern@ == Seq::<char>::empty() && (App {
            mode: before.mode,
            ..after
        }).is_refiltered(App { filter_pattern: after.filter_pattern, ..before }) && after.mode
            == AppMode::Normal,
        Step::FilterBackspace => after.filter_pattern@ == without_last(
            before.filter_pattern@,
        ) && after.is_refiltered(App { filter_pattern: after.filter_pattern, ..before }),
        Step::FilterType(c) => after.filter_pattern@ == before.filter_pattern@.push(c)
            && after.is_refiltered(App { filter_pattern: after.filter_pattern, ..before }),
        Step::ClearSimilar => after.is_refiltered(App { similar_template: None, ..before }),
        _ => after == before,
    }
}

/// Takes a step of the cursor or of the filter.
pub fn line_apply(app: &mut App, step: Step)
    requires
        old(app).wf(),
    ensures
        final(app).wf(),
        is_line_stepped(*final(app), *old(app), step),
{
    match step {
        Step::CursorDown => app.cursor_down(1),
        Step::CursorUp => app.cursor_up(1),
        Step::Similar => app.filter_by_similar(),
        Step::CursorExit => app.exit_cursor_mode(),
        Step::FilterExit => app.exit_filter_mode(),
        Step::FilterClear => app.clear_filter(),
        Step::FilterBackspace => app.filter_backspace(),
        Step::FilterType(c) => app.filter_input(c),
        Step::ClearSimilar => app.clear_similar(),
        _ => {},
    }
}

/// The part of the viewer that a step belongs to.
pub enum StepKind {
    Command,
    Palette,
    Time,
    Menu,
    Line,
}

/// The part of the viewer that a step belongs to.
pub open spec fn kind_of_step(step: Step) -> StepKind {
    match step {
        Step::Act(_) => StepKind::Command,
        Step::ClosePalette
        | Step::PaletteUp
        | Step::PaletteDown
        | Step::PaletteRun
        | Step::PaletteBackspace
        | Step::PaletteType(_) => StepKind::Palette,
        Step::TimeLeft(_)
        | Step::TimeRight(_)
        | Step::TimePreset(_)
        | Step::TimeMarkStart
        | Step::TimeMarkEnd
        | Step::TimeClear
        | Step::TimeExit
        | Step::ClearTimeRange => StepKind::Time,
        Step::MenuUp | Step::MenuDown | Step::MenuRun | Step::MenuClose => StepKind::Menu,
        _ => StepKind::Line,
    }
}

/// Whether the viewer is `before` after a step.
pub open spec fn is_stepped(after: App, before: App, step: Step) -> bool {
    match kind_of_step(step) {
        StepKind::Command => after.is_dispatched(before, step->Act_0),
        StepKind::Palette => is_palette_stepped(after, before, step),
        StepKind::Time => is_time_stepped(after, before, step),
        StepKind::Menu => is_menu_stepped(after, before, step),
        StepKind::Line => is_line_stepped(after, before, step),
    }
}

/// What a step leaves to the caller.
pub open spec fn task_of_step(before: App, step: Step) -> Task {
    match kind_of_step(step) {
        StepKind::Command => action_task(before, step->Act_0),
        StepKind::Palette => palette_task(before, step),
        StepKind::Menu => menu_task(before, step),
        _ => Task::Nothing,
    }
}

/// Takes a step, and gives what is left for the caller to do.
pub fn apply_step(app: &mut App, step: Step) -> (r: Effect)
    requires
        old(app).wf(),
    ensures
        final(app).wf(),
        is_stepped(*final(app), *old(app), step),
        r@ == task_of_step(*old(app), step),
{
    match step {
        Step::Act(action) => act(app, action),
        Step::ClosePalette
        | Step::PaletteUp
        | Step::PaletteDown
        | Step::PaletteRun
        | Step::PaletteBackspace
        | Step::PaletteType(_) => palette_apply(app, step),
        Step::TimeLeft(_)
        | Step::TimeRight(_)
        | Step::TimePreset(_)
        | Step::TimeMarkStart
        | Step::TimeMarkEnd
        | Step::TimeClear
        | Step::TimeExit
        | Step::ClearTimeRange => {
            time_apply(app, step);
            Effect::Nothing
        },
        Step::MenuUp | Step::MenuDown | Step::MenuRun | Step::MenuClose => menu_apply(app, step),
        _ => {
            line_apply(app, step);
            Effect::Nothing
        },
    }
}

/// What a key does to the viewer: the step that the key stands for in the
/// mode that the keys are in is taken.
pub fn handle_key(app: &mut App, key: Key) -> (r: Effect)
    requires
        old(app).wf(),
    ensures
        final(app).wf(),
        is_stepped(*final(app), *old(app), step_of_key(old(app), key)),
        r@ == task_of_step(*old(app), step_of_key(old(app), key)),
{
    let step = key_step(app, key);
    apply_step(app, step)
}

/// The areas of the screen that the mouse is held against: the whole
/// screen, the main area with its frame, and the strip of the histogram.
#[derive(Debug, Clone, Copy, PartialEq, Eq, Structural)]
pub struct Screen {
    pub whole: Area,
    pub main: Area,
    pub strip: Area,
}

/// The bucket of the histogram at a cell of the screen.
pub open spec fn bucket_hit(before: App, column: u16, row: u16, strip: Area) -> Option<usize> {
    match before.sparkline_data {
        Some(s) => if before.sparkline_visible && before.time_index is Some {
            bucket_at(s.num_buckets, column, row, strip)
        } else {
            None
        },
        None => None,
    }
}

/// The bucket that a column stands for where the mouse has left the
/// histogram: the bucket of the column, the first for a column before it
/// and the last for one beyond.
pub open spec fn nearest_bucket(before: App, column: u16) -> Option<usize> {
    match before.sparkline_data {
        Some(s) => {
            let wanted = if column >= 1 {
                column - 1
            } else {
                0
            };
            let last = if s.num_buckets >= 1 {
                s.num_buckets - 1
            } else {
                0
            };
            Some(
                if wanted < last {
                    wanted as usize
                } else {
                    last as usize
                },
            )
        },
        None => None,
    }
}

/// Whether the viewer is `before` with the menu of the token at a cell
/// opened there; the viewer as it is where the cell holds no token.
pub open spec fn has_menu_at(after: App, before: App, column: u16, row: u16, main: Area) -> bool {
    match clicked_token(&before, column, row, main) {
        Some(token) => after.has_menu_opened(before, token.1, token.0, (column, row)),
        None => after == before,
    }
}

/// Whether the viewer is `before` after a press of the mouse off the
/// histogram. With a menu open, a press on an item runs it and a press
/// elsewhere closes the menu and opens that of the token there; else,
/// outside cursor mode, the menu of the token under the mouse opens.
pub open spec fn is_pressed(after: App, before: App, column: u16, row: u16, screen: Screen) -> bool {
    match before.mode {
        AppMode::ContextMenu => match before.context_menu {
            Some(m) => match menu_item_at(m, column, row, screen.whole) {
                Some(index) => if index < m.items.len() {
                    is_item_run(after, menu_closed(before), m.items[index as int], m.token_value)
                } else {
                    after == menu_closed(before)
                },
                None => has_menu_at(after, menu_closed(before), column, row, screen.main),
            },
            None => has_menu_at(after, menu_closed(before), column, row, screen.main),
        },
        AppMode::Cursor => after == before,
        _ => has_menu_at(after, before, column, row, screen.main),
    }
}

/// What a press of the mouse off the histogram leaves to the caller.
pub open spec fn press_task(before: App, column: u16, row: u16, screen: Screen) -> Task {
    match (before.mode, before.context_menu) {
        (AppMode::ContextMenu, Some(m)) => match menu_item_at(m, column, row, screen.whole) {
            Some(index) => if index < m.items.len() {
                item_task(m.items[index as int], m.token_value@)
            } else {
                Task::Nothing
            },
            None => Task::Nothing,
        },
        _ => Task::Nothing,
    }
}

/// Whether the viewer is `before` after the mouse did something, at a cell
/// of the screen. On the histogram the mouse selects buckets; off it, a
/// press is for the menu of a token, a drag and a release go on with a
/// selection of buckets, and the wheel scrolls by three.
pub open spec fn is_moused(
    after: App,
    before: App,
    kind: Mouse,
    column: u16,
    row: u16,
    screen: Screen,
) -> bool {
    match bucket_hit(before, column, row, screen.strip) {
        Some(bucket) => match kind {
            Mouse::Down => after == before.pressed_on(bucket),
            Mouse::Drag => after == before.dragged_to(bucket),
            Mouse::Up => after.has_released(before),
            _ => after == before,
        },
        None => match kind {
            Mouse::Down => is_pressed(after, before, column, row, screen),
            Mouse::Drag => match nearest_bucket(before, column) {
                Some(bucket) => if before.mode == AppMode::TimeRange {
                    after == before.dragged_to(bucket)
                } else {
                    after == before
                },
                None => after == before,
            },
            Mouse::Up => if before.mode == AppMode::TimeRange && before.sparkline_data is Some {
                after.has_released(before)
            } else {
                after == before
            },
            Mouse::ScrollDown => after == before.scrolled_down(3),
            Mouse::ScrollUp => after == before.scrolled_up(3),
            Mouse::ScrollLeft => after == before.scrolled_left(3),
            Mouse::ScrollRight => after == before.scrolled_right(3),
            Mouse::Other => after == before,
        },
    }
}

/// What the mouse leaves to the caller.
pub open spec fn mouse_task(before: App, kind: Mouse, column: u16, row: u16, screen: Screen) -> Task {
    match (bucket_hit(before, column, row, screen.strip), kind) {
        (None, Mouse::Down) => press_task(before, column, row, screen),
        _ => Task::Nothing,
    }
}

/// Opens the menu of the token at a cell of the screen.
pub fn open_menu_at(app: &mut App, column: u16, row: u16, main: Area)
    requires
        old(app).wf(),
    ensures
        final(app).wf(),
        has_menu_at(*final(app), *old(app), column, row, main),
{
    match token_at_position(app, column, row, main) {
        Some((kind, value)) => {
            app.open_context_menu(value, kind, (column, row));
        },
        None => {},
    }
}

/// A press of the mouse off the histogram.
pub fn press(app: &mut App, column: u16, row: u16, screen: Screen) -> (r: Effect)
    requires
        old(app).wf(),
    ensures
        final(app).wf(),
        is_pressed(*final(app), *old(app), column, row, screen),
        r@ == press_task(*old(app), column, row, screen),
{
    match app.mode() {
        AppMode::ContextMenu => {
            match menu_item_at_position(app, column, row, screen.whole) {
                Some(index) => match app.execute_menu_item(index) {
                    Some((item, value)) => execute_action(app, item, value),
                    None => Effect::Nothing,
                },
                None => {
                    app.close_context_menu();
                    open_menu_at(app, column, row, screen.main);
                    Effect::Nothing
                },
            }
        },
        AppMode::Cursor => Effect::Nothing,
        _ => {
            open_menu_at(app, column, row, screen.main);
            Effect::Nothing
        },
    }
}

/// The bucket that a column stands for where the mouse has left the
/// histogram.
pub fn bucket_near(app: &App, column: u16) -> (r: Option<usize>)
    ensures
        r == nearest_bucket(*app, column),
{
    match app.sparkline_data() {
        Some(s) => {
            let wanted = column.saturating_sub(1) as usize;
            let last = s.num_buckets.saturating_sub(1);
            Some(
                if wanted < last {
                    wanted
                } else {
                    last
                },
            )
        },
        None => None,
    }
}

/// What the mouse does to the viewer, at a cell of the screen.
pub fn handle_mouse(app: &mut App, kind: Mouse, column: u16, row: u16, screen: Screen) -> (r:
    Effect)
    requires
        old(app).wf(),
    ensures
        final(app).wf(),
        is_moused(*final(app), *old(app), kind, column, row, screen),
        r@ == mouse_task(*old(app), kind, column, row, screen),
{
    match sparkline_bucket_at_position(app, column, row, screen.strip) {
        Some(bucket) => {
            match kind {
                Mouse::Down => app.time_mouse_down(bucket),
                Mouse::Drag => app.time_mouse_drag(bucket),
                Mouse::Up => app.time_mouse_up(bucket),
                _ => {},
            }
            Effect::Nothing
        },
        None => off_histogram(app, kind, column, row, screen),
    }
}

/// What the mouse does off the histogram.
pub fn off_histogram(app: &mut App, kind: Mouse, column: u16, row: u16, screen: Screen) -> (r:
    Effect)
    requires
        old(app).wf(),
        bucket_hit(*old(app), column, row, screen.strip) is None,
    ensures
        final(app).wf(),
        is_moused(*final(app), *old(app), kind, column, row, screen),
        r@ == mouse_task(*old(app), kind, column, row, screen),
{
    match kind {
        Mouse::Down => press(app, column, row, screen),
        Mouse::Drag => {
            if app.mode() == AppMode::TimeRange {
                match bucket_near(app, column) {
                    Some(bucket) => app.time_mouse_drag(bucket),
                    None => {},
                }
            }
            Effect::Nothing
        },
        Mouse::Up => {
            if app.mode() == AppMode::TimeRange {
                match bucket_near(app, column) {
                    Some(bucket) => app.time_mouse_up(bucket),
                    None => {},
                }
            }
            Effect::Nothing
        },
        Mouse::ScrollDown => {
            app.scroll_down(3);
            Effect::Nothing
        },
        Mouse::ScrollUp => {
            app.scroll_up(3);
            Effect::Nothing
        },
        Mouse::ScrollLeft => {
            app.scroll_left(3);
            Effect::Nothing
        },
        Mouse::ScrollRight => {
            app.scroll_right(3);
            Effect::Nothing
        },
        Mouse::Other => Effect::Nothing,
    }
}

} // verus!
