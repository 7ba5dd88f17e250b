//! The commands of the viewer: what each is called, which key runs it, and
//! what it does.

use vstd::prelude::*;

verus! {

/// What a command does.
#[derive(Debug, Clone, Copy, PartialEq, Eq, Structural)]
pub enum Action {
    Quit,
    ScrollDown,
    ScrollUp,
    ScrollLeft,
    ScrollRight,
    PageDown,
    PageUp,
    ScrollToTop,
    ScrollToBottom,
    OpenFilter,
    CycleLevelUp,
    CycleLevelDown,
    TogglePretty,
    ToggleWrap,
    EnterCursorMode,
    ToggleFollowPause,
    OpenCommandPalette,
    YankLine,
    YankAllFiltered,
    EnterTimeMode,
    ClearTimeRange,
    ToggleSparkline,
    TimeMarkStart,
    TimeMarkEndApply,
    TimePresetLast5m,
    TimePresetLast15m,
    TimePresetLast1h,
    TimePresetLast24h,
}

/// A command of the palette. `keybinding` is what the help column shows.
#[derive(Debug, Clone, Copy)]
pub struct Command {
    pub name: &'static str,
    pub keybinding: Option<&'static str>,
    pub action: Action,
}

/// What a [`Command`] holds, as mathematical values.
pub struct CommandEntry {
    pub name: Seq<char>,
    pub keybinding: Option<Seq<char>>,
    pub action: Action,
}

impl View for Command {
    type V = CommandEntry;

    open spec fn view(&self) -> CommandEntry {
        CommandEntry {
            name: self.name@,
            keybinding: match self.keybinding {
                Some(k) => Some(k@),
                None => None,
            },
            action: self.action,
        }
    }
}

/// The number of commands.
pub const COMMAND_COUNT: usize = 28;

/// The command at each place of the table: the actions that are used most
/// come first, moving about comes last.
pub open spec fn command_at(i: int) -> CommandEntry {
    if i <= 0 {
        CommandEntry { name: "Filter / search"@, keybinding: Some("/"@), action: Action::OpenFilter }
    } else if i == 1 {
        CommandEntry { name: "Level filter up"@, keybinding: Some("v"@), action: Action::CycleLevelUp }
    } else if i == 2 {
        CommandEntry { name: "Level filter down"@, keybinding: Some("V"@), action: Action::CycleLevelDown }
    } else if i == 3 {
        CommandEntry { name: "Cursor mode"@, keybinding: Some("Enter"@), action: Action::EnterCursorMode }
    } else if i == 4 {
        CommandEntry { name: "Yank line to clipboard"@, keybinding: Some("y (cursor)"@), action: Action::YankLine }
    } else if i == 5 {
        CommandEntry { name: "Yank all filtered lines"@, keybinding: Some("Y (cursor)"@), action: Action::YankAllFiltered }
    } else if i == 6 {
        CommandEntry { name: "Pretty-print JSON"@, keybinding: Some("p"@), action: Action::TogglePretty }
    } else if i == 7 {
        CommandEntry { name: "Toggle line wrap"@, keybinding: Some("w"@), action: Action::ToggleWrap }
    } else if i == 8 {
        CommandEntry { name: "Time range mode"@, keybinding: Some("t"@), action: Action::EnterTimeMode }
    } else if i == 9 {
        CommandEntry { name: "Time: mark start"@, keybinding: Some("[ (time)"@), action: Action::TimeMarkStart }
    } else if i == 10 {
        CommandEntry { name: "Time: mark end & apply"@, keybinding: Some("] (time)"@), action: Action::TimeMarkEndApply }
    } else if i == 11 {
        CommandEntry { name: "Time: last 5 minutes"@, keybinding: Some("1 (time)"@), action: Action::TimePresetLast5m }
    } else if i == 12 {
        CommandEntry { name: "Time: last 15 minutes"@, keybinding: Some("2 (time)"@), action: Action::TimePresetLast15m }
    } else if i == 13 {
        CommandEntry { name: "Time: last 1 hour"@, keybinding: Some("3 (time)"@), action: Action::TimePresetLast1h }
    } else if i == 14 {
        CommandEntry { name: "Time: last 24 hours"@, keybinding: Some("4 (time)"@), action: Action::TimePresetLast24h }
    } else if i == 15 {
        CommandEntry { name: "Clear time range"@, keybinding: Some("c (time)"@), action: Action::ClearTimeRange }
    } else if i == 16 {
        CommandEntry { name: "Toggle sparkline"@, keybinding: None, action: Action::ToggleSparkline }
    } else if i == 17 {
        CommandEntry { name: "Pause / resume follow"@, keybinding: Some("Space"@), action: Action::ToggleFollowPause }
    } else if i == 18 {
        CommandEntry { name: "Command palette"@, keybinding: Some("?"@), action: Action::OpenCommandPalette }
    } else if i == 19 {
        CommandEntry { name: "Quit"@, keybinding: Some("q"@), action: Action::Quit }
    } else if i == 20 {
        CommandEntry { name: "Scroll down"@, keybinding: Some("j / Down"@), action: Action::ScrollDown }
    } else if i == 21 {
        CommandEntry { name: "Scroll up"@, keybinding: Some("k / Up"@), action: Action::ScrollUp }
    } else if i == 22 {
        CommandEntry { name: "Scroll left"@, keybinding: Some("h / Left"@), action: Action::ScrollLeft }
    } else if i == 23 {
        CommandEntry { name: "Scroll right"@, keybinding: Some("l / Right"@), action: Action::ScrollRight }
    } else if i == 24 {
        CommandEntry { name: "Page down"@, keybinding: Some("Space / PgDn"@), action: Action::PageDown }
    } else if i == 25 {
        CommandEntry { name: "Page up"@, keybinding: Some("PgUp"@), action: Action::PageUp }
    } else if i == 26 {
        CommandEntry { name: "Go to top"@, keybinding: Some("g"@), action: Action::ScrollToTop }
    } else {
        CommandEntry { name: "Go to bottom"@, keybinding: Some("G"@), action: Action::ScrollToBottom }
    }
}

/// A command.
pub fn command(name: &'static str, keybinding: Option<&'static str>, action: Action) -> (r: Command)
    ensures
        r.name == name,
        r.keybinding == keybinding,
        r.action == action,
{
    Command { name, keybinding, action }
}

/// The commands, in the order of the palette. The palette and the keys both
/// go by this table.
pub fn commands() -> (r: Vec<Command>)
    ensures
        r.len() == COMMAND_COUNT,
        forall|i: int| 0 <= i < r.len() ==> (#[trigger] r[i])@ == command_at(i),
{
    let mut out: Vec<Command> = Vec::new();
    out.push(command("Filter / search", Some("/"), Action::OpenFilter));
    out.push(command("Level filter up", Some("v"), Action::CycleLevelUp));
    out.push(command("Level filter down", Some("V"), Action::CycleLevelDown));
    out.push(command("Cursor mode", Some("Enter"), Action::EnterCursorMode));
    out.push(command("Yank line to clipboard", Some("y (cursor)"), Action::YankLine));
    out.push(command("Yank all filtered lines", Some("Y (cursor)"), Action::YankAllFiltered));
    out.push(command("Pretty-print JSON", Some("p"), Action::TogglePretty));
    out.push(command("Toggle line wrap", Some("w"), Action::ToggleWrap));
    out.push(command("Time range mode", Some("t"), Action::EnterTimeMode));
    out.push(command("Time: mark start", Some("[ (time)"), Action::TimeMarkStart));
    out.push(command("Time: mark end & apply", Some("] (time)"), Action::TimeMarkEndApply));
    out.push(command("Time: last 5 minutes", Some("1 (time)"), Action::TimePresetLast5m));
    out.push(command("Time: last 15 minutes", Some("2 (time)"), Action::TimePresetLast15m));
    out.push(command("Time: last 1 hour", Some("3 (time)"), Action::TimePresetLast1h));
    out.push(command("Time: last 24 hours", Some("4 (time)"), Action::TimePresetLast24h));
    out.push(command("Clear time range", Some("c (time)"), Action::ClearTimeRange));
    out.push(command("Toggle sparkline", None, Action::ToggleSparkline));
    out.push(command("Pause / resume follow", Some("Space"), Action::ToggleFollowPause));
    out.push(command("Command palette", Some("?"), Action::OpenCommandPalette));
    out.push(command("Quit", Some("q"), Action::Quit));
    out.push(command("Scroll down", Some("j / Down"), Action::ScrollDown));
    out.push(command("Scroll up", Some("k / Up"), Action::ScrollUp));
    out.push(command("Scroll left", Some("h / Left"), Action::ScrollLeft));
    out.push(command("Scroll right", Some("l / Right"), Action::ScrollRight));
    out.push(command("Page down", Some("Space / PgDn"), Action::PageDown));
    out.push(command("Page up", Some("PgUp"), Action::PageUp));
    out.push(command("Go to top", Some("g"), Action::ScrollToTop));
    out.push(command("Go to bottom", Some("G"), Action::ScrollToBottom));
    out
}

} // verus!
