//! Decisions of the desktop shell: the tray's text, what its menu items
//! do, when the main window hides, and which editors and terminals a
//! project is opened with.

use vstd::prelude::*;
use crate::text;
use crate::text::{chars_of, push_decimal, push_str, str_eq, string_of, views};

verus! {

/// Flags shared with the window: whether a native dialog is open, and
/// whether the user pinned the panel open. Either one keeps the panel from
/// hiding when it loses focus.
pub struct UiState {
    pub dialog_open: std::sync::atomic::AtomicBool,
    pub window_pinned: std::sync::atomic::AtomicBool,
}

impl UiState {
    /// Both flags cleared. What an atomic holds can change behind a shared
    /// reference, so Verus models no contents for it and the cleared flags
    /// are stated here in words only.
    pub fn new() -> UiState {
        UiState {
            dialog_open: std::sync::atomic::AtomicBool::new(false),
            window_pinned: std::sync::atomic::AtomicBool::new(false),
        }
    }
}

/// The app's settings file: the global shortcut that shows the window.
#[derive(Clone, Debug)]
pub struct Settings {
    pub shortcut: Option<String>,
}

impl Default for Settings {
    fn default() -> (r: Settings)
        ensures
            r.shortcut is None,
    {
        Settings { shortcut: None }
    }
}

/// The tray tooltip for `count` running scripts.
pub open spec fn tooltip(count: nat) -> Seq<char> {
    if count == 0 {
        "Package Run"@
    } else {
        "Package Run \u{2014} "@ + text::decimal(count) + " running"@
    }
}

/// The tooltip of the tray icon, with the number of running scripts.
pub fn tray_tooltip(count: usize) -> (r: String)
    ensures
        r@ == tooltip(count as nat),
{
    let mut v: Vec<char> = Vec::new();
    if count == 0 {
        push_str(&mut v, "Package Run");
    } else {
        push_str(&mut v, "Package Run \u{2014} ");
        push_decimal(&mut v, count as u64);
        push_str(&mut v, " running");
    }
    string_of(v.as_slice())
}

/// The title shown beside the tray icon (macOS and Linux): the number of
/// running scripts, nothing when none runs.
pub fn tray_title(count: usize) -> (r: Option<String>)
    ensures
        r is Some <==> count > 0,
        r matches Some(t) ==> t@ == text::decimal(count as nat),
{
    if count > 0 {
        Some(text::decimal_string(count as u64))
    } else {
        None
    }
}

/// What a tray menu item does.
#[derive(PartialEq, Eq, Structural, Clone, Copy, Debug)]
pub enum MenuAction {
    /// Bring the main window to the front.
    ShowWindow,
    /// Show the window and tell it to add a project.
    AddProject,
    /// Show the window and open the settings.
    OpenSettings,
    /// Show the window and check for updates.
    CheckUpdates,
    /// Open the releases page in the browser.
    OpenReleases,
    Quit,
    /// An id the menu does not have.
    Ignore,
}

/// The action of the tray menu item with id `id`.
pub open spec fn action_of(id: Seq<char>) -> MenuAction {
    if id == "open"@ {
        MenuAction::ShowWindow
    } else if id == "add_project"@ {
        MenuAction::AddProject
    } else if id == "settings"@ {
        MenuAction::OpenSettings
    } else if id == "updates"@ {
        MenuAction::CheckUpdates
    } else if id == "releases"@ {
        MenuAction::OpenReleases
    } else if id == "quit"@ {
        MenuAction::Quit
    } else {
        MenuAction::Ignore
    }
}

/// What the tray menu item `id` does.
pub fn menu_action(id: &str) -> (r: MenuAction)
    ensures
        r == action_of(id@),
{
    if str_eq(id, "open") {
        MenuAction::ShowWindow
    } else if str_eq(id, "add_project") {
        MenuAction::AddProject
    } else if str_eq(id, "settings") {
        MenuAction::OpenSettings
    } else if str_eq(id, "updates") {
        MenuAction::CheckUpdates
    } else if str_eq(id, "releases") {
        MenuAction::OpenReleases
    } else if str_eq(id, "quit") {
        MenuAction::Quit
    } else {
        MenuAction::Ignore
    }
}

/// The event the window receives after a menu action shows it.
pub open spec fn event_of(a: MenuAction) -> Option<Seq<char>> {
    match a {
        MenuAction::AddProject => Some("tray-add-project"@),
        MenuAction::OpenSettings => Some("open-settings"@),
        MenuAction::CheckUpdates => Some("check-updates"@),
        _ => None,
    }
}

/// The event to send to the window for a menu action.
pub fn menu_event(a: MenuAction) -> (r: Option<String>)
    ensures
        text::opt_view(r) == event_of(a),
{
    match a {
        MenuAction::AddProject => Some(string_of(chars_of("tray-add-project").as_slice())),
        MenuAction::OpenSettings => Some(string_of(chars_of("open-settings").as_slice())),
        MenuAction::CheckUpdates => Some(string_of(chars_of("check-updates").as_slice())),
        _ => None,
    }
}

/// A double click on the tray icon hides the main window when it is
/// visible and focused, and shows it otherwise.
pub fn toggle_hides_window(visible: bool, focused: bool) -> (r: bool)
    ensures
        r == (visible && focused),
{
    visible && focused
}

/// The operating system, as far as opening tools goes.
#[derive(PartialEq, Eq, Structural, Clone, Copy, Debug)]
pub enum Os {
    MacOs,
    Windows,
    Linux,
}

/// The editors tried, in order, to open a project: applications on macOS,
/// command-line launchers elsewhere.
pub open spec fn editors(os: Os) -> Seq<Seq<char>> {
    if os == Os::MacOs {
        seq!["Cursor"@, "Visual Studio Code"@, "Zed"@, "WebStorm"@]
    } else {
        seq!["cursor"@, "code"@]
    }
}

/// A list of strings from literals.
fn strings_of(items: &[&str]) -> (r: Vec<String>)
    ensures
        r@.len() == items@.len(),
        forall|i: int| 0 <= i < items@.len() ==> #[trigger] r@[i]@ == items@[i]@,
{
    let mut v: Vec<String> = Vec::new();
    let mut i: usize = 0;
    while i < items.len()
        invariant
            i <= items@.len(),
            v@.len() == i,
            forall|j: int| 0 <= j < i ==> #[trigger] v@[j]@ == items@[j]@,
        decreases items.len() - i,
    {
        v.push(string_of(chars_of(items[i]).as_slice()));
        i = i + 1;
    }
    v
}

/// The editors to try for a project, in order.
pub fn editor_candidates(os: Os) -> (r: Vec<String>)
    ensures
        views(r@) == editors(os),
        os == Os::MacOs ==> views(r@) == seq!["Cursor"@, "Visual Studio Code"@, "Zed"@, "WebStorm"@],
        os != Os::MacOs ==> views(r@) == seq!["cursor"@, "code"@],
{
    let r = if os == Os::MacOs {
        strings_of(&["Cursor", "Visual Studio Code", "Zed", "WebStorm"])
    } else {
        strings_of(&["cursor", "code"])
    };
    assert(views(r@) =~= editors(os));
    r
}

/// The terminals tried, in order, to open a project: applications on
/// macOS, emulators on Linux; on Windows, Windows Terminal (`wt`), then a
/// plain `cmd` window.
pub open spec fn terminals(os: Os) -> Seq<Seq<char>> {
    if os == Os::MacOs {
        seq!["iTerm"@, "Warp"@, "Terminal"@]
    } else if os == Os::Linux {
        seq!["x-terminal-emulator"@, "gnome-terminal"@, "konsole"@]
    } else {
        seq!["wt"@, "cmd"@]
    }
}

/// The terminals to try for a project, in order.
pub fn terminal_candidates(os: Os) -> (r: Vec<String>)
    ensures
        views(r@) == terminals(os),
        os == Os::MacOs ==> views(r@) == seq!["iTerm"@, "Warp"@, "Terminal"@],
        os == Os::Linux ==> views(r@) == seq!["x-terminal-emulator"@, "gnome-terminal"@, "konsole"@],
        os == Os::Windows ==> views(r@) == seq!["wt"@, "cmd"@],
{
    let r = if os == Os::MacOs {
        strings_of(&["iTerm", "Warp", "Terminal"])
    } else if os == Os::Linux {
        strings_of(&["x-terminal-emulator", "gnome-terminal", "konsole"])
    } else {
        strings_of(&["wt", "cmd"])
    };
    assert(views(r@) =~= terminals(os));
    r
}

/// Every platform has a terminal that ships with it among its candidates,
/// tried last: Terminal on macOS, a plain `cmd` window on Windows, and
/// the system's chosen emulator first on Linux.
pub proof fn lemma_system_terminal_is_tried(os: Os)
    ensures
        terminals(os).len() > 0,
        os == Os::MacOs ==> terminals(os).last() == "Terminal"@,
        os == Os::Windows ==> terminals(os).last() == "cmd"@,
        os == Os::Linux ==> terminals(os)[0] == "x-terminal-emulator"@,
{
}

/// The error when no editor could open a project.
pub fn no_editor_error() -> (r: String)
    ensures
        r@ == "ERR_NO_EDITOR"@,
{
    string_of(chars_of("ERR_NO_EDITOR").as_slice())
}

/// The error when no terminal could open a project.
pub fn no_terminal_error() -> (r: String)
    ensures
        r@ == "ERR_NO_TERMINAL"@,
{
    string_of(chars_of("ERR_NO_TERMINAL").as_slice())
}

/// The next step in opening a project with the first tool that works.
#[derive(Clone, Debug, PartialEq, Eq)]
pub enum OpenAction {
    /// Launch this candidate and report whether it worked.
    Try(String),
    /// A candidate worked: the project is open.
    Opened,
    /// Every candidate failed: report this error.
    Failed(String),
}

/// Decides the next step of opening a project, given the candidates in
/// order and the outcomes of those tried so far: done as soon as one
/// worked, else the next untried candidate, else the failure.
pub fn next_open_action(candidates: &Vec<String>, outcomes: &Vec<bool>, failure: &str) -> (r:
    OpenAction)
    requires
        outcomes@.len() <= candidates@.len(),
    ensures
        match r {
            OpenAction::Opened => outcomes@.contains(true),
            OpenAction::Try(c) => !outcomes@.contains(true) && outcomes@.len()
                < candidates@.len() && c@ == candidates@[outcomes@.len() as int]@,
            OpenAction::Failed(f) => !outcomes@.contains(true) && outcomes@.len()
                == candidates@.len() && f@ == failure@,
        },
{
    let mut i: usize = 0;
    while i < outcomes.len()
        invariant
            i <= outcomes@.len(),
            forall|j: int| 0 <= j < i ==> !outcomes@[j],
        decreases outcomes.len() - i,
    {
        if outcomes[i] {
            return OpenAction::Opened;
        }
        i = i + 1;
    }
    if outcomes.len() < candidates.len() {
        OpenAction::Try(candidates[outcomes.len()].clone())
    } else {
        OpenAction::Failed(string_of(chars_of(failure).as_slice()))
    }
}

} // verus!
