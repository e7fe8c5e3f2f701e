//! Plain data exchanged between the daemon and the monitor.

use vstd::prelude::*;

verus! {

/// A semantic grouping (an InteractionContext widget) enclosing a node.
#[derive(Debug, Clone, PartialEq, Eq)]
pub struct ContextInfo {
    pub name: String,
    pub description: Option<String>,
}

/// A capability of a widget, such as `tap`.
#[derive(Debug, Clone, PartialEq, Eq)]
pub struct Capability {
    pub name: String,
}

/// A named action a widget offers.
#[derive(Debug, Clone, PartialEq, Eq)]
pub struct Action {
    pub name: String,
    pub description: Option<String>,
}

/// One node of the raw interaction tree reported by the app.
#[derive(Debug, PartialEq, Eq)]
pub struct TreeNode {
    pub id: String,
    pub widget_type: Option<String>,
    pub capabilities: Vec<Capability>,
    pub actions: Vec<Action>,
    pub children: Vec<TreeNode>,
    pub contexts: Vec<ContextInfo>,
}

/// The raw interaction tree of a session.
#[derive(Debug, PartialEq, Eq)]
pub struct InteractionTree {
    pub nodes: Vec<TreeNode>,
    pub last_updated: Option<String>,
}

/// The view of an optional string.
pub open spec fn opt_view(o: Option<String>) -> Option<Seq<char>> {
    match o {
        Some(s) => Some(s@),
        None => None,
    }
}

/// Clones an optional string.
pub fn clone_opt(o: &Option<String>) -> (r: Option<String>)
    ensures
        opt_view(r) == opt_view(*o),
{
    match o {
        Some(s) => Some(s.clone()),
        None => None,
    }
}

} // verus!

verus! {

/// State of the connection to the daemon.
#[derive(Debug, Clone, Copy, PartialEq, Eq, Structural)]
pub enum WsState {
    Disconnected,
    Connecting,
    Connected,
}

/// What the monitor knows of the Flutter app of the selected session.
#[derive(Debug, Clone, PartialEq, Eq)]
pub enum AppStatus {
    Unknown,
    Starting,
    Running { pid: u32, uri: String },
    Stopped,
    Error(String),
}

/// An action that asks for confirmation first.
#[derive(Debug, Clone, Copy, PartialEq, Eq, Structural)]
pub enum ConfirmAction {
    Quit,
}

/// What a one-line input prompt is asking for.
#[derive(Debug, Clone, Copy, PartialEq, Eq, Structural)]
pub enum InputPromptKind {
    CreateSession,
    RunApp,
}

/// The input mode of the monitor.
#[derive(Debug, Clone, Copy, PartialEq, Eq, Structural)]
pub enum Mode {
    Normal,
    Filter,
    Help,
    Confirm(ConfirmAction),
    SessionPicker,
    InputPrompt(InputPromptKind),
    AgentChat,
    ActionMenu,
}

/// The tab shown in the content pane.
#[derive(Debug, Clone, Copy, PartialEq, Eq, Structural)]
pub enum ContentTab {
    Flutter,
    Agent,
    Interactions,
    Tree,
}

/// The tab after `t`, wrapping around.
pub open spec fn tab_after(t: ContentTab) -> ContentTab {
    match t {
        ContentTab::Flutter => ContentTab::Agent,
        ContentTab::Agent => ContentTab::Interactions,
        ContentTab::Interactions => ContentTab::Tree,
        ContentTab::Tree => ContentTab::Flutter,
    }
}

/// The tab before `t`, wrapping around.
pub open spec fn tab_before(t: ContentTab) -> ContentTab {
    match t {
        ContentTab::Flutter => ContentTab::Tree,
        ContentTab::Agent => ContentTab::Flutter,
        ContentTab::Interactions => ContentTab::Agent,
        ContentTab::Tree => ContentTab::Interactions,
    }
}

impl ContentTab {
    /// The next tab, wrapping around after the last one.
    pub fn next(self) -> (r: ContentTab)
        ensures
            r == tab_after(self),
    {
        match self {
            ContentTab::Flutter => ContentTab::Agent,
            ContentTab::Agent => ContentTab::Interactions,
            ContentTab::Interactions => ContentTab::Tree,
            ContentTab::Tree => ContentTab::Flutter,
        }
    }

    /// The previous tab, wrapping around before the first one.
    pub fn prev(self) -> (r: ContentTab)
        ensures
            r == tab_before(self),
    {
        match self {
            ContentTab::Flutter => ContentTab::Tree,
            ContentTab::Agent => ContentTab::Flutter,
            ContentTab::Interactions => ContentTab::Agent,
            ContentTab::Tree => ContentTab::Interactions,
        }
    }
}

impl Default for ContentTab {
    fn default() -> (r: ContentTab)
        ensures
            r == ContentTab::Flutter,
    {
        ContentTab::Flutter
    }
}

/// Moving to the next tab and back again lands where one started, and the
/// other way round; four steps in one direction make a full cycle.
pub proof fn lemma_tab_cycle(t: ContentTab)
    ensures
        tab_before(tab_after(t)) == t,
        tab_after(tab_before(t)) == t,
        tab_after(tab_after(tab_after(tab_after(t)))) == t,
{
}

/// Severity of an interaction log line.
#[derive(Debug, Clone, Copy, PartialEq, Eq, Structural)]
pub enum LogLevel {
    Debug,
    Info,
    Warn,
    Error,
}

/// One line of the interaction log.
#[derive(Debug, Clone, PartialEq, Eq)]
pub struct LogEntry {
    pub ts: String,
    pub level: LogLevel,
    pub message: String,
}

/// Severity of a toast notification.
#[derive(Debug, Clone, Copy, PartialEq, Eq, Structural)]
pub enum ToastLevel {
    Info,
    Success,
    Error,
}

/// A short-lived notification; `created_at` is in seconds on the clock of
/// [`clock_secs`].
#[derive(Debug, Clone, PartialEq, Eq)]
pub struct Toast {
    pub message: String,
    pub level: ToastLevel,
    pub created_at: u64,
}

/// Seconds since the Unix epoch on the system clock (0 if the clock is set
/// before it).
#[verifier::external_body]
pub(crate) fn clock_secs() -> u64 {
    match std::time::SystemTime::now().duration_since(std::time::UNIX_EPOCH) {
        Ok(d) => d.as_secs(),
        Err(_) => 0,
    }
}

/// Whether a toast made at `created` has outlived `ttl` seconds at `now`.
pub open spec fn toast_expired(created: u64, now: u64, ttl: u64) -> bool {
    now >= created && now - created >= ttl
}

impl Toast {
    /// A toast of the given level made at time `now`.
    pub fn at(message: &str, level: ToastLevel, now: u64) -> (r: Toast)
        ensures
            r.message@ == message@,
            r.level == level,
            r.created_at == now,
    {
        Toast { message: String::from_str(message), level, created_at: now }
    }

    /// An informational toast made now.
    pub fn info(message: &str) -> (r: Toast)
        ensures
            r.message@ == message@,
            r.level == ToastLevel::Info,
    {
        Toast::at(message, ToastLevel::Info, clock_secs())
    }

    /// A success toast made now.
    pub fn success(message: &str) -> (r: Toast)
        ensures
            r.message@ == message@,
            r.level == ToastLevel::Success,
    {
        Toast::at(message, ToastLevel::Success, clock_secs())
    }

    /// An error toast made now.
    pub fn error(message: &str) -> (r: Toast)
        ensures
            r.message@ == message@,
            r.level == ToastLevel::Error,
    {
        Toast::at(message, ToastLevel::Error, clock_secs())
    }

    /// Whether this toast has outlived `ttl_secs` at time `now`.
    pub fn is_expired_at(&self, now: u64, ttl_secs: u64) -> (r: bool)
        ensures
            r == toast_expired(self.created_at, now, ttl_secs),
    {
        now >= self.created_at && now - self.created_at >= ttl_secs
    }

    /// Whether this toast has outlived `ttl_secs` now.
    pub fn is_expired(&self, ttl_secs: u64) -> (r: bool)
        ensures
            exists|now: u64| r == toast_expired(self.created_at, now, ttl_secs),
    {
        let now = clock_secs();
        self.is_expired_at(now, ttl_secs)
    }
}

/// Whether the log viewer is selecting a range of lines.
#[derive(Debug, Clone, Copy, PartialEq, Eq, Structural)]
pub enum LogViewMode {
    Normal,
    Visual,
}

/// Cursor, viewport and selection of the log viewer. `scroll` is the first
/// line shown; in visual mode `anchor` is where the selection started.
#[derive(Debug, Clone, Copy, PartialEq, Eq, Structural)]
pub struct LogViewState {
    pub cursor: usize,
    pub scroll: usize,
    pub mode: LogViewMode,
    pub anchor: usize,
}

/// The viewport shows the cursor: it is on or after the first line shown,
/// and before the end of a viewport of `height` lines (when it has any).
pub open spec fn cursor_in_view(v: LogViewState, height: nat) -> bool {
    v.scroll <= v.cursor && (height > 0 ==> v.cursor < v.scroll + height)
}

impl LogViewState {
    /// The viewer at the first line, not selecting.
    pub fn new() -> (r: LogViewState)
        ensures
            r.cursor == 0,
            r.scroll == 0,
            r.mode == LogViewMode::Normal,
            r.anchor == 0,
    {
        LogViewState { cursor: 0, scroll: 0, mode: LogViewMode::Normal, anchor: 0 }
    }

    /// Moves the cursor back onto the last of `count` lines if it is past it.
    pub fn clamp_cursor(&mut self, count: usize)
        ensures
            final(self).cursor == (if count == 0 { 0 } else if old(self).cursor >= count {
                (count - 1) as usize
            } else {
                old(self).cursor
            }),
            final(self).scroll == (if final(self).cursor < old(self).scroll {
                final(self).cursor
            } else {
                old(self).scroll
            }),
            final(self).mode == old(self).mode,
            final(self).anchor == old(self).anchor,
    {
        if count == 0 {
            self.cursor = 0;
        } else if self.cursor >= count {
            self.cursor = count - 1;
        }
        if self.cursor < self.scroll {
            self.scroll = self.cursor;
        }
    }

    /// One line up; the viewport follows the cursor.
    pub fn cursor_up(&mut self, height: usize)
        ensures
            final(self).cursor == (if old(self).cursor > 0 { old(self).cursor - 1 } else { 0 }),
            final(self).scroll == (if final(self).cursor < old(self).scroll {
                final(self).cursor
            } else {
                old(self).scroll
            }),
            final(self).mode == old(self).mode,
            final(self).anchor == old(self).anchor,
            cursor_in_view(*old(self), height as nat) ==> cursor_in_view(*final(self), height as nat),
    {
        if self.cursor > 0 {
            self.cursor = self.cursor - 1;
        }
        if self.cursor < self.scroll {
            self.scroll = self.cursor;
        }
    }

    /// One line down, staying on the last of `count` lines; the viewport of
    /// `height` lines follows the cursor.
    pub fn cursor_down(&mut self, count: usize, height: usize)
        requires
            old(self).scroll <= old(self).cursor,
        ensures
            final(self).cursor == (if old(self).cursor + 1 < count {
                old(self).cursor + 1
            } else {
                old(self).cursor as int
            }),
            final(self).mode == old(self).mode,
            final(self).anchor == old(self).anchor,
            final(self).scroll <= final(self).cursor,
            height > 0 ==> final(self).cursor < final(self).scroll + height,
            height > 0 && old(self).cursor < old(self).scroll + height
                && final(self).cursor < old(self).scroll + height ==> final(self).scroll == old(self).scroll,
    {
        if self.cursor < count && count - self.cursor > 1 {
            self.cursor = self.cursor + 1;
        }
        if height > 0 && self.cursor - self.scroll >= height {
            self.scroll = self.cursor - (height - 1);
        }
    }

    /// The first line, scrolled to the top.
    pub fn cursor_top(&mut self)
        ensures
            final(self).cursor == 0,
            final(self).scroll == 0,
            final(self).mode == old(self).mode,
            final(self).anchor == old(self).anchor,
    {
        self.cursor = 0;
        self.scroll = 0;
    }

    /// The last of `count` lines, with the viewport of `height` lines ending
    /// on it.
    pub fn cursor_bottom(&mut self, count: usize, height: usize)
        ensures
            final(self).cursor == (if count == 0 { 0 } else { count - 1 }),
            final(self).scroll == (if height == 0 || count <= height { 0 } else { count - height }),
            final(self).mode == old(self).mode,
            final(self).anchor == old(self).anchor,
            cursor_in_view(*final(self), height as nat),
    {
        self.cursor = if count == 0 { 0 } else { count - 1 };
        self.scroll = if height == 0 || count <= height { 0 } else { count - height };
    }

    /// Starts a selection at the cursor, or ends the one in progress.
    pub fn toggle_visual(&mut self)
        ensures
            old(self).mode == LogViewMode::Normal ==> final(self).mode == LogViewMode::Visual
                && final(self).anchor == old(self).cursor,
            old(self).mode == LogViewMode::Visual ==> final(self).mode == LogViewMode::Normal
                && final(self).anchor == old(self).anchor,
            final(self).cursor == old(self).cursor,
            final(self).scroll == old(self).scroll,
    {
        match self.mode {
            LogViewMode::Normal => {
                self.mode = LogViewMode::Visual;
                self.anchor = self.cursor;
            },
            LogViewMode::Visual => {
                self.mode = LogViewMode::Normal;
            },
        }
    }

    /// Ends a selection, if one is in progress.
    pub fn exit_visual(&mut self)
        ensures
            final(self).mode == LogViewMode::Normal,
            final(self).cursor == old(self).cursor,
            final(self).scroll == old(self).scroll,
            final(self).anchor == old(self).anchor,
    {
        self.mode = LogViewMode::Normal;
    }

    /// The selected lines, first and last, in visual mode.
    pub fn selection_range(&self) -> (r: Option<(usize, usize)>)
        ensures
            self.mode == LogViewMode::Normal ==> r is None,
            self.mode == LogViewMode::Visual ==> r == Some(
                if self.anchor <= self.cursor {
                    (self.anchor, self.cursor)
                } else {
                    (self.cursor, self.anchor)
                },
            ),
    {
        match self.mode {
            LogViewMode::Normal => None,
            LogViewMode::Visual => if self.anchor <= self.cursor {
                Some((self.anchor, self.cursor))
            } else {
                Some((self.cursor, self.anchor))
            },
        }
    }
}

} // verus!

verus! {

/// An interaction offered in the action menu of a tree node.
#[derive(Debug, Clone, PartialEq, Eq)]
pub enum InteractionAction {
    Tap,
    LongPress,
    DoubleTap,
    Scroll { dx: i64, dy: i64 },
    EnterText(String),
    Custom(String),
}

} // verus!
