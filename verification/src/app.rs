//! The monitor's state: sessions, logs, chat, tree view and the input
//! mode, and how each daemon message and user command changes it.

use std::collections::VecDeque;
use vstd::prelude::*;
use throbber_widgets_tui::ThrobberState;
use crate::chat::{ChatContent, ChatMessage, StreamingState, ToolCall, ToolStatus};
use crate::flutter_log::{event_reading, events_reading, line_kind, noise, plain_text, trim_of, FlutterLogEntry};
use crate::text::{contains_text, decimal, has_infix, lower_text, lowered, lowercase, occurs_at, push_decimal, starts_with_text, truncate, truncated};
use crate::tree_json::{nodes_read, read_nodes};
use crate::json::{get_str, get_u64, into_member, json_display, json_get, json_str, json_u64, print_json, str_member, Json};
use crate::project::ProjectInfo;
use crate::protocol::{
    agent_event_type, now_rfc3339, session_read, session_readable, single_member, AgentEventKind, AgentResponse,
    AgentStatus, AgentStreamEvent, MonitoringEvent, Session,
};
use crate::session::{
    is_blank_session, new_tree_state, path_view, tree_close_all, tree_key_down, tree_key_left, tree_key_right,
    tree_key_up, tree_opened, tree_select, drawn_path_at, key_up_target, key_down_target, tree_drawn, tree_drawn_max, tree_selected_path, tree_selection, tree_toggle_selected, SessionState,
};
use crate::tree_format::{context_tree, entries_view, preorder, schemas_of, CompactTree};
use crate::tree_view::{entry_item_id, item_id, open_entries, open_set};
use crate::types::{InteractionTree, TreeNode};
use crate::types::{
    opt_view, tab_after, tab_before, toast_expired, AppStatus, ContentTab, InteractionAction, LogEntry,
    LogViewState, Mode, Toast, ToastLevel, WsState,
};

verus! {

#[verifier::external_type_specification]
#[verifier::external_body]
pub struct ExThrobberState(ThrobberState);

/// The frame index a busy spinner state holds (`ThrobberState::index`).
pub uninterp spec fn throbber_index(state: ThrobberState) -> i8;

/// The index after one step: one more, or 0 once it reached `i8::MAX`.
pub open spec fn next_throbber_index(i: i8) -> i8 {
    if i == i8::MAX { 0 } else { (i + 1) as i8 }
}

/// `ThrobberState::default()`: index 0.
#[verifier::external_body]
fn new_throbber() -> (r: ThrobberState)
    ensures
        throbber_index(r) == 0,
{
    ThrobberState::default()
}

/// `ThrobberState::calc_next`: advances the busy spinner by one frame, its
/// index by one (`checked_add(1)`, back to 0 on overflow).
#[verifier::external_body]
fn throbber_step(state: &mut ThrobberState)
    ensures
        throbber_index(*final(state)) == next_throbber_index(throbber_index(*old(state))),
{
    state.calc_next()
}

fn copy_toast(t: &Toast) -> (r: Toast)
    ensures
        r == *t,
{
    Toast { message: t.message.clone(), level: t.level, created_at: t.created_at }
}

/// The state of the monitor.
pub struct App {
    pub ws_state: WsState,
    pub server_uri: String,
    pub project: ProjectInfo,
    pub sessions: Vec<Session>,
    pub selected_session: Option<String>,
    pub session_picker_index: usize,
    pub app_status: AppStatus,
    /// State of the selected session.
    pub session: SessionState,
    /// States of the other sessions, by session id; no id occurs twice.
    pub session_states: Vec<(String, SessionState)>,
    pub max_events: usize,
    pub mode: Mode,
    pub input_buffer: String,
    pub filter: Option<String>,
    pub content_tab: ContentTab,
    pub scroll_offset: usize,
    /// Cursor, viewport and selection of the log viewer.
    pub log_view: LogViewState,
    /// Height of the log viewport when last drawn.
    pub log_viewport_height: usize,
    pub needs_tree_fetch: bool,
    pub pending_session_connect: Option<String>,
    pub throbber_state: ThrobberState,
    /// Items of the action menu: label and action.
    pub action_menu_items: Vec<(String, InteractionAction)>,
    pub action_menu_index: usize,
    /// The tree node the action menu is for.
    pub action_menu_node_id: Option<String>,
    pub toasts: VecDeque<Toast>,
    pub toast_ttl_secs: u64,
    pub should_quit: bool,
}

/// Position of the first stored state of session `id`, or -1.
pub open spec fn key_index(v: Seq<(String, SessionState)>, id: Seq<char>) -> int
    decreases v.len(),
{
    if v.len() == 0 {
        -1
    } else if key_index(v.drop_last(), id) >= 0 {
        key_index(v.drop_last(), id)
    } else if v.last().0@ == id {
        v.len() - 1
    } else {
        -1
    }
}

/// The toasts of `q` that have not outlived `ttl` seconds at time `now`.
pub open spec fn unexpired(q: Seq<Toast>, now: u64, ttl: u64) -> Seq<Toast> {
    q.filter(|t: Toast| !toast_expired(t.created_at, now, ttl))
}

/// No session id is stored twice.
pub open spec fn keys_distinct(v: Seq<(String, SessionState)>) -> bool {
    forall|i: int, j: int| 0 <= i < j < v.len() ==> v[i].0@ != v[j].0@
}

/// At most this many toasts are kept.
pub open spec fn toast_limit() -> nat {
    5
}

/// The toasts after `t` is added to `q`: the newest five.
pub open spec fn toasts_after_push(q: Seq<Toast>, t: Toast) -> Seq<Toast> {
    let s = q.push(t);
    if s.len() > toast_limit() {
        s.subrange(s.len() - toast_limit(), s.len() as int)
    } else {
        s
    }
}

/// A log of at most `max` entries after `e` is added: the oldest entry is
/// dropped when the log is full.
pub open spec fn log_after_push<T>(q: Seq<T>, e: T, max: nat) -> Seq<T> {
    if q.len() >= max && q.len() > 0 {
        q.drop_first().push(e)
    } else {
        q.push(e)
    }
}

/// Session states `a` and `b` agree on everything but the parts flagged:
/// the Flutter log, the agent events, the interaction log, and the chat
/// messages with the chat scroll position.
pub open spec fn session_frame(a: SessionState, b: SessionState, flutter: bool, agent: bool, interaction: bool, chat: bool) -> bool {
    &&& !flutter ==> b.flutter_logs == a.flutter_logs
    &&& !agent ==> b.agent_events == a.agent_events
    &&& !interaction ==> b.interaction_logs == a.interaction_logs
    &&& !chat ==> b.chat_messages == a.chat_messages && b.chat_scroll == a.chat_scroll
    &&& b.chat_streaming == a.chat_streaming
    &&& b.chat_input == a.chat_input
    &&& b.chat_cursor == a.chat_cursor
    &&& b.tree == a.tree
    &&& b.tree_state == a.tree_state
    &&& b.conversation_id == a.conversation_id
    &&& b.agent_question == a.agent_question
    &&& b.pending_response == a.pending_response
    &&& b.pending_intent == a.pending_intent
    &&& b.last_agent_error == a.last_agent_error
    &&& b.max_events == a.max_events
}

/// The entry just added is the last of the log.
pub proof fn lemma_log_after_push_last<T>(q: Seq<T>, e: T, max: nat)
    ensures
        log_after_push(q, e, max).len() > 0,
        log_after_push(q, e, max).last() == e,
{
}

/// A log that was within its limit stays within it.
pub proof fn lemma_log_after_push_bounded<T>(q: Seq<T>, e: T, max: nat)
    requires
        q.len() <= max,
        max > 0,
    ensures
        log_after_push(q, e, max).len() <= max,
        log_after_push(q, e, max).len() == (if q.len() == max { max } else { q.len() + 1 }),
{
}

/// What `AppStatus` a session's status name stands for.
pub open spec fn status_of_session(s: Session, st: AppStatus) -> bool {
    if s.app_status@ == "starting"@ {
        st == AppStatus::Starting
    } else if s.app_status@ == "running"@ {
        st matches AppStatus::Running { pid, uri } && pid == (match s.pid {
            Some(p) => p,
            None => 0,
        }) && uri@ == (match s.vm_service_uri {
            Some(u) => u@,
            None => seq![],
        })
    } else if s.app_status@ == "stopped"@ || s.app_status@ == "not_running"@ {
        st == AppStatus::Stopped
    } else if s.app_status@ == "error"@ {
        st matches AppStatus::Error(e) && e@ == "Unknown error"@
    } else {
        st == AppStatus::Unknown
    }
}

/// `b` is `a` with the session states, selection and current session left
/// alone: only the non-session parts may differ.
pub open spec fn same_sessions(a: App, b: App) -> bool {
    &&& b.sessions == a.sessions
    &&& b.selected_session == a.selected_session
    &&& b.session_picker_index == a.session_picker_index
    &&& b.session_states == a.session_states
    &&& b.max_events == a.max_events
}

/// `b` is `a` with the view settings left alone.
pub open spec fn same_view(a: App, b: App) -> bool {
    &&& b.mode == a.mode
    &&& b.input_buffer == a.input_buffer
    &&& b.filter == a.filter
    &&& b.content_tab == a.content_tab
    &&& b.scroll_offset == a.scroll_offset
    &&& b.log_view == a.log_view
    &&& b.log_viewport_height == a.log_viewport_height
    &&& b.action_menu_items == a.action_menu_items
    &&& b.action_menu_index == a.action_menu_index
    &&& b.action_menu_node_id == a.action_menu_node_id
    &&& b.should_quit == a.should_quit
    &&& b.toast_ttl_secs == a.toast_ttl_secs
}

/// `b` is `a` with the connection, project and session list left alone.
pub open spec fn same_shell(a: App, b: App) -> bool {
    &&& b.ws_state == a.ws_state
    &&& b.server_uri == a.server_uri
    &&& b.project == a.project
}

/// `b` is `a` after [`App::chat_scroll_up`].
pub open spec fn chat_scroll_up_done(a: App, b: App) -> bool {
    &&& b.session.chat_scroll == (if a.session.chat_scroll < usize::MAX {
            a.session.chat_scroll + 1
        } else {
            usize::MAX as int
        })
    &&& b == (App { session: SessionState { chat_scroll: b.session.chat_scroll, ..a.session }, ..a })
}

/// `b` is `a` after [`App::chat_scroll_down`].
pub open spec fn chat_scroll_down_done(a: App, b: App) -> bool {
    &&& b.session.chat_scroll == (if a.session.chat_scroll > 0 {
            a.session.chat_scroll - 1
        } else {
            0
        })
    &&& b == (App { session: SessionState { chat_scroll: b.session.chat_scroll, ..a.session }, ..a })
}

/// `b` is `a` after [`App::chat_scroll_to_top`].
pub open spec fn chat_scroll_to_top_done(a: App, b: App) -> bool {
    &&& b.session.chat_scroll == usize::MAX
    &&& b == (App { session: SessionState { chat_scroll: b.session.chat_scroll, ..a.session }, ..a })
}

/// `b` is `a` after [`App::chat_scroll_to_bottom`].
pub open spec fn chat_scroll_to_bottom_done(a: App, b: App) -> bool {
    &&& b.session.chat_scroll == 0
    &&& b == (App { session: SessionState { chat_scroll: b.session.chat_scroll, ..a.session }, ..a })
}

/// `b` is `a` after [`App::clear_events`].
pub open spec fn clear_events_done(a: App, b: App) -> bool {
    &&& is_blank_session(b.session)
    &&& b.session.max_events == a.session.max_events
    &&& b.scroll_offset == 0
    &&& same_sessions(a, b)
    &&& b.mode == a.mode
    &&& b.content_tab == a.content_tab
    &&& b.toasts == a.toasts
    &&& a.wf() ==> b.wf()
}

/// `b` is `a` after [`App::next_tab`].
pub open spec fn next_tab_done(a: App, b: App) -> bool {
    &&& b.content_tab == tab_after(a.content_tab)
    &&& b.scroll_offset == 0
    &&& b.session == a.session
    &&& same_sessions(a, b)
    &&& b.mode == a.mode
    &&& b.log_view == a.log_view
}

/// `b` is `a` after [`App::prev_tab`].
pub open spec fn prev_tab_done(a: App, b: App) -> bool {
    &&& b.content_tab == tab_before(a.content_tab)
    &&& b.scroll_offset == 0
    &&& b.session == a.session
    &&& same_sessions(a, b)
    &&& b.mode == a.mode
    &&& b.log_view == a.log_view
}

impl App {
    /// The invariant of the monitor's state: stored session states have
    /// distinct ids, none of them the selected session, and every session
    /// state keeps the monitor's limit of log entries.
    pub open spec fn wf(self) -> bool {
        &&& keys_distinct(self.session_states@)
        &&& (self.selected_session matches Some(id) ==> key_index(self.session_states@, id@) == -1)
        &&& self.session.max_events == self.max_events
        &&& forall|i: int| 0 <= i < self.session_states@.len() ==> (#[trigger] self.session_states@[i]).1.max_events
            == self.max_events
    }

    /// A monitor for the daemon at `uri`, keeping at most `max_events`
    /// entries per log, before it has connected.
    pub fn new(uri: String, max_events: usize, project: ProjectInfo) -> (r: App)
        ensures
            r.wf(),
            r.ws_state == WsState::Disconnected,
            r.server_uri == uri,
            r.project == project,
            r.sessions@.len() == 0,
            r.selected_session is None,
            r.session_picker_index == 0,
            r.app_status == AppStatus::Unknown,
            is_blank_session(r.session),
            r.session_states@.len() == 0,
            r.max_events == max_events,
            r.mode == Mode::SessionPicker,
            r.input_buffer@.len() == 0,
            r.filter is None,
            r.content_tab == ContentTab::Flutter,
            r.scroll_offset == 0,
            r.log_view == (LogViewState { cursor: 0, scroll: 0, mode: crate::types::LogViewMode::Normal, anchor: 0 }),
            r.log_viewport_height == 0,
            !r.needs_tree_fetch,
            r.pending_session_connect is None,
            r.action_menu_items@.len() == 0,
            r.action_menu_index == 0,
            r.action_menu_node_id is None,
            r.toasts@.len() == 0,
            r.toast_ttl_secs == 5,
            !r.should_quit,
    {
        App {
            ws_state: WsState::Disconnected,
            server_uri: uri,
            project,
            sessions: Vec::new(),
            selected_session: None,
            session_picker_index: 0,
            app_status: AppStatus::Unknown,
            session: SessionState::new(max_events),
            session_states: Vec::new(),
            max_events,
            mode: Mode::SessionPicker,
            input_buffer: String::new(),
            filter: None,
            content_tab: ContentTab::default(),
            scroll_offset: 0,
            log_view: LogViewState::new(),
            log_viewport_height: 0,
            needs_tree_fetch: false,
            pending_session_connect: None,
            throbber_state: new_throbber(),
            action_menu_items: Vec::new(),
            action_menu_index: 0,
            action_menu_node_id: None,
            toasts: VecDeque::new(),
            toast_ttl_secs: 5,
            should_quit: false,
        }
    }

    /// Shows a toast; only the newest five are kept.
    pub fn push_toast(&mut self, toast: Toast)
        ensures
            final(self).toasts@ == toasts_after_push(old(self).toasts@, toast),
            final(self).toasts@.len() <= toast_limit(),
            *final(self) == (App { toasts: final(self).toasts, ..*old(self) }),
            same_sessions(*old(self), *final(self)),
            same_view(*old(self), *final(self)),
            same_shell(*old(self), *final(self)),
            final(self).session == old(self).session,
            final(self).app_status == old(self).app_status,
            final(self).needs_tree_fetch == old(self).needs_tree_fetch,
    {
        let mut q: VecDeque<Toast> = VecDeque::new();
        std::mem::swap(&mut q, &mut self.toasts);
        let ghost q0 = q@;
        q.push_back(toast);
        let ghost s = q0.push(toast);
        let ghost mut dropped: int = 0;
        while q.len() > 5
            invariant
                0 <= dropped <= s.len(),
                q@ == s.subrange(dropped, s.len() as int),
                s.len() > 5 ==> dropped <= s.len() - 5,
                s.len() <= 5 ==> dropped == 0,
            decreases q@.len(),
        {
            q.pop_front();
            proof { dropped = dropped + 1; }
        }
        assert(s.len() <= 5 ==> q@ =~= s);
        self.toasts = q;
    }

    /// Drops the toasts that have outlived the toast lifetime at time `now`.
    pub fn expire_toasts_at(&mut self, now: u64)
        ensures
            final(self).toasts@ == unexpired(old(self).toasts@, now, old(self).toast_ttl_secs),
            same_sessions(*old(self), *final(self)),
            same_view(*old(self), *final(self)),
            same_shell(*old(self), *final(self)),
            final(self).session == old(self).session,
            final(self).app_status == old(self).app_status,
    {
        let ghost q = self.toasts@;
        let ttl = self.toast_ttl_secs;
        let mut kept: VecDeque<Toast> = VecDeque::new();
        let n = self.toasts.len();
        let mut i: usize = 0;
        while i < n
            invariant
                n == q.len(),
                self.toasts@ == q,
                ttl == self.toast_ttl_secs,
                i <= n,
                kept@ == unexpired(q.subrange(0, i as int), now, ttl),
            decreases n - i,
        {
            let t = copy_toast(&self.toasts[i]);
            proof {
                reveal(Seq::filter);
                assert(q.subrange(0, i + 1).drop_last() =~= q.subrange(0, i as int));
            }
            let ghost before = kept@;
            if !t.is_expired_at(now, ttl) {
                kept.push_back(t);
            }
            proof {
                reveal(Seq::filter);
                let s1 = q.subrange(0, i + 1);
                assert(s1.drop_last() =~= q.subrange(0, i as int));
                assert(s1.last() == t);
                assert(s1.len() > 0);
                assert(unexpired(s1, now, ttl) == (if !toast_expired(t.created_at, now, ttl) {
                    unexpired(s1.drop_last(), now, ttl).push(t)
                } else {
                    unexpired(s1.drop_last(), now, ttl)
                }));
                assert(kept@ == unexpired(s1, now, ttl));
            }
            i = i + 1;
        }
        assert(q.subrange(0, n as int) =~= q);
        self.toasts = kept;
    }

    /// Drops the toasts that have outlived the toast lifetime now.
    pub fn expire_toasts(&mut self)
        ensures
            exists|now: u64| final(self).toasts@ == #[trigger] unexpired(old(self).toasts@, now, old(self).toast_ttl_secs),
            same_sessions(*old(self), *final(self)),
            same_view(*old(self), *final(self)),
            final(self).session == old(self).session,
    {
        let now = crate::types::clock_secs();
        self.expire_toasts_at(now);
    }

    /// Whether the selected session's app is running or starting.
    pub fn is_app_running(&self) -> (r: bool)
        ensures
            r == (self.app_status is Running || self.app_status is Starting),
    {
        match self.app_status {
            AppStatus::Running { .. } | AppStatus::Starting => true,
            _ => false,
        }
    }

    /// Whether a session is selected.
    pub fn has_session(&self) -> (r: bool)
        ensures
            r == (self.selected_session is Some),
    {
        self.selected_session.is_some()
    }

    /// Whether the agent is waiting for an answer to its question.
    pub fn in_answer_mode(&self) -> (r: bool)
        ensures
            r == (self.session.conversation_id is Some),
    {
        self.session.conversation_id.is_some()
    }

    /// Leaves the agent's question unanswered.
    pub fn cancel_answer_mode(&mut self)
        ensures
            final(self).session.conversation_id is None,
            final(self).session.agent_question is None,
            final(self).session.chat_messages == old(self).session.chat_messages,
            final(self).session.pending_response == old(self).session.pending_response,
            same_sessions(*old(self), *final(self)),
            same_view(*old(self), *final(self)),
    {
        self.session.conversation_id = None;
        self.session.agent_question = None;
    }

    /// The selected session, looked up in the session list.
    pub fn current_session(&self) -> (r: Option<&Session>)
        ensures
            match self.selected_session {
                None => r is None,
                Some(id) => match r {
                    Some(s) => exists|i: int| 0 <= i < self.sessions@.len() && self.sessions@[i] == *s
                        && s.id@ == id@ && forall|j: int| 0 <= j < i ==> (#[trigger] self.sessions@[j]).id@ != id@,
                    None => forall|j: int| 0 <= j < self.sessions@.len() ==> (#[trigger] self.sessions@[j]).id@ != id@,
                },
            },
    {
        match &self.selected_session {
            None => None,
            Some(id) => {
                let mut i: usize = 0;
                while i < self.sessions.len()
                    invariant
                        self.selected_session == Some(*id),
                        i <= self.sessions@.len(),
                        forall|j: int| 0 <= j < i ==> (#[trigger] self.sessions@[j]).id@ != id@,
                    decreases self.sessions@.len() - i,
                {
                    if self.sessions[i].id == *id {
                        return Some(&self.sessions[i]);
                    }
                    i = i + 1;
                }
                None
            },
        }
    }

    /// Adds an interaction log line, dropping the oldest when the log is
    /// full.
    pub fn push_interaction_log(&mut self, entry: LogEntry)
        ensures
            final(self).session.interaction_logs@ == log_after_push(
                old(self).session.interaction_logs@,
                entry,
                old(self).max_events as nat,
            ),
            session_frame(old(self).session, final(self).session, false, false, true, false),
            final(self).session.flutter_logs == old(self).session.flutter_logs,
            final(self).session.agent_events == old(self).session.agent_events,
            final(self).session.chat_messages == old(self).session.chat_messages,
            final(self).session.tree == old(self).session.tree,
            final(self).session.tree_state == old(self).session.tree_state,
            final(self).session.max_events == old(self).session.max_events,
            same_sessions(*old(self), *final(self)),
            same_view(*old(self), *final(self)),
            same_shell(*old(self), *final(self)),
            final(self).toasts == old(self).toasts,
            final(self).app_status == old(self).app_status,
            final(self).needs_tree_fetch == old(self).needs_tree_fetch,
    {
        if self.session.interaction_logs.len() >= self.max_events {
            self.session.interaction_logs.pop_front();
        }
        self.session.interaction_logs.push_back(entry);
        proof {
            let q = old(self).session.interaction_logs@;
            if q.len() >= self.max_events && q.len() > 0 {
                assert(q.drop_first() =~= q.subrange(1, q.len() as int));
            }
        }
    }

    /// Adds a line of Flutter output, dropping the oldest when the log is
    /// full.
    pub fn push_flutter_log(&mut self, entry: FlutterLogEntry)
        ensures
            final(self).session.flutter_logs@ == log_after_push(
                old(self).session.flutter_logs@,
                entry,
                old(self).max_events as nat,
            ),
            session_frame(old(self).session, final(self).session, true, false, false, false),
            final(self).session.interaction_logs == old(self).session.interaction_logs,
            final(self).session.agent_events == old(self).session.agent_events,
            final(self).session.chat_messages == old(self).session.chat_messages,
            final(self).session.tree == old(self).session.tree,
            final(self).session.tree_state == old(self).session.tree_state,
            final(self).session.max_events == old(self).session.max_events,
            same_sessions(*old(self), *final(self)),
            same_view(*old(self), *final(self)),
            same_shell(*old(self), *final(self)),
            final(self).toasts == old(self).toasts,
            final(self).app_status == old(self).app_status,
            final(self).needs_tree_fetch == old(self).needs_tree_fetch,
    {
        if self.session.flutter_logs.len() >= self.max_events {
            self.session.flutter_logs.pop_front();
        }
        self.session.flutter_logs.push_back(entry);
        proof {
            let q = old(self).session.flutter_logs@;
            if q.len() >= self.max_events && q.len() > 0 {
                assert(q.drop_first() =~= q.subrange(1, q.len() as int));
            }
        }
    }

    /// Adds an agent event, dropping the oldest when the log is full.
    pub fn push_agent_event(&mut self, event: MonitoringEvent)
        ensures
            final(self).session.agent_events@ == log_after_push(
                old(self).session.agent_events@,
                event,
                old(self).max_events as nat,
            ),
            session_frame(old(self).session, final(self).session, false, true, false, false),
            final(self).session.interaction_logs == old(self).session.interaction_logs,
            final(self).session.flutter_logs == old(self).session.flutter_logs,
            final(self).session.chat_messages == old(self).session.chat_messages,
            final(self).session.tree == old(self).session.tree,
            final(self).session.tree_state == old(self).session.tree_state,
            final(self).session.pending_response == old(self).session.pending_response,
            final(self).session.conversation_id == old(self).session.conversation_id,
            final(self).session.agent_question == old(self).session.agent_question,
            final(self).session.last_agent_error == old(self).session.last_agent_error,
            final(self).session.max_events == old(self).session.max_events,
            same_sessions(*old(self), *final(self)),
            same_view(*old(self), *final(self)),
            same_shell(*old(self), *final(self)),
            final(self).toasts == old(self).toasts,
            final(self).app_status == old(self).app_status,
            final(self).needs_tree_fetch == old(self).needs_tree_fetch,
    {
        if self.session.agent_events.len() >= self.max_events {
            self.session.agent_events.pop_front();
        }
        self.session.agent_events.push_back(event);
        proof {
            let q = old(self).session.agent_events@;
            if q.len() >= self.max_events && q.len() > 0 {
                assert(q.drop_first() =~= q.subrange(1, q.len() as int));
            }
        }
    }

    /// Scrolls the chat one line back.
    pub fn chat_scroll_up(&mut self)
        ensures
            chat_scroll_up_done(*old(self), *final(self)),
    {
        self.session.chat_scroll = self.session.chat_scroll.saturating_add(1);
    }

    /// Scrolls the chat one line forward.
    pub fn chat_scroll_down(&mut self)
        ensures
            chat_scroll_down_done(*old(self), *final(self)),
    {
        self.session.chat_scroll = self.session.chat_scroll.saturating_sub(1);
    }

    /// Scrolls to the start of the chat.
    pub fn chat_scroll_to_top(&mut self)
        ensures
            chat_scroll_to_top_done(*old(self), *final(self)),
    {
        self.session.chat_scroll = usize::MAX;
    }

    /// Follows the end of the chat again.
    pub fn chat_scroll_to_bottom(&mut self)
        ensures
            chat_scroll_to_bottom_done(*old(self), *final(self)),
    {
        self.session.chat_scroll = 0;
    }

    /// Shows the next tab.
    pub fn next_tab(&mut self)
        ensures
            next_tab_done(*old(self), *final(self)),
    {
        self.content_tab = self.content_tab.next();
        self.scroll_offset = 0;
    }

    /// Shows the previous tab.
    pub fn prev_tab(&mut self)
        ensures
            prev_tab_done(*old(self), *final(self)),
    {
        self.content_tab = self.content_tab.prev();
        self.scroll_offset = 0;
    }

    /// Advances the busy spinner.
    pub fn tick(&mut self)
        ensures
            final(self).session == old(self).session,
            same_sessions(*old(self), *final(self)),
            same_view(*old(self), *final(self)),
            *final(self) == (App { throbber_state: final(self).throbber_state, ..*old(self) }),
            throbber_index(final(self).throbber_state) == next_throbber_index(throbber_index(old(self).throbber_state)),
    {
        throbber_step(&mut self.throbber_state);
    }

    /// Forgets the selected session's logs, chat and tree.
    pub fn clear_events(&mut self)
        ensures
            clear_events_done(*old(self), *final(self)),
            *final(self) == (App { session: final(self).session, scroll_offset: 0, ..*old(self) }),
    {
        self.session.clear();
        self.scroll_offset = 0;
    }

    /// Moves the session picker up one line.
    pub fn session_picker_up(&mut self)
        ensures
            final(self).session_picker_index == (if old(self).session_picker_index > 0 {
                old(self).session_picker_index - 1
            } else {
                0
            }),
            final(self).session == old(self).session,
            final(self).sessions == old(self).sessions,
            final(self).selected_session == old(self).selected_session,
            final(self).session_states == old(self).session_states,
            *final(self) == (App { session_picker_index: final(self).session_picker_index, ..*old(self) }),
            same_view(*old(self), *final(self)),
    {
        if self.session_picker_index > 0 {
            self.session_picker_index = self.session_picker_index - 1;
        }
    }

    /// Moves the session picker down one line, stopping at the last session.
    pub fn session_picker_down(&mut self)
        ensures
            final(self).session_picker_index == (if old(self).session_picker_index + 1 < old(self).sessions@.len() {
                old(self).session_picker_index + 1
            } else {
                old(self).session_picker_index as int
            }),
            final(self).session == old(self).session,
            final(self).sessions == old(self).sessions,
            final(self).selected_session == old(self).selected_session,
            final(self).session_states == old(self).session_states,
            *final(self) == (App { session_picker_index: final(self).session_picker_index, ..*old(self) }),
            same_view(*old(self), *final(self)),
    {
        let last = if self.sessions.len() > 0 { self.sessions.len() - 1 } else { 0 };
        if self.session_picker_index < last {
            self.session_picker_index = self.session_picker_index + 1;
        }
    }

    /// Sets the app status from a session record.
    pub fn update_status_from_session(&mut self, session: &Session)
        ensures
            status_of_session(*session, final(self).app_status),
            final(self).session == old(self).session,
            same_sessions(*old(self), *final(self)),
            same_view(*old(self), *final(self)),
            same_shell(*old(self), *final(self)),
            final(self).toasts == old(self).toasts,
            final(self).needs_tree_fetch == old(self).needs_tree_fetch,
    {
        self.app_status = status_from_session(session);
    }
}

/// The app status a session record gives.
pub fn status_from_session(session: &Session) -> (r: AppStatus)
    ensures
        status_of_session(*session, r),
{
    let status = session.app_status.as_str();
    if str_eq(status, "starting") {
        AppStatus::Starting
    } else if str_eq(status, "running") {
        let pid = match session.pid {
            Some(p) => p,
            None => 0,
        };
        let uri = match &session.vm_service_uri {
            Some(u) => u.clone(),
            None => String::new(),
        };
        AppStatus::Running { pid, uri }
    } else if str_eq(status, "stopped") || str_eq(status, "not_running") {
        AppStatus::Stopped
    } else if str_eq(status, "error") {
        AppStatus::Error(String::from_str("Unknown error"))
    } else {
        AppStatus::Unknown
    }
}

/// Whether two texts are equal.
pub(crate) fn str_eq(a: &str, b: &str) -> (r: bool)
    ensures
        r == (a@ == b@),
{
    let x = String::from_str(a);
    let y = String::from_str(b);
    x == y
}

/// What the first position of an id among stored states tells.
pub proof fn lemma_key_index(v: Seq<(String, SessionState)>, id: Seq<char>)
    ensures
        -1 <= key_index(v, id) < v.len(),
        key_index(v, id) >= 0 ==> v[key_index(v, id)].0@ == id,
        key_index(v, id) >= 0 ==> forall|j: int| 0 <= j < key_index(v, id) ==> (#[trigger] v[j]).0@ != id,
        key_index(v, id) == -1 ==> forall|j: int| 0 <= j < v.len() ==> (#[trigger] v[j]).0@ != id,
    decreases v.len(),
{
    if v.len() > 0 {
        lemma_key_index(v.drop_last(), id);
        assert forall|j: int| 0 <= j < v.len() - 1 implies v.drop_last()[j] == #[trigger] v[j] by {}
    }
}

/// With distinct ids, the stored state of `id` is the one at `k`.
pub proof fn lemma_key_index_at(v: Seq<(String, SessionState)>, id: Seq<char>, k: int)
    requires
        keys_distinct(v),
        0 <= k < v.len(),
        v[k].0@ == id,
    ensures
        key_index(v, id) == k,
{
    lemma_key_index(v, id);
    if key_index(v, id) == -1 {
        assert(v[k].0@ != id);
    } else if key_index(v, id) != k {
        let i = key_index(v, id);
        if i < k {
            assert(v[i].0@ != v[k].0@);
        } else {
            assert(v[k].0@ != id);
        }
    }
}

/// The stored states after the selected session's state is put away.
pub open spec fn states_saved(a: App) -> Seq<(String, SessionState)> {
    match a.selected_session {
        Some(id) => a.session_states@.push((id, a.session)),
        None => a.session_states@,
    }
}

/// `b` is `a` after switching to session `id`: the selected session's
/// state is stored, the state stored for `id` (or a fresh one) becomes
/// the current one, `id` is selected and the tree is fetched anew.
pub open spec fn switched(a: App, id: String, b: App) -> bool {
    &&& switched_sessions(a, id, b)
    &&& b.sessions == a.sessions
    &&& b.session_picker_index == a.session_picker_index
    &&& b.max_events == a.max_events
    &&& b.app_status == a.app_status
    &&& b.toasts == a.toasts
    &&& same_view(a, b)
    &&& same_shell(a, b)
}

/// The session part of [`switched`]: `b` holds the states `a` holds after
/// switching to session `id`.
pub open spec fn switched_sessions(a: App, id: String, b: App) -> bool {
    &&& switch_result(a, id@, b.session, b.session_states@)
    &&& b.selected_session == Some(id)
    &&& b.needs_tree_fetch
}

/// Switching `a` to session `id` leaves `s` current and `states` stored.
pub open spec fn switch_result(a: App, id: Seq<char>, s: SessionState, states: Seq<(String, SessionState)>) -> bool {
    let v1 = states_saved(a);
    let i = key_index(v1, id);
    &&& (i >= 0 ==> s == v1[i].1 && states == v1.remove(i))
    &&& (i < 0 ==> is_blank_session(s) && s.max_events == a.max_events && states == v1)
}

fn find_state(v: &Vec<(String, SessionState)>, id: &String) -> (r: Option<usize>)
    ensures
        match r {
            Some(i) => i as int == key_index(v@, id@),
            None => key_index(v@, id@) == -1,
        },
{
    proof { lemma_key_index(v@, id@); }
    let mut i: usize = 0;
    while i < v.len()
        invariant
            i <= v@.len(),
            forall|j: int| 0 <= j < i ==> (#[trigger] v@[j]).0@ != id@,
            -1 <= key_index(v@, id@) < v@.len(),
            key_index(v@, id@) >= 0 ==> v@[key_index(v@, id@)].0@ == id@,
            key_index(v@, id@) >= 0 ==> forall|j: int| 0 <= j < key_index(v@, id@) ==> (#[trigger] v@[j]).0@ != id@,
            key_index(v@, id@) == -1 ==> forall|j: int| 0 <= j < v@.len() ==> (#[trigger] v@[j]).0@ != id@,
        decreases v@.len() - i,
    {
        if v[i].0 == *id {
            return Some(i);
        }
        i = i + 1;
    }
    None
}

/// Switching away from session `a` to another session and back restores
/// the state session `a` had, and the other session keeps the state it
/// had meanwhile.
pub proof fn lemma_switch_round_trip(a0: App, a1: App, a2: App, first: String, second: String)
    requires
        a0.wf(),
        a0.selected_session == Some(first),
        first@ != second@,
        switched(a0, second, a1),
        switched(a1, first, a2),
    ensures
        a2.session == a0.session,
        a2.selected_session == a0.selected_session,
        key_index(a2.session_states@, second@) >= 0,
        a2.session_states@[key_index(a2.session_states@, second@)].1 == a1.session,
{
    let v0 = a0.session_states@;
    let n0: int = v0.len() as int;
    let v1 = states_saved(a0);
    assert(v1 == v0.push((first, a0.session)));
    lemma_key_index(v0, first@);
    assert(keys_distinct(v1)) by {
        assert forall|i: int, j: int| 0 <= i < j < v1.len() implies v1[i].0@ != v1[j].0@ by {
            if j == n0 {
                assert(v0[i].0@ != first@);
            }
        }
    }
    let i1 = key_index(v1, second@);
    lemma_key_index(v1, second@);
    assert(v1[n0].0@ == first@);
    assert(i1 != n0);
    let w = a1.session_states@;
    let k: int = if i1 >= 0 { n0 - 1 } else { n0 };
    assert(w[k] == v1[n0]) by {
        if i1 >= 0 {
            assert(w == v1.remove(i1));
        }
    }
    assert(keys_distinct(w)) by {
        assert forall|i: int, j: int| 0 <= i < j < w.len() implies w[i].0@ != w[j].0@ by {
            if i1 >= 0 {
                let ii = if i < i1 { i } else { i + 1 };
                let jj = if j < i1 { j } else { j + 1 };
                assert(w[i] == v1[ii]);
                assert(w[j] == v1[jj]);
            }
        }
    }
    assert forall|j: int| 0 <= j < w.len() implies (#[trigger] w[j]).0@ != second@ by {
        if i1 >= 0 {
            let jj = if j < i1 { j } else { j + 1 };
            assert(w[j] == v1[jj]);
            if jj != i1 && v1[jj].0@ == second@ {
                if jj < i1 {
                } else {
                    assert(v1[i1].0@ != v1[jj].0@);
                }
            }
        }
    }
    let v2 = states_saved(a1);
    assert(v2 == w.push((second, a1.session)));
    assert(keys_distinct(v2)) by {
        assert forall|i: int, j: int| 0 <= i < j < v2.len() implies v2[i].0@ != v2[j].0@ by {
            if j == w.len() {
                assert(w[i].0@ != second@);
            }
        }
    }
    assert(v2[k] == v1[n0]);
    lemma_key_index_at(v2, first@, k);
    assert(a2.session == v2[k].1);
    let v3 = a2.session_states@;
    assert(v3 == v2.remove(k));
    assert(v3[v3.len() - 1] == v2[w.len() as int]);
    lemma_key_index(v3, second@);
    assert(keys_distinct(v3)) by {
        assert forall|i: int, j: int| 0 <= i < j < v3.len() implies v3[i].0@ != v3[j].0@ by {
            let ii = if i < k { i } else { i + 1 };
            let jj = if j < k { j } else { j + 1 };
            assert(v3[i] == v2[ii]);
            assert(v3[j] == v2[jj]);
        }
    }
    lemma_key_index_at(v3, second@, v3.len() - 1);
}

impl App {
    /// Switches to session `new_session_id`: stores the state of the
    /// selected session and takes up the state stored for the new one (a
    /// fresh state if there is none). The tree is fetched anew.
    pub fn switch_to_session(&mut self, new_session_id: String)
        requires
            old(self).wf(),
        ensures
            switched(*old(self), new_session_id, *final(self)),
            final(self).wf(),
    {
        let ghost a = *self;
        let old_selection = self.selected_session.take();
        match old_selection {
            Some(old_id) => {
                let mut saved = SessionState::new(self.max_events);
                std::mem::swap(&mut saved, &mut self.session);
                self.session_states.push((old_id, saved));
            },
            None => {},
        }
        let ghost v1 = self.session_states@;
        assert(v1 == states_saved(a));
        proof {
            lemma_key_index(a.session_states@, new_session_id@);
            match a.selected_session {
                Some(id) => {
                    lemma_key_index(a.session_states@, id@);
                    assert(keys_distinct(v1)) by {
                        assert forall|i: int, j: int| 0 <= i < j < v1.len() implies v1[i].0@ != v1[j].0@ by {
                            if j == a.session_states@.len() {
                                assert(a.session_states@[i].0@ != id@);
                            }
                        }
                    }
                },
                None => {},
            }
            lemma_key_index(v1, new_session_id@);
        }
        match find_state(&self.session_states, &new_session_id) {
            Some(i) => {
                let (_, state) = self.session_states.remove(i);
                self.session = state;
                proof {
                    let w = self.session_states@;
                    assert(keys_distinct(w)) by {
                        assert forall|x: int, y: int| 0 <= x < y < w.len() implies w[x].0@ != w[y].0@ by {
                            let xx = if x < i { x } else { x + 1 };
                            let yy = if y < i { y } else { y + 1 };
                            assert(w[x] == v1[xx]);
                            assert(w[y] == v1[yy]);
                        }
                    }
                    assert forall|j: int| 0 <= j < w.len() implies (#[trigger] w[j]).0@ != new_session_id@ by {
                        let jj = if j < i { j } else { j + 1 };
                        assert(w[j] == v1[jj]);
                        if jj > i {
                            assert(v1[i as int].0@ != v1[jj].0@);
                        }
                    }
                    lemma_key_index(w, new_session_id@);
                    assert forall|j: int| 0 <= j < w.len() implies (#[trigger] w[j]).1.max_events == a.max_events by {
                        let jj = if j < i { j } else { j + 1 };
                        assert(w[j] == v1[jj]);
                    }
                }
            },
            None => {
                self.session = SessionState::new(self.max_events);
            },
        }
        self.selected_session = Some(new_session_id);
        self.needs_tree_fetch = true;
    }

    /// Replaces the session list; with no session selected yet, selects the
    /// first one and takes up its app status.
    pub fn set_sessions(&mut self, sessions: Vec<Session>)
        requires
            old(self).wf(),
        ensures
            final(self).wf(),
            final(self).sessions == sessions,
            old(self).selected_session is Some || sessions@.len() == 0 ==> {
                &&& final(self).session == old(self).session
                &&& final(self).selected_session == old(self).selected_session
                &&& final(self).session_states == old(self).session_states
                &&& final(self).app_status == old(self).app_status
            },
            old(self).selected_session is None && sessions@.len() > 0 ==> {
                &&& final(self).selected_session matches Some(id) && id == sessions@[0].id
                &&& status_of_session(sessions@[0], final(self).app_status)
                &&& final(self).needs_tree_fetch
                &&& switched_sessions(*old(self), sessions@[0].id, *final(self))
            },
            final(self).session_picker_index == old(self).session_picker_index,
            same_view(*old(self), *final(self)),
            same_shell(*old(self), *final(self)),
            final(self).toasts == old(self).toasts,
    {
        self.sessions = sessions;
        if self.selected_session.is_none() && self.sessions.len() > 0 {
            let first_id = self.sessions[0].id.clone();
            proof { lemma_key_index(self.session_states@, first_id@); }
            self.switch_to_session(first_id);
            self.app_status = status_from_session(&self.sessions[0]);
        }
    }

    /// Selects the session under the picker (if any) and returns to the
    /// normal mode.
    pub fn session_picker_select(&mut self)
        requires
            old(self).wf(),
        ensures
            final(self).wf(),
            final(self).mode == Mode::Normal,
            old(self).session_picker_index < old(self).sessions@.len() ==> {
                let s = old(self).sessions@[old(self).session_picker_index as int];
                &&& final(self).selected_session matches Some(id) && id == s.id
                &&& status_of_session(s, final(self).app_status)
                &&& switched_sessions(*old(self), s.id, *final(self))
            },
            old(self).session_picker_index >= old(self).sessions@.len() ==> {
                &&& final(self).selected_session == old(self).selected_session
                &&& final(self).session == old(self).session
                &&& final(self).app_status == old(self).app_status
            },
            final(self).sessions == old(self).sessions,
            final(self).session_picker_index == old(self).session_picker_index,
            final(self).toasts == old(self).toasts,
    {
        if self.session_picker_index < self.sessions.len() {
            let id = self.sessions[self.session_picker_index].id.clone();
            self.switch_to_session(id);
            self.app_status = status_from_session(&self.sessions[self.session_picker_index]);
        }
        self.mode = Mode::Normal;
    }
}

/// The path of the first item of the tree pane for the raw nodes `ns`
/// (none for an empty tree).
pub open spec fn first_item_path(ns: Seq<TreeNode>) -> Seq<Seq<char>> {
    let es = context_tree(ns);
    if es.len() > 0 {
        seq![item_id(es[0], 0)]
    } else {
        seq![]
    }
}

/// The tree has a first item in the tree pane.
pub open spec fn has_first_item(t: Option<InteractionTree>) -> bool {
    t matches Some(tree) && context_tree(tree.nodes@).len() > 0
}

/// The path of the first item of an optional tree.
pub open spec fn first_item_of(t: Option<InteractionTree>) -> Seq<Seq<char>> {
    match t {
        Some(tree) => first_item_path(tree.nodes@),
        None => seq![],
    }
}

/// The current session states of `a` and `b` agree but for the tree view
/// state (what is opened and selected).
pub open spec fn same_tree_view(a: App, b: App) -> bool {
    &&& b.session.tree == a.session.tree
    &&& same_session_data(a.session, b.session)
}

/// Two session states agree but for the tree and its view state.
pub open spec fn same_session_data(a: SessionState, b: SessionState) -> bool {
    &&& b.flutter_logs == a.flutter_logs
    &&& b.agent_events == a.agent_events
    &&& b.interaction_logs == a.interaction_logs
    &&& b.chat_messages == a.chat_messages
    &&& b.chat_streaming == a.chat_streaming
    &&& b.chat_input == a.chat_input
    &&& b.chat_cursor == a.chat_cursor
    &&& b.chat_scroll == a.chat_scroll
    &&& b.conversation_id == a.conversation_id
    &&& b.agent_question == a.agent_question
    &&& b.pending_response == a.pending_response
    &&& b.pending_intent == a.pending_intent
    &&& b.last_agent_error == a.last_agent_error
    &&& b.max_events == a.max_events
}

/// `b` is `a` after [`App::tree_expand_all`].
pub open spec fn tree_expand_all_done(a: App, b: App) -> bool {
    &&& same_sessions(a, b)
    &&& same_view(a, b)
    &&& same_shell(a, b)
    &&& same_tree_view(a, b)
    &&& tree_selection(b.session.tree_state) == tree_selection(a.session.tree_state)
    &&& match a.session.tree {
            Some(t) => tree_opened(b.session.tree_state) == tree_opened(
                a.session.tree_state,
            ).union(open_set(context_tree(t.nodes@), seq![])),
            None => tree_opened(b.session.tree_state) == tree_opened(a.session.tree_state),
        }
    &&& b.app_status == a.app_status
    &&& b.toasts == a.toasts
    &&& b.needs_tree_fetch == a.needs_tree_fetch
}

/// `b` is `a` after [`App::tree_collapse_all`].
pub open spec fn tree_collapse_all_done(a: App, b: App) -> bool {
    &&& same_sessions(a, b)
    &&& same_view(a, b)
    &&& same_shell(a, b)
    &&& same_tree_view(a, b)
    &&& tree_opened(b.session.tree_state) == Set::<Seq<Seq<char>>>::empty()
    &&& tree_selection(a.session.tree_state).len() > 0 ==> tree_selection(b.session.tree_state)
            == seq![tree_selection(a.session.tree_state)[0]]
    &&& tree_selection(a.session.tree_state).len() == 0 && has_first_item(a.session.tree)
            ==> tree_selection(b.session.tree_state) == first_item_of(a.session.tree)
    &&& tree_selection(a.session.tree_state).len() == 0 && !has_first_item(a.session.tree)
            ==> tree_selection(b.session.tree_state).len() == 0
    &&& b.app_status == a.app_status
    &&& b.toasts == a.toasts
    &&& b.needs_tree_fetch == a.needs_tree_fetch
}

/// `b` is `a` after [`App::tree_up`].
pub open spec fn tree_up_done(a: App, b: App) -> bool {
    &&& same_sessions(a, b)
    &&& same_view(a, b)
    &&& same_shell(a, b)
    &&& same_tree_view(a, b)
    &&& tree_opened(b.session.tree_state) == tree_opened(a.session.tree_state)
    &&& tree_selection(b.session.tree_state) == drawn_path_at(a.session.tree_state, key_up_target(a.session.tree_state))
    &&& tree_drawn(b.session.tree_state) == tree_drawn(a.session.tree_state)
    &&& tree_drawn_max(b.session.tree_state) == tree_drawn_max(a.session.tree_state)
}

/// `b` is `a` after [`App::tree_down`].
pub open spec fn tree_down_done(a: App, b: App) -> bool {
    &&& same_sessions(a, b)
    &&& same_view(a, b)
    &&& same_shell(a, b)
    &&& same_tree_view(a, b)
    &&& tree_opened(b.session.tree_state) == tree_opened(a.session.tree_state)
    &&& tree_selection(b.session.tree_state) == drawn_path_at(a.session.tree_state, key_down_target(a.session.tree_state))
    &&& tree_drawn(b.session.tree_state) == tree_drawn(a.session.tree_state)
    &&& tree_drawn_max(b.session.tree_state) == tree_drawn_max(a.session.tree_state)
}

/// `b` is `a` after [`App::tree_toggle`].
pub open spec fn tree_toggle_done(a: App, b: App) -> bool {
    &&& same_sessions(a, b)
    &&& same_view(a, b)
    &&& same_shell(a, b)
    &&& same_tree_view(a, b)
    &&& tree_selection(b.session.tree_state) == tree_selection(a.session.tree_state)
    &&& ({
            let sel = tree_selection(a.session.tree_state);
            let before = tree_opened(a.session.tree_state);
            let after = tree_opened(b.session.tree_state);
            &&& sel.len() == 0 ==> after == before
            &&& sel.len() > 0 && before.contains(sel) ==> after == before.remove(sel)
            &&& sel.len() > 0 && !before.contains(sel) ==> after == before.insert(sel)
        })
}

/// `b` is `a` after [`App::tree_left`].
pub open spec fn tree_left_done(a: App, b: App) -> bool {
    &&& same_sessions(a, b)
    &&& same_view(a, b)
    &&& same_shell(a, b)
    &&& same_tree_view(a, b)
    &&& ({
            let sel = tree_selection(a.session.tree_state);
            let before = tree_opened(a.session.tree_state);
            &&& before.contains(sel) ==> tree_opened(b.session.tree_state) == before.remove(sel)
                && tree_selection(b.session.tree_state) == sel
            &&& !before.contains(sel) ==> tree_opened(b.session.tree_state) == before
                && tree_selection(b.session.tree_state) == (if sel.len() > 0 {
                sel.drop_last()
            } else {
                sel
            })
        })
}

/// `b` is `a` after [`App::tree_right`].
pub open spec fn tree_right_done(a: App, b: App) -> bool {
    &&& same_sessions(a, b)
    &&& same_view(a, b)
    &&& same_shell(a, b)
    &&& same_tree_view(a, b)
    &&& tree_selection(b.session.tree_state) == tree_selection(a.session.tree_state)
    &&& ({
            let sel = tree_selection(a.session.tree_state);
            let before = tree_opened(a.session.tree_state);
            &&& sel.len() == 0 ==> tree_opened(b.session.tree_state) == before
            &&& sel.len() > 0 ==> tree_opened(b.session.tree_state) == before.insert(sel)
        })
}

impl App {
    /// The compact form of the selected session's tree, if it has one.
    pub fn compact_tree(&self) -> (r: Option<CompactTree>)
        ensures
            match self.session.tree {
                None => r is None,
                Some(t) => r matches Some(c) && entries_view(c.tree@) == context_tree(t.nodes@) && schemas_of(
                    c.schemas@,
                    preorder(t.nodes@),
                ),
            },
    {
        match &self.session.tree {
            None => None,
            Some(t) => {
                let (compact, _warnings) = CompactTree::from_tree_nodes(t.nodes.as_slice());
                Some(compact)
            },
        }
    }

    /// Selects the first item of the tree pane, if the tree has any.
    fn select_first_tree_node(&mut self)
        ensures
            same_sessions(*old(self), *final(self)),
            same_view(*old(self), *final(self)),
            same_shell(*old(self), *final(self)),
            same_tree_view(*old(self), *final(self)),
            tree_opened(final(self).session.tree_state) == tree_opened(old(self).session.tree_state),
            has_first_item(old(self).session.tree) ==> tree_selection(final(self).session.tree_state)
                == first_item_of(old(self).session.tree),
            !has_first_item(old(self).session.tree) ==> tree_selection(final(self).session.tree_state)
                == tree_selection(old(self).session.tree_state),
            final(self).app_status == old(self).app_status,
            final(self).toasts == old(self).toasts,
            final(self).needs_tree_fetch == old(self).needs_tree_fetch,
    {
        match self.compact_tree() {
            Some(compact) => {
                if compact.tree.len() > 0 {
                    let id = entry_item_id(&compact.tree[0], 0);
                    let mut path: Vec<String> = Vec::new();
                    path.push(id);
                    proof {
                        crate::tree_view::lemma_entries_view_index(compact.tree@, 0);
                        assert(path_view(path@) =~= seq![item_id(entries_view(compact.tree@)[0], 0)]);
                    }
                    tree_select(&mut self.session.tree_state, path);
                } else {
                    proof { crate::tree_view::lemma_entries_view_len(compact.tree@); }
                }
            },
            None => {},
        }
    }

    /// Expands every item of the tree pane.
    pub fn tree_expand_all(&mut self)
        ensures
            tree_expand_all_done(*old(self), *final(self)),
    {
        match self.compact_tree() {
            Some(compact) => {
                let root: Vec<String> = Vec::new();
                assert(path_view(root@) =~= Seq::<Seq<char>>::empty());
                open_entries(&mut self.session.tree_state, &compact.tree, &root);
            },
            None => {},
        }
    }

    /// Collapses every item; selects the top-level item of the selection,
    /// or the first item when nothing is selected.
    pub fn tree_collapse_all(&mut self)
        ensures
            tree_collapse_all_done(*old(self), *final(self)),
    {
        let selected = tree_selected_path(&self.session.tree_state);
        tree_close_all(&mut self.session.tree_state);
        if selected.len() > 0 {
            let top = selected[0].clone();
            let mut path: Vec<String> = Vec::new();
            path.push(top);
            assert(path_view(path@) =~= seq![path_view(selected@)[0]]);
            tree_select(&mut self.session.tree_state, path);
        } else {
            self.select_first_tree_node();
        }
    }

    /// Shows a new tree: every item expanded and the first one selected.
    pub fn set_tree(&mut self, tree: InteractionTree)
        ensures
            same_sessions(*old(self), *final(self)),
            same_view(*old(self), *final(self)),
            same_shell(*old(self), *final(self)),
            final(self).session.tree == Some(tree),
            same_session_data(old(self).session, final(self).session),
            tree_opened(final(self).session.tree_state) == open_set(context_tree(tree.nodes@), seq![]),
            tree_selection(final(self).session.tree_state) == first_item_path(tree.nodes@),
            final(self).app_status == old(self).app_status,
            final(self).toasts == old(self).toasts,
            final(self).needs_tree_fetch == old(self).needs_tree_fetch,
    {
        let ghost nodes = tree.nodes@;
        self.session.tree = Some(tree);
        self.session.tree_state = new_tree_state();
        self.tree_expand_all();
        assert(tree_opened(self.session.tree_state) =~= open_set(context_tree(nodes), seq![]));
        self.select_first_tree_node();
    }

    /// Moves the tree selection up one line.
    pub fn tree_up(&mut self)
        ensures
            tree_up_done(*old(self), *final(self)),
    {
        tree_key_up(&mut self.session.tree_state);
    }

    /// Moves the tree selection down one line.
    pub fn tree_down(&mut self)
        ensures
            tree_down_done(*old(self), *final(self)),
    {
        tree_key_down(&mut self.session.tree_state);
    }

    /// Expands the selected item if it is collapsed, collapses it if not.
    pub fn tree_toggle(&mut self)
        ensures
            tree_toggle_done(*old(self), *final(self)),
    {
        tree_toggle_selected(&mut self.session.tree_state);
    }

    /// Collapses the selected item, or selects its parent if it is
    /// collapsed.
    pub fn tree_left(&mut self)
        ensures
            tree_left_done(*old(self), *final(self)),
    {
        tree_key_left(&mut self.session.tree_state);
    }

    /// Expands the selected item.
    pub fn tree_right(&mut self)
        ensures
            tree_right_done(*old(self), *final(self)),
    {
        tree_key_right(&mut self.session.tree_state);
    }

    /// The innermost selected item, if any.
    pub fn tree_selected(&self) -> (r: Option<String>)
        ensures
            tree_selection(self.session.tree_state).len() == 0 ==> r is None,
            tree_selection(self.session.tree_state).len() > 0 ==> (r matches Some(x) && x@ == tree_selection(
                self.session.tree_state,
            ).last()),
    {
        let mut path = tree_selected_path(&self.session.tree_state);
        proof {
            if path@.len() > 0 {
                assert(path_view(path@).last() == path@.last()@);
            }
        }
        path.pop()
    }
}

/// The keys of object members joined by ", ".
pub open spec fn join_keys(ms: Seq<(String, Json)>) -> Seq<char>
    decreases ms.len(),
{
    if ms.len() == 0 {
        seq![]
    } else if ms.len() == 1 {
        ms[0].0@
    } else {
        join_keys(ms.drop_last()) + ", "@ + ms.last().0@
    }
}

/// A one-line summary of an event payload: nothing for null, a string or
/// an object's `message` cut to 80 bytes, else up to three keys of an
/// object, the length of a list, or the printed value.
pub open spec fn payload_summary(p: Json) -> Seq<char> {
    match p {
        Json::Null => seq![],
        Json::String(s) => truncated(s@, 80),
        Json::Object(ms) => match str_member(p, "message"@) {
            Some(m) => truncated(m@, 80),
            None => if ms@.len() == 0 {
                "{}"@
            } else {
                "{"@ + join_keys(ms@.subrange(0, if ms@.len() < 3 { ms@.len() as int } else { 3 })) + "}"@
            },
        },
        Json::Array(v) => "["@ + decimal(v@.len()) + " items]"@,
        Json::Bool(b) => truncated(if b { "true"@ } else { "false"@ }, 80),
        Json::Number(n) => truncated(n.text@, 80),
    }
}

/// The line of Flutter output an event carries: its `line`, or a summary
/// of its payload.
pub open spec fn flutter_line(p: Json) -> Seq<char> {
    match str_member(p, "line"@) {
        Some(l) => l@,
        None => payload_summary(p),
    }
}

/// Summarizes an event payload in one line.
pub fn summarize_payload(payload: &Json) -> (r: String)
    ensures
        r@ == payload_summary(*payload),
{
    match payload {
        Json::Null => String::new(),
        Json::String(s) => truncate(s.as_str(), 80),
        Json::Object(ms) => {
            match get_str(payload, "message") {
                Some(m) => {
                    return truncate(m, 80);
                },
                None => {},
            }
            if ms.len() == 0 {
                return String::from_str("{}");
            }
            let n: usize = if ms.len() < 3 { ms.len() } else { 3 };
            let mut out = String::from_str("{");
            let ghost start = out@;
            let mut i: usize = 0;
            while i < n
                invariant
                    n <= ms@.len(),
                    i <= n,
                    start == "{"@,
                    out@ == start + join_keys(ms@.subrange(0, i as int)),
                decreases n - i,
            {
                let ghost prev = ms@.subrange(0, i as int);
                if i > 0 {
                    out.append(", ");
                }
                out.append(ms[i].0.as_str());
                proof {
                    let next = ms@.subrange(0, i + 1);
                    assert(next.drop_last() =~= prev);
                    if i == 0 {
                        assert(join_keys(next) == next[0].0@);
                    }
                }
                i = i + 1;
            }
            out.append("}");
            out
        },
        Json::Array(v) => {
            let mut out = String::from_str("[");
            push_decimal(&mut out, v.len());
            out.append(" items]");
            out
        },
        Json::Bool(b) => if *b {
            truncate("true", 80)
        } else {
            truncate("false", 80)
        },
        Json::Number(n) => truncate(n.text.as_str(), 80),
    }
}

/// The line of Flutter output an event payload carries.
pub fn extract_flutter_log(payload: &Json) -> (r: String)
    ensures
        r@ == flutter_line(*payload),
{
    match get_str(payload, "line") {
        Some(line) => String::from_str(line),
        None => summarize_payload(payload),
    }
}

/// The status a `session.status_changed` payload sets, given the status
/// before; `None` when the payload names no status it knows.
pub open spec fn status_change(p: Json, before: AppStatus, after: AppStatus) -> bool {
    let st = json_str(json_get(p, "status"@));
    if st == Some("starting"@) {
        after == AppStatus::Starting
    } else if st == Some("running"@) {
        after matches AppStatus::Running { pid, uri } && pid == (match json_u64(json_get(p, "pid"@)) {
            Some(n) => n as u32,
            None => 0u32,
        }) && uri@ == (match json_str(json_get(p, "vmServiceUri"@)) {
            Some(u) => u,
            None => seq![],
        })
    } else if st == Some("stopped"@) || st == Some("not_running"@) {
        after == AppStatus::Stopped
    } else if st == Some("error"@) {
        after matches AppStatus::Error(e) && e@ == (match json_str(json_get(p, "error"@)) {
            Some(x) => x,
            None => "Unknown error"@,
        })
    } else {
        after == before
    }
}

/// A status payload concerns the selected session: it names none, or the
/// selected one.
pub open spec fn concerns_selected(a: App, p: Json) -> bool {
    match json_str(json_get(p, "sessionId"@)) {
        None => true,
        Some(id) => a.selected_session matches Some(sel) && sel@ == id,
    }
}

/// `b` is `a` after a `session.status_changed` payload `p`: for the
/// selected session the status changes; when the VM service went away the
/// tree is dropped, and when one is known but no tree, the tree is
/// fetched.
pub open spec fn status_event_applied(a: App, p: Json, b: App) -> bool {
    &&& same_sessions(a, b)
    &&& same_view(a, b)
    &&& same_shell(a, b)
    &&& b.toasts == a.toasts
    &&& same_session_data(a.session, b.session)
    &&& b.session.tree_state == a.session.tree_state
    &&& if !concerns_selected(a, p) {
        &&& b.app_status == a.app_status
        &&& b.session.tree == a.session.tree
        &&& b.needs_tree_fetch == a.needs_tree_fetch
    } else {
        &&& status_change(p, a.app_status, b.app_status)
        &&& if json_str(json_get(p, "status"@)) == Some("running"@) {
            let uri = match json_str(json_get(p, "vmServiceUri"@)) {
                Some(u) => u,
                None => seq![],
            };
            let was_connected = a.app_status matches AppStatus::Running { uri: u, .. } && u@.len() > 0;
            &&& (was_connected && uri.len() == 0) ==> b.session.tree is None && b.needs_tree_fetch
                == a.needs_tree_fetch
            &&& !(was_connected && uri.len() == 0) ==> b.session.tree == a.session.tree && b.needs_tree_fetch == (
            a.needs_tree_fetch || (uri.len() > 0 && a.session.tree is None))
        } else {
            b.session.tree == a.session.tree && b.needs_tree_fetch == a.needs_tree_fetch
        }
    }
}

/// A status change for the selected session to `stopped` or
/// `not_running` leaves the app stopped, whatever it was before.
pub proof fn lemma_stopped_status(a: App, ev: MonitoringEvent, b: App)
    requires
        event_applied(a, ev, b),
        lowered(ev.event_type@) == "session.status_changed"@,
        a.selected_session matches Some(sel) && json_str(json_get(ev.payload, "sessionId"@)) == Some(sel@),
        json_str(json_get(ev.payload, "status"@)) == Some("stopped"@) || json_str(json_get(ev.payload, "status"@))
            == Some("not_running"@),
    ensures
        b.app_status == AppStatus::Stopped,
{
    reveal_strlit("stopped");
    reveal_strlit("not_running");
    reveal_strlit("starting");
    reveal_strlit("running");
    assert("stopped"@[0] != "running"@[0]);
    assert("stopped"@ != "running"@);
    assert("stopped"@[2] != "starting"@[2]);
    assert("stopped"@ != "starting"@);
    assert("not_running"@ != "running"@);
    assert("not_running"@[0] != "starting"@[0]);
    assert("not_running"@ != "starting"@);
    let p = ev.payload;
    assert(status_event_applied(a, p, b));
    assert(concerns_selected(a, p));
    assert(status_change(p, a.app_status, b.app_status));
}

/// A status change names the status the selected session now has:
/// `starting` sets starting, `error` sets the error with the payload's
/// message (or `Unknown error`), `running` sets running with the payload's
/// process id and VM service address (0 and empty when absent); a status
/// change for another session than the selected one leaves the status as
/// it was.
pub proof fn lemma_status_event(a: App, ev: MonitoringEvent, b: App)
    requires
        event_applied(a, ev, b),
        lowered(ev.event_type@) == "session.status_changed"@,
    ensures
        ({
            let p = ev.payload;
            let st = json_str(json_get(p, "status"@));
            let selected = match json_str(json_get(p, "sessionId"@)) {
                None => true,
                Some(id) => a.selected_session matches Some(sel) && sel@ == id,
            };
            &&& !selected ==> b.app_status == a.app_status
            &&& selected && st == Some("starting"@) ==> b.app_status == AppStatus::Starting
            &&& selected && st == Some("error"@) ==> (b.app_status matches AppStatus::Error(e) && e@ == (match json_str(
                json_get(p, "error"@),
            ) {
                Some(x) => x,
                None => "Unknown error"@,
            }))
            &&& selected && st == Some("running"@) ==> (b.app_status matches AppStatus::Running { pid, uri } && pid == (
            match json_u64(json_get(p, "pid"@)) {
                Some(n) => n as u32,
                None => 0u32,
            }) && uri@ == (match json_str(json_get(p, "vmServiceUri"@)) {
                Some(u) => u,
                None => seq![],
            }))
        }),
{
    reveal_strlit("starting");
    reveal_strlit("running");
    reveal_strlit("error");
    reveal_strlit("stopped");
    reveal_strlit("not_running");
    assert("error"@[0] != "starting"@[0]);
    assert("error"@[0] != "running"@[0]);
    assert("error"@[0] != "stopped"@[0]);
    assert("error"@[0] != "not_running"@[0]);
    assert("running"@[0] != "starting"@[0]);
    assert("running"@[0] != "stopped"@[0]);
    assert("running"@[0] != "not_running"@[0]);
    assert("starting"@[2] != "stopped"@[2]);
    assert("starting"@[0] != "not_running"@[0]);
    let p = ev.payload;
    assert(status_event_applied(a, p, b));
}

impl App {
    fn handle_session_status_event(&mut self, payload: &Json)
        ensures
            status_event_applied(*old(self), *payload, *final(self)),
    {
        match get_str(payload, "sessionId") {
            Some(id) => {
                let matches_selected = match &self.selected_session {
                    Some(sel) => str_eq(sel.as_str(), id),
                    None => false,
                };
                if !matches_selected {
                    return;
                }
            },
            None => {},
        }
        let status = match get_str(payload, "status") {
            Some(st) => st,
            None => {
                return;
            },
        };
        proof {
            reveal_strlit("starting");
            reveal_strlit("running");
            reveal_strlit("stopped");
            reveal_strlit("not_running");
            reveal_strlit("error");
            assert("starting"@.len() != "running"@.len());
        }
        if str_eq(status, "starting") {
            self.app_status = AppStatus::Starting;
        } else if str_eq(status, "running") {
            let pid: u32 = match get_u64(payload, "pid") {
                Some(n) => n as u32,
                None => 0,
            };
            let uri = match get_str(payload, "vmServiceUri") {
                Some(u) => String::from_str(u),
                None => String::new(),
            };
            let was_connected = match &self.app_status {
                AppStatus::Running { uri: u, .. } => u.as_str().unicode_len() > 0,
                _ => false,
            };
            let now_disconnected = uri.as_str().unicode_len() == 0;
            let connected = !now_disconnected;
            self.app_status = AppStatus::Running { pid, uri };
            if was_connected && now_disconnected {
                self.session.tree = None;
            } else if connected && self.session.tree.is_none() {
                self.needs_tree_fetch = true;
            }
        } else if str_eq(status, "stopped") || str_eq(status, "not_running") {
            self.app_status = AppStatus::Stopped;
        } else if str_eq(status, "error") {
            let error = match get_str(payload, "error") {
                Some(e) => String::from_str(e),
                None => String::from_str("Unknown error"),
            };
            self.app_status = AppStatus::Error(error);
        }
    }
}

/// An event for the agent tab: from an agent, or of an agent or tool type.
pub open spec fn is_agent_event(source: Seq<char>, kind: Seq<char>) -> bool {
    has_infix(source, "agent"@) || occurs_at(kind, "agent_"@, 0) || has_infix(kind, "tool"@)
}

/// An event for the Flutter tab: from Flutter, or of a `flutter.` type.
pub open spec fn is_flutter_event(source: Seq<char>, kind: Seq<char>) -> bool {
    has_infix(source, "flutter"@) || occurs_at(kind, "flutter."@, 0)
}

/// An event for the interactions tab.
pub open spec fn is_interaction_event(kind: Seq<char>) -> bool {
    has_infix(kind, "interaction"@) || has_infix(kind, "tap"@) || has_infix(kind, "scroll"@)
}

/// `e` is what `FlutterLogEntry::parse` makes of `line`.
pub open spec fn parsed_line(e: FlutterLogEntry, line: Seq<char>) -> bool {
    &&& e.raw@ == line
    &&& line_kind(
        e.kind,
        line,
        events_reading(crate::json::json_text(trim_of(line))),
        event_reading(crate::json::json_text(trim_of(line))),
        crate::json::json_text(trim_of(line)),
    )
}

/// The text or default of a string member.
pub open spec fn text_or(p: Json, key: Seq<char>, default: Seq<char>) -> Seq<char> {
    match json_str(json_get(p, key)) {
        Some(t) => t,
        None => default,
    }
}

/// The sessions of `ss` other than `id`, in order.
pub open spec fn without_session(ss: Seq<Session>, id: Seq<char>) -> Seq<Session> {
    ss.filter(|s: Session| s.id@ != id)
}

/// `b` is `a` but for the session list, picker and selection, which a
/// `session.destroyed` payload `p` changes: the named session leaves the
/// list, the picker stays on it, and if it was selected nothing is
/// selected and its app counts as stopped.
pub open spec fn destroyed_applied(a: App, p: Json, b: App) -> bool {
    &&& b.session == a.session
    &&& b.session_states == a.session_states
    &&& b.max_events == a.max_events
    &&& b.needs_tree_fetch == a.needs_tree_fetch
    &&& match json_str(json_get(p, "sessionId"@)) {
        None => {
            &&& b.sessions == a.sessions
            &&& b.session_picker_index == a.session_picker_index
            &&& b.selected_session == a.selected_session
            &&& b.app_status == a.app_status
        },
        Some(id) => {
            let n = without_session(a.sessions@, id).len();
            &&& b.sessions@ == without_session(a.sessions@, id)
            &&& b.session_picker_index == (if a.session_picker_index >= n && n > 0 {
                (n - 1) as usize
            } else {
                a.session_picker_index
            })
            &&& if a.selected_session matches Some(sel) && sel@ == id {
                b.selected_session is None && b.app_status == AppStatus::Stopped
            } else {
                b.selected_session == a.selected_session && b.app_status == a.app_status
            }
        },
    }
}

/// `b` is `a` but for the session list, to which a `session.created`
/// payload `p` adds its session unless one with the same id is listed.
pub open spec fn created_applied(a: App, p: Json, b: App) -> bool {
    &&& b.session == a.session
    &&& b.session_states == a.session_states
    &&& b.selected_session == a.selected_session
    &&& b.session_picker_index == a.session_picker_index
    &&& b.max_events == a.max_events
    &&& b.app_status == a.app_status
    &&& b.needs_tree_fetch == a.needs_tree_fetch
    &&& if json_get(p, "session"@) matches Some(sj) && session_readable(sj) && forall|i: int|
        0 <= i < a.sessions@.len() ==> (#[trigger] a.sessions@[i]).id@ != str_member(sj, "id"@)->0@ {
        &&& b.sessions@.len() == a.sessions@.len() + 1
        &&& b.sessions@.drop_last() == a.sessions@
        &&& session_read(json_get(p, "session"@)->0, b.sessions@.last())
    } else {
        b.sessions == a.sessions
    }
}

/// `b` shows the tree read from the node list `v`, updated now, fully
/// expanded with its first item selected.
pub open spec fn tree_shown(a: App, v: Seq<Json>, b: App) -> bool {
    &&& b.session.tree matches Some(t) && nodes_read(v, t.nodes@) && t.last_updated is Some
        && tree_opened(b.session.tree_state) == open_set(context_tree(t.nodes@), seq![])
        && tree_selection(b.session.tree_state) == first_item_path(t.nodes@)
    &&& same_session_data(a.session, b.session)
}

/// `b` is `a` after the monitoring event `ev` arrived.
pub open spec fn event_applied(a: App, ev: MonitoringEvent, b: App) -> bool {
    let source = lowered(ev.source@);
    let kind = lowered(ev.event_type@);
    let p = ev.payload;
    &&& same_view(a, b)
    &&& same_shell(a, b)
    &&& b.toasts == a.toasts
    &&& if kind == "session.status_changed"@ {
        status_event_applied(a, p, b)
    } else if kind == "session.destroyed"@ {
        destroyed_applied(a, p, b)
    } else if kind == "session.created"@ {
        created_applied(a, p, b)
    } else {
        &&& same_sessions(a, b)
        &&& b.app_status == a.app_status
        &&& b.needs_tree_fetch == a.needs_tree_fetch
        &&& if kind == "tree.updated"@ {
            match json_get(p, "tree"@) {
                Some(Json::Array(v)) => tree_shown(a, v@, b),
                _ => b.session == a.session,
            }
        } else if is_agent_event(source, kind) {
            &&& b.session.agent_events@ == log_after_push(a.session.agent_events@, ev, a.max_events as nat)
            &&& session_frame(a.session, b.session, false, true, false, false)
        } else if is_flutter_event(source, kind) {
            &&& b.session.flutter_logs@.len() > 0
            &&& b.session.flutter_logs@ == log_after_push(
                a.session.flutter_logs@,
                b.session.flutter_logs@.last(),
                a.max_events as nat,
            )
            &&& parsed_line(b.session.flutter_logs@.last(), flutter_line(p))
            &&& session_frame(a.session, b.session, true, false, false, false)
        } else if is_interaction_event(kind) {
            &&& b.session.interaction_logs@.len() > 0
            &&& b.session.interaction_logs@ == log_after_push(
                a.session.interaction_logs@,
                b.session.interaction_logs@.last(),
                a.max_events as nat,
            )
            &&& b.session.interaction_logs@.last().ts == ev.ts
            &&& b.session.interaction_logs@.last().level == crate::types::LogLevel::Info
            &&& b.session.interaction_logs@.last().message@ == "["@ + ev.source@ + "] "@ + payload_summary(p)
            &&& session_frame(a.session, b.session, false, false, true, true)
            &&& if json_str(json_get(p, "clientType"@)) == Some("mcp"@) {
                &&& b.session.chat_messages@.len() == a.session.chat_messages@.len() + 1
                &&& b.session.chat_messages@.drop_last() == a.session.chat_messages@
                &&& b.session.chat_messages@.last().role == crate::chat::ChatRole::User
                &&& b.session.chat_messages@.last().content matches ChatContent::Text(t) && t@ == "⚡ "@ + text_or(
                    p,
                    "interaction"@,
                    "unknown"@,
                ) + " on "@ + text_or(p, "nodeId"@, "unknown"@)
                &&& opt_view(b.session.chat_messages@.last().client_id) == Some("mcp"@)
                &&& b.session.chat_scroll == 0
            } else {
                b.session.chat_messages == a.session.chat_messages && b.session.chat_scroll == a.session.chat_scroll
            }
        } else {
            b.session == a.session
        }
    }
}

impl App {
    fn remove_session(&mut self, id: &str)
        ensures
            destroyed_applied_with(*old(self), id@, *final(self)),
            same_view(*old(self), *final(self)),
            same_shell(*old(self), *final(self)),
            final(self).toasts == old(self).toasts,
    {
        let ghost before = self.sessions@;
        let mut kept: Vec<Session> = Vec::new();
        let mut all: Vec<Session> = Vec::new();
        std::mem::swap(&mut all, &mut self.sessions);
        let n = all.len();
        let mut i: usize = 0;
        while i < n
            invariant
                before.len() == n,
                all@ == before.subrange(i as int, n as int),
                i <= n,
                kept@ == without_session(before.subrange(0, i as int), id@),
            decreases n - i,
        {
            let s = all.remove(0);
            proof {
                reveal(Seq::filter);
                let s1 = before.subrange(0, i + 1);
                assert(s1.drop_last() =~= before.subrange(0, i as int));
                assert(s1.last() == s);
            }
            let keep = !str_eq(s.id.as_str(), id);
            if keep {
                kept.push(s);
            }
            i = i + 1;
            assert(all@ =~= before.subrange(i as int, n as int));
        }
        assert(before.subrange(0, n as int) =~= before);
        self.sessions = kept;
        let len = self.sessions.len();
        if self.session_picker_index >= len && len > 0 {
            self.session_picker_index = len - 1;
        }
        let selected = match &self.selected_session {
            Some(sel) => str_eq(sel.as_str(), id),
            None => false,
        };
        if selected {
            self.selected_session = None;
            self.app_status = AppStatus::Stopped;
        }
    }
}

/// [`destroyed_applied`] for the session id `id`.
pub open spec fn destroyed_applied_with(a: App, id: Seq<char>, b: App) -> bool {
    let n = without_session(a.sessions@, id).len();
    &&& b.session == a.session
    &&& b.session_states == a.session_states
    &&& b.max_events == a.max_events
    &&& b.needs_tree_fetch == a.needs_tree_fetch
    &&& b.sessions@ == without_session(a.sessions@, id)
    &&& b.session_picker_index == (if a.session_picker_index >= n && n > 0 {
        (n - 1) as usize
    } else {
        a.session_picker_index
    })
    &&& if a.selected_session matches Some(sel) && sel@ == id {
        b.selected_session is None && b.app_status == AppStatus::Stopped
    } else {
        b.selected_session == a.selected_session && b.app_status == a.app_status
    }
}

impl App {
    /// Whether a session with this id is listed.
    fn lists_session(&self, id: &String) -> (r: bool)
        ensures
            r == exists|i: int| 0 <= i < self.sessions@.len() && (#[trigger] self.sessions@[i]).id@ == id@,
    {
        let mut i: usize = 0;
        while i < self.sessions.len()
            invariant
                i <= self.sessions@.len(),
                forall|j: int| 0 <= j < i ==> (#[trigger] self.sessions@[j]).id@ != id@,
            decreases self.sessions@.len() - i,
        {
            if self.sessions[i].id == *id {
                return true;
            }
            i = i + 1;
        }
        false
    }

    /// Handles a monitoring event from the daemon: session status, session
    /// list and tree updates change the state; other events are logged in
    /// the agent, Flutter or interactions tab, or dropped.
    pub fn push_event(&mut self, event: MonitoringEvent)
        ensures
            event_applied(*old(self), event, *final(self)),
            old(self).wf() ==> final(self).wf(),
    {
        let source = lowercase(event.source.as_str());
        let kind = lowercase(event.event_type.as_str());
        if str_eq(kind.as_str(), "session.status_changed") {
            self.handle_session_status_event(&event.payload);
            return;
        }
        if str_eq(kind.as_str(), "session.destroyed") {
            match get_str(&event.payload, "sessionId") {
                Some(id) => self.remove_session(id),
                None => {},
            }
            return;
        }
        if str_eq(kind.as_str(), "session.created") {
            match event.payload.get("session") {
                Some(data) => match Session::from_json(data) {
                    Some(session) => {
                        if !self.lists_session(&session.id) {
                            let ghost before = self.sessions@;
                            self.sessions.push(session);
                            assert(self.sessions@.drop_last() =~= before);
                        }
                    },
                    None => {},
                },
                None => {},
            }
            return;
        }
        if str_eq(kind.as_str(), "tree.updated") {
            match event.payload.get("tree") {
                Some(Json::Array(items)) => {
                    let nodes = read_nodes(items);
                    let tree = InteractionTree { nodes, last_updated: Some(now_rfc3339()) };
                    self.set_tree(tree);
                },
                _ => {},
            }
            return;
        }
        let is_agent = contains_text(source.as_str(), "agent") || starts_with_text(kind.as_str(), "agent_")
            || contains_text(kind.as_str(), "tool");
        if is_agent {
            self.push_agent_event(event);
            return;
        }
        let is_flutter = contains_text(source.as_str(), "flutter") || starts_with_text(kind.as_str(), "flutter.");
        if is_flutter {
            let line = extract_flutter_log(&event.payload);
            let entry = FlutterLogEntry::parse(line.as_str());
            let ghost e = entry;
            self.push_flutter_log(entry);
            proof { lemma_log_after_push_last(old(self).session.flutter_logs@, e, self.max_events as nat); }

            return;
        }
        let is_interaction = contains_text(kind.as_str(), "interaction") || contains_text(kind.as_str(), "tap")
            || contains_text(kind.as_str(), "scroll");
        if is_interaction {
            let mut message = String::from_str("[");
            message.append(event.source.as_str());
            message.append("] ");
            let summary = summarize_payload(&event.payload);
            message.append(summary.as_str());
            let entry = LogEntry { ts: event.ts.clone(), level: crate::types::LogLevel::Info, message };
            let ghost e = entry;
            self.push_interaction_log(entry);
            proof { lemma_log_after_push_last(old(self).session.interaction_logs@, e, self.max_events as nat); }
            let from_mcp = match get_str(&event.payload, "clientType") {
                Some(c) => str_eq(c, "mcp"),
                None => false,
            };
            if from_mcp {
                let node_id = match get_str(&event.payload, "nodeId") {
                    Some(n) => n,
                    None => "unknown",
                };
                let interaction = match get_str(&event.payload, "interaction") {
                    Some(i) => i,
                    None => "unknown",
                };
                let mut text = String::from_str("⚡ ");
                text.append(interaction);
                text.append(" on ");
                text.append(node_id);
                let mut msg = ChatMessage::user(text.as_str());
                msg.client_id = Some(String::from_str("mcp"));
                let ghost before = self.session.chat_messages@;
                self.session.chat_messages.push(msg);
                assert(self.session.chat_messages@.drop_last() =~= before);
                self.session.chat_scroll = 0;
            }
        }
    }
}

/// `b` is `a` after the final answer `resp` of an agent run.
pub open spec fn agent_response_applied(a: App, resp: AgentResponse, b: App) -> bool {
    &&& !b.session.pending_response
    &&& b.session.agent_events@.len() > 0
    &&& b.session.agent_events@ == log_after_push(
        a.session.agent_events@,
        b.session.agent_events@.last(),
        a.max_events as nat,
    )
    &&& b.session.agent_events@.last().source@ == "agent"@
    &&& b.session.agent_events@.last().event_type@ == agent_event_type(resp.status)
    &&& match resp.status {
        AgentStatus::Success => single_member(
            b.session.agent_events@.last().payload,
            "summary"@,
            opt_view(resp.summary),
        ),
        AgentStatus::NeedsContext => single_member(
            b.session.agent_events@.last().payload,
            "question"@,
            opt_view(resp.question),
        ),
        AgentStatus::Error => single_member(
            b.session.agent_events@.last().payload,
            "error"@,
            opt_view(resp.summary),
        ),
    }
    &&& match resp.status {
        AgentStatus::Success => {
            &&& b.session.conversation_id is None
            &&& b.session.agent_question is None
            &&& b.session.last_agent_error is None
            &&& b.needs_tree_fetch
            &&& b.toasts == a.toasts
        },
        AgentStatus::NeedsContext => {
            &&& b.session.conversation_id == resp.sdk_session_id
            &&& b.session.agent_question == resp.question
            &&& b.session.last_agent_error is None
            &&& b.needs_tree_fetch == a.needs_tree_fetch
            &&& b.toasts == a.toasts
        },
        AgentStatus::Error => {
            &&& b.session.conversation_id is None
            &&& b.session.agent_question is None
            &&& b.session.last_agent_error == resp.summary
            &&& b.needs_tree_fetch == a.needs_tree_fetch
            &&& match resp.summary {
                Some(text) => exists|t: Toast| #![trigger toasts_after_push(a.toasts@, t)]
                    t.message@ == text@ && t.level == ToastLevel::Error
                    && b.toasts@ == toasts_after_push(a.toasts@, t),
                None => b.toasts == a.toasts,
            }
        },
    }
    &&& b.session.flutter_logs == a.session.flutter_logs
    &&& b.session.interaction_logs == a.session.interaction_logs
    &&& b.session.chat_messages == a.session.chat_messages
    &&& b.session.tree == a.session.tree
    &&& same_sessions(a, b)
    &&& same_view(a, b)
    &&& same_shell(a, b)
    &&& b.app_status == a.app_status
}

impl App {
    /// Handles the final answer of an agent run: logs it as an agent event
    /// and ends, continues or fails the conversation.
    pub fn handle_agent_response(&mut self, resp: AgentResponse)
        requires
            old(self).wf(),
        ensures
            final(self).wf(),
            agent_response_applied(*old(self), resp, *final(self)),
    {
        self.session.pending_response = false;
        let event = resp.to_monitoring_event();
        let ghost ev = event;
        proof {
            reveal_strlit("agent");
            reveal_strlit("agent_success");
            reveal_strlit("agent_needs_context");
            reveal_strlit("agent_error");
            reveal_strlit("session.status_changed");
            reveal_strlit("session.destroyed");
            reveal_strlit("session.created");
            reveal_strlit("tree.updated");
            assert(crate::text::is_lower_ascii(ev.source@));
            assert(crate::text::is_lower_ascii(ev.event_type@));
            assert(ev.event_type@.len() != "session.status_changed"@.len());
            assert(ev.event_type@.len() != "session.destroyed"@.len());
            assert(ev.event_type@.len() != "session.created"@.len());
            assert(ev.event_type@.len() != "tree.updated"@.len());
            assert(occurs_at(ev.source@, "agent"@, 0)) by {
                assert(ev.source@.subrange(0, 5) =~= "agent"@);
            }
        }
        let ghost mid = *self;
        self.push_event(event);
        proof {
            assert(lowered(ev.source@) == ev.source@);
            assert(lowered(ev.event_type@) == ev.event_type@);
            assert(is_agent_event(ev.source@, ev.event_type@));
            lemma_log_after_push_last(mid.session.agent_events@, ev, mid.max_events as nat);
        }
        match resp.status {
            AgentStatus::Success => {
                self.session.conversation_id = None;
                self.session.agent_question = None;
                self.session.last_agent_error = None;
                self.needs_tree_fetch = true;
            },
            AgentStatus::NeedsContext => {
                self.session.conversation_id = resp.sdk_session_id;
                self.session.agent_question = resp.question;
                self.session.last_agent_error = None;
            },
            AgentStatus::Error => {
                self.session.conversation_id = None;
                self.session.agent_question = None;
                match &resp.summary {
                    Some(err) => {
                        let toast = Toast::error(err.as_str());
                        self.push_toast(toast);
                    },
                    None => {},
                }
                self.session.last_agent_error = resp.summary;
            },
        }
    }
}

/// Position of the last tool call with id `id` among `msgs`, or -1.
pub open spec fn last_tool_call(msgs: Seq<ChatMessage>, id: Seq<char>) -> int
    decreases msgs.len(),
{
    if msgs.len() == 0 {
        -1
    } else if msgs.last().content matches ChatContent::ToolCall(c) && c.id@ == id {
        msgs.len() - 1
    } else {
        last_tool_call(msgs.drop_last(), id)
    }
}

proof fn lemma_last_tool_call(msgs: Seq<ChatMessage>, id: Seq<char>)
    ensures
        -1 <= last_tool_call(msgs, id) < msgs.len(),
        last_tool_call(msgs, id) >= 0 ==> (msgs[last_tool_call(msgs, id)].content matches ChatContent::ToolCall(c)
            && c.id@ == id),
    decreases msgs.len(),
{
    if msgs.len() > 0 {
        lemma_last_tool_call(msgs.drop_last(), id);
    }
}

/// `b` is message `a`, a tool call, marked as finished with `result`.
pub open spec fn tool_call_ended(a: ChatMessage, result: Option<String>, b: ChatMessage) -> bool {
    &&& a.content matches ChatContent::ToolCall(c) && b.content == ChatContent::ToolCall(
        ToolCall { status: ToolStatus::Success, output: result, ..c },
    )
    &&& b.id == a.id
    &&& b.role == a.role
    &&& b.timestamp == a.timestamp
    &&& b.client_id == a.client_id
}

/// `b` is `a` after the streaming agent event `ev`.
pub open spec fn stream_event_applied(a: App, ev: AgentEventKind, b: App) -> bool {
    let sa = a.session;
    let sb = b.session;
    &&& same_sessions(a, b)
    &&& same_view(a, b)
    &&& same_shell(a, b)
    &&& b.app_status == a.app_status
    &&& b.needs_tree_fetch == a.needs_tree_fetch
    &&& sb.flutter_logs == sa.flutter_logs
    &&& sb.agent_events == sa.agent_events
    &&& sb.interaction_logs == sa.interaction_logs
    &&& sb.tree == sa.tree
    &&& sb.tree_state == sa.tree_state
    &&& sb.chat_input == sa.chat_input
    &&& sb.chat_cursor == sa.chat_cursor
    &&& sb.conversation_id == sa.conversation_id
    &&& sb.agent_question == sa.agent_question
    &&& sb.pending_intent == sa.pending_intent
    &&& sb.max_events == sa.max_events
    &&& match ev {
        AgentEventKind::TextDelta { text } => {
            &&& sb.chat_messages == sa.chat_messages
            &&& sb.chat_scroll == sa.chat_scroll
            &&& sb.pending_response == sa.pending_response
            &&& sb.last_agent_error == sa.last_agent_error
            &&& b.toasts == a.toasts
            &&& match sa.chat_streaming {
                None => sb.chat_streaming is None,
                Some(st) => sb.chat_streaming matches Some(nt) && nt.text_buffer@ == st.text_buffer@ + text@,
            }
        },
        AgentEventKind::ToolCallStart { tool_name, tool_call_id } => {
            &&& sb.chat_messages@.len() == sa.chat_messages@.len() + 1
            &&& sb.chat_messages@.drop_last() == sa.chat_messages@
            &&& sb.chat_messages@.last().role == crate::chat::ChatRole::Assistant
            &&& sb.chat_messages@.last().content == ChatContent::ToolCall(
                ToolCall {
                    id: tool_call_id,
                    name: tool_name,
                    args: Json::Null,
                    status: ToolStatus::Running,
                    output: None,
                },
            )
            &&& sb.chat_messages@.last().client_id is None
            &&& sb.chat_scroll == sa.chat_scroll
            &&& sb.chat_streaming == sa.chat_streaming
            &&& sb.pending_response == sa.pending_response
            &&& sb.last_agent_error == sa.last_agent_error
            &&& b.toasts == a.toasts
        },
        AgentEventKind::ToolCallEnd { tool_call_id, result, .. } => {
            let k = last_tool_call(sa.chat_messages@, tool_call_id@);
            &&& k >= 0 ==> sb.chat_messages@.len() == sa.chat_messages@.len() && sb.chat_messages@
                == sa.chat_messages@.update(k, sb.chat_messages@[k]) && tool_call_ended(
                sa.chat_messages@[k],
                result,
                sb.chat_messages@[k],
            )
            &&& k < 0 ==> sb.chat_messages == sa.chat_messages
            &&& sb.chat_scroll == sa.chat_scroll
            &&& sb.chat_streaming == sa.chat_streaming
            &&& sb.pending_response == sa.pending_response
            &&& sb.last_agent_error == sa.last_agent_error
            &&& b.toasts == a.toasts
        },
        AgentEventKind::MessageComplete => {
            &&& sb.chat_streaming is None
            &&& match sa.chat_streaming {
                Some(st) => if st.text_buffer@.len() > 0 {
                    &&& sb.chat_messages@.len() == sa.chat_messages@.len() + 1
                    &&& sb.chat_messages@.drop_last() == sa.chat_messages@
                    &&& sb.chat_messages@.last().role == crate::chat::ChatRole::Assistant
                    &&& sb.chat_messages@.last().content matches ChatContent::Text(t) && t@ == st.text_buffer@
                    &&& sb.chat_messages@.last().client_id is None
                } else {
                    sb.chat_messages == sa.chat_messages
                },
                None => sb.chat_messages == sa.chat_messages,
            }
            &&& sb.chat_scroll == sa.chat_scroll
            &&& sb.pending_response == sa.pending_response
            &&& sb.last_agent_error == sa.last_agent_error
            &&& b.toasts == a.toasts
        },
        AgentEventKind::TaskComplete { .. } => {
            &&& !sb.pending_response
            &&& sb.chat_messages == sa.chat_messages
            &&& sb.chat_scroll == sa.chat_scroll
            &&& sb.chat_streaming == sa.chat_streaming
            &&& sb.last_agent_error == sa.last_agent_error
            &&& b.toasts == a.toasts
        },
        AgentEventKind::Error { message } => {
            &&& sb.chat_streaming is None
            &&& !sb.pending_response
            &&& sb.last_agent_error == Some(message)
            &&& sb.chat_messages == sa.chat_messages
            &&& sb.chat_scroll == sa.chat_scroll
            &&& exists|t: Toast| #![trigger toasts_after_push(a.toasts@, t)]
                t.message@ == message@ && t.level == ToastLevel::Error && b.toasts@ == toasts_after_push(a.toasts@, t)
        },
        AgentEventKind::UserMessage { text, client_id } => if client_id@ != "tui"@ {
            &&& sb.chat_messages@.len() == sa.chat_messages@.len() + 1
            &&& sb.chat_messages@.drop_last() == sa.chat_messages@
            &&& sb.chat_messages@.last().role == crate::chat::ChatRole::User
            &&& sb.chat_messages@.last().content matches ChatContent::Text(t) && t@ == text@
            &&& sb.chat_messages@.last().client_id == Some(client_id)
            &&& sb.chat_scroll == 0
            &&& sb.pending_response
            &&& sb.chat_streaming matches Some(st) && st.text_buffer@.len() == 0
            &&& sb.last_agent_error == sa.last_agent_error
            &&& b.toasts == a.toasts
        } else {
            &&& sb == sa
            &&& b.toasts == a.toasts
        },
    }
}

fn find_last_tool_call(msgs: &Vec<ChatMessage>, id: &String) -> (r: Option<usize>)
    ensures
        match r {
            Some(k) => k as int == last_tool_call(msgs@, id@),
            None => last_tool_call(msgs@, id@) == -1,
        },
{
    let mut i: usize = msgs.len();
    assert(msgs@.subrange(0, i as int) =~= msgs@);
    while i > 0
        invariant
            i <= msgs@.len(),
            last_tool_call(msgs@, id@) == last_tool_call(msgs@.subrange(0, i as int), id@),
        decreases i,
    {
        let found = match &msgs[i - 1].content {
            ChatContent::ToolCall(call) => call.id == *id,
            _ => false,
        };
        proof {
            let s1 = msgs@.subrange(0, i as int);
            assert(s1.drop_last() =~= msgs@.subrange(0, i - 1));
            assert(s1.last() == msgs@[i - 1]);
        }
        if found {
            return Some(i - 1);
        }
        i = i - 1;
    }
    None
}

impl App {
    fn end_tool_call(&mut self, tool_call_id: &String, result: Option<String>)
        ensures
            ({
                let k = last_tool_call(old(self).session.chat_messages@, tool_call_id@);
                let before = old(self).session.chat_messages@;
                let after = final(self).session.chat_messages@;
                &&& k >= 0 ==> after.len() == before.len() && after == before.update(k, after[k]) && tool_call_ended(
                    before[k],
                    result,
                    after[k],
                )
                &&& k < 0 ==> final(self).session.chat_messages == old(self).session.chat_messages
            }),
            final(self).session == (SessionState { chat_messages: final(self).session.chat_messages, ..old(self).session }),
            same_sessions(*old(self), *final(self)),
            same_view(*old(self), *final(self)),
            same_shell(*old(self), *final(self)),
            final(self).app_status == old(self).app_status,
            final(self).needs_tree_fetch == old(self).needs_tree_fetch,
            final(self).toasts == old(self).toasts,
    {
        let ghost before = self.session.chat_messages@;
        match find_last_tool_call(&self.session.chat_messages, tool_call_id) {
            Some(k) => {
                proof { lemma_last_tool_call(before, tool_call_id@); }
                let m = self.session.chat_messages.remove(k);
                let ChatMessage { id, role, content, timestamp, client_id } = m;
                let new_content = match content {
                    ChatContent::ToolCall(call) => ChatContent::ToolCall(
                        ToolCall { status: ToolStatus::Success, output: result, ..call },
                    ),
                    other => other,
                };
                let m2 = ChatMessage { id, role, content: new_content, timestamp, client_id };
                self.session.chat_messages.insert(k, m2);
                assert(self.session.chat_messages@ =~= before.update(k as int, m2));
            },
            None => {},
        }
    }

    /// Handles a streaming event of an agent run: text arrives, tool calls
    /// start and end, the message or task completes, an error ends the run,
    /// or another client's user message starts one.
    pub fn handle_agent_stream_event(&mut self, event: AgentStreamEvent)
        requires
            old(self).wf(),
        ensures
            final(self).wf(),
            stream_event_applied(*old(self), event.event, *final(self)),
    {
        match event.event {
            AgentEventKind::TextDelta { text } => {
                match &mut self.session.chat_streaming {
                    Some(streaming) => {
                        streaming.text_buffer.append(text.as_str());
                    },
                    None => {},
                }
            },
            AgentEventKind::ToolCallStart { tool_name, tool_call_id } => {
                let call = ToolCall {
                    id: tool_call_id,
                    name: tool_name,
                    args: Json::Null,
                    status: ToolStatus::Running,
                    output: None,
                };
                let msg = ChatMessage::assistant_tool(call);
                let ghost before = self.session.chat_messages@;
                self.session.chat_messages.push(msg);
                assert(self.session.chat_messages@.drop_last() =~= before);
            },
            AgentEventKind::ToolCallEnd { tool_name: _, tool_call_id, result } => {
                self.end_tool_call(&tool_call_id, result);
            },
            AgentEventKind::MessageComplete => {
                match self.session.chat_streaming.take() {
                    Some(streaming) => {
                        if streaming.text_buffer.as_str().unicode_len() > 0 {
                            let msg = ChatMessage::assistant(streaming.text_buffer.as_str());
                            let ghost before = self.session.chat_messages@;
                            self.session.chat_messages.push(msg);
                            assert(self.session.chat_messages@.drop_last() =~= before);
                        }
                    },
                    None => {},
                }
            },
            AgentEventKind::TaskComplete { summary: _ } => {
                self.session.pending_response = false;
            },
            AgentEventKind::Error { message } => {
                self.session.chat_streaming = None;
                self.session.pending_response = false;
                let toast = Toast::error(message.as_str());
                self.session.last_agent_error = Some(message);
                self.push_toast(toast);
            },
            AgentEventKind::UserMessage { text, client_id } => {
                if !str_eq(client_id.as_str(), "tui") {
                    let mut msg = ChatMessage::user(text.as_str());
                    msg.client_id = Some(client_id);
                    let ghost before = self.session.chat_messages@;
                    self.session.chat_messages.push(msg);
                    assert(self.session.chat_messages@.drop_last() =~= before);
                    self.session.chat_scroll = 0;
                    self.session.pending_response = true;
                    self.session.chat_streaming = Some(StreamingState::default());
                }
            },
        }
    }
}

/// Reads a list of session records; `None` unless every element is one.
pub fn read_sessions(items: &Vec<Json>) -> (r: Option<Vec<Session>>)
    ensures
        match r {
            Some(v) => v@.len() == items@.len() && forall|i: int|
                0 <= i < items@.len() ==> session_read(#[trigger] items@[i], v@[i]),
            None => exists|i: int| 0 <= i < items@.len() && !session_readable(#[trigger] items@[i]),
        },
{
    let mut out: Vec<Session> = Vec::new();
    let mut i: usize = 0;
    while i < items.len()
        invariant
            i <= items@.len(),
            out@.len() == i,
            forall|k: int| 0 <= k < i ==> session_read(#[trigger] items@[k], out@[k]),
        decreases items@.len() - i,
    {
        match Session::from_json(&items[i]) {
            Some(s) => out.push(s),
            None => {
                return None;
            },
        }
        i = i + 1;
    }
    Some(out)
}

/// The status a command response's `data` reports, if it reports one.
pub open spec fn reported_status(a: App, data: Json, b: App) -> bool {
    let st = json_str(json_get(data, "status"@));
    if st == Some("starting"@) {
        b.app_status == AppStatus::Starting && b.needs_tree_fetch == a.needs_tree_fetch
    } else if st == Some("running"@) {
        &&& b.app_status matches AppStatus::Running { pid, uri } && pid == (match json_u64(json_get(data, "pid"@)) {
            Some(n) => n as u32,
            None => 0u32,
        }) && uri@ == text_or(data, "uri"@, seq![])
        &&& b.needs_tree_fetch == (a.needs_tree_fetch || a.session.tree is None)
    } else if st == Some("stopped"@) || st == Some("not_running"@) {
        b.app_status == AppStatus::Stopped && b.needs_tree_fetch == a.needs_tree_fetch
    } else if st is Some {
        b.app_status == a.app_status && b.needs_tree_fetch == a.needs_tree_fetch
    } else if json_get(data, "pid"@) is Some {
        b.app_status == AppStatus::Starting && b.needs_tree_fetch == a.needs_tree_fetch
    } else {
        b.app_status == a.app_status && b.needs_tree_fetch == a.needs_tree_fetch
    }
}

/// The toast for a session record that cannot be read: the reader's
/// message after `Parse error: `, or a plain description where none was
/// given.
pub open spec fn parse_error_text(session_error: Option<String>) -> Seq<char> {
    match session_error {
        Some(m) => "Parse error: "@ + m@,
        None => "Parse error: invalid session record"@,
    }
}

/// `b` is `a` after the rest of a successful command response `data`,
/// once a tree it carries is shown: a session list replaces the list, a
/// session is added, selected and switched to, or a status is taken up.
pub open spec fn command_data_applied(a: App, data: Json, session_error: Option<String>, b: App) -> bool {
    &&& same_shell(a, b)
    &&& match json_get(data, "sessions"@) {
        Some(Json::Array(items)) => {
            &&& (forall|i: int| 0 <= i < items@.len() ==> session_readable(#[trigger] items@[i])) ==> {
                &&& b.sessions@.len() == items@.len()
                &&& forall|i: int| 0 <= i < items@.len() ==> session_read(#[trigger] items@[i], b.sessions@[i])
                &&& b.session_picker_index == (if a.selected_session is None && items@.len() > 0 {
                    0
                } else {
                    a.session_picker_index
                })
            }
            &&& !(forall|i: int| 0 <= i < items@.len() ==> session_readable(#[trigger] items@[i])) ==> b.sessions
                == a.sessions && b.session_picker_index == a.session_picker_index
            &&& b.session == a.session
            &&& b.session_states == a.session_states
            &&& b.selected_session == a.selected_session
            &&& b.app_status == a.app_status
            &&& b.needs_tree_fetch == a.needs_tree_fetch
            &&& b.toasts == a.toasts
            &&& same_view(a, b)
        },
        _ => match json_get(data, "session"@) {
            Some(sj) => if session_readable(sj) {
                let id = str_member(sj, "id"@)->0;
                let listed = exists|i: int| 0 <= i < a.sessions@.len() && (#[trigger] a.sessions@[i]).id@ == id@;
                &&& listed ==> b.sessions == a.sessions
                &&& !listed ==> b.sessions@.len() == a.sessions@.len() + 1 && b.sessions@.drop_last() == a.sessions@
                    && session_read(sj, b.sessions@.last())
                &&& b.selected_session == Some(id)
                &&& b.needs_tree_fetch
                &&& b.session_picker_index == b.sessions@.len() - 1
                &&& b.mode == Mode::Normal
                &&& b.app_status == a.app_status
                &&& exists|s: SessionState| #![trigger switch_result(a, id@, s, b.session_states@)]
                    switch_result(a, id@, s, b.session_states@) && b.session == (SessionState {
                        chat_messages: b.session.chat_messages,
                        ..s
                    }) && match json_get(data, "chatHistory"@) {
                        Some(h) => {
                            &&& b.toasts == a.toasts
                            &&& crate::chat::stored_history(h).len() > 0 ==> crate::chat::history_of(
                                h,
                                b.session.chat_messages@,
                            )
                            &&& crate::chat::stored_history(h).len() == 0 ==> b.session.chat_messages
                                == s.chat_messages
                        },
                        None => {
                            &&& b.session.chat_messages == s.chat_messages
                            &&& exists|t: Toast| #![trigger toasts_after_push(a.toasts@, t)]
                                t.message@ == "Session created"@ && t.level == ToastLevel::Success
                                && b.toasts@ == toasts_after_push(a.toasts@, t)
                        },
                    }
            } else {
                &&& b.sessions == a.sessions
                &&& b.session == a.session
                &&& b.session_states == a.session_states
                &&& b.selected_session == a.selected_session
                &&& b.session_picker_index == a.session_picker_index
                &&& b.app_status == a.app_status
                &&& b.needs_tree_fetch == a.needs_tree_fetch
                &&& same_view(a, b)
                &&& exists|t: Toast| #![trigger toasts_after_push(a.toasts@, t)]
                    t.message@ == parse_error_text(session_error) && t.level == ToastLevel::Error
                    && b.toasts@ == toasts_after_push(a.toasts@, t)
            },
            None => {
                &&& reported_status(a, data, b)
                &&& same_sessions(a, b)
                &&& b.session == a.session
                &&& b.toasts == a.toasts
                &&& same_view(a, b)
            },
        },
    }
}

/// `b` is `a` after the response `resp` to one of its commands: a failure
/// is shown as a toast; a tree (from `targets`, or `tree` alongside other
/// data) is shown; the rest is [`command_data_applied`].
pub open spec fn command_applied(a: App, resp: crate::protocol::CommandResponse, b: App) -> bool {
    if !resp.success {
        &&& b == (App { toasts: b.toasts, ..a })
        &&& match resp.error {
            Some(e) => exists|t: Toast| #![trigger toasts_after_push(a.toasts@, t)]
                t.message@ == e@ && t.level == ToastLevel::Error && b.toasts@ == toasts_after_push(a.toasts@, t),
            None => b.toasts == a.toasts,
        }
    } else {
        match json_get(resp.data, "targets"@) {
            Some(Json::Array(v)) => {
                &&& tree_shown(a, v@, b)
                &&& same_sessions(a, b)
                &&& same_view(a, b)
                &&& same_shell(a, b)
                &&& b.app_status == a.app_status
                &&& b.toasts == a.toasts
                &&& b.needs_tree_fetch == a.needs_tree_fetch
            },
            _ => exists|mid: App| #![trigger tree_step(a, resp.data, mid)]
                tree_step(a, resp.data, mid) && command_data_applied(mid, resp.data, resp.session_error, b),
        }
    }
}

/// `mid` is `a` with the tree that the member `tree` of `data` holds
/// shown, if it holds a list.
pub open spec fn tree_step(a: App, data: Json, mid: App) -> bool {
    &&& mid.wf() == a.wf()
    &&& match json_get(data, "tree"@) {
        Some(Json::Array(v)) => {
            &&& tree_shown(a, v@, mid)
            &&& same_sessions(a, mid)
            &&& same_view(a, mid)
            &&& same_shell(a, mid)
            &&& mid.app_status == a.app_status
            &&& mid.toasts == a.toasts
            &&& mid.needs_tree_fetch == a.needs_tree_fetch
        },
        _ => mid == a,
    }
}

impl App {
    fn show_tree_nodes(&mut self, items: &Vec<Json>)
        requires
            old(self).wf(),
        ensures
            final(self).wf(),
            tree_shown(*old(self), items@, *final(self)),
            same_sessions(*old(self), *final(self)),
            same_view(*old(self), *final(self)),
            same_shell(*old(self), *final(self)),
            final(self).app_status == old(self).app_status,
            final(self).toasts == old(self).toasts,
            final(self).needs_tree_fetch == old(self).needs_tree_fetch,
    {
        let nodes = read_nodes(items);
        let tree = InteractionTree { nodes, last_updated: Some(now_rfc3339()) };
        self.set_tree(tree);
    }

    fn take_up_status(&mut self, data: &Json)
        ensures
            reported_status(*old(self), *data, *final(self)),
            same_sessions(*old(self), *final(self)),
            final(self).session == old(self).session,
            final(self).toasts == old(self).toasts,
            same_view(*old(self), *final(self)),
            same_shell(*old(self), *final(self)),
    {
        proof {
            reveal_strlit("starting");
            reveal_strlit("running");
            assert("starting"@.len() != "running"@.len());
        }
        match get_str(data, "status") {
            Some(status) => {
                if str_eq(status, "starting") {
                    self.app_status = AppStatus::Starting;
                } else if str_eq(status, "running") {
                    let pid: u32 = match get_u64(data, "pid") {
                        Some(n) => n as u32,
                        None => 0,
                    };
                    let uri = match get_str(data, "uri") {
                        Some(u) => String::from_str(u),
                        None => String::new(),
                    };
                    self.app_status = AppStatus::Running { pid, uri };
                    if self.session.tree.is_none() {
                        self.needs_tree_fetch = true;
                    }
                } else if str_eq(status, "stopped") || str_eq(status, "not_running") {
                    self.app_status = AppStatus::Stopped;
                }
            },
            None => {
                if data.get("pid").is_some() {
                    self.app_status = AppStatus::Starting;
                }
            },
        }
    }

    fn adopt_session(&mut self, session: Session, data: Json, Ghost(session_error): Ghost<Option<String>>)
        requires
            old(self).wf(),
            json_get(data, "sessions"@) is None || !(json_get(data, "sessions"@)->0 is Array),
            json_get(data, "session"@) matches Some(sj) && session_read(sj, session),
        ensures
            final(self).wf(),
            command_data_applied(*old(self), data, session_error, *final(self)),
    {
        let ghost a = *self;
        let session_id = session.id.clone();
        if !self.lists_session(&session_id) {
            let ghost before = self.sessions@;
            self.sessions.push(session);
            assert(self.sessions@.drop_last() =~= before);
        }
        self.switch_to_session(session_id);
        let ghost switched_state = self.session;
        let n = self.sessions.len();
        self.session_picker_index = if n > 0 { n - 1 } else { 0 };
        self.mode = Mode::Normal;
        match into_member(data, "chatHistory") {
            Some(history) => {
                let messages = crate::chat::parse_chat_history(history);
                if messages.len() > 0 {
                    self.session.chat_messages = messages;
                }
            },
            None => {
                let toast = Toast::success("Session created");
                self.push_toast(toast);
            },
        }
        assert(switch_result(a, session_id@, switched_state, self.session_states@));
    }

    fn apply_command_data(&mut self, data: Json, session_error: Option<String>)
        requires
            old(self).wf(),
        ensures
            final(self).wf(),
            command_data_applied(*old(self), data, session_error, *final(self)),
    {
        match data.get("sessions") {
            Some(Json::Array(items)) => {
                match read_sessions(items) {
                    Some(parsed) => {
                        let any = parsed.len() > 0;
                        self.sessions = parsed;
                        if self.selected_session.is_none() && any {
                            self.session_picker_index = 0;
                        }
                    },
                    None => {},
                }
                return;
            },
            _ => {},
        }
        let parsed = match data.get("session") {
            Some(sj) => Some(Session::from_json(sj)),
            None => None,
        };
        match parsed {
            Some(Some(session)) => {
                self.adopt_session(session, data, Ghost(session_error));
            },
            Some(None) => {
                let toast = match session_error {
                    Some(m) => {
                        let mut text = String::from_str("Parse error: ");
                        text.append(m.as_str());
                        Toast::error(text.as_str())
                    },
                    None => Toast::error("Parse error: invalid session record"),
                };
                self.push_toast(toast);
            },
            None => {
                self.take_up_status(&data);
            },
        }
    }

    /// Handles the response to a command: shows a failure, a tree, a
    /// session list or a new session, or takes up the app status reported.
    pub fn handle_command_response(&mut self, resp: crate::protocol::CommandResponse)
        requires
            old(self).wf(),
        ensures
            final(self).wf(),
            command_applied(*old(self), resp, *final(self)),
    {
        let crate::protocol::CommandResponse { id: _, success, data, error, session_error } = resp;
        if !success {
            match error {
                Some(e) => {
                    let toast = Toast::error(e.as_str());
                    self.push_toast(toast);
                },
                None => {},
            }
            return;
        }
        match data.get("targets") {
            Some(Json::Array(items)) => {
                self.show_tree_nodes(items);
                return;
            },
            _ => {},
        }
        match data.get("tree") {
            Some(Json::Array(items)) => {
                self.show_tree_nodes(items);
            },
            _ => {},
        }
        let ghost mid = *self;
        assert(tree_step(*old(self), data, mid));
        self.apply_command_data(data, session_error);
    }
}

/// The filter pattern matches `text`, ignoring case (no filter matches
/// everything).
pub open spec fn filter_matches(filter: Option<String>, text: Seq<char>) -> bool {
    match filter {
        None => true,
        Some(p) => has_infix(lower_text(text), lower_text(p@)),
    }
}

/// A line of Flutter output is shown: it is no noise and matches the
/// filter.
pub open spec fn shows_flutter(e: FlutterLogEntry, filter: Option<String>) -> bool {
    !noise(e.kind) && filter_matches(filter, e.raw@)
}

/// An interaction log line is shown: its message matches the filter.
pub open spec fn shows_interaction(e: LogEntry, filter: Option<String>) -> bool {
    filter_matches(filter, e.message@)
}

/// An agent event is shown: its source or type matches the filter.
pub open spec fn shows_agent(e: MonitoringEvent, filter: Option<String>) -> bool {
    match filter {
        None => true,
        Some(p) => has_infix(lower_text(e.source@), lower_text(p@)) || has_infix(
            lower_text(e.event_type@),
            lower_text(p@),
        ),
    }
}

/// The positions of the Flutter lines shown, in order.
pub open spec fn flutter_shown(q: Seq<FlutterLogEntry>, filter: Option<String>) -> Seq<int> {
    Seq::new(q.len(), |i: int| i).filter(|i: int| shows_flutter(q[i], filter))
}

/// The positions of the interaction lines shown, in order.
pub open spec fn interactions_shown(q: Seq<LogEntry>, filter: Option<String>) -> Seq<int> {
    Seq::new(q.len(), |i: int| i).filter(|i: int| shows_interaction(q[i], filter))
}

/// The positions of the agent events shown, in order.
pub open spec fn agent_shown(q: Seq<MonitoringEvent>, filter: Option<String>) -> Seq<int> {
    Seq::new(q.len(), |i: int| i).filter(|i: int| shows_agent(q[i], filter))
}

/// With a filter, an agent event is listed when its source contains the
/// filter text, whatever its type, and when its type contains it, whatever
/// its source (both ignoring case); a listed event has one or the other.
/// Without a filter every agent event is listed.
pub proof fn lemma_agent_filter(q: Seq<MonitoringEvent>, filter: Option<String>, i: int)
    requires
        0 <= i < q.len(),
    ensures
        filter is None ==> agent_shown(q, filter).contains(i),
        filter matches Some(p) && has_infix(lower_text(q[i].source@), lower_text(p@)) ==> agent_shown(
            q,
            filter,
        ).contains(i),
        filter matches Some(p) && has_infix(lower_text(q[i].event_type@), lower_text(p@)) ==> agent_shown(
            q,
            filter,
        ).contains(i),
        agent_shown(q, filter).contains(i) ==> (filter matches Some(p) ==> has_infix(
            lower_text(q[i].source@),
            lower_text(p@),
        ) || has_infix(lower_text(q[i].event_type@), lower_text(p@))),
{
    let all = Seq::new(q.len(), |k: int| k);
    let keep = |k: int| shows_agent(q[k], filter);
    assert(all[i] == i);
    if keep(i) {
        all.lemma_filter_contains(keep, i);
    }
    if agent_shown(q, filter).contains(i) {
        let j = choose|j: int| 0 <= j < all.filter(keep).len() && all.filter(keep)[j] == i;
        all.lemma_filter_pred(keep, j);
    }
}

/// A line of Flutter output is listed exactly when it is no noise and,
/// with a filter, its raw text contains the filter text, ignoring case.
pub proof fn lemma_flutter_filter(q: Seq<FlutterLogEntry>, filter: Option<String>, i: int)
    requires
        0 <= i < q.len(),
    ensures
        flutter_shown(q, filter).contains(i) <==> !noise(q[i].kind) && (filter matches Some(p) ==> has_infix(
            lower_text(q[i].raw@),
            lower_text(p@),
        )),
{
    let all = Seq::new(q.len(), |k: int| k);
    let keep = |k: int| shows_flutter(q[k], filter);
    assert(all[i] == i);
    if keep(i) {
        all.lemma_filter_contains(keep, i);
    }
    if flutter_shown(q, filter).contains(i) {
        let j = choose|j: int| 0 <= j < all.filter(keep).len() && all.filter(keep)[j] == i;
        all.lemma_filter_pred(keep, j);
    }
}

/// An interaction log line is listed exactly when, with a filter, its
/// message contains the filter text, ignoring case.
pub proof fn lemma_interaction_filter(q: Seq<LogEntry>, filter: Option<String>, i: int)
    requires
        0 <= i < q.len(),
    ensures
        interactions_shown(q, filter).contains(i) <==> (filter matches Some(p) ==> has_infix(
            lower_text(q[i].message@),
            lower_text(p@),
        )),
{
    let all = Seq::new(q.len(), |k: int| k);
    let keep = |k: int| shows_interaction(q[k], filter);
    assert(all[i] == i);
    if keep(i) {
        all.lemma_filter_contains(keep, i);
    }
    if interactions_shown(q, filter).contains(i) {
        let j = choose|j: int| 0 <= j < all.filter(keep).len() && all.filter(keep)[j] == i;
        all.lemma_filter_pred(keep, j);
    }
}

fn filter_pattern(filter: &Option<String>) -> (r: Option<String>)
    ensures
        match *filter {
            None => r is None,
            Some(p) => r matches Some(l) && l@ == lower_text(p@),
        },
{
    match filter {
        None => None,
        Some(p) => Some(lowercase(p.as_str())),
    }
}

fn matches_pattern(pattern: &Option<String>, text: &str) -> (r: bool)
    ensures
        match *pattern {
            None => r,
            Some(l) => r == has_infix(lower_text(text@), l@),
        },
{
    match pattern {
        None => true,
        Some(l) => {
            let t = lowercase(text);
            contains_text(t.as_str(), l.as_str())
        },
    }
}

proof fn lemma_positions_step(n: int, i: int, keep: spec_fn(int) -> bool)
    requires
        0 <= i < n,
    ensures
        Seq::new((i + 1) as nat, |k: int| k).filter(keep) == (if keep(i) {
            Seq::new(i as nat, |k: int| k).filter(keep).push(i)
        } else {
            Seq::new(i as nat, |k: int| k).filter(keep)
        }),
{
    reveal(Seq::filter);
    let s1 = Seq::new((i + 1) as nat, |k: int| k);
    assert(s1.drop_last() =~= Seq::new(i as nat, |k: int| k));
}

impl App {
    /// The positions of the Flutter lines shown: no noise, and matching the
    /// filter.
    pub fn filtered_flutter_logs(&self) -> (r: Vec<usize>)
        ensures
            r@.map_values(|i: usize| i as int) == flutter_shown(self.session.flutter_logs@, self.filter),
    {
        let pattern = filter_pattern(&self.filter);
        let q = &self.session.flutter_logs;
        let ghost keep = |i: int| shows_flutter(q@[i], self.filter);
        let mut out: Vec<usize> = Vec::new();
        let mut i: usize = 0;
        while i < q.len()
            invariant
                i <= q@.len(),
                keep == (|i: int| shows_flutter(q@[i], self.filter)),
                match self.filter {
                    None => pattern is None,
                    Some(p) => pattern matches Some(l) && l@ == lower_text(p@),
                },
                out@.map_values(|k: usize| k as int) == Seq::new(i as nat, |k: int| k).filter(keep),
            decreases q@.len() - i,
        {
            proof { lemma_positions_step(q@.len() as int, i as int, keep); }
            let e = &q[i];
            let show = !e.is_noise() && matches_pattern(&pattern, e.raw.as_str());
            let ghost before = out@;
            if show {
                out.push(i);
                assert(out@.map_values(|k: usize| k as int) =~= before.map_values(|k: usize| k as int).push(i as int));
            }
            i = i + 1;
        }
        assert(Seq::new(q@.len(), |i: int| i).filter(keep) == flutter_shown(q@, self.filter));
        out
    }
}

impl App {
    /// The positions of the interaction lines shown: those matching the
    /// filter.
    pub fn filtered_interaction_logs(&self) -> (r: Vec<usize>)
        ensures
            r@.map_values(|i: usize| i as int) == interactions_shown(self.session.interaction_logs@, self.filter),
    {
        let pattern = filter_pattern(&self.filter);
        let q = &self.session.interaction_logs;
        let ghost keep = |i: int| shows_interaction(q@[i], self.filter);
        let mut out: Vec<usize> = Vec::new();
        let mut i: usize = 0;
        while i < q.len()
            invariant
                i <= q@.len(),
                keep == (|i: int| shows_interaction(q@[i], self.filter)),
                match self.filter {
                    None => pattern is None,
                    Some(p) => pattern matches Some(l) && l@ == lower_text(p@),
                },
                out@.map_values(|k: usize| k as int) == Seq::new(i as nat, |k: int| k).filter(keep),
            decreases q@.len() - i,
        {
            proof { lemma_positions_step(q@.len() as int, i as int, keep); }
            let show = matches_pattern(&pattern, q[i].message.as_str());
            let ghost before = out@;
            if show {
                out.push(i);
                assert(out@.map_values(|k: usize| k as int) =~= before.map_values(|k: usize| k as int).push(i as int));
            }
            i = i + 1;
        }
        assert(Seq::new(q@.len(), |i: int| i).filter(keep) == interactions_shown(q@, self.filter));
        out
    }

    /// The positions of the agent events shown: those whose source or type
    /// matches the filter.
    pub fn filtered_agent_events(&self) -> (r: Vec<usize>)
        ensures
            r@.map_values(|i: usize| i as int) == agent_shown(self.session.agent_events@, self.filter),
    {
        let pattern = filter_pattern(&self.filter);
        let q = &self.session.agent_events;
        let ghost keep = |i: int| shows_agent(q@[i], self.filter);
        let mut out: Vec<usize> = Vec::new();
        let mut i: usize = 0;
        while i < q.len()
            invariant
                i <= q@.len(),
                keep == (|i: int| shows_agent(q@[i], self.filter)),
                match self.filter {
                    None => pattern is None,
                    Some(p) => pattern matches Some(l) && l@ == lower_text(p@),
                },
                out@.map_values(|k: usize| k as int) == Seq::new(i as nat, |k: int| k).filter(keep),
            decreases q@.len() - i,
        {
            proof { lemma_positions_step(q@.len() as int, i as int, keep); }
            let show = matches_pattern(&pattern, q[i].source.as_str()) || matches_pattern(
                &pattern,
                q[i].event_type.as_str(),
            );
            let ghost before = out@;
            if show {
                out.push(i);
                assert(out@.map_values(|k: usize| k as int) =~= before.map_values(|k: usize| k as int).push(i as int));
            }
            i = i + 1;
        }
        assert(Seq::new(q@.len(), |i: int| i).filter(keep) == agent_shown(q@, self.filter));
        out
    }
}

/// The number of lines the tab shows (none for the tree tab).
pub open spec fn log_count(a: App) -> nat {
    match a.content_tab {
        ContentTab::Flutter => flutter_shown(a.session.flutter_logs@, a.filter).len(),
        ContentTab::Agent => agent_shown(a.session.agent_events@, a.filter).len(),
        ContentTab::Interactions => interactions_shown(a.session.interaction_logs@, a.filter).len(),
        ContentTab::Tree => 0,
    }
}

/// `b` is `a` with only the log viewer (and the scroll offset that
/// mirrors it) changed.
pub open spec fn only_log_view_changed(a: App, b: App) -> bool {
    b == (App { log_view: b.log_view, scroll_offset: b.scroll_offset, ..a })
}

/// `b` is `a` after [`App::scroll_up`].
pub open spec fn scroll_up_done(a: App, b: App) -> bool {
    &&& only_log_view_changed(a, b)
    &&& ({
            let count = log_count(a);
            let c0 = if count == 0 { 0 } else if a.log_view.cursor >= count {
                (count - 1) as int
            } else {
                a.log_view.cursor as int
            };
            &&& b.log_view.cursor == (if c0 > 0 { c0 - 1 } else { 0 })
            &&& b.log_view.scroll <= b.log_view.cursor
        })
    &&& b.scroll_offset == b.log_view.scroll
}

/// `b` is `a` after [`App::scroll_down`].
pub open spec fn scroll_down_done(a: App, b: App) -> bool {
    &&& only_log_view_changed(a, b)
    &&& log_count(a) == 0 ==> b == a
    &&& log_count(a) > 0 ==> {
            let count = log_count(a);
            let c0 = if a.log_view.cursor >= count {
                (count - 1) as int
            } else {
                a.log_view.cursor as int
            };
            &&& b.log_view.cursor == (if c0 + 1 < count { c0 + 1 } else { c0 })
            &&& b.log_view.scroll <= b.log_view.cursor
            &&& a.log_viewport_height > 0 ==> b.log_view.cursor < b.log_view.scroll
                + a.log_viewport_height
            &&& b.scroll_offset == b.log_view.scroll
        }
}

/// `b` is `a` after [`App::scroll_to_top`].
pub open spec fn scroll_to_top_done(a: App, b: App) -> bool {
    &&& only_log_view_changed(a, b)
    &&& b.log_view.cursor == 0
    &&& b.log_view.scroll == 0
    &&& b.scroll_offset == 0
}

/// `b` is `a` after [`App::scroll_to_bottom`].
pub open spec fn scroll_to_bottom_done(a: App, b: App) -> bool {
    &&& only_log_view_changed(a, b)
    &&& ({
            let count = log_count(a);
            let h = a.log_viewport_height;
            &&& b.log_view.cursor == (if count == 0 { 0 } else { count - 1 })
            &&& b.log_view.scroll == (if h == 0 || count <= h { 0 } else { count - h })
        })
    &&& b.scroll_offset == b.log_view.scroll
}

/// `b` is `a` after [`App::toggle_visual_mode`].
pub open spec fn toggle_visual_mode_done(a: App, b: App) -> bool {
    &&& b == (App { log_view: b.log_view, ..a })
    &&& a.log_view.mode == crate::types::LogViewMode::Normal ==> b.log_view.mode
            == crate::types::LogViewMode::Visual && b.log_view.anchor == a.log_view.cursor
    &&& a.log_view.mode == crate::types::LogViewMode::Visual ==> b.log_view.mode
            == crate::types::LogViewMode::Normal
    &&& b.log_view.cursor == a.log_view.cursor
}

/// `b` is `a` after [`App::exit_visual_mode`].
pub open spec fn exit_visual_mode_done(a: App, b: App) -> bool {
    &&& b == (App { log_view: b.log_view, ..a })
    &&& b.log_view == (LogViewState { mode: crate::types::LogViewMode::Normal, ..a.log_view })
}

impl App {
    /// The number of lines the current tab shows.
    pub fn current_log_count(&self) -> (r: usize)
        ensures
            r == log_count(*self),
    {
        match self.content_tab {
            ContentTab::Flutter => {
                let v = self.filtered_flutter_logs();
                proof { assert(v@.map_values(|i: usize| i as int).len() == v@.len()); }
                v.len()
            },
            ContentTab::Agent => {
                let v = self.filtered_agent_events();
                proof { assert(v@.map_values(|i: usize| i as int).len() == v@.len()); }
                v.len()
            },
            ContentTab::Interactions => {
                let v = self.filtered_interaction_logs();
                proof { assert(v@.map_values(|i: usize| i as int).len() == v@.len()); }
                v.len()
            },
            ContentTab::Tree => 0,
        }
    }

    /// Moves the log cursor up one line.
    pub fn scroll_up(&mut self)
        ensures
            scroll_up_done(*old(self), *final(self)),
    {
        let count = self.current_log_count();
        self.log_view.clamp_cursor(count);
        self.log_view.cursor_up(self.log_viewport_height);
        self.scroll_offset = self.log_view.scroll;
    }

    /// Moves the log cursor down one line, stopping at the last line.
    pub fn scroll_down(&mut self)
        ensures
            scroll_down_done(*old(self), *final(self)),
    {
        let count = self.current_log_count();
        if count == 0 {
            return;
        }
        self.log_view.clamp_cursor(count);
        self.log_view.cursor_down(count, self.log_viewport_height);
        self.scroll_offset = self.log_view.scroll;
    }

    /// Moves the log cursor to the first line.
    pub fn scroll_to_top(&mut self)
        ensures
            scroll_to_top_done(*old(self), *final(self)),
    {
        self.log_view.cursor_top();
        self.scroll_offset = self.log_view.scroll;
    }

    /// Moves the log cursor to the last line, the viewport ending on it.
    pub fn scroll_to_bottom(&mut self)
        ensures
            scroll_to_bottom_done(*old(self), *final(self)),
    {
        let count = self.current_log_count();
        self.log_view.cursor_bottom(count, self.log_viewport_height);
        self.scroll_offset = self.log_view.scroll;
    }

    /// Starts or ends selecting lines.
    pub fn toggle_visual_mode(&mut self)
        ensures
            toggle_visual_mode_done(*old(self), *final(self)),
    {
        self.log_view.toggle_visual();
    }

    /// Stops selecting lines without copying them.
    pub fn exit_visual_mode(&mut self)
        ensures
            exit_visual_mode_done(*old(self), *final(self)),
    {
        self.log_view.exit_visual();
    }

    /// Whether lines are being selected.
    pub fn in_visual_mode(&self) -> (r: bool)
        ensures
            r == (self.log_view.mode == crate::types::LogViewMode::Visual),
    {
        match self.log_view.mode {
            crate::types::LogViewMode::Visual => true,
            crate::types::LogViewMode::Normal => false,
        }
    }

    /// Puts the log viewer back at the top, not selecting.
    pub fn reset_log_view(&mut self)
        ensures
            only_log_view_changed(*old(self), *final(self)),
            final(self).log_view == (LogViewState {
                cursor: 0,
                scroll: 0,
                mode: crate::types::LogViewMode::Normal,
                anchor: 0,
            }),
            final(self).scroll_offset == 0,
    {
        self.log_view = LogViewState::new();
        self.scroll_offset = 0;
    }
}

/// Lines joined by newlines.
pub open spec fn join_lines(ls: Seq<Seq<char>>) -> Seq<char>
    decreases ls.len(),
{
    if ls.len() == 0 {
        seq![]
    } else if ls.len() == 1 {
        ls[0]
    } else {
        join_lines(ls.drop_last()) + "\n"@ + ls.last()
    }
}

/// The text of the shown Flutter lines.
pub open spec fn flutter_lines(a: App) -> Seq<Seq<char>> {
    flutter_shown(a.session.flutter_logs@, a.filter).map_values(|i: int| plain_text(a.session.flutter_logs@[i].kind))
}

/// The text of an agent event line: time, type and payload.
pub open spec fn agent_line(e: MonitoringEvent) -> Seq<char> {
    "["@ + e.ts@ + "] "@ + e.event_type@ + ": "@ + json_display(e.payload)
}

/// The text of the shown agent events.
pub open spec fn agent_lines(a: App) -> Seq<Seq<char>> {
    agent_shown(a.session.agent_events@, a.filter).map_values(|i: int| agent_line(a.session.agent_events@[i]))
}

/// The text of an interaction line: time and message.
pub open spec fn interaction_line(e: LogEntry) -> Seq<char> {
    "["@ + e.ts@ + "] "@ + e.message@
}

/// The text of the shown interaction lines.
pub open spec fn interaction_lines(a: App) -> Seq<Seq<char>> {
    interactions_shown(a.session.interaction_logs@, a.filter).map_values(
        |i: int| interaction_line(a.session.interaction_logs@[i]),
    )
}

/// The lines of `ls` from `start` to `end`, both included, as far as there
/// are any.
pub open spec fn line_window(ls: Seq<Seq<char>>, start: int, end: int) -> Seq<Seq<char>> {
    let lo = if start < ls.len() { start } else { ls.len() as int };
    let hi = if end < ls.len() { end + 1 } else { ls.len() as int };
    ls.subrange(lo, if hi < lo { lo } else { hi })
}

/// The lines a yank copies: the selection in visual mode, else the line
/// under the cursor.
pub open spec fn yank_range(v: LogViewState) -> (int, int) {
    match v.mode {
        crate::types::LogViewMode::Visual => if v.anchor <= v.cursor {
            (v.anchor as int, v.cursor as int)
        } else {
            (v.cursor as int, v.anchor as int)
        },
        crate::types::LogViewMode::Normal => (v.cursor as int, v.cursor as int),
    }
}

fn push_line(out: &mut String, first: bool, line: &str)
    ensures
        final(out)@ == if first { old(out)@ + line@ } else { old(out)@ + "\n"@ + line@ },
{
    if !first {
        out.append("\n");
    }
    out.append(line);
}

impl App {
    /// The text of the shown line at position `k` of the current tab.
    fn shown_line(&self, shown: &Vec<usize>, k: usize) -> (r: String)
        requires
            k < shown@.len(),
            self.content_tab != ContentTab::Tree,
            self.content_tab == ContentTab::Flutter ==> shown@.map_values(|i: usize| i as int) == flutter_shown(
                self.session.flutter_logs@,
                self.filter,
            ),
            self.content_tab == ContentTab::Agent ==> shown@.map_values(|i: usize| i as int) == agent_shown(
                self.session.agent_events@,
                self.filter,
            ),
            self.content_tab == ContentTab::Interactions ==> shown@.map_values(|i: usize| i as int)
                == interactions_shown(self.session.interaction_logs@, self.filter),
        ensures
            self.content_tab == ContentTab::Flutter ==> r@ == flutter_lines(*self)[k as int],
            self.content_tab == ContentTab::Agent ==> r@ == agent_lines(*self)[k as int],
            self.content_tab == ContentTab::Interactions ==> r@ == interaction_lines(*self)[k as int],
    {
        let i = shown[k];
        assert(shown@.map_values(|i: usize| i as int)[k as int] == i as int);
        match self.content_tab {
            ContentTab::Flutter => {
                proof {
                    crate::app::lemma_filter_positions(self.session.flutter_logs@.len() as int,
                        |j: int| shows_flutter(self.session.flutter_logs@[j], self.filter), k as int);
                }
                self.session.flutter_logs[i].to_plain_text()
            },
            ContentTab::Agent => {
                proof {
                    crate::app::lemma_filter_positions(self.session.agent_events@.len() as int,
                        |j: int| shows_agent(self.session.agent_events@[j], self.filter), k as int);
                }
                let e = &self.session.agent_events[i];
                let mut out = String::from_str("[");
                out.append(e.ts.as_str());
                out.append("] ");
                out.append(e.event_type.as_str());
                out.append(": ");
                let payload = print_json(&e.payload);
                out.append(payload.as_str());
                out
            },
            _ => {
                proof {
                    crate::app::lemma_filter_positions(self.session.interaction_logs@.len() as int,
                        |j: int| shows_interaction(self.session.interaction_logs@[j], self.filter), k as int);
                }
                let e = &self.session.interaction_logs[i];
                let mut out = String::from_str("[");
                out.append(e.ts.as_str());
                out.append("] ");
                out.append(e.message.as_str());
                out
            },
        }
    }
}

/// The positions a filter keeps lie within the sequence.
pub proof fn lemma_filter_positions(n: int, keep: spec_fn(int) -> bool, k: int)
    requires
        0 <= n,
        0 <= k < Seq::new(n as nat, |i: int| i).filter(keep).len(),
    ensures
        0 <= Seq::new(n as nat, |i: int| i).filter(keep)[k] < n,
{
    let s = Seq::new(n as nat, |i: int| i);
    let x = s.filter(keep)[k];
    assert(s.filter(keep).contains(x));
    s.lemma_filter_contains_rev(keep, x);
    let j = choose|j: int| 0 <= j < s.len() && s[j] == x;
    assert(s[j] == j);
}

/// The text of the lines the current tab shows.
pub open spec fn tab_lines(a: App) -> Seq<Seq<char>> {
    match a.content_tab {
        ContentTab::Flutter => flutter_lines(a),
        ContentTab::Agent => agent_lines(a),
        ContentTab::Interactions => interaction_lines(a),
        ContentTab::Tree => seq![],
    }
}

/// `b` is `a` after [`App::yank_logs`] returned `r`.
pub open spec fn yank_done(a: App, b: App, r: Option<String>) -> bool {
    &&& a.content_tab == ContentTab::Tree ==> r is None && b == a
    &&& a.content_tab != ContentTab::Tree ==> {
        let range = yank_range(a.log_view);
        let text = join_lines(line_window(tab_lines(a), range.0, range.1));
        &&& b == (App { log_view: LogViewState { mode: crate::types::LogViewMode::Normal, ..a.log_view }, ..a })
        &&& text.len() == 0 ==> r is None
        &&& text.len() > 0 ==> (r matches Some(t) && t@ == text)
    }
}

impl App {
    /// Copies the selected lines (or the line under the cursor) of the
    /// current tab as text, one per line, and stops selecting. Nothing is
    /// copied from the tree tab or when the text would be empty.
    pub fn yank_logs(&mut self) -> (r: Option<String>)
        ensures
            yank_done(*old(self), *final(self), r),
    {
        let (start, end) = match self.log_view.selection_range() {
            Some(range) => range,
            None => (self.log_view.cursor, self.log_view.cursor),
        };
        let shown = match self.content_tab {
            ContentTab::Flutter => self.filtered_flutter_logs(),
            ContentTab::Agent => self.filtered_agent_events(),
            ContentTab::Interactions => self.filtered_interaction_logs(),
            ContentTab::Tree => {
                return None;
            },
        };
        let ghost lines = tab_lines(*self);
        proof {
            assert(shown@.map_values(|i: usize| i as int).len() == shown@.len());
            assert(lines.len() == shown@.len());
        }
        let n = shown.len();
        let lo = if start < n { start } else { n };
        let hi0 = if end < n { end + 1 } else { n };
        let hi = if hi0 < lo { lo } else { hi0 };
        let mut text = String::new();
        let mut k = lo;
        while k < hi
            invariant
                lo <= k <= hi <= n,
                n == shown@.len(),
                lines.len() == n,
                lines == tab_lines(*self),
                self.content_tab != ContentTab::Tree,
                self.content_tab == ContentTab::Flutter ==> shown@.map_values(|i: usize| i as int) == flutter_shown(
                    self.session.flutter_logs@,
                    self.filter,
                ),
                self.content_tab == ContentTab::Agent ==> shown@.map_values(|i: usize| i as int) == agent_shown(
                    self.session.agent_events@,
                    self.filter,
                ),
                self.content_tab == ContentTab::Interactions ==> shown@.map_values(|i: usize| i as int)
                    == interactions_shown(self.session.interaction_logs@, self.filter),
                text@ == join_lines(lines.subrange(lo as int, k as int)),
            decreases hi - k,
        {
            let line = self.shown_line(&shown, k);
            proof {
                let next = lines.subrange(lo as int, k + 1);
                assert(next.drop_last() =~= lines.subrange(lo as int, k as int));
                assert(line@ == lines[k as int]);
            }
            push_line(&mut text, k == lo, line.as_str());
            k = k + 1;
        }
        assert(lines.subrange(lo as int, hi as int) == line_window(lines, start as int, end as int));
        self.log_view.exit_visual();
        if text.as_str().unicode_len() == 0 {
            None
        } else {
            Some(text)
        }
    }
}

} // verus!
