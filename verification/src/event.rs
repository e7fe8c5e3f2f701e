//! How the monitor answers keys, mouse wheel turns and connection events:
//! each handler changes the state and says what the event loop must send
//! to the daemon or copy to the clipboard.

use vstd::prelude::*;
use crate::app::{
    agent_response_applied, chat_scroll_down_done, chat_scroll_to_bottom_done, chat_scroll_to_top_done,
    chat_scroll_up_done, clear_events_done, command_applied, event_applied, exit_visual_mode_done, log_count,
    next_tab_done, only_log_view_changed, prev_tab_done, same_sessions, same_view, scroll_down_done,
    scroll_to_bottom_done, scroll_to_top_done, scroll_up_done, status_of_session, stream_event_applied,
    switched_sessions, toasts_after_push, toggle_visual_mode_done, tree_collapse_all_done, tree_down_done,
    tree_expand_all_done, tree_left_done, tree_right_done, tree_toggle_done, tree_up_done, yank_done, App,
};
use crate::json::{Json, JsonNumber};
use crate::chat::{ChatContent, ChatMessage, ChatRole, StreamingState};
use crate::text::decimal;
use crate::types::InteractionAction;
use vstd::utf8::{encode_utf8, is_char_boundary};
use crate::protocol::{session_from_summary, IncomingMessage, Session, SessionSummary};
use crate::session::tree_opened;
use crate::types::{ConfirmAction, ContentTab, InputPromptKind, Mode, Toast, ToastLevel, WsState};

verus! {

/// A key as the monitor tells keys apart.
#[derive(Debug, Clone, Copy, PartialEq, Eq, Structural)]
pub enum Key {
    Char(char),
    Enter,
    Esc,
    Backspace,
    Delete,
    Left,
    Right,
    Up,
    Down,
    Home,
    End,
    Tab,
    Other,
}

/// A key press, with whether Control was held.
#[derive(Debug, Clone, Copy, PartialEq, Eq, Structural)]
pub struct KeyPress {
    pub key: Key,
    pub ctrl: bool,
}

/// A command for the daemon: its action and its data.
#[derive(Debug, PartialEq, Eq)]
pub struct Request {
    pub action: String,
    pub data: Option<Json>,
}

/// What the event loop must do after an event.
#[derive(Debug, PartialEq, Eq)]
pub enum Effect {
    /// Send a command to the daemon.
    Send(Request),
    /// Copy text to the clipboard, then report with
    /// [`App::report_copy`].
    Copy(String),
}

/// The mouse wheel.
#[derive(Debug, Clone, Copy, PartialEq, Eq, Structural)]
pub enum Wheel {
    Up,
    Down,
    Other,
}

/// What the connection to the daemon reports.
#[derive(Debug, PartialEq, Eq)]
pub enum WsEvent {
    Connected { client_id: String, daemon_version: String, sessions: Vec<SessionSummary> },
    Disconnected,
    Error(String),
    Message(IncomingMessage),
}

/// `e` sends command `action` without data.
pub open spec fn sends(e: Option<Effect>, action: Seq<char>) -> bool {
    e matches Some(Effect::Send(q)) && q.action@ == action && q.data is None
}

/// `j` is an object whose members are the given names and texts, in order.
pub open spec fn text_object(j: Json, members: Seq<(Seq<char>, Seq<char>)>) -> bool {
    j matches Json::Object(ms) && ms@.len() == members.len() && forall|i: int|
        0 <= i < members.len() ==> (#[trigger] ms@[i]).0@ == members[i].0 && (ms@[i].1 matches Json::String(
            s,
        ) && s@ == members[i].1)
}

/// `e` sends command `action` with an object of texts as data.
pub open spec fn sends_texts(e: Option<Effect>, action: Seq<char>, members: Seq<(Seq<char>, Seq<char>)>) -> bool {
    e matches Some(Effect::Send(q)) && q.action@ == action && (q.data matches Some(d) && text_object(d, members))
}

pub(crate) fn request(action: &str) -> (r: Option<Effect>)
    ensures
        sends(r, action@),
{
    Some(Effect::Send(Request { action: String::from_str(action), data: None }))
}

pub(crate) fn request_with(action: &str, members: Vec<(String, String)>) -> (r: Option<Effect>)
    ensures
        sends_texts(r, action@, members@.map_values(|m: (String, String)| (m.0@, m.1@))),
{
    let ghost want = members@.map_values(|m: (String, String)| (m.0@, m.1@));
    let mut out: Vec<(String, Json)> = Vec::new();
    let mut i: usize = 0;
    while i < members.len()
        invariant
            i <= members@.len(),
            want == members@.map_values(|m: (String, String)| (m.0@, m.1@)),
            out@.len() == i,
            forall|k: int| 0 <= k < i ==> (#[trigger] out@[k]).0@ == want[k].0 && (out@[k].1 matches Json::String(
                s,
            ) && s@ == want[k].1),
        decreases members@.len() - i,
    {
        let name = members[i].0.clone();
        let value = members[i].1.clone();
        out.push((name, Json::String(value)));
        i = i + 1;
    }
    Some(Effect::Send(Request { action: String::from_str(action), data: Some(Json::Object(out)) }))
}

pub(crate) fn pair(name: &str, value: String) -> (r: (String, String))
    ensures
        r.0@ == name@,
        r.1 == value,
{
    (String::from_str(name), value)
}

/// `b` is `a` with only the mode changed.
pub open spec fn only_mode_changed(a: App, b: App) -> bool {
    b == (App { mode: b.mode, ..a })
}

/// Answers a key in the filter prompt: Enter applies the typed pattern (an
/// empty one clears the filter), Esc cancels, other keys edit it.
pub fn handle_filter_mode(app: &mut App, key: KeyPress)
    ensures
        match key.key {
            Key::Esc => *final(app) == (App { mode: Mode::Normal, input_buffer: final(app).input_buffer, ..*old(app) })
                && final(app).input_buffer@.len() == 0,
            Key::Enter => {
                &&& *final(app) == (App {
                    mode: Mode::Normal,
                    input_buffer: final(app).input_buffer,
                    filter: final(app).filter,
                    scroll_offset: 0,
                    ..*old(app)
                })
                &&& final(app).input_buffer@.len() == 0
                &&& old(app).input_buffer@.len() == 0 ==> final(app).filter is None
                &&& old(app).input_buffer@.len() > 0 ==> final(app).filter == Some(old(app).input_buffer)
            },
            Key::Backspace => *final(app) == (App { input_buffer: final(app).input_buffer, ..*old(app) })
                && final(app).input_buffer@ == (if old(app).input_buffer@.len() > 0 {
                old(app).input_buffer@.drop_last()
            } else {
                old(app).input_buffer@
            }),
            Key::Char(c) => *final(app) == (App { input_buffer: final(app).input_buffer, ..*old(app) })
                && final(app).input_buffer@ == old(app).input_buffer@.push(c),
            _ => *final(app) == *old(app),
        },
{
    match key.key {
        Key::Esc => {
            app.mode = Mode::Normal;
            app.input_buffer = String::new();
        },
        Key::Enter => {
            if app.input_buffer.as_str().unicode_len() == 0 {
                app.filter = None;
            } else {
                app.filter = Some(app.input_buffer.clone());
            }
            app.input_buffer = String::new();
            app.mode = Mode::Normal;
            app.scroll_offset = 0;
        },
        Key::Backspace => {
            pop_char(&mut app.input_buffer);
        },
        Key::Char(c) => {
            crate::text::push_char(&mut app.input_buffer, c);
        },
        _ => {},
    }
}

/// `String::pop`: removes the last character, if any.
#[verifier::external_body]
fn pop_char(s: &mut String) -> (r: Option<char>)
    ensures
        old(s)@.len() == 0 ==> final(s)@ == old(s)@ && r is None,
        old(s)@.len() > 0 ==> final(s)@ == old(s)@.drop_last() && r == Some(old(s)@.last()),
{
    s.pop()
}

/// Answers a key in the help overlay: Esc, `q` or `?` closes it.
pub fn handle_help_mode(app: &mut App, key: KeyPress)
    ensures
        (key.key == Key::Esc || key.key == Key::Char('q') || key.key == Key::Char('?')) ==> only_mode_changed(
            *old(app),
            *final(app),
        ) && final(app).mode == Mode::Normal,
        !(key.key == Key::Esc || key.key == Key::Char('q') || key.key == Key::Char('?')) ==> *final(app)
            == *old(app),
{
    match key.key {
        Key::Esc | Key::Char('q') | Key::Char('?') => {
            app.mode = Mode::Normal;
        },
        _ => {},
    }
}

/// Answers a key in a confirmation: `y` confirms, `n` or Esc cancels.
pub fn handle_confirm_mode(app: &mut App, key: KeyPress, action: ConfirmAction)
    ensures
        (key.key == Key::Char('y') || key.key == Key::Char('Y')) ==> *final(app) == (App {
            should_quit: true,
            ..*old(app)
        }),
        (key.key == Key::Char('n') || key.key == Key::Char('N') || key.key == Key::Esc) ==> only_mode_changed(
            *old(app),
            *final(app),
        ) && final(app).mode == Mode::Normal,
        !(key.key == Key::Char('y') || key.key == Key::Char('Y') || key.key == Key::Char('n') || key.key
            == Key::Char('N') || key.key == Key::Esc) ==> *final(app) == *old(app),
{
    match key.key {
        Key::Char('y') | Key::Char('Y') => match action {
            ConfirmAction::Quit => {
                app.should_quit = true;
            },
        },
        Key::Char('n') | Key::Char('N') | Key::Esc => {
            app.mode = Mode::Normal;
        },
        _ => {},
    }
}

/// Answers the mouse wheel: it moves the tree selection on the tree tab,
/// the log cursor elsewhere.
pub fn handle_mouse_event(app: &mut App, wheel: Wheel)
    ensures
        wheel == Wheel::Other ==> *final(app) == *old(app),
        wheel == Wheel::Up && old(app).content_tab == ContentTab::Tree ==> tree_up_done(*old(app), *final(app)),
        wheel == Wheel::Down && old(app).content_tab == ContentTab::Tree ==> tree_down_done(*old(app), *final(app)),
        wheel == Wheel::Up && old(app).content_tab != ContentTab::Tree ==> scroll_up_done(*old(app), *final(app)),
        wheel == Wheel::Down && old(app).content_tab != ContentTab::Tree ==> scroll_down_done(*old(app), *final(app)),
{
    match wheel {
        Wheel::Up => {
            if app.content_tab == ContentTab::Tree {
                app.tree_up();
            } else {
                app.scroll_up();
            }
        },
        Wheel::Down => {
            if app.content_tab == ContentTab::Tree {
                app.tree_down();
            } else {
                app.scroll_down();
            }
        },
        Wheel::Other => {},
    }
}

/// `b` is `a` with only a toast of `level` saying `text` added.
pub open spec fn toasted(a: App, b: App, level: ToastLevel, text: Seq<char>) -> bool {
    &&& b == (App { toasts: b.toasts, ..a })
    &&& exists|t: Toast| #![trigger toasts_after_push(a.toasts@, t)]
        t.message@ == text && t.level == level && b.toasts@ == toasts_after_push(a.toasts@, t)
}

/// The session list the daemon's greeting lists: each summary made a
/// session record.
pub open spec fn sessions_of_summaries(ss: Seq<SessionSummary>, out: Seq<Session>) -> bool {
    &&& out.len() == ss.len()
    &&& forall|i: int| 0 <= i < ss.len() ==> {
        &&& (#[trigger] out[i]).id == ss[i].id
        &&& out[i].name == ss[i].name
        &&& out[i].project_path == ss[i].project_path
        &&& out[i].app_status == ss[i].app_status
        &&& out[i].vm_service_uri is None
        &&& out[i].pid is None
        &&& out[i].connected_clients@.len() == 0
    }
}

fn sessions_from_summaries(ss: Vec<SessionSummary>) -> (r: Vec<Session>)
    ensures
        sessions_of_summaries(ss@, r@),
{
    let ghost all = ss@;
    let mut rest = ss;
    let mut out: Vec<Session> = Vec::new();
    let mut i: usize = 0;
    let n = rest.len();
    while i < n
        invariant
            n == all.len(),
            i <= n,
            rest@ == all.subrange(i as int, n as int),
            sessions_of_summaries(all.subrange(0, i as int), out@),
        decreases n - i,
    {
        let s = rest.remove(0);
        out.push(session_from_summary(s));
        i = i + 1;
        assert(rest@ =~= all.subrange(i as int, n as int));
        assert forall|k: int| 0 <= k < i implies #[trigger] all.subrange(0, i as int)[k] == all[k] by {}
    }
    assert(all.subrange(0, n as int) =~= all);
    out
}

/// Answers an event of the connection: on connecting, the greeting's
/// sessions are taken up; a lost connection or an error is shown; a message
/// is handled by kind.
pub fn handle_ws_event(app: &mut App, event: WsEvent)
    requires
        old(app).wf(),
    ensures
        final(app).wf(),
        match event {
            WsEvent::Connected { sessions, .. } => {
                &&& final(app).ws_state == WsState::Connected
                &&& sessions_of_summaries(sessions@, final(app).sessions@)
                &&& (old(app).selected_session is Some || sessions@.len() == 0) ==> final(app).selected_session
                    == old(app).selected_session && final(app).session == old(app).session
                &&& (old(app).selected_session is None && sessions@.len() > 0) ==> switched_sessions(
                    *old(app),
                    final(app).sessions@[0].id,
                    *final(app),
                ) && status_of_session(final(app).sessions@[0], final(app).app_status)
                &&& final(app).toasts == old(app).toasts
                &&& same_view(*old(app), *final(app))
            },
            WsEvent::Disconnected => toasted(
                App { ws_state: WsState::Disconnected, ..*old(app) },
                *final(app),
                ToastLevel::Error,
                "Disconnected from server"@,
            ),
            WsEvent::Error(e) => toasted(*old(app), *final(app), ToastLevel::Error, "WebSocket: "@ + e@),
            WsEvent::Message(IncomingMessage::CommandResponse(resp)) => command_applied(*old(app), resp, *final(app)),
            WsEvent::Message(IncomingMessage::AgentResponse(resp)) => agent_response_applied(
                *old(app),
                resp,
                *final(app),
            ),
            WsEvent::Message(IncomingMessage::Event(ev)) => event_applied(*old(app), ev, *final(app)),
            WsEvent::Message(IncomingMessage::AgentStream(se)) => stream_event_applied(
                *old(app),
                se.event,
                *final(app),
            ),
        },
{
    match event {
        WsEvent::Connected { client_id: _, daemon_version: _, sessions } => {
            app.ws_state = WsState::Connected;
            let list = sessions_from_summaries(sessions);
            app.set_sessions(list);
        },
        WsEvent::Disconnected => {
            app.ws_state = WsState::Disconnected;
            app.push_toast(Toast::error("Disconnected from server"));
        },
        WsEvent::Error(e) => {
            let mut text = String::from_str("WebSocket: ");
            text.append(e.as_str());
            app.push_toast(Toast::error(text.as_str()));
        },
        WsEvent::Message(msg) => match msg {
            IncomingMessage::CommandResponse(resp) => app.handle_command_response(resp),
            IncomingMessage::AgentResponse(resp) => app.handle_agent_response(resp),
            IncomingMessage::Event(ev) => app.push_event(ev),
            IncomingMessage::AgentStream(se) => app.handle_agent_stream_event(se),
        },
    }
}

/// Answers a key in the session picker: `j`/`k` move, Enter connects to
/// the session under the picker and selects it, `c` asks for a new
/// session's name, `d`/`x` destroys the session under the picker, Esc or
/// `q` closes the picker. Commands go out only while connected.
pub fn handle_session_picker_mode(app: &mut App, key: KeyPress, connected: bool) -> (r: Option<Effect>)
    requires
        old(app).wf(),
    ensures
        final(app).wf(),
        ({
            let idx = old(app).session_picker_index as int;
            let in_range = idx < old(app).sessions@.len();
            match key.key {
                Key::Char('j') | Key::Down => r is None && final(app).session_picker_index == (if idx + 1
                    < old(app).sessions@.len() {
                    idx + 1
                } else {
                    idx
                }) && final(app).sessions == old(app).sessions && final(app).session == old(app).session,
                Key::Char('k') | Key::Up => r is None && final(app).session_picker_index == (if idx > 0 {
                    idx - 1
                } else {
                    0
                }) && final(app).sessions == old(app).sessions && final(app).session == old(app).session,
                Key::Enter => {
                    &&& (in_range && connected) ==> sends_texts(
                        r,
                        "connect_session"@,
                        seq![("sessionId"@, old(app).sessions@[idx].id@)],
                    )
                    &&& !(in_range && connected) ==> r is None
                    &&& final(app).mode == Mode::Normal
                    &&& in_range ==> switched_sessions(*old(app), old(app).sessions@[idx].id, *final(app))
                        && status_of_session(old(app).sessions@[idx], final(app).app_status)
                    &&& !in_range ==> final(app).selected_session == old(app).selected_session && final(app).session
                        == old(app).session
                },
                Key::Esc | Key::Char('q') => r is None && only_mode_changed(*old(app), *final(app))
                    && final(app).mode == Mode::Normal,
                Key::Char('c') => r is None && *final(app) == (App {
                    mode: Mode::InputPrompt(InputPromptKind::CreateSession),
                    input_buffer: final(app).input_buffer,
                    ..*old(app)
                }) && final(app).input_buffer@.len() == 0,
                Key::Char('d') | Key::Char('x') => {
                    &&& *final(app) == *old(app)
                    &&& (in_range && connected) ==> sends_texts(
                        r,
                        "destroy_session"@,
                        seq![("sessionId"@, old(app).sessions@[idx].id@)],
                    )
                    &&& !(in_range && connected) ==> r is None
                },
                _ => r is None && *final(app) == *old(app),
            }
        }),
{
    match key.key {
        Key::Char('j') | Key::Down => {
            app.session_picker_down();
            None
        },
        Key::Char('k') | Key::Up => {
            app.session_picker_up();
            None
        },
        Key::Enter => {
            let mut out: Option<Effect> = None;
            if app.session_picker_index < app.sessions.len() && connected {
                let id = app.sessions[app.session_picker_index].id.clone();
                let mut members: Vec<(String, String)> = Vec::new();
                members.push(pair("sessionId", id));
                out = request_with("connect_session", members);
                assert(members@.map_values(|m: (String, String)| (m.0@, m.1@)) =~= seq![
                    ("sessionId"@, old(app).sessions@[old(app).session_picker_index as int].id@),
                ]);
            }
            app.session_picker_select();
            out
        },
        Key::Esc | Key::Char('q') => {
            app.mode = Mode::Normal;
            None
        },
        Key::Char('c') => {
            app.input_buffer = String::new();
            app.mode = Mode::InputPrompt(InputPromptKind::CreateSession);
            None
        },
        Key::Char('d') | Key::Char('x') => {
            if app.session_picker_index < app.sessions.len() && connected {
                let id = app.sessions[app.session_picker_index].id.clone();
                let mut members: Vec<(String, String)> = Vec::new();
                members.push(pair("sessionId", id));
                let out = request_with("destroy_session", members);
                assert(members@.map_values(|m: (String, String)| (m.0@, m.1@)) =~= seq![
                    ("sessionId"@, old(app).sessions@[old(app).session_picker_index as int].id@),
                ]);
                out
            } else {
                None
            }
        },
        _ => None,
    }
}

/// Answers a key in a one-line prompt. Enter submits: a non-empty name
/// creates a session for the project (back to the picker); a run request
/// starts the selected session's app on the typed device (empty for the
/// default one), or reports that no session is selected. Esc cancels;
/// other keys edit the text.
pub fn handle_input_prompt_mode(app: &mut App, key: KeyPress, connected: bool, kind: InputPromptKind) -> (r: Option<
    Effect,
>)
    ensures
        match key.key {
            Key::Esc => r is None && *final(app) == (App {
                input_buffer: final(app).input_buffer,
                mode: match kind {
                    InputPromptKind::CreateSession => Mode::SessionPicker,
                    InputPromptKind::RunApp => Mode::Normal,
                },
                ..*old(app)
            }) && final(app).input_buffer@.len() == 0,
            Key::Enter => {
                let input = old(app).input_buffer@;
                &&& final(app).input_buffer@.len() == 0
                &&& match kind {
                    InputPromptKind::CreateSession => {
                        &&& *final(app) == (App {
                            input_buffer: final(app).input_buffer,
                            mode: Mode::SessionPicker,
                            ..*old(app)
                        })
                        &&& (input.len() > 0 && connected) ==> sends_texts(
                            r,
                            "create_session"@,
                            seq![("name"@, input), ("projectPath"@, old(app).project.path@)],
                        )
                        &&& !(input.len() > 0 && connected) ==> r is None
                    },
                    InputPromptKind::RunApp => {
                        let cleared = App { input_buffer: final(app).input_buffer, mode: Mode::Normal, ..*old(app) };
                        &&& !connected ==> r is None && *final(app) == cleared
                        &&& (connected && old(app).selected_session is None) ==> r is None && toasted(
                            cleared,
                            *final(app),
                            ToastLevel::Error,
                            "No session selected"@,
                        )
                        &&& (connected && old(app).selected_session is Some) ==> *final(app) == cleared && (
                        if input.len() > 0 {
                            sends_texts(
                                r,
                                "run_app"@,
                                seq![("device"@, input), ("sessionId"@, old(app).selected_session->0@)],
                            )
                        } else {
                            sends_texts(r, "run_app"@, seq![("sessionId"@, old(app).selected_session->0@)])
                        })
                    },
                }
            },
            Key::Backspace => r is None && *final(app) == (App { input_buffer: final(app).input_buffer, ..*old(app) })
                && final(app).input_buffer@ == (if old(app).input_buffer@.len() > 0 {
                old(app).input_buffer@.drop_last()
            } else {
                old(app).input_buffer@
            }),
            Key::Char(c) => r is None && *final(app) == (App { input_buffer: final(app).input_buffer, ..*old(app) })
                && final(app).input_buffer@ == old(app).input_buffer@.push(c),
            _ => r is None && *final(app) == *old(app),
        },
{
    match key.key {
        Key::Esc => {
            app.input_buffer = String::new();
            match kind {
                InputPromptKind::CreateSession => {
                    app.mode = Mode::SessionPicker;
                },
                InputPromptKind::RunApp => {
                    app.mode = Mode::Normal;
                },
            }
            None
        },
        Key::Enter => {
            let mut input = String::new();
            std::mem::swap(&mut input, &mut app.input_buffer);
            let empty = input.as_str().unicode_len() == 0;
            match kind {
                InputPromptKind::CreateSession => {
                    let mut out: Option<Effect> = None;
                    if !empty && connected {
                        let mut members: Vec<(String, String)> = Vec::new();
                        members.push(pair("name", input));
                        members.push(pair("projectPath", app.project.path.clone()));
                        let ghost want = members@.map_values(|m: (String, String)| (m.0@, m.1@));
                        out = request_with("create_session", members);
                        assert(want =~= seq![("name"@, old(app).input_buffer@), ("projectPath"@, old(app).project.path@)]);
                    }
                    app.mode = Mode::SessionPicker;
                    out
                },
                InputPromptKind::RunApp => {
                    let mut out: Option<Effect> = None;
                    app.mode = Mode::Normal;
                    if connected {
                        match &app.selected_session {
                            Some(session_id) => {
                                let mut members: Vec<(String, String)> = Vec::new();
                                if !empty {
                                    members.push(pair("device", input));
                                }
                                members.push(pair("sessionId", session_id.clone()));
                                let ghost want = members@.map_values(|m: (String, String)| (m.0@, m.1@));
                                out = request_with("run_app", members);
                                proof {
                                    if !empty {
                                        assert(want =~= seq![
                                            ("device"@, old(app).input_buffer@),
                                            ("sessionId"@, old(app).selected_session->0@),
                                        ]);
                                    } else {
                                        assert(want =~= seq![("sessionId"@, old(app).selected_session->0@)]);
                                    }
                                }
                            },
                            None => {
                                app.push_toast(Toast::error("No session selected"));
                            },
                        }
                    }
                    out
                },
            }
        },
        Key::Backspace => {
            pop_char(&mut app.input_buffer);
            None
        },
        Key::Char(c) => {
            crate::text::push_char(&mut app.input_buffer, c);
            None
        },
        _ => None,
    }
}

/// The UTF-8 bytes of a text.
pub open spec fn bytes_of(s: Seq<char>) -> Seq<u8> {
    encode_utf8(s)
}

/// `String::insert`: inserts `c` at byte position `idx`, which lies on a
/// character boundary.
#[verifier::external_body]
fn insert_char(s: &mut String, idx: usize, c: char)
    requires
        idx <= bytes_of(old(s)@).len(),
        is_char_boundary(bytes_of(old(s)@), idx as int),
    ensures
        bytes_of(final(s)@) == bytes_of(old(s)@).subrange(0, idx as int) + encode_utf8(seq![c]) + bytes_of(
            old(s)@,
        ).subrange(idx as int, bytes_of(old(s)@).len() as int),
{
    s.insert(idx, c)
}

/// `String::remove`: removes the character at byte position `idx`, which
/// lies on a character boundary before the end, and returns it.
#[verifier::external_body]
fn remove_char(s: &mut String, idx: usize) -> (r: char)
    requires
        idx < bytes_of(old(s)@).len(),
        is_char_boundary(bytes_of(old(s)@), idx as int),
    ensures
        idx + encode_utf8(seq![r]).len() <= bytes_of(old(s)@).len(),
        bytes_of(old(s)@).subrange(idx as int, idx + encode_utf8(seq![r]).len()) == encode_utf8(seq![r]),
        bytes_of(final(s)@) == bytes_of(old(s)@).subrange(0, idx as int) + bytes_of(old(s)@).subrange(
            idx + encode_utf8(seq![r]).len(),
            bytes_of(old(s)@).len() as int,
        ),
{
    s.remove(idx)
}

fn byte_len(s: &String) -> (r: usize)
    ensures
        r == bytes_of(s@).len(),
{
    s.as_str().as_bytes().len()
}

/// A key in the chat composer can be handled: typing and deleting act on
/// character boundaries (they would fail elsewhere).
pub open spec fn chat_key_ok(app: App, key: Key) -> bool {
    let b = bytes_of(app.session.chat_input@);
    let c = app.session.chat_cursor;
    match key {
        Key::Char(_) => c <= b.len() && c < usize::MAX && is_char_boundary(b, c as int),
        Key::Backspace => c > 0 ==> c <= b.len() && is_char_boundary(b, c - 1),
        Key::Delete => c < b.len() ==> is_char_boundary(b, c as int),
        _ => true,
    }
}

/// `b1` is `b0` without the `w` bytes (one character) at position `at`.
pub open spec fn removed_at(b0: Seq<u8>, b1: Seq<u8>, at: int, w: int) -> bool {
    0 < w && 0 <= at && at + w <= b0.len() && b1 == b0.subrange(0, at) + b0.subrange(at + w, b0.len() as int)
}

/// `b` is `a` with only the chat composer (text and cursor) changed.
pub open spec fn only_composer_changed(a: App, b: App) -> bool {
    b == (App {
        session: crate::session::SessionState {
            chat_input: b.session.chat_input,
            chat_cursor: b.session.chat_cursor,
            ..a.session
        },
        ..a
    })
}

/// Answers a key in the chat composer: Enter sends the typed message to
/// the agent and shows it, Esc leaves the composer, other keys edit the
/// text at the cursor (a byte position) or move the cursor.
pub fn handle_agent_chat_mode(app: &mut App, key: KeyPress, connected: bool) -> (r: Option<Effect>)
    requires
        chat_key_ok(*old(app), key.key),
    ensures
        ({
            let b0 = bytes_of(old(app).session.chat_input@);
            let c0 = old(app).session.chat_cursor;
            let b1 = bytes_of(final(app).session.chat_input@);
            match key.key {
                Key::Esc => r is None && only_mode_changed(*old(app), *final(app)) && final(app).mode == Mode::Normal,
                Key::Enter => if old(app).session.chat_input@.len() == 0 {
                    r is None && *final(app) == *old(app)
                } else {
                    let text = old(app).session.chat_input@;
                    &&& final(app).session.chat_input@.len() == 0
                    &&& final(app).session.chat_cursor == 0
                    &&& final(app).session.chat_messages@.len() == old(app).session.chat_messages@.len() + 1
                    &&& final(app).session.chat_messages@.drop_last() == old(app).session.chat_messages@
                    &&& final(app).session.chat_messages@.last().role == ChatRole::User
                    &&& (final(app).session.chat_messages@.last().content matches ChatContent::Text(t) && t@ == text)
                    &&& connected ==> sends_texts(r, "agent_message"@, seq![("intent"@, text)])
                        && final(app).session.pending_response && (final(app).session.chat_streaming matches Some(
                        st,
                    ) && st.text_buffer@.len() == 0)
                    &&& !connected ==> r is None && final(app).session.pending_response
                        == old(app).session.pending_response && final(app).session.chat_streaming
                        == old(app).session.chat_streaming
                    &&& *final(app) == (App {
                        session: crate::session::SessionState {
                            chat_input: final(app).session.chat_input,
                            chat_cursor: 0,
                            chat_messages: final(app).session.chat_messages,
                            pending_response: final(app).session.pending_response,
                            chat_streaming: final(app).session.chat_streaming,
                            ..old(app).session
                        },
                        ..*old(app)
                    })
                },
                Key::Char(ch) => r is None && only_composer_changed(*old(app), *final(app)) && b1 == b0.subrange(
                    0,
                    c0 as int,
                ) + encode_utf8(seq![ch]) + b0.subrange(c0 as int, b0.len() as int) && final(app).session.chat_cursor
                    == c0 + 1,
                Key::Backspace => r is None && only_composer_changed(*old(app), *final(app)) && if c0 > 0 {
                    &&& final(app).session.chat_cursor == c0 - 1
                    &&& exists|w: int| #[trigger] removed_at(b0, b1, c0 - 1, w)
                } else {
                    *final(app) == *old(app)
                },
                Key::Delete => r is None && only_composer_changed(*old(app), *final(app)) && if c0 < b0.len() {
                    &&& final(app).session.chat_cursor == c0
                    &&& exists|w: int| #[trigger] removed_at(b0, b1, c0 as int, w)
                } else {
                    *final(app) == *old(app)
                },
                Key::Left => r is None && only_composer_changed(*old(app), *final(app)) && final(app).session.chat_input
                    == old(app).session.chat_input && final(app).session.chat_cursor == (if c0 > 0 {
                    c0 - 1
                } else {
                    0
                }),
                Key::Right => r is None && only_composer_changed(*old(app), *final(app)) && final(app).session.chat_input == old(app).session.chat_input && final(app).session.chat_cursor == (if c0
                    < b0.len() {
                    c0 + 1
                } else {
                    b0.len() as int
                }),
                Key::Home => r is None && only_composer_changed(*old(app), *final(app))
                    && final(app).session.chat_input == old(app).session.chat_input && final(app).session.chat_cursor
                    == 0,
                Key::End => r is None && only_composer_changed(*old(app), *final(app)) && final(app).session.chat_input
                    == old(app).session.chat_input && final(app).session.chat_cursor == b0.len(),
                _ => r is None && *final(app) == *old(app),
            }
        }),
{
    match key.key {
        Key::Esc => {
            app.mode = Mode::Normal;
            None
        },
        Key::Enter => {
            if app.session.chat_input.as_str().unicode_len() == 0 {
                return None;
            }
            let mut text = String::new();
            std::mem::swap(&mut text, &mut app.session.chat_input);
            app.session.chat_cursor = 0;
            let msg = ChatMessage::user(text.as_str());
            let ghost before = app.session.chat_messages@;
            app.session.chat_messages.push(msg);
            assert(app.session.chat_messages@.drop_last() =~= before);
            if connected {
                let mut members: Vec<(String, String)> = Vec::new();
                members.push(pair("intent", text));
                let ghost want = members@.map_values(|m: (String, String)| (m.0@, m.1@));
                let out = request_with("agent_message", members);
                assert(want =~= seq![("intent"@, old(app).session.chat_input@)]);
                app.session.pending_response = true;
                app.session.chat_streaming = Some(StreamingState::default());
                out
            } else {
                None
            }
        },
        Key::Char(c) => {
            let cursor = app.session.chat_cursor;
            insert_char(&mut app.session.chat_input, cursor, c);
            proof {
                let b0 = bytes_of(old(app).session.chat_input@);
                assert(cursor <= b0.len());
            }
            app.session.chat_cursor = cursor + 1;
            None
        },
        Key::Backspace => {
            if app.session.chat_cursor > 0 {
                app.session.chat_cursor = app.session.chat_cursor - 1;
                let cursor = app.session.chat_cursor;
                let removed = remove_char(&mut app.session.chat_input, cursor);
                proof {
                    let w = encode_utf8(seq![removed]).len() as int;
                    assert(seq![removed].drop_first() =~= Seq::<char>::empty());
                    assert(removed_at(
                        bytes_of(old(app).session.chat_input@),
                        bytes_of(app.session.chat_input@),
                        cursor as int,
                        w,
                    ));
                }
            }
            None
        },
        Key::Delete => {
            let cursor = app.session.chat_cursor;
            if cursor < byte_len(&app.session.chat_input) {
                let removed = remove_char(&mut app.session.chat_input, cursor);
                proof {
                    let w = encode_utf8(seq![removed]).len() as int;
                    assert(seq![removed].drop_first() =~= Seq::<char>::empty());
                    assert(removed_at(
                        bytes_of(old(app).session.chat_input@),
                        bytes_of(app.session.chat_input@),
                        cursor as int,
                        w,
                    ));
                }
            }
            None
        },
        Key::Left => {
            if app.session.chat_cursor > 0 {
                app.session.chat_cursor = app.session.chat_cursor - 1;
            }
            None
        },
        Key::Right => {
            let len = byte_len(&app.session.chat_input);
            app.session.chat_cursor = if app.session.chat_cursor < len {
                app.session.chat_cursor + 1
            } else {
                len
            };
            None
        },
        Key::Home => {
            app.session.chat_cursor = 0;
            None
        },
        Key::End => {
            app.session.chat_cursor = byte_len(&app.session.chat_input);
            None
        },
        _ => None,
    }
}

/// The decimal text of a signed integer.
pub open spec fn signed_decimal(v: i64) -> Seq<char> {
    if v < 0 {
        "-"@ + decimal((-v) as nat)
    } else {
        decimal(v as nat)
    }
}

/// `j` is the JSON number `v`.
pub open spec fn is_number(j: Json, v: i64) -> bool {
    j matches Json::Number(n) && n.unsigned == (if v >= 0 { Some(v as u64) } else { None }) && n.text@
        == signed_decimal(v)
}

/// The data of an `execute_interaction` command: the optional scroll
/// arguments, the interaction and the node, in that order.
pub open spec fn interaction_data(j: Json, node: Seq<char>, interaction: Seq<char>, args: Option<(i64, i64)>) -> bool {
    j matches Json::Object(ms) && match args {
        None => ms@.len() == 2 && ms@[0].0@ == "interaction"@ && (ms@[0].1 matches Json::String(t) && t@
            == interaction) && ms@[1].0@ == "nodeId"@ && (ms@[1].1 matches Json::String(n) && n@ == node),
        Some((dx, dy)) => ms@.len() == 3 && ms@[0].0@ == "args"@ && (ms@[0].1 matches Json::Object(a) && a@.len()
            == 2 && a@[0].0@ == "dx"@ && is_number(a@[0].1, dx) && a@[1].0@ == "dy"@ && is_number(a@[1].1, dy))
            && ms@[1].0@ == "interaction"@ && (ms@[1].1 matches Json::String(t) && t@ == interaction)
            && ms@[2].0@ == "nodeId"@ && (ms@[2].1 matches Json::String(n) && n@ == node),
    }
}

/// `b` is `a` after asking for `interaction` on `node`: while connected,
/// the command goes out and a toast says so.
pub open spec fn interaction_requested(
    a: App,
    connected: bool,
    node: Seq<char>,
    interaction: Seq<char>,
    args: Option<(i64, i64)>,
    r: Option<Effect>,
    b: App,
) -> bool {
    if connected {
        &&& r matches Some(Effect::Send(q)) && q.action@ == "execute_interaction"@ && (q.data matches Some(d)
            && interaction_data(d, node, interaction, args))
        &&& toasted(a, b, ToastLevel::Info, interaction + " on "@ + node)
    } else {
        r is None && b == a
    }
}

fn number(v: i64) -> (r: Json)
    ensures
        is_number(r, v),
{
    let mut text = String::new();
    if v < 0 {
        text.append("-");
        let magnitude: u64 = if v == i64::MIN { 9223372036854775808u64 } else { (-v) as u64 };
        crate::text::push_decimal_u64(&mut text, magnitude);
        Json::Number(JsonNumber { unsigned: None, text })
    } else {
        crate::text::push_decimal_u64(&mut text, v as u64);
        Json::Number(JsonNumber { unsigned: Some(v as u64), text })
    }
}

fn execute_interaction(
    app: &mut App,
    connected: bool,
    node_id: &str,
    interaction: &str,
    args: Option<(i64, i64)>,
) -> (r: Option<Effect>)
    ensures
        interaction_requested(*old(app), connected, node_id@, interaction@, args, r, *final(app)),
{
    if !connected {
        return None;
    }
    let mut members: Vec<(String, Json)> = Vec::new();
    match args {
        Some((dx, dy)) => {
            let mut a: Vec<(String, Json)> = Vec::new();
            a.push((String::from_str("dx"), number(dx)));
            a.push((String::from_str("dy"), number(dy)));
            members.push((String::from_str("args"), Json::Object(a)));
        },
        None => {},
    }
    members.push((String::from_str("interaction"), Json::String(String::from_str(interaction))));
    members.push((String::from_str("nodeId"), Json::String(String::from_str(node_id))));
    let mut text = String::from_str(interaction);
    text.append(" on ");
    text.append(node_id);
    app.push_toast(Toast::info(text.as_str()));
    Some(
        Effect::Send(Request { action: String::from_str("execute_interaction"), data: Some(Json::Object(members)) }),
    )
}

fn copy_action(a: &InteractionAction) -> (r: InteractionAction)
    ensures
        r == *a,
{
    match a {
        InteractionAction::Tap => InteractionAction::Tap,
        InteractionAction::LongPress => InteractionAction::LongPress,
        InteractionAction::DoubleTap => InteractionAction::DoubleTap,
        InteractionAction::Scroll { dx, dy } => InteractionAction::Scroll { dx: *dx, dy: *dy },
        InteractionAction::EnterText(t) => InteractionAction::EnterText(t.clone()),
        InteractionAction::Custom(c) => InteractionAction::Custom(c.clone()),
    }
}

/// `b` is `a` with the action menu closed: no items, no node, back to the
/// normal mode.
pub open spec fn menu_closed(a: App, b: App) -> bool {
    &&& b.action_menu_items@.len() == 0
    &&& b.action_menu_index == 0
    &&& b.action_menu_node_id is None
    &&& b.mode == Mode::Normal
}

/// `b` is `a` after the menu action `action` ran on `node`.
pub open spec fn menu_action_ran(a: App, connected: bool, node: Seq<char>, action: InteractionAction, r: Option<Effect>, b: App) -> bool {
    match action {
        InteractionAction::Tap => interaction_requested(a, connected, node, "tap"@, None, r, b),
        InteractionAction::LongPress => interaction_requested(a, connected, node, "longPress"@, None, r, b),
        InteractionAction::DoubleTap => interaction_requested(a, connected, node, "doubleTap"@, None, r, b),
        InteractionAction::Scroll { dx, dy } => interaction_requested(a, connected, node, "scroll"@, Some((dx, dy)), r, b),
        InteractionAction::EnterText(_) => r is None && toasted(a, b, ToastLevel::Info, "Enter text not implemented yet"@),
        InteractionAction::Custom(name) => interaction_requested(a, connected, name@, name@, None, r, b),
    }
}

/// Answers a key in the action menu of a tree node: `j`/`k` move round
/// the items, Enter runs the item's action on the node, Esc or `q` closes
/// the menu.
pub fn handle_action_menu_mode(app: &mut App, key: KeyPress, connected: bool) -> (r: Option<Effect>)
    ensures
        ({
            let n = old(app).action_menu_items@.len();
            let i = old(app).action_menu_index;
            match key.key {
                Key::Esc | Key::Char('q') => r is None && menu_closed(*old(app), *final(app)) && *final(app) == (App {
                    action_menu_items: final(app).action_menu_items,
                    action_menu_index: 0,
                    action_menu_node_id: None,
                    mode: Mode::Normal,
                    ..*old(app)
                }),
                Key::Char('j') | Key::Down => r is None && *final(app) == (App {
                    action_menu_index: if n > 0 { ((i + 1) % (n as int)) as usize } else { i },
                    ..*old(app)
                }),
                Key::Char('k') | Key::Up => r is None && *final(app) == (App {
                    action_menu_index: if n > 0 { if i == 0 { (n - 1) as usize } else { (i - 1) as usize } } else { i },
                    ..*old(app)
                }),
                Key::Enter => if i < n {
                    &&& menu_closed(*old(app), *final(app))
                    &&& match old(app).action_menu_node_id {
                        Some(node) => exists|mid: App| #![trigger menu_action_ran(*old(app), connected, node@, old(app).action_menu_items@[i as int].1, r, mid)]
                            menu_action_ran(*old(app), connected, node@, old(app).action_menu_items@[i as int].1, r, mid)
                            && *final(app) == (App {
                                action_menu_items: final(app).action_menu_items,
                                action_menu_index: 0,
                                action_menu_node_id: None,
                                mode: Mode::Normal,
                                ..mid
                            }),
                        None => r is None && *final(app) == (App {
                            action_menu_items: final(app).action_menu_items,
                            action_menu_index: 0,
                            action_menu_node_id: None,
                            mode: Mode::Normal,
                            ..*old(app)
                        }),
                    }
                } else {
                    r is None && *final(app) == *old(app)
                },
                _ => r is None && *final(app) == *old(app),
            }
        }),
{
    match key.key {
        Key::Esc | Key::Char('q') => {
            app.action_menu_items = Vec::new();
            app.action_menu_index = 0;
            app.action_menu_node_id = None;
            app.mode = Mode::Normal;
            None
        },
        Key::Char('j') | Key::Down => {
            if app.action_menu_items.len() > 0 {
                let n = app.action_menu_items.len();
                app.action_menu_index = (app.action_menu_index % n + 1) % n;
                proof {
                    let i = old(app).action_menu_index as int;
                    assert((i % (n as int) + 1) % (n as int) == (i + 1) % (n as int)) by (nonlinear_arith)
                        requires
                            n > 0,
                            i >= 0,
                    {
                        vstd::arithmetic::div_mod::lemma_add_mod_noop(i, 1, n as int);
                        vstd::arithmetic::div_mod::lemma_mod_twice(1, n as int);
                    }
                }
            }
            None
        },
        Key::Char('k') | Key::Up => {
            if app.action_menu_items.len() > 0 {
                app.action_menu_index = if app.action_menu_index == 0 {
                    app.action_menu_items.len() - 1
                } else {
                    app.action_menu_index - 1
                };
            }
            None
        },
        Key::Enter => {
            if app.action_menu_index >= app.action_menu_items.len() {
                return None;
            }
            let action = copy_action(&app.action_menu_items[app.action_menu_index].1);
            let mut out: Option<Effect> = None;
            match &app.action_menu_node_id {
                Some(node) => {
                    let node_id = node.clone();
                    out = match action {
                        InteractionAction::Tap => execute_interaction(app, connected, node_id.as_str(), "tap", None),
                        InteractionAction::LongPress => execute_interaction(
                            app,
                            connected,
                            node_id.as_str(),
                            "longPress",
                            None,
                        ),
                        InteractionAction::DoubleTap => execute_interaction(
                            app,
                            connected,
                            node_id.as_str(),
                            "doubleTap",
                            None,
                        ),
                        InteractionAction::Scroll { dx, dy } => execute_interaction(
                            app,
                            connected,
                            node_id.as_str(),
                            "scroll",
                            Some((dx, dy)),
                        ),
                        InteractionAction::EnterText(_) => {
                            app.push_toast(Toast::info("Enter text not implemented yet"));
                            None
                        },
                        InteractionAction::Custom(name) => execute_interaction(
                            app,
                            connected,
                            name.as_str(),
                            name.as_str(),
                            None,
                        ),
                    };
                },
                None => {},
            }
            let ghost mid = *app;
            app.action_menu_items = Vec::new();
            app.action_menu_index = 0;
            app.action_menu_node_id = None;
            app.mode = Mode::Normal;
            proof {
                match old(app).action_menu_node_id {
                    Some(node) => {
                        let act = old(app).action_menu_items@[old(app).action_menu_index as int].1;
                        assert(menu_action_ran(*old(app), connected, node@, act, out, mid));
                    },
                    None => {},
                }
            }
            out
        },
        _ => None,
    }
}

/// The selected session's app is running or starting.
pub open spec fn app_running(a: App) -> bool {
    a.app_status is Running || a.app_status is Starting
}

/// On the tree tab, with no tree yet and the app running, the tree is
/// asked for (while connected).
pub open spec fn tree_fetch_sent(a: App, connected: bool, r: Option<Effect>) -> bool {
    if a.content_tab == ContentTab::Tree && a.session.tree is None && app_running(a) && connected {
        sends(r, "get_tree"@)
    } else {
        r is None
    }
}

fn maybe_fetch_tree(app: &App, connected: bool) -> (r: Option<Effect>)
    ensures
        tree_fetch_sent(*app, connected, r),
{
    if app.content_tab == ContentTab::Tree && app.session.tree.is_none() && app.is_app_running() && connected {
        request("get_tree")
    } else {
        None
    }
}

/// A command that only goes out while connected, with a toast saying so.
pub open spec fn triggered(a: App, b: App, r: Option<Effect>, action: Seq<char>, text: Seq<char>) -> bool {
    sends(r, action) && toasted(a, b, ToastLevel::Info, text)
}

fn trigger(app: &mut App, action: &str, text: &str) -> (r: Option<Effect>)
    ensures
        triggered(*old(app), *final(app), r, action@, text@),
{
    app.push_toast(Toast::info(text));
    request(action)
}

/// `b` is `a` after the normal-mode key `key`, `r` what goes out.
pub open spec fn normal_key_done(a: App, key: Key, connected: bool, r: Option<Effect>, b: App) -> bool {
    let tab = a.content_tab;
    let tree = tab == ContentTab::Tree;
    let agent = tab == ContentTab::Agent;
    let flutter = tab == ContentTab::Flutter;
    let running = app_running(a);
    match key {
        Key::Char('q') => r is None && only_mode_changed(a, b) && b.mode == Mode::Confirm(ConfirmAction::Quit),
        Key::Char('Q') => r is None && b == (App { should_quit: true, ..a }),
        Key::Char('r') => if tree && running && connected {
            triggered(a, b, r, "get_tree"@, "Tree refresh triggered"@)
        } else if flutter && running && connected {
            triggered(a, b, r, "hot_reload"@, "Hot reload triggered"@)
        } else {
            r is None && b == a
        },
        Key::Char('R') => if flutter && running && connected {
            triggered(a, b, r, "hot_restart"@, "Hot restart triggered"@)
        } else {
            r is None && b == a
        },
        Key::Char('e') => r is None && (tree ==> tree_expand_all_done(a, b)) && (!tree ==> b == a),
        Key::Char('E') => r is None && (tree ==> tree_collapse_all_done(a, b)) && (!tree ==> b == a),
        Key::Char('/') => r is None && b == (App { mode: Mode::Filter, input_buffer: b.input_buffer, ..a })
            && b.input_buffer@.len() == 0,
        Key::Char('?') => r is None && only_mode_changed(a, b) && b.mode == Mode::Help,
        Key::Char('j') | Key::Down => r is None && (tree ==> tree_down_done(a, b)) && (agent
            ==> chat_scroll_down_done(a, b)) && (!tree && !agent ==> scroll_down_done(a, b)),
        Key::Char('k') | Key::Up => r is None && (tree ==> tree_up_done(a, b)) && (agent ==> chat_scroll_up_done(a, b))
            && (!tree && !agent ==> scroll_up_done(a, b)),
        Key::Char('g') => r is None && (tree ==> b == a) && (agent ==> chat_scroll_to_top_done(a, b)) && (!tree
            && !agent ==> scroll_to_top_done(a, b)),
        Key::Char('G') => r is None && (tree ==> b == a) && (agent ==> chat_scroll_to_bottom_done(a, b)) && (!tree
            && !agent ==> scroll_to_bottom_done(a, b)),
        Key::Char('V') => r is None && (tree ==> b == a) && (!tree ==> toggle_visual_mode_done(a, b)),
        Key::Char('y') => if tree {
            r is None && b == a
        } else {
            exists|t: Option<String>| #[trigger] yank_done(a, b, t) && match t {
                Some(x) => r == Some(Effect::Copy(x)),
                None => r is None,
            }
        },
        Key::Char('c') => r is None && clear_events_done(a, b),
        Key::Char('f') => r is None && b == (App { filter: None, ..a }),
        Key::Char('l') => next_tab_done(a, b) && tree_fetch_sent(b, connected, r),
        Key::Char('h') => prev_tab_done(a, b) && tree_fetch_sent(b, connected, r),
        Key::Right => if tree {
            r is None && tree_right_done(a, b)
        } else {
            next_tab_done(a, b) && tree_fetch_sent(b, connected, r)
        },
        Key::Left => if tree {
            r is None && tree_left_done(a, b)
        } else {
            prev_tab_done(a, b) && tree_fetch_sent(b, connected, r)
        },
        Key::Enter => if tree {
            r is None && tree_toggle_done(a, b)
        } else if agent {
            r is None && only_mode_changed(a, b) && b.mode == Mode::AgentChat
        } else {
            r is None && b == a
        },
        Key::Char(' ') => r is None && (tree ==> tree_toggle_done(a, b)) && (!tree ==> b == a),
        Key::Char('s') => r is None && only_mode_changed(a, b) && b.mode == Mode::SessionPicker,
        Key::Char('p') => r is None && if flutter && !running && a.selected_session is Some {
            b == (App { mode: Mode::InputPrompt(InputPromptKind::RunApp), input_buffer: b.input_buffer, ..a })
                && b.input_buffer@.len() == 0
        } else {
            b == a
        },
        Key::Char('x') => b == a && if flutter && running && connected {
            sends(r, "stop_app"@)
        } else {
            r is None
        },
        Key::Esc => r is None && if a.log_view.mode == crate::types::LogViewMode::Visual {
            exit_visual_mode_done(a, b)
        } else {
            b == (App { filter: None, ..a })
        },
        _ => r is None && b == a,
    }
}

/// Answers a key in the normal mode: tab and tree navigation, scrolling,
/// filtering, copying, app control and switching to other modes.
pub fn handle_normal_mode(app: &mut App, key: KeyPress, connected: bool) -> (r: Option<Effect>)
    requires
        old(app).wf(),
    ensures
        final(app).wf(),
        normal_key_done(*old(app), key.key, connected, r, *final(app)),
{
    let on_tree = app.content_tab == ContentTab::Tree;
    let on_agent = app.content_tab == ContentTab::Agent;
    let on_flutter = app.content_tab == ContentTab::Flutter;
    let running = app.is_app_running();
    match key.key {
        Key::Char('q') => {
            app.mode = Mode::Confirm(ConfirmAction::Quit);
            None
        },
        Key::Char('Q') => {
            app.should_quit = true;
            None
        },
        Key::Char('r') => {
            if on_tree && running && connected {
                trigger(app, "get_tree", "Tree refresh triggered")
            } else if on_flutter && running && connected {
                trigger(app, "hot_reload", "Hot reload triggered")
            } else {
                None
            }
        },
        Key::Char('R') => {
            if on_flutter && running && connected {
                trigger(app, "hot_restart", "Hot restart triggered")
            } else {
                None
            }
        },
        Key::Char('e') => {
            if on_tree {
                app.tree_expand_all();
            }
            None
        },
        Key::Char('E') => {
            if on_tree {
                app.tree_collapse_all();
            }
            None
        },
        Key::Char('/') => {
            app.mode = Mode::Filter;
            app.input_buffer = String::new();
            None
        },
        Key::Char('?') => {
            app.mode = Mode::Help;
            None
        },
        Key::Char('j') | Key::Down => {
            if on_tree {
                app.tree_down();
            } else if on_agent {
                app.chat_scroll_down();
            } else {
                app.scroll_down();
            }
            None
        },
        Key::Char('k') | Key::Up => {
            if on_tree {
                app.tree_up();
            } else if on_agent {
                app.chat_scroll_up();
            } else {
                app.scroll_up();
            }
            None
        },
        Key::Char('g') => {
            if on_tree {
            } else if on_agent {
                app.chat_scroll_to_top();
            } else {
                app.scroll_to_top();
            }
            None
        },
        Key::Char('G') => {
            if on_tree {
            } else if on_agent {
                app.chat_scroll_to_bottom();
            } else {
                app.scroll_to_bottom();
            }
            None
        },
        Key::Char('V') => {
            if !on_tree {
                app.toggle_visual_mode();
            }
            None
        },
        Key::Char('y') => {
            if on_tree {
                None
            } else {
                let yanked = app.yank_logs();
                match yanked {
                    Some(text) => Some(Effect::Copy(text)),
                    None => None,
                }
            }
        },
        Key::Char('c') => {
            app.clear_events();
            None
        },
        Key::Char('f') => {
            app.filter = None;
            None
        },
        Key::Char('l') => {
            app.next_tab();
            maybe_fetch_tree(app, connected)
        },
        Key::Char('h') => {
            app.prev_tab();
            maybe_fetch_tree(app, connected)
        },
        Key::Right => {
            if on_tree {
                app.tree_right();
                None
            } else {
                app.next_tab();
                maybe_fetch_tree(app, connected)
            }
        },
        Key::Left => {
            if on_tree {
                app.tree_left();
                None
            } else {
                app.prev_tab();
                maybe_fetch_tree(app, connected)
            }
        },
        Key::Enter => {
            if on_tree {
                app.tree_toggle();
            } else if on_agent {
                app.mode = Mode::AgentChat;
            }
            None
        },
        Key::Char(' ') => {
            if on_tree {
                app.tree_toggle();
            }
            None
        },
        Key::Char('s') => {
            app.mode = Mode::SessionPicker;
            None
        },
        Key::Char('p') => {
            if on_flutter && !running && app.has_session() {
                app.mode = Mode::InputPrompt(InputPromptKind::RunApp);
                app.input_buffer = String::new();
            }
            None
        },
        Key::Char('x') => {
            if on_flutter && running && connected {
                request("stop_app")
            } else {
                None
            }
        },
        Key::Esc => {
            if app.in_visual_mode() {
                app.exit_visual_mode();
            } else {
                app.filter = None;
            }
            None
        },
        _ => None,
    }
}

/// A key can be handled in the current mode (see [`chat_key_ok`]).
pub open spec fn key_ok(app: App, key: KeyPress) -> bool {
    app.mode == Mode::AgentChat && !(key.ctrl && key.key == Key::Char('c')) ==> chat_key_ok(app, key.key)
}

/// Answers a key: Control-C quits; other keys go to the handler of the
/// current mode.
pub fn handle_key_event(app: &mut App, key: KeyPress, connected: bool) -> (r: Option<Effect>)
    requires
        old(app).wf(),
        key_ok(*old(app), key),
    ensures
        final(app).wf(),
        key.ctrl && key.key == Key::Char('c') ==> r is None && *final(app) == (App {
            should_quit: true,
            ..*old(app)
        }),
        !(key.ctrl && key.key == Key::Char('c')) && old(app).mode == Mode::Normal ==> normal_key_done(
            *old(app),
            key.key,
            connected,
            r,
            *final(app),
        ),
{
    if key.ctrl && key.key == Key::Char('c') {
        app.should_quit = true;
        return None;
    }
    match app.mode {
        Mode::Normal => handle_normal_mode(app, key, connected),
        Mode::Filter => {
            handle_filter_mode(app, key);
            None
        },
        Mode::Help => {
            handle_help_mode(app, key);
            None
        },
        Mode::Confirm(action) => {
            handle_confirm_mode(app, key, action);
            None
        },
        Mode::SessionPicker => handle_session_picker_mode(app, key, connected),
        Mode::InputPrompt(kind) => handle_input_prompt_mode(app, key, connected, kind),
        Mode::AgentChat => handle_agent_chat_mode(app, key, connected),
        Mode::ActionMenu => handle_action_menu_mode(app, key, connected),
    }
}

/// The number of newlines in a text.
pub open spec fn newlines(s: Seq<char>) -> nat
    decreases s.len(),
{
    if s.len() == 0 {
        0
    } else {
        newlines(s.drop_last()) + if s.last() == '\n' { 1nat } else { 0nat }
    }
}

/// The number of lines `str::lines` finds in a text: one per newline, and
/// one more for a last line without one.
pub open spec fn lines_in(s: Seq<char>) -> nat {
    newlines(s) + if s.len() > 0 && s.last() != '\n' { 1nat } else { 0nat }
}

/// Counts the lines of a text as `str::lines` finds them.
pub fn line_count(text: &str) -> (r: usize)
    ensures
        r == lines_in(text@),
{
    let v = crate::text::chars_of(text);
    let mut count: usize = 0;
    let mut i: usize = 0;
    while i < v.len()
        invariant
            v@ == text@,
            i <= v@.len(),
            count == newlines(v@.subrange(0, i as int)),
            count <= i,
            i > 0 && v@[i - 1] != '\n' ==> count < i,
        decreases v@.len() - i,
    {
        proof {
            let s1 = v@.subrange(0, i + 1);
            assert(s1.drop_last() =~= v@.subrange(0, i as int));
        }
        if v[i] == '\n' {
            count = count + 1;
        }
        i = i + 1;
    }
    assert(v@.subrange(0, v@.len() as int) =~= v@);
    if v.len() > 0 && v[v.len() - 1] != '\n' {
        count = count + 1;
    }
    count
}

impl App {
    /// Reports how copying `text` to the clipboard went: the number of
    /// lines copied, or the error.
    pub fn report_copy(&mut self, text: &str, error: Option<String>)
        ensures
            match error {
                Some(e) => toasted(*old(self), *final(self), ToastLevel::Error, "Failed to copy: "@ + e@),
                None => toasted(
                    *old(self),
                    *final(self),
                    ToastLevel::Success,
                    decimal(lines_in(text@)) + " line(s) yanked"@,
                ),
            },
    {
        match error {
            Some(e) => {
                let mut msg = String::from_str("Failed to copy: ");
                msg.append(e.as_str());
                self.push_toast(Toast::error(msg.as_str()));
            },
            None => {
                let n = line_count(text);
                let mut msg = String::new();
                crate::text::push_decimal(&mut msg, n);
                msg.append(" line(s) yanked");
                self.push_toast(Toast::success(msg.as_str()));
            },
        }
    }
}

/// The number of lines the current tab shows (the tree tab shows none).
pub fn current_event_count(app: &App) -> (r: usize)
    ensures
        r == log_count(*app),
{
    app.current_log_count()
}

/// Once per turn of the event loop: a pending tree fetch (after a session
/// switch) is taken up and asks the daemon for the tree while connected.
pub fn take_tree_fetch(app: &mut App, connected: bool) -> (r: Option<Effect>)
    ensures
        if old(app).needs_tree_fetch {
            &&& *final(app) == (App { needs_tree_fetch: false, ..*old(app) })
            &&& connected ==> sends(r, "get_tree"@)
            &&& !connected ==> r is None
        } else {
            *final(app) == *old(app) && r is None
        },
{
    if !app.needs_tree_fetch {
        return None;
    }
    app.needs_tree_fetch = false;
    if connected {
        request("get_tree")
    } else {
        None
    }
}

} // verus!
