//! Monitor commands (quit, reload, run, filter, ...) and what each asks of
//! the monitor and of the daemon.

use vstd::prelude::*;
use crate::app::{clear_events_done, App};
use crate::event::{pair, request, request_with, sends, sends_texts, Effect};
use crate::types::Mode;

verus! {

/// A monitor command.
#[derive(Debug, Clone, PartialEq, Eq)]
pub enum TuiCommand {
    Quit,
    Reload,
    Restart,
    Run { device: Option<String> },
    Stop,
    Status,
    Tree,
    CreateSession { name: String, project_path: String },
    ListSessions,
    Connect { session: String },
    DestroySession { session: String },
    Filter(Option<String>),
    Clear,
    Agent { intent: String, answer: Option<String> },
    Help,
    Unknown(String),
}

/// The daemon action a command sends with no data, if it is one of those.
pub open spec fn plain_action(c: TuiCommand) -> Option<Seq<char>> {
    match c {
        TuiCommand::Reload => Some("hot_reload"@),
        TuiCommand::Restart => Some("hot_restart"@),
        TuiCommand::Run { device: None } => Some("run_app"@),
        TuiCommand::Stop => Some("stop_app"@),
        TuiCommand::Status => Some("get_status"@),
        TuiCommand::Tree => Some("get_tree"@),
        TuiCommand::ListSessions => Some("list_sessions"@),
        _ => None,
    }
}

/// `b` and `r` are what running command `c` on `a` gives; `connected` says
/// whether a daemon connection is open.
pub open spec fn command_done(a: App, connected: bool, c: TuiCommand, r: Option<Effect>, b: App) -> bool {
    match c {
        TuiCommand::Quit => r is None && b == (App { should_quit: true, ..a }),
        TuiCommand::Filter(p) => r is None && b == (App { filter: p, scroll_offset: 0, ..a }),
        TuiCommand::Clear => r is None && clear_events_done(a, b) && b == (App {
            session: b.session,
            scroll_offset: 0,
            ..a
        }),
        TuiCommand::Help => r is None && b == (App { mode: Mode::Help, ..a }),
        TuiCommand::Unknown(_) => r is None && b == a,
        TuiCommand::Run { device: Some(d) } => if connected {
            sends_texts(r, "run_app"@, seq![("device"@, d@)]) && b == a
        } else {
            r is None && b == a
        },
        TuiCommand::CreateSession { name, project_path } => if connected {
            sends_texts(r, "create_session"@, seq![("name"@, name@), ("projectPath"@, project_path@)]) && b == a
        } else {
            r is None && b == a
        },
        TuiCommand::Connect { session } => if connected {
            sends_texts(r, "connect_session"@, seq![("sessionId"@, session@)]) && b == a
        } else {
            r is None && b == a
        },
        TuiCommand::DestroySession { session } => if connected {
            sends_texts(r, "destroy_session"@, seq![("sessionId"@, session@)]) && b == a
        } else {
            r is None && b == a
        },
        TuiCommand::Agent { intent, answer } => if connected {
            &&& b == (App { session: crate::session::SessionState { pending_response: true, ..a.session }, ..a })
            &&& match answer {
                Some(ans) => sends_texts(r, "agent_message"@, seq![("answer"@, ans@), ("intent"@, intent@)]),
                None => sends_texts(r, "agent_message"@, seq![("intent"@, intent@)]),
            }
        } else {
            r is None && b == a
        },
        _ => b == a && if connected {
            sends(r, plain_action(c).unwrap())
        } else {
            r is None
        },
    }
}

/// Runs a command: the monitor's own commands change the state, the
/// others become a request to the daemon, sent only while connected.
pub fn execute_command(app: &mut App, command: TuiCommand, connected: bool) -> (r: Option<Effect>)
    ensures
        command_done(*old(app), connected, command, r, *final(app)),
{
    match command {
        TuiCommand::Quit => {
            app.should_quit = true;
            None
        },
        TuiCommand::Filter(pattern) => {
            app.filter = pattern;
            app.scroll_offset = 0;
            None
        },
        TuiCommand::Clear => {
            app.clear_events();
            None
        },
        TuiCommand::Help => {
            app.mode = Mode::Help;
            None
        },
        TuiCommand::Unknown(_) => None,
        _ => {
            if !connected {
                return None;
            }
            match command {
                TuiCommand::Reload => request("hot_reload"),
                TuiCommand::Restart => request("hot_restart"),
                TuiCommand::Run { device } => match device {
                    Some(d) => {
                        let ghost dv = d@;
                        let mut ms: Vec<(String, String)> = Vec::new();
                        ms.push(pair("device", d));
                        proof { assert(ms@.map_values(|m: (String, String)| (m.0@, m.1@)) =~= seq![("device"@, dv)]); }
                        request_with("run_app", ms)
                    },
                    None => request("run_app"),
                },
                TuiCommand::Stop => request("stop_app"),
                TuiCommand::Status => request("get_status"),
                TuiCommand::Tree => request("get_tree"),
                TuiCommand::ListSessions => request("list_sessions"),
                TuiCommand::CreateSession { name, project_path } => {
                    let ghost (nv, pv) = (name@, project_path@);
                    let mut ms: Vec<(String, String)> = Vec::new();
                    ms.push(pair("name", name));
                    ms.push(pair("projectPath", project_path));
                    proof {
                        assert(ms@.map_values(|m: (String, String)| (m.0@, m.1@)) =~= seq![("name"@, nv), ("projectPath"@, pv)]);
                    }
                    request_with("create_session", ms)
                },
                TuiCommand::Connect { session } => {
                    let ghost sv = session@;
                    let mut ms: Vec<(String, String)> = Vec::new();
                    ms.push(pair("sessionId", session));
                    proof { assert(ms@.map_values(|m: (String, String)| (m.0@, m.1@)) =~= seq![("sessionId"@, sv)]); }
                    request_with("connect_session", ms)
                },
                TuiCommand::DestroySession { session } => {
                    let ghost sv = session@;
                    let mut ms: Vec<(String, String)> = Vec::new();
                    ms.push(pair("sessionId", session));
                    proof { assert(ms@.map_values(|m: (String, String)| (m.0@, m.1@)) =~= seq![("sessionId"@, sv)]); }
                    request_with("destroy_session", ms)
                },
                TuiCommand::Agent { intent, answer } => {
                    let ghost iv = intent@;
                    let mut ms: Vec<(String, String)> = Vec::new();
                    match answer {
                        Some(ans) => {
                            let ghost av = ans@;
                            ms.push(pair("answer", ans));
                            ms.push(pair("intent", intent));
                            proof {
                                assert(ms@.map_values(|m: (String, String)| (m.0@, m.1@)) =~= seq![("answer"@, av), ("intent"@, iv)]);
                            }
                        },
                        None => {
                            ms.push(pair("intent", intent));
                            proof { assert(ms@.map_values(|m: (String, String)| (m.0@, m.1@)) =~= seq![("intent"@, iv)]); }
                        },
                    }
                    app.session.pending_response = true;
                    request_with("agent_message", ms)
                },
                _ => None,
            }
        },
    }
}

} // verus!
