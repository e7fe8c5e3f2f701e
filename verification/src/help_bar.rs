//! The key hints of the help bar: which keys do what in the current mode.

use vstd::prelude::*;
use crate::types::{ContentTab, InputPromptKind, Mode};

verus! {

/// The hints of the normal mode: the common ones, then those of the tab.
pub open spec fn normal_hints(tab: ContentTab, running: bool, has_session: bool) -> Seq<(Seq<char>, Seq<char>)> {
    let scroll = if tab == ContentTab::Tree { ("↑↓/jk"@, "navigate"@) } else { ("↑↓/jk"@, "scroll"@) };
    let common = seq![("hl"@, "tabs"@), scroll, ("/"@, "filter"@), ("s"@, "sessions"@)];
    let extra = match tab {
        ContentTab::Tree => seq![("←→"@, "expand/collapse"@), ("Enter"@, "toggle"@), ("e/E"@, "expand/collapse all"@)]
            + if running { seq![("r"@, "refresh"@)] } else { seq![] },
        ContentTab::Flutter => if has_session {
            if running {
                seq![("r"@, "reload"@), ("R"@, "restart"@), ("x"@, "stop"@)]
            } else {
                seq![("p"@, "run"@)]
            }
        } else {
            seq![]
        },
        ContentTab::Agent => seq![("Enter"@, "chat"@)],
        ContentTab::Interactions => seq![],
    };
    common + extra + seq![("c"@, "clear"@), ("?"@, "help"@)]
}

/// The hints shown in `mode`.
pub open spec fn hints(mode: Mode, tab: ContentTab, running: bool, has_session: bool) -> Seq<(Seq<char>, Seq<char>)> {
    match mode {
        Mode::Normal => normal_hints(tab, running, has_session),
        Mode::Filter => seq![("Enter"@, "apply"@), ("Esc"@, "cancel"@)],
        Mode::Help => seq![("Esc"@, "close"@), ("q"@, "quit"@)],
        Mode::Confirm(_) => seq![("y"@, "confirm"@), ("n/Esc"@, "cancel"@)],
        Mode::SessionPicker => seq![
            ("↑↓/jk"@, "select"@),
            ("Enter"@, "connect"@),
            ("c"@, "create"@),
            ("d"@, "delete"@),
            ("Esc"@, "close"@),
        ],
        Mode::InputPrompt(InputPromptKind::CreateSession) => seq![("Enter"@, "create"@), ("Esc"@, "cancel"@)],
        Mode::InputPrompt(InputPromptKind::RunApp) => seq![("Enter"@, "run (empty=default)"@), ("Esc"@, "cancel"@)],
        Mode::ActionMenu => seq![
            ("↑↓/jk"@, "select"@),
            ("←→/hl"@, "submenu"@),
            ("Enter"@, "execute"@),
            ("Esc"@, "cancel"@),
        ],
        Mode::AgentChat => seq![("Enter"@, "send"@), ("Esc"@, "cancel"@)],
    }
}

/// The texts of key hints.
pub open spec fn hint_texts(v: Seq<(String, String)>) -> Seq<(Seq<char>, Seq<char>)> {
    v.map_values(|h: (String, String)| (h.0@, h.1@))
}

fn push_hint(v: &mut Vec<(String, String)>, key: &str, what: &str)
    ensures
        hint_texts(final(v)@) == hint_texts(old(v)@).push((key@, what@)),
{
    v.push((String::from_str(key), String::from_str(what)));
    assert(hint_texts(final(v)@) =~= hint_texts(old(v)@).push((key@, what@)));
}

/// The key hints for the help bar: key and what it does, in order.
pub fn key_hints(mode: Mode, tab: ContentTab, running: bool, has_session: bool) -> (r: Vec<(String, String)>)
    ensures
        hint_texts(r@) == hints(mode, tab, running, has_session),
{
    let mut v: Vec<(String, String)> = Vec::new();
    match mode {
        Mode::Normal => {
            push_hint(&mut v, "hl", "tabs");
            if tab == ContentTab::Tree {
                push_hint(&mut v, "↑↓/jk", "navigate");
            } else {
                push_hint(&mut v, "↑↓/jk", "scroll");
            }
            push_hint(&mut v, "/", "filter");
            push_hint(&mut v, "s", "sessions");
            match tab {
                ContentTab::Tree => {
                    push_hint(&mut v, "←→", "expand/collapse");
                    push_hint(&mut v, "Enter", "toggle");
                    push_hint(&mut v, "e/E", "expand/collapse all");
                    if running {
                        push_hint(&mut v, "r", "refresh");
                    }
                },
                ContentTab::Flutter => {
                    if has_session {
                        if running {
                            push_hint(&mut v, "r", "reload");
                            push_hint(&mut v, "R", "restart");
                            push_hint(&mut v, "x", "stop");
                        } else {
                            push_hint(&mut v, "p", "run");
                        }
                    }
                },
                ContentTab::Agent => {
                    push_hint(&mut v, "Enter", "chat");
                },
                ContentTab::Interactions => {},
            }
            push_hint(&mut v, "c", "clear");
            push_hint(&mut v, "?", "help");
        },
        Mode::Filter => {
            push_hint(&mut v, "Enter", "apply");
            push_hint(&mut v, "Esc", "cancel");
        },
        Mode::Help => {
            push_hint(&mut v, "Esc", "close");
            push_hint(&mut v, "q", "quit");
        },
        Mode::Confirm(_) => {
            push_hint(&mut v, "y", "confirm");
            push_hint(&mut v, "n/Esc", "cancel");
        },
        Mode::SessionPicker => {
            push_hint(&mut v, "↑↓/jk", "select");
            push_hint(&mut v, "Enter", "connect");
            push_hint(&mut v, "c", "create");
            push_hint(&mut v, "d", "delete");
            push_hint(&mut v, "Esc", "close");
        },
        Mode::InputPrompt(InputPromptKind::CreateSession) => {
            push_hint(&mut v, "Enter", "create");
            push_hint(&mut v, "Esc", "cancel");
        },
        Mode::InputPrompt(InputPromptKind::RunApp) => {
            push_hint(&mut v, "Enter", "run (empty=default)");
            push_hint(&mut v, "Esc", "cancel");
        },
        Mode::ActionMenu => {
            push_hint(&mut v, "↑↓/jk", "select");
            push_hint(&mut v, "←→/hl", "submenu");
            push_hint(&mut v, "Enter", "execute");
            push_hint(&mut v, "Esc", "cancel");
        },
        Mode::AgentChat => {
            push_hint(&mut v, "Enter", "send");
            push_hint(&mut v, "Esc", "cancel");
        },
    }
    assert(hint_texts(v@) =~= hints(mode, tab, running, has_session));
    v
}

} // verus!
