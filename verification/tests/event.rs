use it_tui::app::App;
use it_tui::event::{
    handle_confirm_mode, handle_filter_mode, handle_help_mode, handle_key_event, handle_ws_event, Effect, Key,
    KeyPress, WsEvent,
};
use it_tui::project::ProjectInfo;
use it_tui::protocol::SessionSummary;
use it_tui::types::{AppStatus, ConfirmAction, ContentTab, Mode, WsState};

fn test_project() -> ProjectInfo {
    ProjectInfo {
        path: "/test/project".to_string(),
        name: "test_app".to_string(),
        is_flutter: true,
    }
}

fn key(k: Key) -> KeyPress {
    KeyPress { key: k, ctrl: false }
}

#[test]
fn test_handle_filter_mode_enter_applies_filter() {
    let mut app = App::new("ws://localhost:9000".to_string(), 100, test_project());
    app.mode = Mode::Filter;
    app.input_buffer = "flutter".to_string();

    handle_filter_mode(&mut app, key(Key::Enter));

    assert_eq!(app.filter, Some("flutter".to_string()));
    assert_eq!(app.mode, Mode::Normal);
    assert!(app.input_buffer.is_empty());
}

#[test]
fn test_handle_filter_mode_empty_clears_filter() {
    let mut app = App::new("ws://localhost:9000".to_string(), 100, test_project());
    app.mode = Mode::Filter;
    app.filter = Some("old".to_string());
    app.input_buffer.clear();

    handle_filter_mode(&mut app, key(Key::Enter));

    assert!(app.filter.is_none());
    assert_eq!(app.mode, Mode::Normal);
}

#[test]
fn test_handle_confirm_mode_yes_quits() {
    let mut app = App::new("ws://localhost:9000".to_string(), 100, test_project());
    app.mode = Mode::Confirm(ConfirmAction::Quit);

    handle_confirm_mode(&mut app, key(Key::Char('y')), ConfirmAction::Quit);

    assert!(app.should_quit);
}

#[test]
fn test_handle_confirm_mode_no_cancels() {
    let mut app = App::new("ws://localhost:9000".to_string(), 100, test_project());
    app.mode = Mode::Confirm(ConfirmAction::Quit);

    handle_confirm_mode(&mut app, key(Key::Char('n')), ConfirmAction::Quit);

    assert!(!app.should_quit);
    assert_eq!(app.mode, Mode::Normal);
}

#[test]
fn test_handle_help_mode_escape_returns_to_normal() {
    let mut app = App::new("ws://localhost:9000".to_string(), 100, test_project());
    app.mode = Mode::Help;

    handle_help_mode(&mut app, key(Key::Esc));

    assert_eq!(app.mode, Mode::Normal);
}

#[test]
fn test_handle_ws_event_connected() {
    let mut app = App::new("ws://localhost:9000".to_string(), 100, test_project());
    app.ws_state = WsState::Connecting;

    handle_ws_event(
        &mut app,
        WsEvent::Connected {
            client_id: "test-client-123".to_string(),
            daemon_version: "0.1.0".to_string(),
            sessions: vec![],
        },
    );

    assert_eq!(app.ws_state, WsState::Connected);
}

#[test]
fn test_handle_ws_event_disconnected() {
    let mut app = App::new("ws://localhost:9000".to_string(), 100, test_project());
    app.ws_state = WsState::Connected;

    handle_ws_event(&mut app, WsEvent::Disconnected);

    assert_eq!(app.ws_state, WsState::Disconnected);
}

#[test]
fn connected_greeting_selects_first_session() {
    let mut app = App::new("ws://localhost:9000".to_string(), 100, test_project());
    handle_ws_event(
        &mut app,
        WsEvent::Connected {
            client_id: "c".to_string(),
            daemon_version: "0.1.0".to_string(),
            sessions: vec![SessionSummary {
                id: "s1".to_string(),
                name: "one".to_string(),
                project_path: "/p".to_string(),
                app_status: "running".to_string(),
            }],
        },
    );
    assert_eq!(app.sessions.len(), 1);
    assert_eq!(app.selected_session, Some("s1".to_string()));
    assert_eq!(app.app_status, AppStatus::Running { pid: 0, uri: String::new() });
    assert!(app.needs_tree_fetch);
}

#[test]
fn ctrl_c_quits_in_any_mode() {
    let mut app = App::new("ws://localhost:9000".to_string(), 100, test_project());
    app.mode = Mode::Filter;
    let out = handle_key_event(&mut app, KeyPress { key: Key::Char('c'), ctrl: true }, true);
    assert!(out.is_none());
    assert!(app.should_quit);
}

#[test]
fn normal_mode_q_asks_for_confirmation() {
    let mut app = App::new("ws://localhost:9000".to_string(), 100, test_project());
    app.mode = Mode::Normal;
    handle_key_event(&mut app, key(Key::Char('q')), true);
    assert_eq!(app.mode, Mode::Confirm(ConfirmAction::Quit));
    assert!(!app.should_quit);
}

#[test]
fn hot_reload_needs_a_running_app_and_a_connection() {
    let mut app = App::new("ws://localhost:9000".to_string(), 100, test_project());
    app.mode = Mode::Normal;
    assert!(handle_key_event(&mut app, key(Key::Char('r')), true).is_none());
    app.app_status = AppStatus::Running { pid: 1, uri: "ws://x".to_string() };
    assert!(handle_key_event(&mut app, key(Key::Char('r')), false).is_none());
    match handle_key_event(&mut app, key(Key::Char('r')), true) {
        Some(Effect::Send(req)) => {
            assert_eq!(req.action, "hot_reload");
            assert!(req.data.is_none());
        }
        other => panic!("unexpected {:?}", other),
    }
    assert_eq!(app.toasts.len(), 1);
    assert_eq!(app.toasts[0].message, "Hot reload triggered");
}

#[test]
fn tab_keys_cycle_tabs() {
    let mut app = App::new("ws://localhost:9000".to_string(), 100, test_project());
    app.mode = Mode::Normal;
    handle_key_event(&mut app, key(Key::Char('l')), true);
    assert_eq!(app.content_tab, ContentTab::Agent);
    handle_key_event(&mut app, key(Key::Char('h')), true);
    handle_key_event(&mut app, key(Key::Char('h')), true);
    assert_eq!(app.content_tab, ContentTab::Tree);
}

#[test]
fn filter_prompt_edits_text() {
    let mut app = App::new("ws://localhost:9000".to_string(), 100, test_project());
    app.mode = Mode::Normal;
    handle_key_event(&mut app, key(Key::Char('/')), true);
    assert_eq!(app.mode, Mode::Filter);
    handle_key_event(&mut app, key(Key::Char('a')), true);
    handle_key_event(&mut app, key(Key::Char('b')), true);
    handle_key_event(&mut app, key(Key::Backspace), true);
    assert_eq!(app.input_buffer, "a");
    handle_key_event(&mut app, key(Key::Enter), true);
    assert_eq!(app.filter, Some("a".to_string()));
}

#[test]
fn agent_chat_composer_edits_at_cursor() {
    let mut app = App::new("ws://localhost:9000".to_string(), 100, test_project());
    app.mode = Mode::AgentChat;
    for c in "hlo".chars() {
        handle_key_event(&mut app, key(Key::Char(c)), true);
    }
    handle_key_event(&mut app, key(Key::Left), true);
    handle_key_event(&mut app, key(Key::Left), true);
    handle_key_event(&mut app, key(Key::Char('e')), true);
    handle_key_event(&mut app, key(Key::Char('l')), true);
    assert_eq!(app.session.chat_input, "hello");
    handle_key_event(&mut app, key(Key::End), true);
    handle_key_event(&mut app, key(Key::Backspace), true);
    assert_eq!(app.session.chat_input, "hell");
    match handle_key_event(&mut app, key(Key::Enter), true) {
        Some(Effect::Send(req)) => assert_eq!(req.action, "agent_message"),
        other => panic!("unexpected {:?}", other),
    }
    assert!(app.session.chat_input.is_empty());
    assert_eq!(app.session.chat_cursor, 0);
    assert_eq!(app.session.chat_messages.len(), 1);
    assert!(app.session.pending_response);
}

#[test]
fn session_picker_enter_connects() {
    let mut app = App::new("ws://localhost:9000".to_string(), 100, test_project());
    app.set_sessions(vec![it_tui::protocol::session_from_summary(SessionSummary {
        id: "s1".to_string(),
        name: "one".to_string(),
        project_path: "/p".to_string(),
        app_status: "stopped".to_string(),
    })]);
    app.mode = Mode::SessionPicker;
    match handle_key_event(&mut app, key(Key::Enter), true) {
        Some(Effect::Send(req)) => assert_eq!(req.action, "connect_session"),
        other => panic!("unexpected {:?}", other),
    }
    assert_eq!(app.mode, Mode::Normal);
    assert_eq!(app.app_status, AppStatus::Stopped);
}

#[test]
fn run_prompt_without_session_reports_it() {
    let mut app = App::new("ws://localhost:9000".to_string(), 100, test_project());
    app.mode = Mode::InputPrompt(it_tui::types::InputPromptKind::RunApp);
    let out = handle_key_event(&mut app, key(Key::Enter), true);
    assert!(out.is_none());
    assert_eq!(app.mode, Mode::Normal);
    assert_eq!(app.toasts[0].message, "No session selected");
}

#[test]
fn copy_report_counts_lines() {
    let mut app = App::new("ws://localhost:9000".to_string(), 100, test_project());
    app.report_copy("a\nb\n", None);
    assert_eq!(app.toasts[0].message, "2 line(s) yanked");
    app.report_copy("x", Some("no clipboard".to_string()));
    assert_eq!(app.toasts[1].message, "Failed to copy: no clipboard");
    assert_eq!(it_tui::event::line_count(""), 0);
    assert_eq!(it_tui::event::line_count("a\n\nb"), 3);
}
