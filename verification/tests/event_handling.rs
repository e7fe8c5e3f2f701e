//! How the monitor state answers daemon events, command and agent
//! responses, and navigation, without a terminal or a connection.

use it_tui::app::App;
use it_tui::flutter_log::FlutterLogEntry;
use it_tui::json::{Json, JsonNumber};
use it_tui::project::ProjectInfo;
use it_tui::protocol::{AgentResponse, AgentStatus, CommandResponse, MonitoringEvent, Session};
use it_tui::types::{AppStatus, ContentTab, Mode, Toast, WsState};

const TS: &str = "2024-01-01T00:00:00Z";

fn text(s: &str) -> Json {
    Json::String(s.to_string())
}

fn number(n: u64) -> Json {
    Json::Number(JsonNumber { unsigned: Some(n), text: n.to_string() })
}

fn object(members: Vec<(&str, Json)>) -> Json {
    Json::Object(members.into_iter().map(|(k, v)| (k.to_string(), v)).collect())
}

fn test_project() -> ProjectInfo {
    ProjectInfo { path: "/test/project".to_string(), name: "test_app".to_string(), is_flutter: true }
}

fn test_app() -> App {
    App::new("ws://localhost:9877".to_string(), 100, test_project())
}

fn connected_app() -> App {
    let mut app = test_app();
    app.ws_state = WsState::Connected;
    app
}

fn app_with_sessions() -> App {
    let mut app = connected_app();
    app.set_sessions(vec![
        mock_session("sess-1", "app-one", "running"),
        mock_session("sess-2", "app-two", "not_running"),
        mock_session("sess-3", "app-three", "starting"),
    ]);
    app
}

fn mock_session(id: &str, name: &str, status: &str) -> Session {
    Session {
        id: id.to_string(),
        name: name.to_string(),
        project_path: format!("/projects/{}", name),
        app_status: status.to_string(),
        vm_service_uri: if status == "running" { Some("ws://127.0.0.1:5678/ws".to_string()) } else { None },
        pid: if status == "running" { Some(12345) } else { None },
        connected_clients: Vec::new(),
        created_at: TS.to_string(),
        last_active_at: TS.to_string(),
    }
}

/// A session as the daemon writes it in JSON.
fn session_value(s: &Session) -> Json {
    object(vec![
        ("id", text(&s.id)),
        ("name", text(&s.name)),
        ("projectPath", text(&s.project_path)),
        ("appStatus", text(&s.app_status)),
        ("vmServiceUri", match &s.vm_service_uri {
            Some(u) => text(u),
            None => Json::Null,
        }),
        ("pid", match s.pid {
            Some(p) => number(p as u64),
            None => Json::Null,
        }),
        ("connectedClients", Json::Array(s.connected_clients.iter().map(|c| text(c)).collect())),
        ("createdAt", text(&s.created_at)),
        ("lastActiveAt", text(&s.last_active_at)),
    ])
}

fn session_event(event_type: &str, payload: Json) -> MonitoringEvent {
    MonitoringEvent {
        ts: TS.to_string(),
        source: "session".to_string(),
        event_type: event_type.to_string(),
        payload,
    }
}

fn status_changed_event(session_id: &str, status: &str) -> MonitoringEvent {
    session_event(
        "session.status_changed",
        object(vec![("sessionId", text(session_id)), ("status", text(status))]),
    )
}

fn status_running_event(session_id: &str, pid: u32, vm_uri: &str) -> MonitoringEvent {
    session_event(
        "session.status_changed",
        object(vec![
            ("sessionId", text(session_id)),
            ("status", text("running")),
            ("pid", number(pid as u64)),
            ("vmServiceUri", text(vm_uri)),
        ]),
    )
}

fn session_destroyed_event(session_id: &str) -> MonitoringEvent {
    session_event("session.destroyed", object(vec![("sessionId", text(session_id))]))
}

fn session_created_event(session: &Session) -> MonitoringEvent {
    session_event("session.created", object(vec![("session", session_value(session))]))
}

fn listed_session(id: &str, name: &str, path: &str, status: &str) -> Json {
    object(vec![
        ("id", text(id)),
        ("name", text(name)),
        ("projectPath", text(path)),
        ("appStatus", text(status)),
        ("createdAt", text(TS)),
        ("lastActiveAt", text(TS)),
    ])
}

#[test]
fn test_status_starting_updates_app_status() {
    let mut app = app_with_sessions();
    app.switch_to_session("sess-1".to_string());
    app.app_status = AppStatus::Stopped;

    let event = status_changed_event("sess-1", "starting");
    app.push_event(event);

    assert!(matches!(app.app_status, AppStatus::Starting));
}

#[test]
fn test_status_running_updates_with_pid_and_uri() {
    let mut app = app_with_sessions();
    app.switch_to_session("sess-1".to_string());
    app.app_status = AppStatus::Starting;

    let event = status_running_event("sess-1", 54321, "ws://127.0.0.1:9999/ws");
    app.push_event(event);

    match app.app_status {
        AppStatus::Running { pid, uri } => {
            assert_eq!(pid, 54321);
            assert_eq!(uri, "ws://127.0.0.1:9999/ws");
        }
        _ => panic!("Expected Running status, got {:?}", app.app_status),
    }
}

#[test]
fn test_status_stopped_updates_app_status() {
    let mut app = app_with_sessions();
    app.switch_to_session("sess-1".to_string());
    app.app_status = AppStatus::Running { pid: 12345, uri: "ws://127.0.0.1:5678/ws".to_string() };

    let event = status_changed_event("sess-1", "stopped");
    app.push_event(event);

    assert!(matches!(app.app_status, AppStatus::Stopped));
}

#[test]
fn test_status_event_for_different_session_ignored() {
    let mut app = app_with_sessions();
    app.switch_to_session("sess-1".to_string());
    app.app_status = AppStatus::Stopped;

    let event = status_changed_event("sess-2", "running");
    app.push_event(event);

    assert!(matches!(app.app_status, AppStatus::Stopped));
}

#[test]
fn test_status_transitions_in_correct_order() {
    let mut app = app_with_sessions();
    app.switch_to_session("sess-1".to_string());
    app.app_status = AppStatus::Stopped;

    app.push_event(status_changed_event("sess-1", "starting"));
    assert!(matches!(app.app_status, AppStatus::Starting));

    app.push_event(status_running_event("sess-1", 12345, "ws://localhost:5678/ws"));
    assert!(matches!(app.app_status, AppStatus::Running { .. }));
}

#[test]
fn test_session_created_adds_to_list() {
    let mut app = connected_app();
    assert!(app.sessions.is_empty());

    let new_session = mock_session("new-sess", "new-app", "not_running");
    let event = session_created_event(&new_session);
    app.push_event(event);

    assert_eq!(app.sessions.len(), 1);
    assert_eq!(app.sessions[0].id, "new-sess");
    assert_eq!(app.sessions[0].name, "new-app");
}

#[test]
fn test_session_created_does_not_duplicate() {
    let mut app = app_with_sessions();
    let initial_count = app.sessions.len();

    let existing = mock_session("sess-1", "app-one", "running");
    let event = session_created_event(&existing);
    app.push_event(event);

    assert_eq!(app.sessions.len(), initial_count);
}

#[test]
fn test_session_destroyed_removes_from_list() {
    let mut app = app_with_sessions();
    assert_eq!(app.sessions.len(), 3);

    let event = session_destroyed_event("sess-2");
    app.push_event(event);

    assert_eq!(app.sessions.len(), 2);
    assert!(!app.sessions.iter().any(|s| s.id == "sess-2"));
}

#[test]
fn test_session_destroyed_clears_selected_if_current() {
    let mut app = app_with_sessions();
    app.switch_to_session("sess-1".to_string());
    assert_eq!(app.selected_session, Some("sess-1".to_string()));

    let event = session_destroyed_event("sess-1");
    app.push_event(event);

    assert_eq!(app.selected_session, None);
    assert!(matches!(app.app_status, AppStatus::Stopped));
}

#[test]
fn test_session_destroyed_adjusts_picker_index() {
    let mut app = app_with_sessions();
    app.session_picker_index = 2;

    let event = session_destroyed_event("sess-3");
    app.push_event(event);

    assert!(app.session_picker_index < app.sessions.len());
}

#[test]
fn test_command_response_running_status() {
    let mut app = app_with_sessions();
    app.switch_to_session("sess-1".to_string());

    let resp = CommandResponse {
        id: "1".to_string(),
        success: true,
        data: object(vec![
            ("status", text("running")),
            ("pid", number(99999)),
            ("uri", text("ws://127.0.0.1:8888")),
        ]),
        error: None,
        session_error: None,
    };

    app.handle_command_response(resp);

    match app.app_status {
        AppStatus::Running { pid, uri } => {
            assert_eq!(pid, 99999);
            assert_eq!(uri, "ws://127.0.0.1:8888");
        }
        _ => panic!("Expected Running status"),
    }
}

#[test]
fn test_command_response_sessions_list() {
    let mut app = connected_app();
    assert!(app.sessions.is_empty());

    let resp = CommandResponse {
        id: "1".to_string(),
        success: true,
        data: object(vec![(
            "sessions",
            Json::Array(vec![
                listed_session("sess-a", "app-a", "/path/a", "running"),
                listed_session("sess-b", "app-b", "/path/b", "stopped"),
            ]),
        )]),
        error: None,
        session_error: None,
    };

    app.handle_command_response(resp);

    assert_eq!(app.sessions.len(), 2);
    assert_eq!(app.sessions[0].id, "sess-a");
    assert_eq!(app.sessions[1].id, "sess-b");
}

#[test]
fn test_command_response_create_session() {
    let mut app = connected_app();
    app.mode = Mode::SessionPicker;

    let resp = CommandResponse {
        id: "1".to_string(),
        success: true,
        data: object(vec![("session", listed_session("new-sess", "new-app", "/new/path", "not_running"))]),
        error: None,
        session_error: None,
    };

    app.handle_command_response(resp);

    assert_eq!(app.sessions.len(), 1);
    assert_eq!(app.selected_session, Some("new-sess".to_string()));
    assert_eq!(app.mode, Mode::Normal);
}

#[test]
fn test_command_response_error_creates_toast() {
    let mut app = connected_app();
    assert!(app.toasts.is_empty());

    let resp = CommandResponse {
        id: "1".to_string(),
        success: false,
        data: object(vec![]),
        error: Some("Something failed".to_string()),
        session_error: None,
    };

    app.handle_command_response(resp);

    assert_eq!(app.toasts.len(), 1);
}

#[test]
fn test_agent_response_success_clears_pending() {
    let mut app = app_with_sessions();
    app.switch_to_session("sess-1".to_string());
    app.session.pending_response = true;

    let resp = AgentResponse {
        id: "1".to_string(),
        status: AgentStatus::Success,
        summary: Some("Task completed".to_string()),
        error: None,
        question: None,
        sdk_session_id: None,
    };

    app.handle_agent_response(resp);

    assert!(!app.session.pending_response);
    assert!(app.session.conversation_id.is_none());
}

#[test]
fn test_agent_response_needs_context_sets_conversation() {
    let mut app = app_with_sessions();
    app.switch_to_session("sess-1".to_string());
    app.session.pending_response = true;

    let resp = AgentResponse {
        id: "1".to_string(),
        status: AgentStatus::NeedsContext,
        summary: None,
        error: None,
        question: Some("Which button?".to_string()),
        sdk_session_id: Some("conv-123".to_string()),
    };

    app.handle_agent_response(resp);

    assert!(!app.session.pending_response);
    assert_eq!(app.session.conversation_id, Some("conv-123".to_string()));
}

#[test]
fn test_agent_response_error_sets_last_error() {
    let mut app = app_with_sessions();
    app.switch_to_session("sess-1".to_string());
    app.session.pending_response = true;

    let resp = AgentResponse {
        id: "1".to_string(),
        status: AgentStatus::Error,
        summary: Some("Tool call failed".to_string()),
        error: None,
        question: None,
        sdk_session_id: None,
    };

    app.handle_agent_response(resp);

    assert_eq!(app.session.last_agent_error, Some("Tool call failed".to_string()));
}

#[test]
fn test_switch_session_saves_and_restores_state() {
    let mut app = app_with_sessions();

    app.switch_to_session("sess-1".to_string());
    app.push_flutter_log(FlutterLogEntry::parse("flutter: Hello from sess-1"));

    app.switch_to_session("sess-2".to_string());
    assert!(app.session.flutter_logs.is_empty());

    app.push_flutter_log(FlutterLogEntry::parse("flutter: Hello from sess-2"));

    app.switch_to_session("sess-1".to_string());
    assert_eq!(app.session.flutter_logs.len(), 1);
    assert!(app.session.flutter_logs[0].raw.contains("sess-1"));
}

#[test]
fn test_switch_session_triggers_tree_fetch() {
    let mut app = app_with_sessions();
    app.switch_to_session("sess-1".to_string());
    app.needs_tree_fetch = false;

    app.switch_to_session("sess-2".to_string());

    assert!(app.needs_tree_fetch);
}

#[test]
fn test_filter_flutter_logs() {
    let mut app = app_with_sessions();
    app.switch_to_session("sess-1".to_string());

    app.push_flutter_log(FlutterLogEntry::parse("flutter: Error message"));
    app.push_flutter_log(FlutterLogEntry::parse("flutter: Info message"));
    app.push_flutter_log(FlutterLogEntry::parse("flutter: Another error"));

    app.filter = Some("error".to_string());
    let filtered: Vec<usize> = app.filtered_flutter_logs();

    assert_eq!(filtered.len(), 2);
}

#[test]
fn test_clear_events_resets_scroll() {
    let mut app = app_with_sessions();
    app.switch_to_session("sess-1".to_string());
    app.scroll_offset = 10;

    app.clear_events();

    assert_eq!(app.scroll_offset, 0);
}

#[test]
fn test_push_toast_limits_queue() {
    let mut app = test_app();

    for i in 0..10 {
        app.push_toast(Toast::info(&format!("Toast {}", i)));
    }

    assert!(app.toasts.len() <= 5);
}

#[test]
fn test_tab_cycling() {
    let mut app = app_with_sessions();
    app.switch_to_session("sess-1".to_string());
    app.content_tab = ContentTab::Flutter;

    app.next_tab();
    assert_eq!(app.content_tab, ContentTab::Agent);

    app.next_tab();
    assert_eq!(app.content_tab, ContentTab::Interactions);

    app.next_tab();
    assert_eq!(app.content_tab, ContentTab::Tree);

    app.next_tab();
    assert_eq!(app.content_tab, ContentTab::Flutter);
}

#[test]
fn test_session_picker_navigation() {
    let mut app = app_with_sessions();
    app.mode = Mode::SessionPicker;
    app.session_picker_index = 0;

    app.session_picker_down();
    assert_eq!(app.session_picker_index, 1);

    app.session_picker_down();
    assert_eq!(app.session_picker_index, 2);

    app.session_picker_up();
    assert_eq!(app.session_picker_index, 1);
}

#[test]
fn test_session_picker_select() {
    let mut app = app_with_sessions();
    app.mode = Mode::SessionPicker;
    app.session_picker_index = 1;

    app.session_picker_select();

    assert_eq!(app.selected_session, Some("sess-2".to_string()));
}
