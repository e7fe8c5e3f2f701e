use it_tui::app::App;
use it_tui::json::{Json, JsonNumber};
use it_tui::project::ProjectInfo;
use it_tui::protocol::{AgentResponse, AgentStatus, CommandResponse, MonitoringEvent, Session};
use it_tui::types::{AppStatus, ContentTab, ContextInfo, InteractionTree, LogEntry, LogLevel, Mode, TreeNode, WsState};

fn test_project() -> ProjectInfo {
    ProjectInfo {
        path: "/test/project".to_string(),
        name: "test_app".to_string(),
        is_flutter: true,
    }
}

fn make_event(source: &str, event_type: &str) -> MonitoringEvent {
    MonitoringEvent {
        ts: "2024-01-01T00:00:00Z".to_string(),
        source: source.to_string(),
        event_type: event_type.to_string(),
        payload: Json::Null,
    }
}

fn text(s: &str) -> Json {
    Json::String(s.to_string())
}

fn number(n: u64) -> Json {
    Json::Number(JsonNumber { unsigned: Some(n), text: n.to_string() })
}

fn object(members: Vec<(&str, Json)>) -> Json {
    Json::Object(members.into_iter().map(|(k, v)| (k.to_string(), v)).collect())
}

fn session_json(id: &str, name: &str, path: &str, status: &str, extra: Vec<(&str, Json)>) -> Json {
    let mut members = vec![
        ("id", text(id)),
        ("name", text(name)),
        ("projectPath", text(path)),
        ("appStatus", text(status)),
        ("createdAt", text("2024-01-01T00:00:00Z")),
        ("lastActiveAt", text("2024-01-01T00:00:00Z")),
    ];
    members.extend(extra);
    object(members)
}

fn session(id: &str, name: &str, path: &str, status: &str, uri: Option<&str>, pid: Option<u32>) -> Session {
    Session {
        id: id.to_string(),
        name: name.to_string(),
        project_path: path.to_string(),
        app_status: status.to_string(),
        vm_service_uri: uri.map(|u| u.to_string()),
        pid,
        connected_clients: Vec::new(),
        created_at: "2024-01-01T00:00:00Z".to_string(),
        last_active_at: "2024-01-01T00:00:00Z".to_string(),
    }
}

#[test]
fn test_new_app() {
    let app = App::new("ws://localhost:9000".to_string(), 100, test_project());
    assert_eq!(app.server_uri, "ws://localhost:9000");
    assert_eq!(app.max_events, 100);
    assert_eq!(app.ws_state, WsState::Disconnected);
    assert_eq!(app.mode, Mode::SessionPicker);
    assert!(!app.should_quit);
}

#[test]
fn test_push_interaction_log_trims_to_max() {
    let mut app = App::new("ws://localhost:9000".to_string(), 3, test_project());
    for i in 0..4 {
        app.push_interaction_log(LogEntry {
            ts: format!("2024-01-01T00:00:0{}Z", i),
            level: LogLevel::Info,
            message: format!("msg{}", i),
        });
    }

    assert_eq!(app.session.interaction_logs.len(), 3);
    assert!(app.session.interaction_logs[0].message.contains("msg1"));
    assert!(app.session.interaction_logs[2].message.contains("msg3"));
}

#[test]
fn test_clear_events() {
    let mut app = App::new("ws://localhost:9000".to_string(), 10, test_project());
    app.push_event(make_event("flutter", "flutter.log"));
    app.push_event(make_event("agent", "tool_call"));
    app.scroll_offset = 5;

    app.clear_events();
    assert!(app.session.flutter_logs.is_empty());
    assert!(app.session.agent_events.is_empty());
    assert_eq!(app.scroll_offset, 0);
}

#[test]
fn test_handle_command_response_running() {
    let mut app = App::new("ws://localhost:9000".to_string(), 10, test_project());
    let resp = CommandResponse {
        id: "1".to_string(),
        success: true,
        data: object(vec![
            ("status", text("running")),
            ("pid", number(1234)),
            ("uri", text("ws://127.0.0.1:5678")),
        ]),
        error: None,
        session_error: None,
    };

    app.handle_command_response(resp);
    match app.app_status {
        AppStatus::Running { pid, uri } => {
            assert_eq!(pid, 1234);
            assert_eq!(uri, "ws://127.0.0.1:5678");
        }
        _ => panic!("Expected Running status"),
    }
}

#[test]
fn test_handle_agent_response_needs_context() {
    let mut app = App::new("ws://localhost:9000".to_string(), 10, test_project());
    app.session.pending_response = true;

    let resp = AgentResponse {
        id: "1".to_string(),
        status: AgentStatus::NeedsContext,
        summary: None,
        error: None,
        question: Some("Which button?".to_string()),
        sdk_session_id: Some("conv-123".to_string()),
    };

    app.handle_agent_response(resp);
    assert!(!app.session.pending_response);
    assert_eq!(app.session.conversation_id, Some("conv-123".to_string()));
}

#[test]
fn test_handle_agent_response_success_clears_conversation() {
    let mut app = App::new("ws://localhost:9000".to_string(), 10, test_project());
    app.session.conversation_id = Some("conv-123".to_string());
    app.session.pending_response = true;

    let resp = AgentResponse {
        id: "1".to_string(),
        status: AgentStatus::Success,
        summary: Some("Done".to_string()),
        error: None,
        question: None,
        sdk_session_id: None,
    };

    app.handle_agent_response(resp);
    assert!(!app.session.pending_response);
    assert!(app.session.conversation_id.is_none());
}

#[test]
fn test_handle_agent_response_creates_agent_event() {
    let mut app = App::new("ws://localhost:9000".to_string(), 10, test_project());
    app.session.pending_response = true;

    let resp = AgentResponse {
        id: "1".to_string(),
        status: AgentStatus::Success,
        summary: Some("Task completed".to_string()),
        error: None,
        question: None,
        sdk_session_id: None,
    };

    app.handle_agent_response(resp);
    assert_eq!(app.session.agent_events.len(), 1);
    let event = app.session.agent_events.back().unwrap();
    assert_eq!(event.source, "agent");
    assert_eq!(event.event_type, "agent_success");
}

#[test]
fn test_handle_agent_response_error_sets_last_error() {
    let mut app = App::new("ws://localhost:9000".to_string(), 10, test_project());
    app.session.pending_response = true;

    let resp = AgentResponse {
        id: "1".to_string(),
        status: AgentStatus::Error,
        summary: Some("Something went wrong".to_string()),
        error: None,
        question: None,
        sdk_session_id: None,
    };

    app.handle_agent_response(resp);
    assert_eq!(app.session.last_agent_error, Some("Something went wrong".to_string()));
    assert!(app.session.conversation_id.is_none());
}

#[test]
fn test_handle_command_response_create_session() {
    let mut app = App::new("ws://localhost:9000".to_string(), 10, test_project());
    app.mode = Mode::SessionPicker;
    assert!(app.sessions.is_empty());

    let resp = CommandResponse {
        id: "1".to_string(),
        success: true,
        data: object(vec![(
            "session",
            session_json("sess-new", "my-new-session", "/path/to/project", "not_running", vec![]),
        )]),
        error: None,
        session_error: None,
    };

    app.handle_command_response(resp);

    // Session should be added
    assert_eq!(app.sessions.len(), 1);
    assert_eq!(app.sessions[0].id, "sess-new");
    assert_eq!(app.sessions[0].name, "my-new-session");

    // Session should be auto-selected
    assert_eq!(app.selected_session, Some("sess-new".to_string()));

    // Mode should switch to Normal
    assert_eq!(app.mode, Mode::Normal);

    // Toast should be shown (can't easily check content, but toasts queue should have one)
    assert_eq!(app.toasts.len(), 1);
}

#[test]
fn test_handle_command_response_list_sessions() {
    let mut app = App::new("ws://localhost:9000".to_string(), 10, test_project());
    assert!(app.sessions.is_empty());

    let resp = CommandResponse {
        id: "1".to_string(),
        success: true,
        data: object(vec![(
            "sessions",
            Json::Array(vec![
                session_json(
                    "sess-1",
                    "app1",
                    "/path/1",
                    "running",
                    vec![("vmServiceUri", text("ws://127.0.0.1:5678")), ("pid", number(1234))],
                ),
                session_json("sess-2", "app2", "/path/2", "not_running", vec![]),
            ]),
        )]),
        error: None,
        session_error: None,
    };

    app.handle_command_response(resp);

    assert_eq!(app.sessions.len(), 2);
    assert_eq!(app.sessions[0].id, "sess-1");
    assert_eq!(app.sessions[1].id, "sess-2");
    assert_eq!(app.session_picker_index, 0);
}

#[test]
fn test_session_picker() {
    let mut app = App::new("ws://localhost:9000".to_string(), 10, test_project());
    app.set_sessions(vec![
        session("sess-1", "app1", "/path/1", "running", Some("ws://127.0.0.1:5678"), Some(1234)),
        session("sess-2", "app2", "/path/2", "not_running", None, None),
    ]);

    assert_eq!(app.selected_session, Some("sess-1".to_string()));
    assert_eq!(app.session_picker_index, 0);

    app.session_picker_down();
    assert_eq!(app.session_picker_index, 1);

    app.session_picker_select();
    assert_eq!(app.selected_session, Some("sess-2".to_string()));
}

#[test]
fn test_session_destroyed_event_removes_session() {
    let mut app = App::new("ws://localhost:9000".to_string(), 10, test_project());
    app.set_sessions(vec![
        session("sess-1", "app1", "/path/1", "running", None, None),
        session("sess-2", "app2", "/path/2", "not_running", None, None),
    ]);

    assert_eq!(app.sessions.len(), 2);
    assert_eq!(app.selected_session, Some("sess-1".to_string()));

    // Simulate session.destroyed event
    let event = MonitoringEvent {
        ts: "2024-01-01T00:00:00Z".to_string(),
        source: "session".to_string(),
        event_type: "session.destroyed".to_string(),
        payload: object(vec![("sessionId", text("sess-1"))]),
    };

    app.push_event(event);

    // Session should be removed
    assert_eq!(app.sessions.len(), 1);
    assert_eq!(app.sessions[0].id, "sess-2");
    // Selected session was destroyed, should be cleared
    assert_eq!(app.selected_session, None);
    // Picker index should be adjusted
    assert_eq!(app.session_picker_index, 0);
}

#[test]
fn test_session_destroyed_event_adjusts_picker_index() {
    let mut app = App::new("ws://localhost:9000".to_string(), 10, test_project());
    app.set_sessions(vec![
        session("sess-1", "app1", "/path/1", "running", None, None),
        session("sess-2", "app2", "/path/2", "not_running", None, None),
    ]);

    // Move picker to second session
    app.session_picker_index = 1;

    // Destroy the second session
    let event = MonitoringEvent {
        ts: "2024-01-01T00:00:00Z".to_string(),
        source: "session".to_string(),
        event_type: "session.destroyed".to_string(),
        payload: object(vec![("sessionId", text("sess-2"))]),
    };

    app.push_event(event);

    // Session should be removed
    assert_eq!(app.sessions.len(), 1);
    // Picker index should be adjusted to valid range
    assert_eq!(app.session_picker_index, 0);
}

#[test]
fn test_session_created_event_adds_session() {
    let mut app = App::new("ws://localhost:9000".to_string(), 10, test_project());
    assert!(app.sessions.is_empty());

    // Simulate session.created event
    let event = MonitoringEvent {
        ts: "2024-01-01T00:00:00Z".to_string(),
        source: "session".to_string(),
        event_type: "session.created".to_string(),
        payload: object(vec![("session", session_json("sess-new", "new-app", "/path/new", "not_running", vec![]))]),
    };

    app.push_event(event);

    // Session should be added
    assert_eq!(app.sessions.len(), 1);
    assert_eq!(app.sessions[0].id, "sess-new");
    assert_eq!(app.sessions[0].name, "new-app");
}

#[test]
fn test_tree_expand_collapse_all() {
    let mut app = App::new("ws://localhost:9000".to_string(), 10, test_project());

    // Create a tree with some nested nodes
    let tree = InteractionTree {
        nodes: vec![
            TreeNode {
                id: "btn-1".to_string(),
                widget_type: Some("Button".to_string()),
                children: vec![],
                contexts: vec![ContextInfo {
                    name: "counter-section".to_string(),
                    description: Some("Counter controls".to_string()),
                }],
                capabilities: vec![],
                actions: vec![],
            },
            TreeNode {
                id: "btn-2".to_string(),
                widget_type: Some("Button".to_string()),
                children: vec![],
                contexts: vec![ContextInfo {
                    name: "counter-section".to_string(),
                    description: Some("Counter controls".to_string()),
                }],
                capabilities: vec![],
                actions: vec![],
            },
            TreeNode {
                id: "nav-btn".to_string(),
                widget_type: Some("Button".to_string()),
                children: vec![],
                contexts: vec![],
                capabilities: vec![],
                actions: vec![],
            },
        ],
        last_updated: None,
    };

    app.set_tree(tree);

    // After set_tree, first node (context) should be selected
    assert_eq!(app.session.tree_state.selected(), vec!["ctx_0"]);

    // Context should be opened (expanded)
    assert!(app.session.tree_state.opened().contains(&vec!["ctx_0".to_string()]));

    // Navigate into nested node (simulate selecting a child)
    app.session.tree_state.select(vec!["ctx_0".to_string(), "btn-1_0".to_string()]);

    // Collapse all
    app.tree_collapse_all();

    // Nothing should be opened after collapse
    assert!(app.session.tree_state.opened().is_empty());

    // Should select the top-level ancestor (ctx_0), not first node
    assert_eq!(app.session.tree_state.selected(), vec!["ctx_0"]);

    // Expand all again
    app.tree_expand_all();

    // Context should be opened again
    assert!(app.session.tree_state.opened().contains(&vec!["ctx_0".to_string()]));
}

#[test]
fn test_content_tab_cycling() {
    assert_eq!(ContentTab::Flutter.next(), ContentTab::Agent);
    assert_eq!(ContentTab::Agent.next(), ContentTab::Interactions);
    assert_eq!(ContentTab::Interactions.next(), ContentTab::Tree);
    assert_eq!(ContentTab::Tree.next(), ContentTab::Flutter);

    assert_eq!(ContentTab::Flutter.prev(), ContentTab::Tree);
    assert_eq!(ContentTab::Tree.prev(), ContentTab::Interactions);
    assert_eq!(ContentTab::Agent.prev(), ContentTab::Flutter);
}
