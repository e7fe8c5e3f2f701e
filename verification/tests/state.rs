use it_tui::app::{summarize_payload, App};
use it_tui::chat::{parse_chat_history, ChatContent, ChatMessage, ChatRole, ToolStatus};
use it_tui::help_bar::key_hints;
use it_tui::json::{Json, JsonNumber};
use it_tui::project::{ProjectError, ProjectInfo};
use it_tui::protocol::{AgentEventKind, AgentStreamEvent, ClientHello, MonitoringEvent, Session};
use it_tui::text::{contains_text, truncate};
use it_tui::tree_json::read_nodes;
use it_tui::types::{ContentTab, LogViewMode, LogViewState, Mode, Toast, ToastLevel};

fn project() -> ProjectInfo {
    ProjectInfo { path: "/p".to_string(), name: "p".to_string(), is_flutter: true }
}

fn text(s: &str) -> Json {
    Json::String(s.to_string())
}

fn object(members: Vec<(&str, Json)>) -> Json {
    Json::Object(members.into_iter().map(|(k, v)| (k.to_string(), v)).collect())
}

fn session(id: &str) -> Session {
    Session {
        id: id.to_string(),
        name: id.to_string(),
        project_path: "/p".to_string(),
        app_status: "not_running".to_string(),
        vm_service_uri: None,
        pid: None,
        connected_clients: Vec::new(),
        created_at: String::new(),
        last_active_at: String::new(),
    }
}

fn event(source: &str, kind: &str, payload: Json) -> MonitoringEvent {
    MonitoringEvent { ts: "t".to_string(), source: source.to_string(), event_type: kind.to_string(), payload }
}

#[test]
fn switching_sessions_away_and_back_restores_state() {
    let mut app = App::new("ws://x".to_string(), 10, project());
    app.set_sessions(vec![session("a"), session("b")]);
    app.session.chat_input = "draft for a".to_string();
    app.switch_to_session("b".to_string());
    assert!(app.session.chat_input.is_empty());
    app.session.chat_input = "draft for b".to_string();
    app.switch_to_session("a".to_string());
    assert_eq!(app.session.chat_input, "draft for a");
    assert_eq!(app.selected_session, Some("a".to_string()));
    assert_eq!(app.session_states.len(), 1);
    assert_eq!(app.session_states[0].0, "b");
    assert_eq!(app.session_states[0].1.chat_input, "draft for b");
    assert!(app.needs_tree_fetch);
}

#[test]
fn at_most_five_toasts_are_kept() {
    let mut app = App::new("ws://x".to_string(), 10, project());
    for i in 0..8u64 {
        app.push_toast(Toast::at(&format!("t{}", i), ToastLevel::Info, i));
    }
    assert_eq!(app.toasts.len(), 5);
    assert_eq!(app.toasts[0].message, "t3");
    assert_eq!(app.toasts[4].message, "t7");
}

#[test]
fn toasts_expire_after_their_lifetime() {
    let mut app = App::new("ws://x".to_string(), 10, project());
    app.push_toast(Toast::at("old", ToastLevel::Info, 100));
    app.push_toast(Toast::at("new", ToastLevel::Error, 103));
    app.expire_toasts_at(105);
    assert_eq!(app.toasts.len(), 1);
    assert_eq!(app.toasts[0].message, "new");
    assert!(Toast::at("x", ToastLevel::Info, 10).is_expired_at(15, 5));
    assert!(!Toast::at("x", ToastLevel::Info, 10).is_expired_at(14, 5));
}

#[test]
fn logs_never_exceed_the_limit() {
    let mut app = App::new("ws://x".to_string(), 2, project());
    for i in 0..5 {
        app.push_event(event("agent", &format!("agent_{}", i), Json::Null));
    }
    assert_eq!(app.session.agent_events.len(), 2);
    assert_eq!(app.session.agent_events[1].event_type, "agent_4");
}

#[test]
fn events_are_routed_by_source_and_type() {
    let mut app = App::new("ws://x".to_string(), 10, project());
    app.push_event(event("Flutter", "stdout", object(vec![("line", text("Launching"))])));
    app.push_event(event("daemon", "TAP.done", object(vec![("message", text("tapped"))])));
    app.push_event(event("daemon", "other", Json::Null));
    assert_eq!(app.session.flutter_logs.len(), 1);
    assert_eq!(app.session.flutter_logs[0].raw, "Launching");
    assert_eq!(app.session.interaction_logs.len(), 1);
    assert_eq!(app.session.interaction_logs[0].message, "[daemon] tapped");
    assert!(app.session.agent_events.is_empty());
}

#[test]
fn mcp_interactions_show_in_the_chat() {
    let mut app = App::new("ws://x".to_string(), 10, project());
    app.session.chat_scroll = 4;
    app.push_event(event(
        "daemon",
        "execute_interaction",
        object(vec![("clientType", text("mcp")), ("nodeId", text("btn")), ("interaction", text("tap"))]),
    ));
    assert_eq!(app.session.chat_messages.len(), 1);
    match &app.session.chat_messages[0].content {
        ChatContent::Text(t) => assert_eq!(t, "⚡ tap on btn"),
        other => panic!("unexpected {:?}", other),
    }
    assert_eq!(app.session.chat_messages[0].client_id, Some("mcp".to_string()));
    assert_eq!(app.session.chat_scroll, 0);
}

#[test]
fn status_events_only_concern_the_selected_session() {
    let mut app = App::new("ws://x".to_string(), 10, project());
    app.set_sessions(vec![session("a")]);
    app.push_event(event(
        "session",
        "session.status_changed",
        object(vec![("sessionId", text("other")), ("status", text("starting"))]),
    ));
    assert_eq!(app.app_status, it_tui::types::AppStatus::Stopped);
    app.push_event(event(
        "session",
        "session.status_changed",
        object(vec![("sessionId", text("a")), ("status", text("error")), ("error", text("boom"))]),
    ));
    assert_eq!(app.app_status, it_tui::types::AppStatus::Error("boom".to_string()));
}

#[test]
fn tree_updates_are_read_leniently() {
    let nodes = vec![
        object(vec![
            ("id", text("list")),
            ("widgetType", text("ListView")),
            ("children", Json::Array(vec![object(vec![("id", text("item"))]), object(vec![("name", text("no id"))])])),
            ("contexts", Json::Array(vec![object(vec![("name", text("main"))]), text("bad")])),
            ("capabilities", Json::Array(vec![object(vec![("name", text("scroll"))])])),
        ]),
        text("not a node"),
    ];
    let read = read_nodes(&nodes);
    assert_eq!(read.len(), 1);
    assert_eq!(read[0].id, "list");
    assert_eq!(read[0].widget_type, Some("ListView".to_string()));
    assert_eq!(read[0].children.len(), 1);
    assert_eq!(read[0].children[0].id, "item");
    assert_eq!(read[0].contexts.len(), 1);
    assert_eq!(read[0].capabilities[0].name, "scroll");
}

#[test]
fn tool_calls_stream_into_the_chat() {
    let mut app = App::new("ws://x".to_string(), 10, project());
    let start = AgentStreamEvent {
        id: "1".to_string(),
        session_id: "s".to_string(),
        event: AgentEventKind::ToolCallStart { tool_name: "tap".to_string(), tool_call_id: "c1".to_string() },
    };
    app.handle_agent_stream_event(start);
    let end = AgentStreamEvent {
        id: "1".to_string(),
        session_id: "s".to_string(),
        event: AgentEventKind::ToolCallEnd {
            tool_name: "tap".to_string(),
            tool_call_id: "c1".to_string(),
            result: Some("ok".to_string()),
        },
    };
    app.handle_agent_stream_event(end);
    match &app.session.chat_messages[0].content {
        ChatContent::ToolCall(call) => {
            assert_eq!(call.status, ToolStatus::Success);
            assert_eq!(call.output, Some("ok".to_string()));
        }
        other => panic!("unexpected {:?}", other),
    }
}

#[test]
fn streamed_text_becomes_a_message() {
    let mut app = App::new("ws://x".to_string(), 10, project());
    let user = AgentStreamEvent {
        id: "1".to_string(),
        session_id: "s".to_string(),
        event: AgentEventKind::UserMessage { text: "hi".to_string(), client_id: "mcp".to_string() },
    };
    app.handle_agent_stream_event(user);
    assert!(app.session.pending_response);
    for part in ["Hel", "lo"] {
        app.handle_agent_stream_event(AgentStreamEvent {
            id: "1".to_string(),
            session_id: "s".to_string(),
            event: AgentEventKind::TextDelta { text: part.to_string() },
        });
    }
    app.handle_agent_stream_event(AgentStreamEvent {
        id: "1".to_string(),
        session_id: "s".to_string(),
        event: AgentEventKind::MessageComplete,
    });
    assert_eq!(app.session.chat_messages.len(), 2);
    assert_eq!(app.session.chat_messages[1].role, ChatRole::Assistant);
    match &app.session.chat_messages[1].content {
        ChatContent::Text(t) => assert_eq!(t, "Hello"),
        other => panic!("unexpected {:?}", other),
    }
    assert!(app.session.chat_streaming.is_none());
    let tui = AgentStreamEvent {
        id: "1".to_string(),
        session_id: "s".to_string(),
        event: AgentEventKind::UserMessage { text: "mine".to_string(), client_id: "tui".to_string() },
    };
    app.handle_agent_stream_event(tui);
    assert_eq!(app.session.chat_messages.len(), 2);
}

#[test]
fn chat_history_keeps_readable_messages() {
    let history = Json::Array(vec![
        object(vec![
            ("role", text("user")),
            ("content", object(vec![("type", text("text")), ("text", text("hello"))])),
            ("timestamp", text("2024-01-01T00:00:00Z")),
        ]),
        object(vec![("role", text("assistant"))]),
        object(vec![
            ("role", text("assistant")),
            (
                "content",
                object(vec![("type", text("tool_call")), ("name", text("tap")), ("status", text("failed"))]),
            ),
            ("timestamp", text("2024-01-01T00:00:01Z")),
        ]),
    ]);
    let messages = parse_chat_history(history);
    assert_eq!(messages.len(), 2);
    assert_eq!(messages[0].role, ChatRole::User);
    assert_eq!(messages[0].timestamp, 1704067200000);
    match &messages[1].content {
        ChatContent::ToolCall(call) => {
            assert_eq!(call.name, "tap");
            assert_eq!(call.status, ToolStatus::Failed);
            assert_eq!(call.args, Json::Null);
        }
        other => panic!("unexpected {:?}", other),
    }
    assert_eq!(ChatMessage::user("x").client_id, Some("tui".to_string()));
    assert_eq!(ChatMessage::user("x").id.len(), 36);
}

#[test]
fn session_records_need_their_required_fields() {
    let good = object(vec![
        ("id", text("s")),
        ("name", text("n")),
        ("projectPath", text("/p")),
        ("appStatus", text("running")),
        ("pid", Json::Number(JsonNumber { unsigned: Some(42), text: "42".to_string() })),
        ("connectedClients", Json::Array(vec![text("tui")])),
        ("createdAt", text("c")),
        ("lastActiveAt", text("l")),
    ]);
    let s = Session::from_json(&good).unwrap();
    assert_eq!(s.pid, Some(42));
    assert_eq!(s.connected_clients, vec!["tui".to_string()]);
    let missing = object(vec![("id", text("s"))]);
    assert!(Session::from_json(&missing).is_none());
}

#[test]
fn payload_summaries() {
    assert_eq!(summarize_payload(&Json::Null), "");
    assert_eq!(summarize_payload(&Json::Array(vec![Json::Null, Json::Null])), "[2 items]");
    assert_eq!(
        summarize_payload(&object(vec![("a", Json::Null), ("b", Json::Null), ("c", Json::Null), ("d", Json::Null)])),
        "{a, b, c}"
    );
    assert_eq!(summarize_payload(&object(vec![])), "{}");
    assert_eq!(summarize_payload(&Json::Bool(true)), "true");
    let long = "x".repeat(100);
    assert_eq!(truncate(&long, 80).chars().count(), 80);
    assert!(truncate(&long, 80).ends_with('…'));
    assert_eq!(truncate("short", 80), "short");
    assert!(contains_text("hello world", "o w"));
    assert!(!contains_text("hello", "world"));
}

#[test]
fn filters_ignore_case() {
    let mut app = App::new("ws://x".to_string(), 10, project());
    app.push_event(event("agent", "Tool_Call", Json::Null));
    app.push_event(event("agent", "agent_done", Json::Null));
    app.filter = Some("TOOL".to_string());
    assert_eq!(app.filtered_agent_events(), vec![0]);
    app.content_tab = ContentTab::Agent;
    assert_eq!(app.current_log_count(), 1);
    app.filter = None;
    assert_eq!(app.current_log_count(), 2);
}

#[test]
fn yank_copies_the_selected_lines() {
    let mut app = App::new("ws://x".to_string(), 10, project());
    app.content_tab = ContentTab::Interactions;
    for m in ["one", "two", "three"] {
        app.push_event(event("ui", "tap", text(m)));
    }
    app.log_viewport_height = 10;
    app.toggle_visual_mode();
    app.scroll_down();
    app.scroll_down();
    assert!(app.in_visual_mode());
    let copied = app.yank_logs().unwrap();
    assert_eq!(copied, "[t] [ui] one\n[t] [ui] two\n[t] [ui] three");
    assert!(!app.in_visual_mode());
    app.content_tab = ContentTab::Tree;
    assert!(app.yank_logs().is_none());
}

#[test]
fn log_view_keeps_the_cursor_in_view() {
    let mut v = LogViewState::new();
    for _ in 0..5 {
        v.cursor_down(10, 3);
    }
    assert_eq!(v.cursor, 5);
    assert_eq!(v.scroll, 3);
    v.cursor_bottom(10, 3);
    assert_eq!((v.cursor, v.scroll), (9, 7));
    v.toggle_visual();
    assert_eq!(v.mode, LogViewMode::Visual);
    v.cursor_up(3);
    assert_eq!(v.selection_range(), Some((8, 9)));
    v.clamp_cursor(4);
    assert_eq!((v.cursor, v.scroll), (3, 3));
    v.cursor_top();
    assert_eq!((v.cursor, v.scroll), (0, 0));
}

#[test]
fn help_bar_hints_follow_mode_and_tab() {
    let hints = key_hints(Mode::Normal, ContentTab::Flutter, true, true);
    let keys: Vec<&str> = hints.iter().map(|(k, _)| k.as_str()).collect();
    assert_eq!(keys, vec!["hl", "↑↓/jk", "/", "s", "r", "R", "x", "c", "?"]);
    let filter = key_hints(Mode::Filter, ContentTab::Tree, false, false);
    assert_eq!(filter, vec![("Enter".to_string(), "apply".to_string()), ("Esc".to_string(), "cancel".to_string())]);
}

#[test]
fn project_checks_for_flutter() {
    let ok = ProjectInfo::from_pubspec("/a".to_string(), Some(("app".to_string(), true))).unwrap();
    assert_eq!(ok.name, "app");
    let not = ProjectInfo::from_pubspec("/a".to_string(), Some(("dart_only".to_string(), false))).unwrap_err();
    assert!(not.message().contains("not appear to be a Flutter"));
    let missing = ProjectInfo::from_pubspec("/a".to_string(), None).unwrap_err();
    assert_eq!(missing, ProjectError::MissingPubspec { path: "/a".to_string() });
    assert!(missing.message().contains("No pubspec.yaml"));
}

#[test]
fn client_hello_identifies_the_terminal() {
    let hello = ClientHello::new("abc".to_string());
    assert_eq!(hello.msg_type, "hello");
    assert_eq!(hello.client_type, "tui");
    assert_eq!(hello.client_id, "abc");
}
