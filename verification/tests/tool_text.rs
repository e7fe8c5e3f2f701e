use it_tui::address::{ParseError, ResolveError};
use it_tui::app::App;
use it_tui::chat::{ToolCall, ToolStatus};
use it_tui::command::{execute_command, TuiCommand};
use it_tui::event::{current_event_count, take_tree_fetch, Effect, Request};
use it_tui::json::{Json, JsonNumber};
use it_tui::project::ProjectInfo;
use it_tui::protocol::{hello_step, is_hello_ack, HelloFrame, HelloStep};
use it_tui::tool_text::{format_tool_args, format_tool_output, tool_call_lines, try_format_tool_output};
use it_tui::tree_format::{build_context_tree, compact_siblings, group_by_id, CompactTree, Schema, TreeEntry, Variant};
use it_tui::address::Address;
use it_tui::flutter_log::strip_ansi;
use it_tui::text::truncate;
use it_tui::types::ContextInfo;
use it_tui::tree_view::{entry_label, pane_items, variant_label};
use it_tui::types::{Mode, TreeNode};

fn text(s: &str) -> Json {
    Json::String(s.to_string())
}

fn number(n: u64) -> Json {
    Json::Number(JsonNumber { unsigned: Some(n), text: n.to_string() })
}

fn object(members: Vec<(&str, Json)>) -> Json {
    Json::Object(members.into_iter().map(|(k, v)| (k.to_string(), v)).collect())
}

fn app() -> App {
    let project = ProjectInfo { path: "/p".to_string(), name: "p".to_string(), is_flutter: true };
    App::new("ws://x".to_string(), 10, project)
}

fn args(s: &str, a: &Json) -> String {
    format_tool_args(s, a, "0", "0")
}

#[test]
fn tool_args_fixed_descriptions() {
    let none = object(vec![]);
    assert_eq!(args("getTree", &none), "Fetching widget tree...");
    assert_eq!(args("getStatus", &none), "Checking app status...");
    assert_eq!(args("hotReload", &none), "Hot reloading app...");
    assert_eq!(args("destroySession", &none), "Destroying session...");
}

#[test]
fn tool_args_read_members_with_defaults() {
    assert_eq!(args("getLogs", &object(vec![])), "Getting last 100 log lines");
    assert_eq!(args("getLogs", &object(vec![("maxLines", number(25))])), "Getting last 25 log lines");
    assert_eq!(args("getState", &object(vec![])), "Getting state of '?'");
    assert_eq!(args("runApp", &object(vec![])), "Starting app on 'default'");
    assert_eq!(args("runApp", &object(vec![("deviceId", text("chrome"))])), "Starting app on 'chrome'");
    let steps = object(vec![("steps", Json::Array(vec![object(vec![]), object(vec![])]))]);
    assert_eq!(args("batch", &steps), "Executing 2 steps in batch");
    assert_eq!(args("createSession", &object(vec![("name", text("demo"))])), "Creating session 'demo'");
}

#[test]
fn tool_args_shorten_session_ids_to_eight_bytes() {
    let a = object(vec![("sessionId", text("0123456789abcdef"))]);
    assert_eq!(args("connectSession", &a), "Connecting to session '01234567'");
    let short = object(vec![("sessionId", text("abc"))]);
    assert_eq!(args("connectSession", &short), "Connecting to session 'abc'");
}

#[test]
fn tool_args_describe_interactions() {
    let tap = object(vec![("id", text("btn")), ("interaction", text("tap"))]);
    assert_eq!(args("execute", &tap), "Tapping 'btn'");
    let typed = object(vec![
        ("args", object(vec![("text", text("hi"))])),
        ("id", text("field")),
        ("interaction", text("enterText")),
    ]);
    assert_eq!(args("execute", &typed), "Typing 'hi' into 'field'");
    let untyped = object(vec![("id", text("field")), ("interaction", text("enterText"))]);
    assert_eq!(args("execute", &untyped), "enterText on 'field'");
    let scroll = object(vec![("args", object(vec![])), ("id", text("list")), ("interaction", text("scroll"))]);
    assert_eq!(format_tool_args("execute", &scroll, "0", "-120"), "Scrolling 'list' by (0, -120)");
    assert_eq!(args("execute", &object(vec![])), "? on '?'");
}

#[test]
fn tool_args_of_unknown_tools_show_json() {
    let a = object(vec![("k", text("v"))]);
    assert_eq!(args("other", &a), "{\"k\":\"v\"}");
    let long = object(vec![("k", text(&"x".repeat(80)))]);
    let shown = args("other", &long);
    assert_eq!(shown.chars().count(), 63);
    assert!(shown.starts_with("{\"k\":\"xxx"));
    assert!(shown.ends_with("..."));
}

#[test]
fn tool_output_of_known_tools() {
    assert_eq!(
        format_tool_output("getStatus", "{\"vmConnected\":true,\"currentSessionId\":\"abcdef123456\"}"),
        vec!["  ✓ App: Running".to_string(), "  Session: abcdef12".to_string()]
    );
    assert_eq!(format_tool_output("getStatus", "{}"), vec!["  ✗ App: Not running".to_string()]);
    assert_eq!(
        format_tool_output("getTree", "{\"tree\":{\"id\":\"a\",\"children\":[{\"id\":\"b\"},{\"id\":\"c\",\"children\":[{}]}]}}"),
        vec!["  Found 4 interactable widgets".to_string()]
    );
    assert_eq!(format_tool_output("execute", "{\"success\":true}"), vec!["  ✓ Action completed".to_string()]);
    assert_eq!(format_tool_output("execute", "{\"success\":false}"), vec!["  ✗ Failed: Unknown error".to_string()]);
    assert_eq!(
        format_tool_output("getLogs", "{\"logs\":[\"ok\",\"ERROR x\",\"an Exception\",3]}"),
        vec!["  4 log lines".to_string(), "  ⚠ 2 errors found".to_string()]
    );
    assert_eq!(format_tool_output("getErrors", "{\"errors\":[]}"), vec!["  ✓ No runtime errors".to_string()]);
    assert_eq!(format_tool_output("getErrors", "{\"errors\":[1,2]}"), vec!["  ⚠ 2 runtime errors".to_string()]);
    assert_eq!(
        format_tool_output("connectSession", "{\"connected\":true,\"session\":{\"id\":\"0123456789\"}}"),
        vec!["  ✓ Session: 01234567".to_string()]
    );
    assert_eq!(format_tool_output("hotRestart", "{\"success\":true}"), vec!["  ✓ Reload complete".to_string()]);
    assert_eq!(format_tool_output("listSessions", "{\"sessions\":[]}"), vec!["  No sessions found".to_string()]);
    assert_eq!(format_tool_output("listSessions", "{\"sessions\":[1]}"), vec!["  Found 1 sessions".to_string()]);
}

#[test]
fn tool_output_shown_as_text_keeps_three_lines() {
    assert_eq!(
        format_tool_output("other", "one\r\ntwo\n\nfour\n"),
        vec!["  one".to_string(), "  two".to_string(), "  ".to_string()]
    );
    assert_eq!(format_tool_output("hotReload", "{\"success\":false}"), vec!["  {\"success\":false}".to_string()]);
    assert_eq!(format_tool_output("getTree", "{}"), vec!["  {}".to_string()]);
    assert_eq!(format_tool_output("other", ""), Vec::<String>::new());
    let long = "y".repeat(90);
    assert_eq!(format_tool_output("other", &long), vec![format!("  {}...", "y".repeat(77))]);
}

#[test]
fn tool_output_that_would_cut_a_character_is_refused() {
    let long = format!("{}é{}", "a".repeat(76), "b".repeat(10));
    assert_eq!(try_format_tool_output("other", &long), None);
    assert_eq!(try_format_tool_output("getStatus", "{\"currentSessionId\":\"1234567é\"}"), None);
    assert_eq!(try_format_tool_output("other", "fine"), Some(vec!["  fine".to_string()]));
}

#[test]
fn tool_call_lines_show_status_description_output_and_more() {
    let call = ToolCall {
        id: "c1".to_string(),
        name: "other".to_string(),
        args: object(vec![]),
        status: ToolStatus::Success,
        output: Some("1\n2\n3\n4\n5".to_string()),
    };
    assert_eq!(
        tool_call_lines(&call, "0", "0"),
        Some(vec![
            "✓ other".to_string(),
            "  {}".to_string(),
            "  1".to_string(),
            "  2".to_string(),
            "  3".to_string(),
            "  [+2 more lines - press 'e' to expand]".to_string(),
        ])
    );
    let running = ToolCall { output: None, status: ToolStatus::Running, name: "getTree".to_string(), ..call };
    assert_eq!(
        tool_call_lines(&running, "0", "0"),
        Some(vec!["⟳ getTree".to_string(), "  Fetching widget tree...".to_string()])
    );
}

#[test]
fn parse_and_resolve_errors_read_as_messages() {
    assert_eq!(ParseError::EmptyInput.to_string(), "empty input");
    assert_eq!(ParseError::InvalidIndex("x".to_string()).to_string(), "invalid index: x");
    assert_eq!(ParseError::UnexpectedCharacter('!').to_string(), "unexpected character: !");
    assert_eq!(ResolveError::NotFound("a".to_string()).to_string(), "node not found: a");
    let oob = ResolveError::IndexOutOfBounds { id: "item".to_string(), index: 5, count: 3 };
    assert_eq!(oob.to_string(), "index 5 out of bounds for item (count: 3)");
    let missing = ResolveError::VariantNotFound { id: "row".to_string(), variant_child: "x".to_string() };
    assert_eq!(missing.to_string(), "variant row:x not found");
}

#[test]
fn commands_change_state_or_send_requests() {
    let mut a = app();
    assert_eq!(execute_command(&mut a, TuiCommand::Reload, true), Some(Effect::Send(Request {
        action: "hot_reload".to_string(),
        data: None,
    })));
    assert_eq!(execute_command(&mut a, TuiCommand::Reload, false), None);
    let sent = execute_command(&mut a, TuiCommand::Connect { session: "s1".to_string() }, true);
    assert_eq!(sent, Some(Effect::Send(Request {
        action: "connect_session".to_string(),
        data: Some(object(vec![("sessionId", text("s1"))])),
    })));
    let agent = TuiCommand::Agent { intent: "tap it".to_string(), answer: Some("yes".to_string()) };
    let sent = execute_command(&mut a, agent, true);
    assert_eq!(sent, Some(Effect::Send(Request {
        action: "agent_message".to_string(),
        data: Some(object(vec![("answer", text("yes")), ("intent", text("tap it"))])),
    })));
    assert!(a.session.pending_response);
    a.scroll_offset = 4;
    assert_eq!(execute_command(&mut a, TuiCommand::Filter(Some("err".to_string())), false), None);
    assert_eq!(a.filter, Some("err".to_string()));
    assert_eq!(a.scroll_offset, 0);
    assert_eq!(execute_command(&mut a, TuiCommand::Help, true), None);
    assert_eq!(a.mode, Mode::Help);
    assert_eq!(execute_command(&mut a, TuiCommand::Quit, true), None);
    assert!(a.should_quit);
}

#[test]
fn current_event_count_counts_the_shown_tab() {
    let a = app();
    assert_eq!(current_event_count(&a), a.current_log_count());
}

#[test]
fn tree_labels_show_counts_and_schema_offers() {
    let compact = CompactTree {
        schemas: vec![Schema {
            id: "btn".to_string(),
            description: None,
            widget_type: None,
            capabilities: vec!["tap".to_string(), "longPress".to_string()],
            actions: vec!["submit".to_string()],
        }],
        tree: Vec::new(),
    };
    let group = TreeEntry::Homogeneous { id: "btn".to_string(), count: 3, children: Vec::new() };
    assert_eq!(entry_label(&compact, &group), "btn ×3 [tap, longPress] {submit}");
    let single = TreeEntry::Singleton { id: "title".to_string(), children: Vec::new() };
    assert_eq!(entry_label(&compact, &single), "title");
    let mixed = TreeEntry::Heterogeneous { items: Vec::new() };
    assert_eq!(entry_label(&compact, &mixed), "[items]");
    let variant = Variant { count: 2, children: vec![TreeEntry::Singleton { id: "btn".to_string(), children: Vec::new() }] };
    assert_eq!(variant_label(&compact, &variant), "(×2) → btn [tap, longPress]");
}

#[test]
fn hello_ack_is_recognized_by_its_type() {
    assert!(is_hello_ack("{\"type\":\"hello_ack\",\"daemonVersion\":\"1.0\",\"sessions\":[]}"));
    assert!(!is_hello_ack("{\"type\":\"event\"}"));
    assert!(!is_hello_ack("hello_ack"));
    assert!(!is_hello_ack("{\"type\":5}"));
}

#[test]
fn a_pending_tree_fetch_is_taken_up_once() {
    let mut a = app();
    a.needs_tree_fetch = true;
    let sent = take_tree_fetch(&mut a, true);
    assert_eq!(sent, Some(Effect::Send(Request { action: "get_tree".to_string(), data: None })));
    assert!(!a.needs_tree_fetch);
    assert_eq!(take_tree_fetch(&mut a, true), None);
    a.needs_tree_fetch = true;
    assert_eq!(take_tree_fetch(&mut a, false), None);
    assert!(!a.needs_tree_fetch);
}

fn node(id: &str, children: Vec<TreeNode>) -> TreeNode {
    TreeNode {
        id: id.to_string(),
        widget_type: None,
        children,
        contexts: Vec::new(),
        capabilities: Vec::new(),
        actions: Vec::new(),
    }
}

fn weight(e: &TreeEntry) -> usize {
    match e {
        TreeEntry::Singleton { .. } => 1,
        TreeEntry::Homogeneous { count, .. } => *count,
        TreeEntry::Variants { variants, .. } => variants.iter().map(|v| v.count).sum(),
        _ => 0,
    }
}

#[test]
fn compaction_counts_every_sibling_once() {
    let nodes = vec![
        node("row", vec![node("x", vec![])]),
        node("row", vec![node("y", vec![])]),
        node("row", vec![node("x", vec![])]),
        node("title", vec![]),
        node("btn", vec![]),
        node("btn", vec![]),
        node("row", vec![]),
    ];
    let entries = compact_siblings(&nodes);
    assert_eq!(entries.len(), 4);
    assert_eq!(entries.iter().map(weight).sum::<usize>(), nodes.len());
}

#[test]
fn schemas_keep_one_per_id() {
    let nodes = vec![
        node("list", vec![node("item", vec![]), node("item", vec![]), node("btn", vec![])]),
        node("btn", vec![node("item", vec![])]),
    ];
    let (compact, _) = CompactTree::from_tree_nodes(&nodes);
    let ids: Vec<&str> = compact.schemas.iter().map(|s| s.id.as_str()).collect();
    assert_eq!(ids, vec!["btn", "item", "list"]);
}

#[test]
fn a_tick_advances_the_spinner_by_one_frame() {
    let mut a = app();
    assert_eq!(a.throbber_state.index(), 0);
    a.tick();
    a.tick();
    assert_eq!(a.throbber_state.index(), 2);
}

#[test]
fn the_wheel_moves_the_tree_selection_on_the_tree_tab() {
    let mut a = app();
    a.content_tab = it_tui::types::ContentTab::Tree;
    it_tui::event::handle_mouse_event(&mut a, it_tui::event::Wheel::Down);
    assert!(a.session.tree_state.selected().is_empty());
}

#[test]
fn printing_a_parsed_canonical_path_gives_the_text_back() {
    for s in ["item", "item[2]", "list.item:delete[1].icon", "a:b:c", "x[0]"] {
        assert_eq!(Address::parse(s).unwrap().to_string(), s);
    }
    assert_eq!(Address::parse("item[02]").unwrap().to_string(), "item[2]");
    assert_eq!(Address::parse("item[+3]").unwrap().to_string(), "item[3]");
}

#[test]
fn groups_by_id_put_together_give_the_nodes_back() {
    let nodes = vec![node("a", vec![]), node("a", vec![]), node("b", vec![]), node("a", vec![])];
    let groups = group_by_id(&nodes);
    let sizes: Vec<usize> = groups.iter().map(|g| g.len()).collect();
    assert_eq!(sizes, vec![2, 1, 1]);
    let flat: Vec<&str> = groups.iter().flat_map(|g| g.iter().map(|n| n.id.as_str())).collect();
    assert_eq!(flat, vec!["a", "a", "b", "a"]);
    for w in groups.windows(2) {
        assert_ne!(w[0][0].id, w[1][0].id);
    }
}

#[test]
fn a_run_with_different_children_gives_variants_by_count() {
    let nodes = vec![
        node("row", vec![node("y", vec![])]),
        node("row", vec![node("x", vec![])]),
        node("row", vec![node("x", vec![])]),
    ];
    match &compact_siblings(&nodes)[..] {
        [TreeEntry::Variants { id, variants }] => {
            assert_eq!(id, "row");
            let counts: Vec<usize> = variants.iter().map(|v| v.count).collect();
            assert_eq!(counts, vec![2, 1]);
            assert_eq!(variants[0].children[0].id(), Some("x"));
            assert_eq!(variants[1].children[0].id(), Some("y"));
        }
        other => panic!("expected variants, got {:?}", other),
    }
    let same = vec![node("btn", vec![node("i", vec![])]), node("btn", vec![node("i", vec![])])];
    match &compact_siblings(&same)[..] {
        [TreeEntry::Homogeneous { id, count, children }] => {
            assert_eq!(id, "btn");
            assert_eq!(*count, 2);
            assert_eq!(children.len(), 1);
        }
        other => panic!("expected a homogeneous group, got {:?}", other),
    }
}

#[test]
fn contexts_gather_their_nodes_at_the_first_of_them() {
    let mut a = node("a", vec![]);
    a.contexts = vec![ContextInfo { name: "X".to_string(), description: None }];
    let b = node("b", vec![]);
    let mut c = node("c", vec![]);
    c.contexts = vec![ContextInfo { name: "X".to_string(), description: None }];
    let tree = build_context_tree(&[a, b, c]);
    assert_eq!(tree.len(), 2);
    match &tree[0] {
        TreeEntry::Context { context, children, .. } => {
            assert_eq!(context, "X");
            let ids: Vec<Option<&str>> = children.iter().map(|e| e.id()).collect();
            assert_eq!(ids, vec![Some("a"), Some("c")]);
        }
        other => panic!("expected a context, got {:?}", other),
    }
    assert_eq!(tree[1].id(), Some("b"));
}

#[test]
fn stripping_only_takes_characters_away() {
    let text = "\u{1b}[1mbold\u{1b}[0m and plain";
    let stripped = strip_ansi(text);
    let mut rest = text.chars();
    for c in stripped.chars() {
        assert!(rest.any(|t| t == c));
    }
}

#[test]
fn an_empty_text_fits_in_no_room() {
    assert_eq!(truncate("", 0), "");
    assert_eq!(truncate("abc", 2), "a…");
}

#[test]
fn an_unreadable_session_is_reported_with_the_readers_message() {
    let mut a = app();
    let resp = it_tui::protocol::CommandResponse {
        id: "1".to_string(),
        success: true,
        data: object(vec![("session", object(vec![("id", text("s1"))]))]),
        error: None,
        session_error: Some("missing field `name`".to_string()),
    };
    a.handle_command_response(resp);
    assert_eq!(a.toasts.len(), 1);
    assert_eq!(a.toasts[0].message, "Parse error: missing field `name`");
    assert!(a.sessions.is_empty());
}

#[test]
fn pane_items_follow_the_compact_tree() {
    let compact = CompactTree { schemas: Vec::new(), tree: Vec::new() };
    let single = |id: &str| TreeEntry::Singleton { id: id.to_string(), children: Vec::new() };
    let tree = vec![
        TreeEntry::Homogeneous { id: "btn".to_string(), count: 2, children: Vec::new() },
        TreeEntry::Variants {
            id: "row".to_string(),
            variants: vec![
                Variant { count: 2, children: vec![single("a"), single("b")] },
                Variant { count: 1, children: vec![single("c")] },
            ],
        },
    ];
    let items = pane_items(&compact, &tree);
    assert_eq!(items.len(), 2);
    assert_eq!(items[0].id, "btn_0");
    assert_eq!(items[0].label, "btn ×2");
    assert!(items[0].children.is_empty());
    assert_eq!(items[1].id, "row_1");
    assert_eq!(items[1].children.len(), 2);
    assert_eq!(items[1].children[0].id, "var_0");
    let kids: Vec<&str> = items[1].children[0].children.iter().map(|k| k.id.as_str()).collect();
    assert_eq!(kids, vec!["a_0", "b_1"]);
    assert_eq!(items[1].children[1].id, "var_1");
    assert!(items[1].children[1].children.is_empty());
}

#[test]
fn the_wait_for_the_greeting_reads_it_and_fails_on_close_error_or_end() {
    let ack = HelloFrame::Text(r#"{"type":"hello_ack","daemon_version":"1.0"}"#.to_string());
    assert_eq!(hello_step(&ack), HelloStep::ReadHello);
    assert_eq!(hello_step(&HelloFrame::Text(r#"{"type":"event"}"#.to_string())), HelloStep::Wait);
    assert_eq!(hello_step(&HelloFrame::Other), HelloStep::Wait);
    assert_eq!(
        hello_step(&HelloFrame::Close),
        HelloStep::Fail("Connection closed before receiving ServerHello".to_string())
    );
    assert_eq!(
        hello_step(&HelloFrame::Error("reset".to_string())),
        HelloStep::Fail("WebSocket error before receiving ServerHello: reset".to_string())
    );
    assert_eq!(
        hello_step(&HelloFrame::End),
        HelloStep::Fail("Connection ended before receiving ServerHello".to_string())
    );
}
