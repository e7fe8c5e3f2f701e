use it_tui::flutter_log::{strip_ansi, FlutterLogEntry, FlutterLogKind};

#[test]
fn test_parse_app_progress() {
    let line = r#"[{"event":"app.progress","params":{"id":"1","message":"Compiling...","finished":false}}]"#;
    let entry = FlutterLogEntry::parse(line);
    assert!(matches!(entry.kind, FlutterLogKind::AppProgress { .. }));
}

#[test]
fn test_parse_app_log() {
    let line = r#"[{"event":"app.log","params":{"log":"Hello world","error":false}}]"#;
    let entry = FlutterLogEntry::parse(line);
    assert!(matches!(entry.kind, FlutterLogKind::AppLog { error: false, .. }));
}

#[test]
fn test_parse_plain() {
    let line = "Launching lib/main.dart";
    let entry = FlutterLogEntry::parse(line);
    assert!(matches!(entry.kind, FlutterLogKind::Plain(_)));
}

#[test]
fn test_parse_app_started() {
    let line = r#"{"event":"app.started","params":{}}"#;
    let entry = FlutterLogEntry::parse(line);
    assert!(matches!(entry.kind, FlutterLogKind::AppStarted));
}

#[test]
fn progress_fields_and_plain_text() {
    let line = r#"  [{"event":"app.progress","params":{"id":"7","message":"Compiling...","finished":true}}]  "#;
    let entry = FlutterLogEntry::parse(line);
    assert_eq!(entry.raw, line);
    match &entry.kind {
        FlutterLogKind::AppProgress { id, message, finished } => {
            assert_eq!(id, "7");
            assert_eq!(message, "Compiling...");
            assert!(*finished);
        }
        other => panic!("unexpected {:?}", other),
    }
    assert_eq!(entry.to_plain_text(), "✓ Compiling...");
    assert!(!entry.is_noise());
}

#[test]
fn unknown_machine_event_is_kept_as_json_noise() {
    let entry = FlutterLogEntry::parse(r#"{"event":"daemon.logMessage","params":{"level":"info"}}"#);
    assert!(matches!(entry.kind, FlutterLogKind::MachineJson(_)));
    assert!(entry.is_noise());
    assert_eq!(entry.to_plain_text(), "⚙ daemon.logMessage");
}

#[test]
fn other_json_is_machine_json() {
    let entry = FlutterLogEntry::parse("[1, 2]");
    assert!(matches!(entry.kind, FlutterLogKind::MachineJson(_)));
    let broken = FlutterLogEntry::parse("{not json");
    assert!(matches!(broken.kind, FlutterLogKind::Plain(_)));
}

#[test]
fn positional_machine_event() {
    let entry = FlutterLogEntry::parse(r#"["app.started", null]"#);
    assert!(matches!(entry.kind, FlutterLogKind::AppStarted));
}

#[test]
fn log_error_and_ansi_stripping() {
    let entry = FlutterLogEntry::parse("[{\"event\":\"app.log\",\"params\":{\"log\":\"\\u001b[31mboom\\u001b[0m\",\"error\":true}}]");
    assert_eq!(entry.to_plain_text(), "✗ boom");
    assert_eq!(strip_ansi("\u{1b}[1;32mok\u{1b}[0m done"), "ok done");
}

#[test]
fn blank_progress_and_device_lines_are_noise() {
    let blank = FlutterLogEntry::parse(r#"[{"event":"app.progress","params":{"message":"   "}}]"#);
    assert!(blank.is_noise());
    let device = FlutterLogEntry::parse(r#"[{"event":"device.added","params":{"name":"Pixel","platform":"android"}}]"#);
    assert!(device.is_noise());
    assert_eq!(device.to_plain_text(), "📱 Pixel (android)");
}

#[test]
fn stripping_leaves_no_escape_and_keeps_plain_text() {
    let stripped = strip_ansi("\u{1b}[31mred\u{1b} alone\u{1b}[0m\u{1b}");
    assert_eq!(stripped, "red alone");
    assert!(!stripped.contains('\u{1b}'));
    assert_eq!(strip_ansi("plain [text] 1;2m"), "plain [text] 1;2m");
}
