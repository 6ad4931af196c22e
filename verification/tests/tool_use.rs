use exec_protocol::msg::{vision_support, PermissionMode};
use exec_protocol::tool_use::{elide, render_tool_call, ToolUse};

fn tu(name: &str, args: &str) -> ToolUse {
    ToolUse {
        id: "1".into(),
        name: name.into(),
        args: serde_json::from_str(args).expect("valid JSON"),
        signature: None,
    }
}

#[test]
fn tool_use_display_examples() {
    // Typical: null fields are skipped.
    assert_eq!(
        tu("Bash", r#"{"command": "ls -la", "timeout": null, "run_in_background": false}"#)
            .display_string(),
        r#"Bash(command="ls -la", run_in_background=false)"#,
    );

    // All-null and empty objects render as the bare name.
    assert_eq!(tu("Noop", r#"{"x": null}"#).display_string(), "Noop");
    assert_eq!(tu("Noop", "{}").display_string(), "Noop");

    // Long values get elided.
    let long = tu("Run", &format!(r#"{{"command": "{}"}}"#, "x".repeat(200))).display_string();
    assert!(long.ends_with("\u{2026})"), "expected elision, got {long:?}");
}

#[test]
fn non_object_arguments_render_as_bare_name() {
    assert_eq!(tu("Echo", "[1, 2]").display_string(), "Echo");
    assert_eq!(tu("Echo", "\"text\"").display_string(), "Echo");
}

#[test]
fn elide_keeps_short_text_and_cuts_long_text() {
    assert_eq!(elide("abc", 3), "abc");
    assert_eq!(elide("abcd", 3), "ab\u{2026}");
    assert_eq!(elide("abcd", 1), "\u{2026}");
    assert_eq!(elide("abcd", 0), "\u{2026}");
    assert_eq!(elide("\u{e9}\u{e9}\u{e9}\u{e9}", 3), "\u{e9}\u{e9}\u{2026}");
    assert_eq!(elide("", 0), "");
}

#[test]
fn render_joins_non_null_fields() {
    let fields = vec![
        ("a".to_string(), Some("1".to_string())),
        ("b".to_string(), None),
        ("c".to_string(), Some("\"xxxxxxxxxxxxxxxxxxxx\"".to_string())),
    ];
    assert_eq!(render_tool_call("T", Some(fields)), "T(a=1, c=\"xxxxxxxxxxxxxx\u{2026})");
    assert_eq!(render_tool_call("T", None), "T");
    assert_eq!(render_tool_call("T", Some(vec![])), "T");
}

#[test]
fn tool_uses_compare_by_fields() {
    assert_eq!(tu("A", r#"{"x": 1}"#), tu("A", r#"{"x": 1}"#));
    assert_ne!(tu("A", r#"{"x": 1}"#), tu("A", r#"{"x": 2}"#));
}

#[test]
fn vision_is_assumed_unless_declared() {
    assert!(vision_support(None));
    assert!(vision_support(Some(true)));
    assert!(!vision_support(Some(false)));
    assert_eq!(PermissionMode::default(), PermissionMode::Strict);
}
