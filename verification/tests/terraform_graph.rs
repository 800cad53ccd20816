use graph_view::terraform_graph::{
    after_plain_attempt, after_plan_type_attempt, cap_trimmed_stderr,
    lowercase_suggests_unsupported_plan_type_flag, stderr_suggests_unsupported_plan_type_flag,
    stdout_utf8, terraform_graph_args, PlanAttemptStep, TerraformGraphError,
};

#[test]
fn detects_unknown_flag_and_type_hints() {
    assert!(stderr_suggests_unsupported_plan_type_flag(
        "Error: unknown flag -type"
    ));
    assert!(stderr_suggests_unsupported_plan_type_flag(
        "FLAG PROVIDED BUT NOT DEFINED: -type=plan"
    ));
    assert!(stderr_suggests_unsupported_plan_type_flag(
        "unsupported graph type for this terraform version"
    ));
    assert!(!stderr_suggests_unsupported_plan_type_flag(
        "Error: no configuration files"
    ));
}

#[test]
fn caps_stderr_at_4kib() {
    let long = "x".repeat(5000);
    let capped = cap_trimmed_stderr(long.as_bytes());
    assert!(capped.len() <= 4 * 1024 + 4);
    assert!(capped.ends_with('…'));
}

#[test]
fn short_stderr_is_trimmed_only() {
    assert_eq!(cap_trimmed_stderr(b"  \n\tError: boom \r\n"), "Error: boom");
    assert_eq!(cap_trimmed_stderr(b""), "");
    assert_eq!(cap_trimmed_stderr("\u{3000}wide\u{a0}".as_bytes()), "wide");
}

#[test]
fn exact_cap_is_not_cut() {
    let text = "y".repeat(4096);
    assert_eq!(cap_trimmed_stderr(text.as_bytes()), text);
    let text = "y".repeat(4097);
    let capped = cap_trimmed_stderr(text.as_bytes());
    assert_eq!(capped, format!("{}…", "y".repeat(4096)));
}

#[test]
fn cap_falls_back_to_a_character_boundary() {
    // 2000 euro signs are 6000 bytes; the largest boundary at or below 4096 is 4095.
    let text = "\u{20ac}".repeat(2000);
    let capped = cap_trimmed_stderr(text.as_bytes());
    assert_eq!(capped, format!("{}…", "\u{20ac}".repeat(1365)));
}

#[test]
fn invalid_utf8_is_replaced() {
    assert_eq!(cap_trimmed_stderr(&[b'a', 0xff, b'b']), "a\u{fffd}b");
}

#[test]
fn lowercase_hint_table() {
    assert!(lowercase_suggests_unsupported_plan_type_flag("unrecognized flag"));
    assert!(lowercase_suggests_unsupported_plan_type_flag("an invalid flag here"));
    assert!(lowercase_suggests_unsupported_plan_type_flag("-type is invalid"));
    assert!(lowercase_suggests_unsupported_plan_type_flag("-type unknown"));
    assert!(!lowercase_suggests_unsupported_plan_type_flag("-type"));
    assert!(!lowercase_suggests_unsupported_plan_type_flag("type"));
    assert!(!lowercase_suggests_unsupported_plan_type_flag("UNKNOWN FLAG"));
    assert!(stderr_suggests_unsupported_plan_type_flag("UNKNOWN FLAG"));
}

#[test]
fn graph_args() {
    assert_eq!(terraform_graph_args(true), vec!["graph", "-type=plan"]);
    assert_eq!(terraform_graph_args(false), vec!["graph"]);
}

#[test]
fn stdout_must_be_utf8() {
    assert_eq!(stdout_utf8(b"digraph {}".to_vec()), Ok("digraph {}".to_string()));
    assert_eq!(stdout_utf8(vec![0xc3]), Err(TerraformGraphError::StdoutNotUtf8));
}

#[test]
fn plan_attempt_steps() {
    match after_plan_type_attempt(true, b"digraph {}".to_vec(), b"") {
        PlanAttemptStep::Finish(Ok(s)) => assert_eq!(s, "digraph {}"),
        other => panic!("unexpected {other:?}"),
    }
    match after_plan_type_attempt(true, vec![0xff], b"") {
        PlanAttemptStep::Finish(Err(TerraformGraphError::StdoutNotUtf8)) => {}
        other => panic!("unexpected {other:?}"),
    }
    match after_plan_type_attempt(false, Vec::new(), b"Error: Unknown flag: -type") {
        PlanAttemptStep::RetryWithoutPlanType => {}
        other => panic!("unexpected {other:?}"),
    }
    match after_plan_type_attempt(false, Vec::new(), b"  Error: no configuration files\n") {
        PlanAttemptStep::Finish(Err(TerraformGraphError::PlanTypeFailed { message })) => {
            assert_eq!(message, "Error: no configuration files")
        }
        other => panic!("unexpected {other:?}"),
    }
}

#[test]
fn plain_attempt_results() {
    assert_eq!(after_plain_attempt(true, b"x".to_vec(), b""), Ok("x".to_string()));
    assert_eq!(
        after_plain_attempt(false, b"ignored".to_vec(), b" failed \n"),
        Err(TerraformGraphError::GraphFailed { message: "failed".to_string() })
    );
}

#[test]
fn capped_message_is_a_prefix_and_fits() {
    let text = format!("{}{}", "ab\u{e9}".repeat(1500), "tail");
    let capped = cap_trimmed_stderr(text.as_bytes());
    assert!(capped.len() <= 4096 + 3);
    let body = capped.strip_suffix('\u{2026}').expect("ellipsis");
    assert!(text.starts_with(body));
}

#[test]
fn hint_test_ignores_ascii_case() {
    for text in [
        "Error: Unknown Flag -type",
        "Flag provided but not defined: -type",
        "-TYPE is Invalid",
        "Unsupported Type",
        "Error: No configuration files",
    ] {
        let expected = stderr_suggests_unsupported_plan_type_flag(text);
        assert_eq!(stderr_suggests_unsupported_plan_type_flag(&text.to_ascii_uppercase()), expected);
        assert_eq!(stderr_suggests_unsupported_plan_type_flag(&text.to_ascii_lowercase()), expected);
    }
}
