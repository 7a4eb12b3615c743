use nginx_lint::ignore::{
    filter_errors, known_rule_names, parse_context_comment, parse_disable_comment,
    warnings_to_errors, IgnoreTracker, IgnoreWarning,
};
use nginx_lint::lint::{Fix, LintError, Severity};

#[test]
fn test_parse_valid_disable_comment() {
    let result = parse_disable_comment(
        "# nginx-lint:disable server-tokens-enabled for dev environment",
        5,
    );
    assert!(result.is_some());
    let parsed = result.unwrap().unwrap();
    assert_eq!(parsed.rule_name, "server-tokens-enabled");
    assert_eq!(parsed.target_line, 6); // Next line
    assert_eq!(parsed.comment_line, 5);
    assert!(!parsed.is_inline);
    assert!(parsed.content_before_comment.is_none());
}

#[test]
fn test_parse_disable_comment_with_japanese_reason() {
    let result = parse_disable_comment(
        "# nginx-lint:disable server-tokens-enabled 開発環境用",
        5,
    );
    assert!(result.is_some());
    let parsed = result.unwrap().unwrap();
    assert_eq!(parsed.rule_name, "server-tokens-enabled");
    assert_eq!(parsed.target_line, 6);
    assert_eq!(parsed.comment_line, 5);
    assert!(!parsed.is_inline);
    assert!(parsed.content_before_comment.is_none());
}

#[test]
fn test_parse_missing_rule_name() {
    let result = parse_disable_comment("# nginx-lint:disable", 5);
    assert!(result.is_some());
    let warning = result.unwrap().unwrap_err();
    assert_eq!(warning.line, 5);
    assert!(warning
        .message
        .contains("nginx-lint:disable requires a rule name"));
}

#[test]
fn test_parse_missing_reason() {
    let result = parse_disable_comment("# nginx-lint:disable server-tokens-enabled", 5);
    assert!(result.is_some());
    let warning = result.unwrap().unwrap_err();
    assert_eq!(warning.line, 5);
    assert!(warning
        .message
        .contains("nginx-lint:disable server-tokens-enabled requires a reason"));
}

#[test]
fn test_parse_not_a_comment() {
    let result = parse_disable_comment("server_tokens on;", 5);
    assert!(result.is_none());
}

#[test]
fn test_parse_regular_comment() {
    let result = parse_disable_comment("# This is a regular comment", 5);
    assert!(result.is_none());
}

#[test]
fn test_ignore_tracker_is_ignored() {
    let mut tracker = IgnoreTracker::new();
    tracker.add_ignore("server-tokens-enabled", 10);

    assert!(tracker.is_ignored("server-tokens-enabled", 10));
    assert!(!tracker.is_ignored("server-tokens-enabled", 11));
    assert!(!tracker.is_ignored("other-rule", 10));
}

#[test]
fn test_ignore_tracker_from_content() {
    let content = r#"
# nginx-lint:disable server-tokens-enabled dev environment
server_tokens on;
"#;
    let (tracker, warnings) = IgnoreTracker::from_content(content);
    assert!(warnings.is_empty());
    assert!(tracker.is_ignored("server-tokens-enabled", 3));
    assert!(!tracker.is_ignored("server-tokens-enabled", 2));
}

#[test]
fn test_ignore_tracker_from_content_with_warnings() {
    let content = r#"
# nginx-lint:disable
server_tokens on;
"#;
    let (_, warnings) = IgnoreTracker::from_content(content);
    assert_eq!(warnings.len(), 1);
    assert!(warnings[0].message.contains("requires a rule name"));
}

#[test]
fn test_filter_errors() {
    let mut tracker = IgnoreTracker::new();
    tracker.add_ignore("server-tokens-enabled", 5);

    let errors = vec![
        LintError::new(
            "server-tokens-enabled",
            "security",
            "test error",
            Severity::Warning,
        )
        .with_location(5, 1),
        LintError::new(
            "server-tokens-enabled",
            "security",
            "test error",
            Severity::Warning,
        )
        .with_location(6, 1),
        LintError::new("other-rule", "security", "test error", Severity::Warning)
            .with_location(5, 1),
    ];

    let result = filter_errors(errors, &mut tracker);
    assert_eq!(result.errors.len(), 2);
    assert_eq!(result.ignored_count, 1);
    // Line 5 server-tokens-enabled should be filtered out
    assert!(result
        .errors
        .iter()
        .all(|e| !(e.rule == "server-tokens-enabled" && e.line == Some(5))));
    // The used directive should have no unused warnings for that rule
    assert!(result.unused_warnings.is_empty());
}

#[test]
fn test_filter_errors_without_line_info() {
    let mut tracker = IgnoreTracker::new();
    tracker.add_ignore("some-rule", 5);

    let errors = vec![LintError::new(
        "some-rule",
        "test",
        "error without line",
        Severity::Warning,
    )];

    let result = filter_errors(errors, &mut tracker);
    assert_eq!(result.errors.len(), 1); // Should not be filtered
    assert_eq!(result.ignored_count, 0);
    // The directive was not used, so there should be an unused warning
    assert_eq!(result.unused_warnings.len(), 1);
}

#[test]
fn test_only_affects_next_line() {
    let content = r#"
# nginx-lint:disable server-tokens-enabled reason
server_tokens on;
server_tokens on;
"#;
    let (tracker, warnings) = IgnoreTracker::from_content(content);
    assert!(warnings.is_empty());
    assert!(tracker.is_ignored("server-tokens-enabled", 3)); // Line after comment
    assert!(!tracker.is_ignored("server-tokens-enabled", 4)); // Second occurrence
}

#[test]
fn test_consecutive_disable_comments() {
    // Multiple consecutive disable comments should all target the same line
    let content = r#"
# nginx-lint:disable server-tokens-enabled reason1
# nginx-lint:disable autoindex-enabled reason2
server_tokens on;
"#;
    let (tracker, warnings) = IgnoreTracker::from_content(content);
    assert!(warnings.is_empty());
    // Both rules should be ignored on line 4 (the directive line)
    assert!(tracker.is_ignored("server-tokens-enabled", 4));
    assert!(tracker.is_ignored("autoindex-enabled", 4));
    // Should not be ignored on the comment lines themselves
    assert!(!tracker.is_ignored("server-tokens-enabled", 2));
    assert!(!tracker.is_ignored("autoindex-enabled", 3));
}

#[test]
fn test_three_consecutive_disable_comments() {
    let content = r#"
# nginx-lint:disable server-tokens-enabled reason1
# nginx-lint:disable autoindex-enabled reason2
# nginx-lint:disable gzip-not-enabled reason3
server_tokens on;
"#;
    let (tracker, warnings) = IgnoreTracker::from_content(content);
    assert!(warnings.is_empty());
    // All three rules should be ignored on line 5
    assert!(tracker.is_ignored("server-tokens-enabled", 5));
    assert!(tracker.is_ignored("autoindex-enabled", 5));
    assert!(tracker.is_ignored("gzip-not-enabled", 5));
}

#[test]
fn test_warnings_to_errors() {
    let warnings = vec![IgnoreWarning {
        line: 5,
        message: "test warning".to_string(),
        fix: None,
    }];

    let errors = warnings_to_errors(warnings);
    assert_eq!(errors.len(), 1);
    assert_eq!(errors[0].rule, "invalid-nginx-lint-disable");
    assert_eq!(errors[0].category, "ignore");
    assert_eq!(errors[0].message, "test warning");
    assert_eq!(errors[0].severity, Severity::Warning);
    assert_eq!(errors[0].line, Some(5));
    assert!(errors[0].fix.is_none());
}

#[test]
fn test_warnings_to_errors_with_fix() {
    let warnings = vec![IgnoreWarning {
        line: 5,
        message: "test warning".to_string(),
        fix: Some(Fix::delete(5)),
    }];

    let errors = warnings_to_errors(warnings);
    assert_eq!(errors.len(), 1);
    assert!(errors[0].fix.is_some());
    let fix = errors[0].fix.as_ref().unwrap();
    assert_eq!(fix.line, 5);
    assert!(fix.delete_line);
}

#[test]
fn test_parse_inline_comment() {
    let result = parse_disable_comment(
        "server_tokens on; # nginx-lint:disable server-tokens-enabled dev environment",
        5,
    );
    assert!(result.is_some());
    let parsed = result.unwrap().unwrap();
    assert_eq!(parsed.rule_name, "server-tokens-enabled");
    assert_eq!(parsed.target_line, 5); // Same line (inline)
    assert_eq!(parsed.comment_line, 5);
    assert!(parsed.is_inline);
    assert_eq!(parsed.content_before_comment, Some("server_tokens on;".to_string()));
}

#[test]
fn test_parse_inline_comment_with_japanese_reason() {
    let result = parse_disable_comment(
        "server_tokens on; # nginx-lint:disable server-tokens-enabled 開発環境用",
        5,
    );
    assert!(result.is_some());
    let parsed = result.unwrap().unwrap();
    assert_eq!(parsed.rule_name, "server-tokens-enabled");
    assert_eq!(parsed.target_line, 5); // Same line (inline)
    assert_eq!(parsed.comment_line, 5);
    assert!(parsed.is_inline);
    assert_eq!(parsed.content_before_comment, Some("server_tokens on;".to_string()));
}

#[test]
fn test_inline_comment_missing_reason() {
    let result = parse_disable_comment(
        "server_tokens on; # nginx-lint:disable server-tokens-enabled",
        5,
    );
    assert!(result.is_some());
    let warning = result.unwrap().unwrap_err();
    assert_eq!(warning.line, 5);
    assert!(warning.message.contains("requires a reason"));
}

#[test]
fn test_ignore_tracker_inline_comment() {
    let content = r#"
server_tokens on; # nginx-lint:disable server-tokens-enabled dev environment
"#;
    let (tracker, warnings) = IgnoreTracker::from_content(content);
    assert!(warnings.is_empty());
    assert!(tracker.is_ignored("server-tokens-enabled", 2)); // Same line
    assert!(!tracker.is_ignored("server-tokens-enabled", 3));
}

#[test]
fn test_both_comment_styles() {
    let content = r#"
# nginx-lint:disable server-tokens-enabled reason for next line
server_tokens on;
autoindex on; # nginx-lint:disable autoindex-enabled reason for this line
"#;
    let (tracker, warnings) = IgnoreTracker::from_content(content);
    assert!(warnings.is_empty());
    // Comment-only line targets next line
    assert!(tracker.is_ignored("server-tokens-enabled", 3));
    // Inline comment targets same line
    assert!(tracker.is_ignored("autoindex-enabled", 4));
}

#[test]
fn test_unknown_rule_name() {
    let content = r#"
# nginx-lint:disable unknown-rule-name some reason
server_tokens on;
"#;
    let valid_rules = known_rule_names();
    let (_, warnings) = IgnoreTracker::from_content_with_rules(content, Some(&valid_rules));
    assert_eq!(warnings.len(), 1);
    assert!(warnings[0].message.contains("unknown rule 'unknown-rule-name'"));
}

#[test]
fn test_unused_ignore_directive() {
    let content = r#"
# nginx-lint:disable server-tokens-enabled reason
server_tokens off;
"#;
    let (mut tracker, _) = IgnoreTracker::from_content(content);

    // No errors to filter
    let errors: Vec<LintError> = vec![];
    let result = filter_errors(errors, &mut tracker);

    // Should have unused warning
    assert_eq!(result.unused_warnings.len(), 1);
    assert!(result.unused_warnings[0].message.contains("unused nginx-lint:disable"));
    assert!(result.unused_warnings[0].message.contains("server-tokens-enabled"));
}

#[test]
fn test_used_ignore_directive_no_warning() {
    let content = r#"
# nginx-lint:disable server-tokens-enabled reason
server_tokens on;
"#;
    let (mut tracker, _) = IgnoreTracker::from_content(content);

    // Create an error that will be filtered
    let errors = vec![LintError::new(
        "server-tokens-enabled",
        "security",
        "test error",
        Severity::Warning,
    )
    .with_location(3, 1)];

    let result = filter_errors(errors, &mut tracker);

    // Should have no unused warnings
    assert!(result.unused_warnings.is_empty());
    assert_eq!(result.ignored_count, 1);
}

#[test]
fn test_unused_comment_only_line_fix() {
    let content = r#"
# nginx-lint:disable server-tokens-enabled reason
server_tokens off;
"#;
    let (mut tracker, _) = IgnoreTracker::from_content(content);

    let errors: Vec<LintError> = vec![];
    let result = filter_errors(errors, &mut tracker);

    // Should have unused warning with delete fix
    assert_eq!(result.unused_warnings.len(), 1);
    let fix = result.unused_warnings[0].fix.as_ref().unwrap();
    assert_eq!(fix.line, 2); // Line of comment
    assert!(fix.delete_line);
}

#[test]
fn test_unused_inline_comment_fix() {
    let content = r#"
server_tokens off; # nginx-lint:disable server-tokens-enabled reason
"#;
    let (mut tracker, _) = IgnoreTracker::from_content(content);

    let errors: Vec<LintError> = vec![];
    let result = filter_errors(errors, &mut tracker);

    // Should have unused warning with replace_line fix
    assert_eq!(result.unused_warnings.len(), 1);
    let fix = result.unused_warnings[0].fix.as_ref().unwrap();
    assert_eq!(fix.line, 2); // Line of inline comment
    assert!(!fix.delete_line); // Not deleting entire line
    assert!(fix.old_text.is_none()); // replace_line uses None for old_text
    assert_eq!(fix.new_text, "server_tokens off;");
}

// Context comment tests

#[test]
fn test_parse_context_comment_simple() {
    let content = "# nginx-lint:context http\nserver { listen 80; }";
    let context = parse_context_comment(content);
    assert_eq!(context, Some(vec!["http".to_string()]));
}

#[test]
fn test_parse_context_comment_multiple() {
    let content = "# nginx-lint:context http,server\nlocation / { }";
    let context = parse_context_comment(content);
    assert_eq!(context, Some(vec!["http".to_string(), "server".to_string()]));
}

#[test]
fn test_parse_context_comment_with_spaces() {
    let content = "# nginx-lint:context http, server\nlocation / { }";
    let context = parse_context_comment(content);
    assert_eq!(context, Some(vec!["http".to_string(), "server".to_string()]));
}

#[test]
fn test_parse_context_comment_after_empty_lines() {
    let content = "\n\n# nginx-lint:context http\nserver { }";
    let context = parse_context_comment(content);
    assert_eq!(context, Some(vec!["http".to_string()]));
}

#[test]
fn test_parse_context_comment_after_other_comments() {
    let content = "# Some description\n# nginx-lint:context http\nserver { }";
    let context = parse_context_comment(content);
    assert_eq!(context, Some(vec!["http".to_string()]));
}

#[test]
fn test_parse_context_comment_not_found() {
    let content = "server { listen 80; }";
    let context = parse_context_comment(content);
    assert_eq!(context, None);
}

#[test]
fn test_parse_context_comment_after_directive() {
    // Context comment after a directive should not be found
    let content = "server { }\n# nginx-lint:context http";
    let context = parse_context_comment(content);
    assert_eq!(context, None);
}

#[test]
fn test_parse_context_comment_empty_value() {
    let content = "# nginx-lint:context\nserver { }";
    let context = parse_context_comment(content);
    assert_eq!(context, None);
}

#[test]
fn ignore_comment_on_the_line_before() {
    let content = "# nginx-lint:ignore server-tokens-enabled required by monitoring system\nserver_tokens on;\n";
    let (tracker, warnings) = IgnoreTracker::from_content(content);
    assert!(warnings.is_empty());
    assert!(tracker.is_ignored("server-tokens-enabled", 2));
    assert!(!tracker.is_ignored("server-tokens-enabled", 1));
}

#[test]
fn inline_ignore_comment() {
    let content = "server_tokens on; # nginx-lint:ignore server-tokens-enabled required by monitoring system\n";
    let (tracker, warnings) = IgnoreTracker::from_content(content);
    assert!(warnings.is_empty());
    assert!(tracker.is_ignored("server-tokens-enabled", 1));
}

#[test]
fn ignore_comment_needs_a_rule_and_a_reason() {
    let parsed = parse_disable_comment("# nginx-lint:ignore autoindex-enabled", 3);
    assert!(parsed.unwrap().is_err());
    let parsed = parse_disable_comment("# nginx-lint:ignore", 3);
    assert!(parsed.unwrap().is_err());
    let parsed = parse_disable_comment("# nginx-lint:ignore autoindex-enabled legacy host", 3)
        .unwrap()
        .unwrap();
    assert_eq!(parsed.rule_name, "autoindex-enabled");
    assert_eq!(parsed.target_line, 4);
}

#[test]
fn context_names_are_trimmed_and_empty_ones_dropped() {
    let context = parse_context_comment("# nginx-lint:context  http , , server ,\nserver {}\n").unwrap();
    assert_eq!(context, vec!["http".to_string(), "server".to_string()]);
    assert!(parse_context_comment("# nginx-lint:context , ,\n").is_none());
}

#[test]
fn only_the_first_ten_lines_declare_a_context() {
    let mut content = "# comment\n".repeat(10);
    content.push_str("# nginx-lint:context http\n");
    assert!(parse_context_comment(&content).is_none());
    let mut content = "# comment\n".repeat(9);
    content.push_str("# nginx-lint:context http\n");
    assert_eq!(parse_context_comment(&content), Some(vec!["http".to_string()]));
}

#[test]
fn a_directive_before_the_context_comment_cancels_it() {
    assert!(parse_context_comment("server { }\n# nginx-lint:context http").is_none());
}
