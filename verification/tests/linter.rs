use nginx_lint::lint::{LintError, Severity};
use nginx_lint::run::{errorformat_line, github_actions_line, severity_name};
use nginx_lint::config::{LintConfig, RuleConfig};
use nginx_lint::linter::{LintRule, Linter};
use nginx_lint::parser::parse_string;
use nginx_lint::rules::security::ServerTokensEnabled;

#[test]
fn default_rules_run_in_order() {
    let linter = Linter::with_default_rules();
    let names = linter.rule_names();
    assert_eq!(
        names,
        vec![
            "invalid-directive-context",
            "duplicate-directive",
            "space-before-semicolon",
            "trailing-whitespace",
            "block-lines"
        ]
    );
    let content = "pid a;\npid b ;\n";
    let config = parse_string(content).unwrap();
    let errors = linter.lint(&config, "t.conf");
    let rules: Vec<&str> = errors.iter().map(|e| e.rule.as_str()).collect();
    assert_eq!(rules, vec!["duplicate-directive", "space-before-semicolon"]);
}

#[test]
fn disabled_rules_are_not_registered() {
    let mut off = RuleConfig::default();
    off.enabled = false;
    let config = LintConfig {
        rules: vec![("trailing-whitespace".to_string(), off)],
        color: Default::default(),
    };
    let linter = Linter::with_config(Some(&config));
    assert_eq!(
        linter.rule_names(),
        vec![
            "invalid-directive-context",
            "duplicate-directive",
            "space-before-semicolon",
            "block-lines"
        ]
    );
}

#[test]
fn disable_comments_silence_findings() {
    let mut linter = Linter::new();
    linter.add_rule(LintRule::ServerTokensEnabled(ServerTokensEnabled));
    let content = "http {\n    # nginx-lint:disable server-tokens-enabled-rs kept for the monitor\n    server_tokens on;\n    server_tokens on;\n}\n";
    let config = parse_string(content).unwrap();
    let (errors, ignored) = linter.lint_with_content(&config, "t.conf", content);
    assert_eq!(ignored, 1);
    assert_eq!(errors.len(), 1);
    assert_eq!(errors[0].line, Some(4));
}

#[test]
fn unused_and_unknown_disable_comments_are_reported() {
    let mut linter = Linter::new();
    linter.add_rule(LintRule::ServerTokensEnabled(ServerTokensEnabled));
    let content = "# nginx-lint:disable no-such-rule because\nhttp {\n    server_tokens off; # nginx-lint:disable server-tokens-enabled-rs not needed\n}\n";
    let config = parse_string(content).unwrap();
    let (errors, ignored) = linter.lint_with_content(&config, "t.conf", content);
    assert_eq!(ignored, 0);
    let messages: Vec<&str> = errors.iter().map(|e| e.message.as_str()).collect();
    assert_eq!(
        messages,
        vec![
            "unknown rule 'no-such-rule' in nginx-lint:disable comment",
            "unused nginx-lint:disable comment for rule 'no-such-rule'",
            "unused nginx-lint:disable comment for rule 'server-tokens-enabled-rs'",
        ]
    );
    assert!(errors.iter().all(|e| e.rule == "invalid-nginx-lint-disable"));
    let fix = errors[2].fix.as_ref().unwrap();
    assert_eq!(fix.line, 3);
    assert_eq!(fix.new_text, "    server_tokens off;");
}

#[test]
fn report_lines_name_file_position_and_rule() {
    let e = LintError::new("block-lines", "style", "too long", Severity::Warning).with_location(3, 5);
    assert_eq!(
        errorformat_line("nginx.conf", &e, severity_name(e.severity)),
        "nginx.conf:3:5: warning: too long [block-lines]\n"
    );
    assert_eq!(
        github_actions_line("nginx.conf", &e),
        "::warning file=nginx.conf,line=3,col=5::too long [block-lines]\n"
    );
    let info = LintError::new("r", "c", "m", Severity::Info);
    assert_eq!(github_actions_line("a", &info), "::notice file=a,line=1,col=1::m [r]\n");
    assert_eq!(severity_name(Severity::Error), "error");
}
