use nginx_lint::lint::{warning, Fix, LintError};
use nginx_lint::plugin_checks::{
    check_bad_example, clean, declared_example, describe, fix_applied, fix_end, fix_start, fixes_of,
    indent, sort_findings, Checked, Outcome,
};

fn finding(rule: &str, line: usize) -> LintError {
    warning(rule, "security", "server_tokens should be off", line, 5)
}

fn message(o: Outcome) -> String {
    match o {
        Outcome::Failed(m) => m,
        Outcome::Skipped(m) => format!("skipped: {}", m),
        Outcome::Passed => "passed".to_string(),
    }
}

#[test]
fn findings_under_other_names_are_counted_apart() {
    let reported = vec![finding("server-tokens", 1), finding("other", 2), finding("server-tokens", 3)];
    let checked = sort_findings(reported, "server-tokens", 1);
    assert_eq!(checked.found.len(), 2);
    assert_eq!(checked.found[1].line, Some(3));
    assert_eq!(checked.under_other_names, 1);
    assert_eq!(checked.syntax_errors, 1);
}

#[test]
fn bad_example_must_be_reported_under_the_rules_name() {
    let reported = Checked { found: vec![finding("x", 1)], under_other_names: 0, syntax_errors: 0 };
    assert!(matches!(check_bad_example(&reported, "x"), Outcome::Passed));
    let silent = Checked { found: vec![], under_other_names: 0, syntax_errors: 0 };
    assert_eq!(message(check_bad_example(&silent, "x")), "the bad example was reported clean");
    let renamed = Checked { found: vec![], under_other_names: 2, syntax_errors: 0 };
    assert_eq!(
        message(check_bad_example(&renamed, "x")),
        "the bad example was reported clean under \"x\", though the plugin reported 2 finding(s) under another rule name — the spec and the findings have to agree on it"
    );
}

#[test]
fn a_good_example_must_parse_and_be_clean() {
    let broken = Checked { found: vec![], under_other_names: 0, syntax_errors: 2 };
    assert_eq!(message(clean(&broken)), "it does not parse: 2 syntax error(s)");
    let ok = Checked { found: vec![], under_other_names: 0, syntax_errors: 0 };
    assert!(matches!(clean(&ok), Outcome::Passed));
    let reported = Checked { found: vec![finding("x", 3)], under_other_names: 0, syntax_errors: 0 };
    assert_eq!(message(clean(&reported)), "3:5: server_tokens should be off");
}

#[test]
fn findings_are_described_one_per_line() {
    let mut unknown = LintError::new("x", "style", "no place", nginx_lint::lint::Severity::Warning);
    unknown.message = "no place".to_string();
    assert_eq!(describe(&vec![finding("x", 2), unknown]), "2:5: server_tokens should be off\n0:0: no place");
    assert_eq!(describe(&vec![]), "");
}

#[test]
fn indent_prefixes_each_line() {
    assert_eq!(indent("a;\nb;\n"), "  a;\n  b;");
    assert_eq!(indent(""), "");
}

#[test]
fn a_missing_example_is_skipped() {
    assert_eq!(message(declared_example(None, "bad").unwrap_err()), "skipped: the plugin declares no bad example");
    assert_eq!(
        message(declared_example(Some(String::new()), "good").unwrap_err()),
        "skipped: the plugin declares no good example"
    );
    assert_eq!(declared_example(Some("x;".to_string()), "bad").unwrap(), "x;");
}

#[test]
fn fixing_needs_fixes() {
    let nothing = Checked { found: vec![], under_other_names: 0, syntax_errors: 0 };
    assert_eq!(
        message(fix_start(&nothing).unwrap()),
        "skipped: the plugin reported nothing here, so there is nothing to fix"
    );
    let no_fix = Checked { found: vec![finding("x", 1)], under_other_names: 0, syntax_errors: 0 };
    assert_eq!(message(fix_start(&no_fix).unwrap()), "skipped: the plugin reports no fixes");
    let with_fix = Checked {
        found: vec![finding("x", 1).with_fix(Fix::delete(1))],
        under_other_names: 0,
        syntax_errors: 0,
    };
    assert!(fix_start(&with_fix).is_none());
    assert_eq!(fixes_of(&with_fix.found).len(), 1);
}

#[test]
fn every_fix_has_to_land() {
    assert!(fix_applied(2, 2, 0).is_none());
    assert_eq!(
        message(fix_applied(1, 3, 1).unwrap()),
        "1 of the 3 fix(es) reported were applied; 1 had offsets the applier rejected, and the rest it dropped for conflicting with a fix it had already applied"
    );
}

#[test]
fn after_fixing_the_rule_must_stop_firing() {
    let clean_after = Checked { found: vec![], under_other_names: 0, syntax_errors: 0 };
    assert!(matches!(fix_end(0, &clean_after, "a;\n"), Outcome::Passed));
    let worse = Checked { found: vec![], under_other_names: 0, syntax_errors: 2 };
    assert_eq!(
        message(fix_end(1, &worse, "a;\nb\n")),
        "fixing introduced 1 syntax error(s); the fixed configuration was:\n  a;\n  b"
    );
    let still = Checked { found: vec![finding("x", 1)], under_other_names: 0, syntax_errors: 0 };
    assert_eq!(
        message(fix_end(0, &still, "a;")),
        "after fixing, the rule still reports:\n1:5: server_tokens should be off\nthe fixed configuration was:\n  a;"
    );
}
