use nginx_lint::plugin_script::{
    validate_rule, validate_script_value, CheckValue, ListEntry, References, RuleTable,
    ScriptValue, SpecField, SpecTable, SpecValue,
};

fn text(s: &str) -> SpecField {
    SpecField::Str(s.as_bytes().to_vec())
}

fn spec(name: SpecField) -> SpecTable {
    SpecTable {
        name,
        category: text("c"),
        description: text("d"),
        severity: SpecField::Nil,
        why: SpecField::Nil,
        bad_example: SpecField::Nil,
        good_example: SpecField::Nil,
        min_nginx_version: SpecField::Nil,
        max_nginx_version: SpecField::Nil,
        references: References::Nil,
    }
}

fn rule(name: &str) -> RuleTable {
    RuleTable { spec: SpecValue::Table(spec(text(name))), check: CheckValue::Function }
}

fn error_of(v: ScriptValue) -> String {
    validate_script_value("rule.lua", &v).unwrap_err()
}

#[test]
fn a_rule_table_with_spec_and_check_is_accepted() {
    assert_eq!(validate_script_value("rule.lua", &ScriptValue::Rule(rule("x"))), Ok(()));
    assert_eq!(validate_rule("rule.lua", &rule("x")), Ok("x".to_string()));
}

#[test]
fn the_script_must_return_a_table() {
    assert_eq!(
        error_of(ScriptValue::Other("integer".to_string())),
        "rule.lua: the script must return a rule table (`spec` and `check`) or a list of them, not a integer"
    );
}

#[test]
fn spec_must_be_a_table_or_return_one() {
    let r = RuleTable { spec: SpecValue::Other("nil".to_string()), check: CheckValue::Function };
    assert_eq!(
        error_of(ScriptValue::Rule(r)),
        "rule.lua: `spec` must be a table or a function returning one, not a nil"
    );
    let r = RuleTable { spec: SpecValue::ReturnedOther("number".to_string()), check: CheckValue::Function };
    assert_eq!(error_of(ScriptValue::Rule(r)), "rule.lua: `spec` returned a number, not a table");
}

#[test]
fn check_must_be_a_function() {
    let r = RuleTable { spec: SpecValue::Table(spec(text("x"))), check: CheckValue::Nil };
    assert_eq!(error_of(ScriptValue::Rule(r)), "rule.lua: `check` is missing");
    let r = RuleTable { spec: SpecValue::Table(spec(text("x"))), check: CheckValue::Other("number".to_string()) };
    assert_eq!(error_of(ScriptValue::Rule(r)), "rule.lua: `check` must be a function, not a number");
}

#[test]
fn required_fields_must_be_non_empty_strings() {
    let r = RuleTable { spec: SpecValue::Table(spec(SpecField::Nil)), check: CheckValue::Function };
    assert_eq!(error_of(ScriptValue::Rule(r)), "rule.lua: spec.name is missing");
    let r = RuleTable { spec: SpecValue::Table(spec(text(""))), check: CheckValue::Function };
    assert_eq!(error_of(ScriptValue::Rule(r)), "rule.lua: spec.name is empty");
    let mut s = spec(text("x"));
    s.category = SpecField::Other("boolean".to_string());
    let r = RuleTable { spec: SpecValue::Table(s), check: CheckValue::Function };
    assert_eq!(error_of(ScriptValue::Rule(r)), "rule.lua: spec.category must be a string, not a boolean");
}

#[test]
fn severity_must_be_error_or_warning() {
    let mut s = spec(text("x"));
    s.severity = text("info");
    let r = RuleTable { spec: SpecValue::Table(s), check: CheckValue::Function };
    assert_eq!(
        error_of(ScriptValue::Rule(r)),
        "rule.lua: spec.severity must be \"error\" or \"warning\", not \"info\""
    );
    let mut s = spec(text("x"));
    s.severity = text("warning");
    let r = RuleTable { spec: SpecValue::Table(s), check: CheckValue::Function };
    assert_eq!(validate_script_value("rule.lua", &ScriptValue::Rule(r)), Ok(()));
}

#[test]
fn references_must_be_a_list_of_strings() {
    let mut s = spec(text("x"));
    s.references = References::Other("string".to_string());
    let r = RuleTable { spec: SpecValue::Table(s), check: CheckValue::Function };
    assert_eq!(
        error_of(ScriptValue::Rule(r)),
        "rule.lua: spec.references must be a list of strings, not a string"
    );
    let mut s = spec(text("x"));
    s.references = References::List(vec![text("https://nginx.org"), SpecField::Other("number".to_string())]);
    let r = RuleTable { spec: SpecValue::Table(s), check: CheckValue::Function };
    assert_eq!(error_of(ScriptValue::Rule(r)), "rule.lua: spec.references must hold strings, not a number");
}

#[test]
fn spec_strings_must_be_utf8() {
    let mut s = spec(text("x"));
    s.description = SpecField::Str(b"caf\xe9".to_vec());
    let r = RuleTable { spec: SpecValue::Table(s), check: CheckValue::Function };
    assert_eq!(error_of(ScriptValue::Rule(r)), "rule.lua: spec.description is not valid UTF-8");
    let mut s = spec(text("x"));
    s.why = SpecField::Str(b"\xff".to_vec());
    let r = RuleTable { spec: SpecValue::Table(s), check: CheckValue::Function };
    assert_eq!(error_of(ScriptValue::Rule(r)), "rule.lua: spec.why is not valid UTF-8");
}

#[test]
fn a_list_of_rules_needs_distinct_names() {
    let list = ScriptValue::List(vec![ListEntry::Table(rule("a")), ListEntry::Table(rule("b"))]);
    assert_eq!(validate_script_value("rules.lua", &list), Ok(()));
    assert_eq!(
        validate_script_value("rules.lua", &ScriptValue::List(vec![])).unwrap_err(),
        "rules.lua: the script returned neither a rule table (`spec` and `check`) nor a list of them"
    );
    let list = ScriptValue::List(vec![ListEntry::Other("integer".to_string())]);
    assert_eq!(
        validate_script_value("rules.lua", &list).unwrap_err(),
        "rules.lua: rule 1 is an integer, not a table"
    );
    let list = ScriptValue::List(vec![ListEntry::Table(rule("a")), ListEntry::Other("string".to_string())]);
    assert_eq!(
        validate_script_value("rules.lua", &list).unwrap_err(),
        "rules.lua: rule 2 is a string, not a table"
    );
    let list = ScriptValue::List(vec![ListEntry::Table(rule("a")), ListEntry::Table(rule("a"))]);
    assert_eq!(
        validate_script_value("rules.lua", &list).unwrap_err(),
        "rules.lua: two rules are named \"a\""
    );
    let no_check = RuleTable { spec: SpecValue::Table(spec(text("a"))), check: CheckValue::Nil };
    let list = ScriptValue::List(vec![ListEntry::Table(no_check)]);
    assert_eq!(validate_script_value("rules.lua", &list).unwrap_err(), "rules.lua: `check` is missing");
}

#[test]
fn references_end_at_the_first_absent_entry() {
    let mut s = spec(text("x"));
    s.references = References::List(vec![
        text("https://nginx.org"),
        SpecField::Nil,
        SpecField::Other("number".to_string()),
    ]);
    let r = RuleTable { spec: SpecValue::Table(s), check: CheckValue::Function };
    assert_eq!(validate_script_value("rule.lua", &ScriptValue::Rule(r)), Ok(()));
}
