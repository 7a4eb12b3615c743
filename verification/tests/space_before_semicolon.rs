use nginx_lint::lint::LintError;
use nginx_lint::parser::parse_string;
use nginx_lint::rules::space_before_semicolon::SpaceBeforeSemicolonPlugin;

fn check_string(content: &str) -> Vec<LintError> {
    let config = parse_string(content).expect("parse failed");
    SpaceBeforeSemicolonPlugin.check(&config, "test.conf")
}

/// Applies the byte-range fixes of `errors` to `content`, last range first
fn apply_range_fixes(content: &str, errors: &[LintError]) -> String {
    let mut fixes: Vec<(usize, usize, String)> = errors
        .iter()
        .filter_map(|e| e.fix.as_ref())
        .filter_map(|f| match (f.start_offset, f.end_offset) {
            (Some(s), Some(e)) => Some((s, e, f.new_text.clone())),
            _ => None,
        })
        .collect();
    fixes.sort_by(|a, b| b.0.cmp(&a.0));
    let mut result = content.to_string();
    for (s, e, text) in fixes {
        result.replace_range(s..e, &text);
    }
    result
}

#[test]
fn test_no_space_before_semicolon() {
    let errors = check_string(
        r#"
server {
    listen 80;
}
"#,
    );
    assert!(errors.is_empty());
}

#[test]
fn test_detects_space_before_semicolon() {
    let errors = check_string(
        r#"
server {
    listen 80 ;
}
"#,
    );
    assert!(!errors.is_empty());
}

#[test]
fn test_detects_tab_before_semicolon() {
    assert!(!check_string("listen 80\t;").is_empty());
}

#[test]
fn test_multiple_spaces() {
    assert!(!check_string("listen 80   ;").is_empty());
}

#[test]
fn test_error_location() {
    let errors = check_string(
        r#"
server {
    listen 80 ;
}
"#,
    );
    assert_eq!(errors.len(), 1);
    assert!(errors.iter().any(|e| e.line == Some(3)));
    assert!(errors.iter().all(|e| e.fix.is_some()));
}

#[test]
fn test_fix_removes_space() {
    let content = "    listen 80 ;";
    let errors = check_string(content);
    assert_eq!(errors.len(), 1);
    assert_eq!(apply_range_fixes(content, &errors), "    listen 80;");
}

#[test]
fn space_before_semicolon_fix_range() {
    let errors = check_string("a b  \t;\n");
    assert_eq!(errors.len(), 1);
    let fix = errors[0].fix.as_ref().unwrap();
    assert_eq!(fix.start_offset, Some(3));
    assert_eq!(fix.end_offset, Some(6));
    assert_eq!(fix.new_text, "");
    assert_eq!(errors[0].message, "space before semicolon");
    assert_eq!(errors[0].rule, "space-before-semicolon");
}

#[test]
fn space_before_semicolon_not_for_blocks() {
    assert!(check_string("server {\n}\n").is_empty());
    assert!(check_string("server  {\n}\n").is_empty());
}
