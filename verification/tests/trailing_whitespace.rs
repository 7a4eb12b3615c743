use nginx_lint::lint::LintError;
use nginx_lint::parser::parse_string;
use nginx_lint::rules::trailing_whitespace::TrailingWhitespacePlugin;

fn check_string(content: &str) -> Vec<LintError> {
    let config = parse_string(content).expect("parse failed");
    TrailingWhitespacePlugin.check(&config, "test.conf")
}

#[test]
fn test_no_trailing_whitespace() {
    let errors = check_string(
        r#"
server {
    listen 80;
}
"#,
    );
    assert!(errors.is_empty());
}

#[test]
fn trailing_whitespace_after_semicolon() {
    let errors = check_string("listen 80;  \n");
    assert_eq!(errors.len(), 1);
    assert_eq!(errors[0].line, Some(1));
    assert_eq!(errors[0].column, Some(1));
    assert_eq!(errors[0].message, "trailing whitespace at end of line");
    let fix = errors[0].fix.as_ref().unwrap();
    assert_eq!(fix.start_offset, Some(10));
    assert_eq!(fix.end_offset, Some(12));
}

#[test]
fn trailing_whitespace_after_braces_and_comment() {
    let errors = check_string("http { \n  # note \n} \n");
    assert_eq!(errors.len(), 3);
    assert_eq!(errors[0].line, Some(1));
    assert_eq!(errors[1].line, Some(3));
    assert_eq!(errors[2].line, Some(2));
}
