use nginx_lint::lint::LintError;
use nginx_lint::parser::parse_string;
use nginx_lint::rules::security::{AutoindexEnabled, ServerTokensEnabled};

fn server_tokens(content: &str) -> Vec<LintError> {
    let config = parse_string(content).unwrap();
    ServerTokensEnabled.check(&config, "test.conf")
}

fn autoindex(content: &str) -> Vec<LintError> {
    let config = parse_string(content).unwrap();
    AutoindexEnabled.check(&config, "test.conf")
}

#[test]
fn server_tokens_on_is_reported_and_fixed() {
    let errors = server_tokens("http { server_tokens on; }");
    assert_eq!(errors.len(), 1);
    assert_eq!(errors[0].rule, "server-tokens-enabled-rs");
    assert!(server_tokens("http { server_tokens off; }").is_empty());
}

#[test]
fn autoindex_on_is_reported_outside_of_stream() {
    assert_eq!(autoindex("http { server { location / { autoindex on; } } }").len(), 1);
    assert!(autoindex("stream { autoindex on; }").is_empty());
}

#[test]
fn server_tokens_fix_keeps_indentation() {
    let content = "http {\n    server_tokens on;\n}\n";
    let errors = server_tokens(content);
    assert_eq!(errors.len(), 1);
    let fix = errors[0].fix.as_ref().unwrap();
    let (s, e) = (fix.start_offset.unwrap(), fix.end_offset.unwrap());
    let mut fixed = content.to_string();
    fixed.replace_range(s..e, &fix.new_text);
    assert_eq!(fixed, "http {\n    server_tokens off;\n}\n");
}

#[test]
fn server_tokens_outside_http_or_included_from_http() {
    assert!(server_tokens("server_tokens on;").is_empty());
    let mut config = parse_string("server_tokens on;").unwrap();
    config.include_context = vec!["http".to_string(), "server".to_string()];
    assert_eq!(ServerTokensEnabled.check(&config, "x.conf").len(), 1);
}
