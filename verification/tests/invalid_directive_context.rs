use nginx_lint::lint::{LintError, Severity};
use nginx_lint::parser::parse_string;
use nginx_lint::rules::invalid_directive_context::InvalidDirectiveContextPlugin;

fn check_string(content: &str) -> Vec<LintError> {
    let config = parse_string(content).expect("parse failed");
    InvalidDirectiveContextPlugin.check(&config, "test.conf")
}

fn assert_no_errors(content: &str) {
    let errors = check_string(content);
    assert!(errors.is_empty(), "Expected no errors, got: {:?}", errors);
}

fn assert_has_errors(content: &str) {
    let errors = check_string(content);
    assert!(!errors.is_empty(), "Expected errors, got none");
    assert!(errors.iter().all(|e| e.rule == "invalid-directive-context"));
}

#[test]
fn test_valid_root_level_directives() {
    assert_no_errors(
        r#"
events {
    worker_connections 1024;
}

http {
    server {
        listen 80;
    }
}
"#,
    );
}

#[test]
fn test_server_in_http() {
    assert_no_errors(
        r#"
http {
    server {
        listen 80;
    }
}
"#,
    );
}

#[test]
fn test_server_in_server_error() {
    assert_has_errors(
        r#"
http {
    server {
        server {
            listen 80;
        }
    }
}
"#,
    );
}

#[test]
fn test_location_in_http_error() {
    assert_has_errors(
        r#"
http {
    location / {
        root /var/www;
    }
}
"#,
    );
}

#[test]
fn test_location_in_server() {
    assert_no_errors(
        r#"
http {
    server {
        location / {
            root /var/www;
        }
    }
}
"#,
    );
}

#[test]
fn test_nested_location() {
    assert_no_errors(
        r#"
http {
    server {
        location /api {
            location /api/v1 {
                root /var/www;
            }
        }
    }
}
"#,
    );
}

#[test]
fn test_http_not_at_root_error() {
    assert_has_errors(
        r#"
http {
    server {
        http {
            server {
                listen 80;
            }
        }
    }
}
"#,
    );
}

#[test]
fn test_events_not_at_root_error() {
    assert_has_errors(
        r#"
http {
    events {
        worker_connections 1024;
    }
}
"#,
    );
}

#[test]
fn test_upstream_in_http() {
    assert_no_errors(
        r#"
http {
    upstream backend {
        server 127.0.0.1:8080;
    }
}
"#,
    );
}

#[test]
fn test_upstream_in_location_error() {
    assert_has_errors(
        r#"
http {
    server {
        location / {
            upstream backend {
                server 127.0.0.1:8080;
            }
        }
    }
}
"#,
    );
}

#[test]
fn test_if_in_location() {
    assert_no_errors(
        r#"
http {
    server {
        location / {
            if ($request_method = POST) {
                return 405;
            }
        }
    }
}
"#,
    );
}

#[test]
fn test_if_in_http_error() {
    assert_has_errors(
        r#"
http {
    if ($host = "example.com") {
        return 301 https://www.example.com$request_uri;
    }
}
"#,
    );
}

#[test]
fn test_limit_except_in_location() {
    assert_no_errors(
        r#"
http {
    server {
        location / {
            limit_except GET POST {
                deny all;
            }
        }
    }
}
"#,
    );
}

#[test]
fn test_limit_except_in_server_error() {
    assert_has_errors(
        r#"
http {
    server {
        limit_except GET {
            deny all;
        }
    }
}
"#,
    );
}

#[test]
fn test_map_in_http() {
    assert_no_errors(
        r#"
http {
    map $uri $new_uri {
        default 0;
    }
}
"#,
    );
}

#[test]
fn test_geo_in_http() {
    assert_no_errors(
        r#"
http {
    geo $country {
        default unknown;
    }
}
"#,
    );
}

#[test]
fn test_server_at_root_error() {
    assert_has_errors(
        r#"
server {
    listen 80;
}
"#,
    );
}

#[test]
fn test_stream_at_root() {
    assert_no_errors(
        r#"
stream {
    server {
        listen 12345;
    }
}
"#,
    );
}

#[test]
fn test_mail_at_root() {
    assert_no_errors(
        r#"
mail {
    server {
        listen 25;
    }
}
"#,
    );
}

#[test]
fn test_include_context_location_in_server() {
    let mut config = parse_string(
        r#"
location / {
    root /var/www;
}
"#,
    )
    .unwrap();
    config.include_context = vec!["http".to_string(), "server".to_string()];
    let errors = InvalidDirectiveContextPlugin.check(&config, "test.conf");
    assert!(errors.is_empty(), "Expected no errors, got: {:?}", errors);
}

#[test]
fn test_include_context_server_in_server_error() {
    let mut config = parse_string(
        r#"
server {
    listen 8080;
}
"#,
    )
    .unwrap();
    config.include_context = vec!["http".to_string(), "server".to_string()];
    let errors = InvalidDirectiveContextPlugin.check(&config, "test.conf");
    assert_eq!(errors.len(), 1, "Expected 1 error, got: {:?}", errors);
    assert!(errors[0].message.contains("'server' directive cannot be inside 'server'"));
}

#[test]
fn test_include_context_server_in_http() {
    let mut config = parse_string(
        r#"
server {
    listen 80;
    location / {
        root /var/www;
    }
}
"#,
    )
    .unwrap();
    config.include_context = vec!["http".to_string()];
    let errors = InvalidDirectiveContextPlugin.check(&config, "test.conf");
    assert!(errors.is_empty(), "Expected no errors, got: {:?}", errors);
}

#[test]
fn messages_name_the_parent_and_the_valid_contexts() {
    let errors = check_string("server {\n}\nhttp {\n    events {\n    }\n    location / {\n    }\n}\n");
    let messages: Vec<&str> = errors.iter().map(|e| e.message.as_str()).collect();
    assert_eq!(
        messages,
        vec![
            "'server' directive must be inside one of: http, stream, mail, not in main context",
            "'events' directive must be in main context, not inside 'http'",
            "'location' directive cannot be inside 'http', valid contexts: server, location",
        ]
    );
    assert!(errors.iter().all(|e| e.severity == Severity::Error && e.category == "syntax"));
    assert_eq!((errors[1].line, errors[1].column), (Some(4), Some(5)));
    assert!(errors.iter().all(|e| e.fix.is_none()));
}

#[test]
fn directives_without_a_block_are_not_checked() {
    assert_no_errors("server_name example.com;\nhttp {\n    listen 80;\n}\n");
}

#[test]
fn spec_reports_errors() {
    let spec = InvalidDirectiveContextPlugin.spec();
    assert_eq!(spec.name, "invalid-directive-context");
    assert_eq!(spec.severity, "error");
}

#[test]
fn spec_cites_the_beginners_guide() {
    let spec = InvalidDirectiveContextPlugin.spec();
    assert_eq!(spec.references, vec!["https://nginx.org/en/docs/beginners_guide.html".to_string()]);
}
