use nginx_lint::lint::LintError;
use nginx_lint::parser::parse_string;
use nginx_lint::rules::duplicate_directive::DuplicateDirectivePlugin;

fn check_string(content: &str) -> Vec<LintError> {
    let config = parse_string(content).expect("parse failed");
    DuplicateDirectivePlugin.check(&config, "test.conf")
}

#[test]
fn test_detects_duplicate_worker_processes() {
    assert!(!check_string(
        r#"
worker_processes 4;
worker_processes 8;
"#
    )
    .is_empty());
}

#[test]
fn test_no_error_single_directive() {
    assert!(check_string(
        r#"
worker_processes auto;
"#
    )
    .is_empty());
}

#[test]
fn test_detects_duplicate_pid() {
    assert!(!check_string(
        r#"
pid /run/nginx.pid;
pid /var/run/nginx.pid;
"#
    )
    .is_empty());
}

#[test]
fn lib_test_error_location() {
    let errors = check_string(
        r#"
worker_processes 4;
worker_processes 8;
"#,
    );
    assert_eq!(errors.len(), 1);
    assert!(errors.iter().any(|e| e.line == Some(3)));
    assert!(errors.iter().any(|e| e.message.contains("Duplicate")));
    assert!(errors.iter().all(|e| e.fix.is_some()));
}

#[test]
fn test_fix_deletes_duplicate() {
    let errors = check_string(
        r#"worker_processes 4;
worker_processes 8;
"#,
    );
    assert_eq!(errors.len(), 1);
    assert!(errors.iter().any(|e| e.fix.as_ref().map(|f| f.line) == Some(2)));
}

#[test]
fn test_duplicate_root_in_location() {
    assert!(!check_string(
        r#"
http {
    server {
        location / {
            root /var/www;
            root /var/www/html;
        }
    }
}
"#
    )
    .is_empty());
}

#[test]
fn test_root_in_different_locations_is_ok() {
    assert!(check_string(
        r#"
http {
    server {
        location / {
            root /var/www;
        }
        location /static {
            root /var/static;
        }
    }
}
"#
    )
    .is_empty());
}

#[test]
fn test_duplicate_in_http_context() {
    assert!(!check_string(
        r#"
http {
    sendfile on;
    sendfile off;
}
"#
    )
    .is_empty());
}

#[test]
fn test_duplicate_in_server_context() {
    assert!(!check_string(
        r#"
http {
    server {
        server_tokens off;
        server_tokens on;
    }
}
"#
    )
    .is_empty());
}

#[test]
fn test_same_directive_different_servers_is_ok() {
    assert!(check_string(
        r#"
http {
    server {
        server_tokens off;
    }
    server {
        server_tokens on;
    }
}
"#
    )
    .is_empty());
}

#[test]
fn test_duplicate_in_upstream() {
    assert!(!check_string(
        r#"
http {
    upstream backend {
        ip_hash;
        ip_hash;
    }
}
"#
    )
    .is_empty());
}

#[test]
fn test_include_context_main() {
    let config = parse_string(
        r#"
worker_processes 4;
worker_processes 8;
"#,
    )
    .unwrap();

    let plugin = DuplicateDirectivePlugin;
    let errors = plugin.check(&config, "test.conf");

    assert_eq!(errors.len(), 1);
    assert!(errors[0].message.contains("Duplicate 'worker_processes'"));
}

#[test]
fn test_include_context_from_server() {
    let mut config = parse_string(
        r#"
root /var/www;
root /var/www/html;
"#,
    )
    .unwrap();

    config.include_context = vec!["http".to_string(), "server".to_string()];

    let plugin = DuplicateDirectivePlugin;
    let errors = plugin.check(&config, "test.conf");

    assert_eq!(errors.len(), 1);
    assert!(errors[0].message.contains("Duplicate 'root'"));
    assert!(errors[0].message.contains("server context"));
}

#[test]
fn duplicate_directive_full_message() {
    let errors = check_string("pid a;\n\npid b;\npid c;\n");
    assert_eq!(errors.len(), 2);
    assert_eq!(
        errors[0].message,
        "Duplicate 'pid' directive in main context (first defined on line 1)"
    );
    assert_eq!(errors[1].line, Some(4));
    let fix = errors[1].fix.as_ref().unwrap();
    assert!(fix.delete_line);
    assert_eq!(fix.line, 4);
}

#[test]
fn duplicate_directive_unknown_context_has_no_unique_directives() {
    assert!(check_string("events {\n pid a;\n pid b;\n}\n").is_empty());
}
