use nginx_lint::ast::ConfigItem;
use nginx_lint::error::ParseError;
use nginx_lint::parser::parse_string;

#[test]
fn test_simple_directive() {
    let config = parse_string("worker_processes auto;").unwrap();
    let directives: Vec<_> = config.directives();
    assert_eq!(directives.len(), 1);
    assert_eq!(directives[0].name, "worker_processes");
    assert_eq!(directives[0].first_arg(), Some("auto"));
}

#[test]
fn test_block_directive() {
    let config = parse_string("http {\n    server {\n        listen 80;\n    }\n}").unwrap();
    let directives: Vec<_> = config.directives();
    assert_eq!(directives.len(), 1);
    assert_eq!(directives[0].name, "http");
    assert!(directives[0].block.is_some());

    let all_directives: Vec<_> = config.all_directives();
    assert_eq!(all_directives.len(), 3);
    assert_eq!(all_directives[0].name, "http");
    assert_eq!(all_directives[1].name, "server");
    assert_eq!(all_directives[2].name, "listen");
}

#[test]
fn test_extension_directive() {
    let config = parse_string(r#"more_set_headers "Server: Custom";"#).unwrap();
    let directives: Vec<_> = config.directives();
    assert_eq!(directives.len(), 1);
    assert_eq!(directives[0].name, "more_set_headers");
    assert_eq!(directives[0].first_arg(), Some("Server: Custom"));
}

#[test]
fn test_ssl_protocols() {
    let config = parse_string("ssl_protocols TLSv1.2 TLSv1.3;").unwrap();
    let directives: Vec<_> = config.directives();
    assert_eq!(directives.len(), 1);
    assert_eq!(directives[0].name, "ssl_protocols");
    assert_eq!(directives[0].args.len(), 2);
    assert_eq!(directives[0].args[0].as_str(), "TLSv1.2");
    assert_eq!(directives[0].args[1].as_str(), "TLSv1.3");
}

#[test]
fn test_autoindex() {
    let config = parse_string("autoindex on;").unwrap();
    let directives: Vec<_> = config.directives();
    assert_eq!(directives.len(), 1);
    assert_eq!(directives[0].name, "autoindex");
    assert!(directives[0].args[0].is_on());
}

#[test]
fn test_comment() {
    let config = parse_string("# This is a comment\nworker_processes auto;").unwrap();
    assert_eq!(config.items.len(), 2);
    match &config.items[0] {
        ConfigItem::Comment(c) => assert_eq!(c.text, "# This is a comment"),
        _ => panic!("Expected comment"),
    }
}

#[test]
fn test_full_config() {
    let source = r#"
# Good nginx configuration
worker_processes auto;
error_log /var/log/nginx/error.log;

http {
    server_tokens off;
    gzip on;

    server {
        listen 80;
        server_name example.com;

        location / {
            root /var/www/html;
            index index.html;
        }
    }
}
"#;
    let config = parse_string(source).unwrap();

    let all_directives: Vec<_> = config.all_directives();
    let names: Vec<&str> = all_directives.iter().map(|d| d.name.as_str()).collect();

    assert!(names.contains(&"worker_processes"));
    assert!(names.contains(&"error_log"));
    assert!(names.contains(&"server_tokens"));
    assert!(names.contains(&"gzip"));
    assert!(names.contains(&"listen"));
    assert!(names.contains(&"server_name"));
    assert!(names.contains(&"root"));
    assert!(names.contains(&"index"));
}

#[test]
fn test_server_tokens_on() {
    let config = parse_string("server_tokens on;").unwrap();
    let directive = config.directives()[0];
    assert_eq!(directive.name, "server_tokens");
    assert!(directive.first_arg_is("on"));
    assert!(directive.args[0].is_on());
}

#[test]
fn test_gzip_on() {
    let config = parse_string("gzip on;").unwrap();
    let directive = config.directives()[0];
    assert_eq!(directive.name, "gzip");
    assert!(directive.first_arg_is("on"));
}

#[test]
fn test_position_tracking() {
    let config = parse_string("http {\n    listen 80;\n}").unwrap();
    let all_directives: Vec<_> = config.all_directives();

    // "http" at line 1
    assert_eq!(all_directives[0].span.start.line, 1);

    // "listen" at line 2
    assert_eq!(all_directives[1].span.start.line, 2);
}

#[test]
fn test_error_unmatched_brace() {
    let result = parse_string("http {\n    listen 80;\n");
    assert!(result.is_err());
    match result.unwrap_err() {
        ParseError::UnclosedBlock { .. } => {}
        e => panic!("Expected UnclosedBlock error, got {:?}", e),
    }
}

#[test]
fn test_error_missing_semicolon() {
    let result = parse_string("listen 80\n}");
    assert!(result.is_err());
}

#[test]
fn test_roundtrip() {
    let source = "worker_processes auto;\nhttp {\n    listen 80;\n}\n";
    let config = parse_string(source).unwrap();
    let output = config.to_source();

    // Parse the output again to verify it's valid
    let reparsed = parse_string(&output).unwrap();
    let names1: Vec<&str> = config.all_directives().iter().map(|d| d.name.as_str()).collect();
    let names2: Vec<&str> = reparsed.all_directives().iter().map(|d| d.name.as_str()).collect();
    assert_eq!(names1, names2);
}

#[test]
fn test_lua_directive() {
    let config = parse_string("lua_code_cache on;").unwrap();
    let directive = config.directives()[0];
    assert_eq!(directive.name, "lua_code_cache");
    assert!(directive.first_arg_is("on"));
}

#[test]
fn test_gzip_types() {
    let config = parse_string("gzip_types text/plain text/css application/json;").unwrap();
    let directive = config.directives()[0];
    assert_eq!(directive.name, "gzip_types");
    assert_eq!(directive.args.len(), 3);
}

#[test]
fn test_lua_block_directive() {
    let config = parse_string(
        r#"content_by_lua_block {
    local cjson = require "cjson"
    ngx.say(cjson.encode({status = "ok"}))
}"#,
    )
    .unwrap();
    let directive = config.directives()[0];
    assert_eq!(directive.name, "content_by_lua_block");
    assert!(directive.block.is_some());

    let block = directive.block.as_ref().unwrap();
    assert!(block.is_raw());
    assert!(block.raw_content.is_some());

    let content = block.raw_content.as_ref().unwrap();
    assert!(content.contains("local cjson = require"));
    assert!(content.contains("ngx.say"));
}

#[test]
fn test_map_with_empty_string_key() {
    let config = parse_string(
        r#"map $http_upgrade $connection_upgrade {
    default upgrade;
    '' close;
}"#,
    )
    .unwrap();
    let directive = config.directives()[0];
    assert_eq!(directive.name, "map");
    assert!(directive.block.is_some());

    let block = directive.block.as_ref().unwrap();
    let directives: Vec<_> = block.directives();
    assert_eq!(directives.len(), 2);
    assert_eq!(directives[0].name, "default");
    assert_eq!(directives[1].name, ""); // empty string key
}

#[test]
fn test_init_by_lua_block() {
    let config = parse_string(
        r#"init_by_lua_block {
    require "resty.core"
    cjson = require "cjson"
}"#,
    )
    .unwrap();
    let directive = config.directives()[0];
    assert_eq!(directive.name, "init_by_lua_block");
    assert!(directive.block.is_some());

    let block = directive.block.as_ref().unwrap();
    assert!(block.is_raw());

    let content = block.raw_content.as_ref().unwrap();
    assert!(content.contains("require \"resty.core\""));
}

#[test]
fn test_whitespace_capture() {
    let config = parse_string("http {\n    listen 80;\n}").unwrap();
    let all_directives: Vec<_> = config.all_directives();

    // "http" has no leading whitespace
    assert_eq!(all_directives[0].leading_whitespace, "");
    // "http" has space before the opening brace
    assert_eq!(all_directives[0].space_before_terminator, " ");

    // "listen" has 4 spaces of leading whitespace
    assert_eq!(all_directives[1].leading_whitespace, "    ");
    // "listen" has no space before the semicolon
    assert_eq!(all_directives[1].space_before_terminator, "");
}

#[test]
fn test_comment_whitespace_capture() {
    let config = parse_string("    # test comment\nlisten 80;").unwrap();

    // Find the comment
    if let ConfigItem::Comment(comment) = &config.items[0] {
        assert_eq!(comment.leading_whitespace, "    ");
    } else {
        panic!("Expected comment");
    }
}

#[test]
fn test_roundtrip_preserves_whitespace() {
    // Test that round-trip preserves original indentation
    let source = "http {\n    server {\n        listen 80;\n    }\n}\n";
    let config = parse_string(source).unwrap();
    let output = config.to_source();

    // Parse the output and check the indentation is preserved
    let reparsed = parse_string(&output).unwrap();
    let all_directives: Vec<_> = reparsed.all_directives();

    // "http" has no leading whitespace
    assert_eq!(all_directives[0].leading_whitespace, "");
    // "server" has 4 spaces
    assert_eq!(all_directives[1].leading_whitespace, "    ");
    // "listen" has 8 spaces
    assert_eq!(all_directives[2].leading_whitespace, "        ");
}

#[test]
fn unclosed_block_becomes_a_syntax_finding() {
    let e = parse_string("server {\n    listen 80;\n").unwrap_err();
    assert_eq!(e.message(), "unclosed block");
    let f = e.to_lint_error();
    assert_eq!(f.rule, "syntax-error");
    assert_eq!(f.category, "syntax");
    assert_eq!(f.severity, nginx_lint::lint::Severity::Error);
    assert_eq!((f.line, f.column), (Some(1), Some(8)));
    assert!(f.fix.is_none());
}

#[test]
fn io_error_finding_has_no_position() {
    let e = nginx_lint::error::ParseError::IoError("denied".to_string());
    assert_eq!(e.message(), "I/O error: denied");
    let f = e.to_lint_error();
    assert_eq!((f.line, f.column), (None, None));
    assert_eq!(f.message, "I/O error: denied");
}

#[test]
fn a_text_parses_the_same_every_time() {
    let source = "http {\n    server {\n        listen 80; # port\n    }\n}\n";
    let first = parse_string(source).unwrap();
    let second = parse_string(source).unwrap();
    assert_eq!(first.to_source(), second.to_source());
    assert_eq!(first.all_directives().len(), second.all_directives().len());
}

#[test]
fn an_unclosed_quote_fails_at_the_quote() {
    match parse_string("server_name example.com;\nreturn 200 \"never closed;\n") {
        Err(ParseError::UnterminatedString { position }) => {
            assert_eq!(position.line, 2);
            assert_eq!(position.column, 12);
        }
        other => panic!("expected an unterminated string, got {:?}", other.is_ok()),
    }
}

#[test]
fn a_raw_block_keeps_inner_braces_and_stops_at_its_own_brace() {
    let c = parse_string("content_by_lua_block {\n    if x then t = { 1 } end\n}\nlisten 80;\n").unwrap();
    assert_eq!(c.all_directives().len(), 2);
    let d = c.all_directives()[0];
    let raw = d.block.as_ref().unwrap().raw_content.as_ref().unwrap().clone();
    assert_eq!(raw, "if x then t = {1}end");
}

#[test]
fn a_raw_block_that_never_closes_is_an_unclosed_block() {
    match parse_string("content_by_lua_block {\n    ngx.say(1)\n") {
        Err(ParseError::UnclosedBlock { position }) => assert_eq!(position.line, 1),
        other => panic!("expected an unclosed block, got {:?}", other.is_ok()),
    }
}
