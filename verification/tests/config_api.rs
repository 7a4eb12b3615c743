use nginx_lint::ast::{Block, Comment, Config, ConfigItem, Directive, Position, Span};
use nginx_lint::config_api::{
    collect_directive_paths_with_context, resolve_block_items, resolve_directive,
};
use nginx_lint::parser::parse_string;

fn make_directive(name: &str, line: usize, column: usize, start: usize, end: usize) -> Directive {
    Directive {
        name: name.to_string(),
        name_span: Span::new(
            Position::new(line, column, start),
            Position::new(line, column + name.len(), start + name.len()),
        ),
        args: vec![],
        block: None,
        span: Span::new(Position::new(line, column, start), Position::new(line, column, end)),
        trailing_comment: None,
        leading_whitespace: " ".repeat(column.saturating_sub(1)),
        space_before_terminator: String::new(),
        trailing_whitespace: "\n".to_string(),
    }
}

fn make_block_directive(name: &str, line: usize, items: Vec<ConfigItem>) -> Directive {
    let mut dir = make_directive(name, line, 1, line * 100, line * 100 + 50);
    dir.block = Some(Block {
        items,
        span: Span::new(
            Position::new(line, 10, line * 100 + 9),
            Position::new(line + 2, 1, line * 100 + 49),
        ),
        raw_content: None,
        trailing_whitespace: "\n".to_string(),
    });
    dir
}

fn config_with(include_context: Vec<&str>, items: Vec<ConfigItem>) -> Config {
    Config {
        items,
        include_context: include_context.into_iter().map(|s| s.to_string()).collect(),
    }
}

fn single(directive: Directive) -> Config {
    config_with(vec![], vec![ConfigItem::Directive(Box::new(directive))])
}

#[test]
fn test_is_included_from_http_server_correct_order() {
    assert!(config_with(vec!["http", "server"], vec![]).is_included_from_http_server());
}

#[test]
fn test_is_included_from_http_server_reversed_order() {
    assert!(!config_with(vec!["server", "http"], vec![]).is_included_from_http_server());
}

#[test]
fn test_is_included_from_http_server_missing_server() {
    assert!(!config_with(vec!["http"], vec![]).is_included_from_http_server());
}

#[test]
fn test_is_included_from_http_server_missing_http() {
    assert!(!config_with(vec!["server"], vec![]).is_included_from_http_server());
}

#[test]
fn test_is_included_from_http_server_empty_context() {
    assert!(!config_with(vec![], vec![]).is_included_from_http_server());
}

#[test]
fn test_is_included_from_http_location_correct_order() {
    assert!(config_with(vec!["http", "location"], vec![]).is_included_from_http_location());
}

#[test]
fn test_is_included_from_http_location_reversed_order() {
    assert!(!config_with(vec!["location", "http"], vec![]).is_included_from_http_location());
}

#[test]
fn test_is_included_from_http_location_missing_location() {
    assert!(!config_with(vec!["http"], vec![]).is_included_from_http_location());
}

#[test]
fn test_is_included_from_http_location_empty_context() {
    assert!(!config_with(vec![], vec![]).is_included_from_http_location());
}

#[test]
fn test_is_included_from_http_location_with_server_in_between() {
    assert!(config_with(vec!["http", "server", "location"], vec![]).is_included_from_http_location());
}

#[test]
fn test_insert_before_column_1() {
    let dir = make_directive("listen", 2, 1, 10, 20);
    let fix = dir.insert_before("new_line;");
    assert_eq!(fix.start_offset, Some(10));
    assert_eq!(fix.end_offset, Some(10));
    assert!(fix.new_text.contains("new_line;"));
}

#[test]
fn test_insert_before_indented() {
    let dir = make_directive("listen", 2, 5, 15, 25);
    let fix = dir.insert_before("new_line;");
    assert_eq!(fix.start_offset, Some(11));
    assert_eq!(fix.end_offset, Some(11));
    assert!(fix.new_text.starts_with("    "));
}

#[test]
fn test_insert_before_many_multiple_lines() {
    let dir = make_directive("listen", 2, 5, 15, 25);
    let fix = dir.insert_before_many(&vec!["line1;".to_string(), "line2;".to_string()]);
    assert_eq!(fix.start_offset, Some(11));
    assert!(fix.new_text.contains("line1;"));
    assert!(fix.new_text.contains("line2;"));
}

#[test]
fn test_block_items_no_block() {
    let config = single(make_directive("listen", 1, 1, 0, 10));
    assert!(resolve_block_items(&config, &vec![0]).is_empty());
}

#[test]
fn test_block_items_with_block() {
    let mut dir = make_directive("http", 1, 1, 0, 30);
    dir.block = Some(Block {
        items: vec![ConfigItem::Directive(Box::new(make_directive("server", 2, 5, 10, 25)))],
        span: Span::new(Position::new(1, 6, 5), Position::new(3, 1, 30)),
        raw_content: None,
        trailing_whitespace: "\n".to_string(),
    });
    let config = single(dir);
    let items = resolve_block_items(&config, &vec![0]);
    assert_eq!(items.len(), 1);
    assert!(matches!(items[0], ConfigItem::Directive(_)));
}

#[test]
fn test_nested_directive_paths_resolve() {
    let listen = make_directive("listen", 3, 9, 320, 330);
    let comment = ConfigItem::Comment(Comment {
        text: "# c".to_string(),
        span: Span::new(Position::new(2, 5, 210), Position::new(2, 8, 213)),
        leading_whitespace: String::new(),
        trailing_whitespace: "\n".to_string(),
    });
    let server = make_block_directive("server", 2, vec![ConfigItem::Directive(Box::new(listen))]);
    let http = make_block_directive("http", 1, vec![comment, ConfigItem::Directive(Box::new(server))]);
    let config = single(http);

    let contexts = collect_directive_paths_with_context(&config);
    assert_eq!(contexts.len(), 3);
    let names: Vec<String> = contexts
        .iter()
        .map(|ctx| resolve_directive(&config, &ctx.path).name.clone())
        .collect();
    assert_eq!(names, vec!["http", "server", "listen"]);

    let listen_ctx = &contexts[2];
    assert_eq!(listen_ctx.path, vec![0, 1, 0]);
    assert_eq!(listen_ctx.parent_stack, vec!["http", "server"]);
    assert_eq!(listen_ctx.depth, 2);
    let listen = resolve_directive(&config, &listen_ctx.path);
    assert_eq!(listen.name, "listen");
    assert_eq!(listen.span.start.line, 3);
    assert_eq!(listen.span.start.offset, 320);
}

#[test]
fn test_nested_block_items_create_resolvable_handles() {
    let listen = make_directive("listen", 3, 9, 320, 330);
    let server = make_block_directive("server", 2, vec![ConfigItem::Directive(Box::new(listen))]);
    let http = make_block_directive("http", 1, vec![ConfigItem::Directive(Box::new(server))]);
    let config = single(http);
    let items = resolve_block_items(&config, &vec![0]);
    assert_eq!(items.len(), 1);
    let ConfigItem::Directive(server) = &items[0] else {
        panic!("expected directive item");
    };
    assert_eq!(server.name, "server");
    assert_eq!(resolve_directive(&config, &vec![0, 0]).name, "server");
}

#[test]
fn include_context_questions() {
    let config = config_with(vec!["stream", "server"], vec![]);
    assert!(config.is_included_from("server"));
    assert!(!config.is_included_from("http"));
    assert!(!config.is_included_from_http());
    assert!(config.is_included_from_stream());
    assert_eq!(config.immediate_parent_context(), Some("server"));
    assert_eq!(config_with(vec![], vec![]).immediate_parent_context(), None);
}

#[test]
fn argument_questions() {
    let config = parse_string("listen 80 default_server;\nhttp {\n}\n").unwrap();
    let ConfigItem::Directive(d) = &config.items[0] else {
        panic!("expected directive");
    };
    assert_eq!(d.arg_at(1), Some("default_server"));
    assert_eq!(d.arg_at(2), None);
    assert_eq!(d.last_arg(), Some("default_server"));
    assert!(d.has_arg("80"));
    assert!(!d.has_arg("443"));
    assert_eq!(d.arg_count(), 2);
    assert!(!d.has_block());
    assert!(!d.block_is_raw());
    let ConfigItem::Directive(h) = &config.items[1] else {
        panic!("expected directive");
    };
    assert!(h.has_block());
    assert_eq!(h.last_arg(), None);
}

#[test]
fn fixes_around_a_directive() {
    let content = "http {\n    server_tokens on;\n}\n";
    let config = parse_string(content).unwrap();
    let contexts = collect_directive_paths_with_context(&config);
    let d = resolve_directive(&config, &contexts[1].path);
    assert_eq!(d.name, "server_tokens");

    let fix = d.replace_with("server_tokens off;");
    assert_eq!(fix.start_offset, Some(7));
    assert_eq!(fix.end_offset, Some(28));
    assert_eq!(fix.new_text, "    server_tokens off;");

    let fix = d.insert_after("add_header X 1;");
    assert_eq!(fix.start_offset, Some(28));
    assert_eq!(fix.new_text, "\n    add_header X 1;");

    let fix = d.insert_after_many(&vec!["a;".to_string(), "b;".to_string()]);
    assert_eq!(fix.new_text, "\n    a;\n    b;");

    let fix = d.insert_before("# note");
    assert_eq!(fix.start_offset, Some(7));
    assert_eq!(fix.new_text, "    # note\n");

    let fix = d.delete_line_fix();
    assert_eq!(fix.line, 2);
    assert!(fix.delete_line);
}
