use nginx_lint::ast::{Argument, ArgumentValue, Block, Config, ConfigItem, Directive, Span};

fn directive(name: &str, args: Vec<Argument>, block: Option<Block>) -> Directive {
    Directive {
        name: name.to_string(),
        name_span: Span::default(),
        args,
        block,
        span: Span::default(),
        trailing_comment: None,
        leading_whitespace: String::new(),
        space_before_terminator: String::new(),
        trailing_whitespace: String::new(),
    }
}

fn literal(value: &str) -> Argument {
    Argument {
        value: ArgumentValue::Literal(value.to_string()),
        span: Span::default(),
        raw: value.to_string(),
    }
}

fn block(items: Vec<ConfigItem>) -> Block {
    Block {
        items,
        span: Span::default(),
        raw_content: None,
        trailing_whitespace: String::new(),
    }
}

#[test]
fn test_all_directives_iterator() {
    let config = Config {
        items: vec![
            ConfigItem::Directive(Box::new(directive(
                "worker_processes",
                vec![literal("auto")],
                None,
            ))),
            ConfigItem::Directive(Box::new(directive(
                "http",
                vec![],
                Some(block(vec![ConfigItem::Directive(Box::new(directive(
                    "server",
                    vec![],
                    Some(block(vec![ConfigItem::Directive(Box::new(directive(
                        "listen",
                        vec![literal("80")],
                        None,
                    )))])),
                )))])),
            ))),
        ],
        include_context: vec![],
    };

    let names: Vec<&str> = config.all_directives().iter().map(|d| d.name.as_str()).collect();
    assert_eq!(names, vec!["worker_processes", "http", "server", "listen"]);
}

#[test]
fn test_directive_helpers() {
    let directive = directive("server_tokens", vec![literal("on")], None);

    assert!(directive.is("server_tokens"));
    assert!(!directive.is("gzip"));
    assert_eq!(directive.first_arg(), Some("on"));
    assert!(directive.first_arg_is("on"));
    assert!(directive.args[0].is_on());
    assert!(!directive.args[0].is_off());
}
