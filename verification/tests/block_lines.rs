use nginx_lint::lint::LintError;
use nginx_lint::parser::parse_string;
use nginx_lint::rules::block_lines::BlockLinesPlugin;

fn check_string(plugin: &BlockLinesPlugin, content: &str) -> Vec<LintError> {
    let config = parse_string(content).expect("parse failed");
    plugin.check(&config, "test.conf")
}

fn assert_no_errors(plugin: &BlockLinesPlugin, content: &str) {
    let errors = check_string(plugin, content);
    assert!(errors.is_empty(), "expected no errors, got {:?}", errors);
}

#[test]
fn test_short_block_no_error() {
    let plugin = BlockLinesPlugin::default();
    assert_no_errors(
        &plugin,
        r#"
server {
    listen 80;
    server_name example.com;
}
"#,
    );
}

#[test]
fn test_block_at_threshold_no_error() {
    let plugin = BlockLinesPlugin::default();
    // Generate a block with exactly 100 lines (threshold)
    let mut config = String::from("server {\n");
    for i in 1..=98 {
        config.push_str(&format!("    listen {};\n", i));
    }
    config.push_str("}\n");
    assert_no_errors(&plugin, &config);
}

#[test]
fn test_block_exceeds_threshold() {
    let plugin = BlockLinesPlugin::default();
    let mut config = String::from("server {\n");
    for i in 1..=100 {
        config.push_str(&format!("    listen {};\n", i));
    }
    config.push_str("}\n");
    let errors = check_string(&plugin, &config);
    assert_eq!(errors.len(), 1);
    assert!(errors[0].message.contains("block is 102 lines long"));
}

#[test]
fn test_nested_blocks() {
    let plugin = BlockLinesPlugin::default();
    let mut config = String::from("http {\n");
    config.push_str("    server {\n");
    config.push_str("        listen 80;\n");
    config.push_str("    }\n");
    for i in 1..=98 {
        config.push_str(&format!("    server_name example{}.com;\n", i));
    }
    config.push_str("}\n");
    let errors = check_string(&plugin, &config);
    assert_eq!(errors.len(), 1);
    assert!(errors[0].message.contains("'http' block"));
}

#[test]
fn test_nested_child_exceeds_only_child_reported() {
    let plugin = BlockLinesPlugin::with_max_lines(10);
    let mut config = String::from("http {\n");
    config.push_str("    server {\n");
    for i in 1..=10 {
        config.push_str(&format!("        listen {};\n", i));
    }
    config.push_str("    }\n");
    config.push_str("}\n");
    let errors = check_string(&plugin, &config);
    assert_eq!(errors.len(), 1);
    assert!(
        errors[0].message.contains("'server' block"),
        "expected server block error, got: {}",
        errors[0].message
    );
}

#[test]
fn test_nested_no_child_exceeds_parent_reported() {
    let plugin = BlockLinesPlugin::with_max_lines(10);
    let mut config = String::from("http {\n");
    config.push_str("    server {\n");
    config.push_str("        listen 80;\n");
    config.push_str("    }\n");
    for i in 1..=8 {
        config.push_str(&format!("    access_log /var/log/nginx/{}.log;\n", i));
    }
    config.push_str("    server {\n");
    config.push_str("        listen 81;\n");
    config.push_str("    }\n");
    config.push_str("}\n");
    let errors = check_string(&plugin, &config);
    assert_eq!(errors.len(), 1);
    assert!(
        errors[0].message.contains("'http' block"),
        "expected http block error, got: {}",
        errors[0].message
    );
}

#[test]
fn test_custom_max_lines() {
    let plugin = BlockLinesPlugin::with_max_lines(10);
    let config = "server {\n    listen 80;\n    listen 81;\n    listen 82;\n    listen 83;\n    listen 84;\n    listen 85;\n    listen 86;\n    listen 87;\n    listen 88;\n    listen 89;\n}\n";
    let errors = check_string(&plugin, config);
    assert_eq!(errors.len(), 1);
    assert!(errors[0].message.contains("max 10"));
}

#[test]
fn block_lines_message_and_location() {
    let plugin = BlockLinesPlugin::with_max_lines(2);
    let errors = check_string(&plugin, "events {}\nhttp {\n  a b;\n}\n");
    assert_eq!(errors.len(), 1);
    assert_eq!(
        errors[0].message,
        "'http' block is 3 lines long (max 2), consider splitting with include"
    );
    assert_eq!(errors[0].rule, "block-lines");
    assert_eq!(errors[0].category, "style");
    assert_eq!(errors[0].line, Some(2));
    assert_eq!(errors[0].column, Some(1));
    assert!(errors[0].fix.is_none());
}

#[test]
fn block_lines_sibling_blocks_each_reported() {
    let plugin = BlockLinesPlugin::with_max_lines(1);
    let errors = check_string(&plugin, "a {\n}\nb {\n}\n");
    assert_eq!(errors.len(), 2);
    assert!(errors[0].message.starts_with("'a' block is 2 lines"));
    assert!(errors[1].message.starts_with("'b' block is 2 lines"));
}

#[test]
fn test_custom_max_lines_no_error() {
    let plugin = BlockLinesPlugin::with_max_lines(200);
    // A block of 102 lines does not trigger with max_lines=200
    let mut config = String::from("server {\n");
    for i in 1..=100 {
        config.push_str(&format!("    listen {};\n", i));
    }
    config.push_str("}\n");
    assert_no_errors(&plugin, &config);
}
