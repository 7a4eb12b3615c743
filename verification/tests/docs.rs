use nginx_lint::docs::{
    all_rule_docs, all_rule_docs_with_plugins, all_rule_names, get_builtin_plugin_docs,
    get_rule_doc, get_rule_doc_with_plugins, RuleDocOwned,
};

#[test]
fn test_get_rule_doc() {
    let doc = get_rule_doc("indent");
    assert!(doc.is_some());
    let doc = doc.unwrap();
    assert_eq!(doc.name, "indent");
    assert_eq!(doc.category, "style");
}

#[test]
fn test_get_rule_doc_not_found() {
    let doc = get_rule_doc("nonexistent-rule");
    assert!(doc.is_none());
}

#[test]
fn test_all_rule_names() {
    let names = all_rule_names();
    assert!(names.contains(&"indent"));
    assert!(names.contains(&"unmatched-braces"));
    assert!(names.contains(&"invalid-directive-context"));
}

#[test]
fn native_rules_are_listed_in_order() {
    assert_eq!(
        all_rule_names(),
        vec![
            "unmatched-braces",
            "unclosed-quote",
            "missing-semicolon",
            "invalid-directive-context",
            "include-path-exists",
            "indent"
        ]
    );
    assert_eq!(all_rule_docs().len(), 6);
}

#[test]
fn include_path_exists_is_documented() {
    let doc = get_rule_doc("include-path-exists").unwrap();
    assert_eq!(doc.category, "syntax");
    assert_eq!(doc.severity, "error");
    assert_eq!(
        doc.references,
        vec!["https://nginx.org/en/docs/ngx_core_module.html#include"]
    );
}

#[test]
fn syntax_rules_are_errors_and_indent_a_warning() {
    for name in ["unmatched-braces", "unclosed-quote", "missing-semicolon"] {
        let doc = get_rule_doc(name).unwrap();
        assert_eq!(doc.category, "syntax");
        assert_eq!(doc.severity, "error");
    }
    assert_eq!(get_rule_doc("indent").unwrap().severity, "warning");
}

#[test]
fn invalid_directive_context_cites_the_beginners_guide() {
    let native = get_rule_doc("invalid-directive-context").unwrap();
    assert_eq!(native.references, vec!["https://nginx.org/en/docs/beginners_guide.html"]);
    let plugin = get_builtin_plugin_docs()
        .into_iter()
        .find(|d| d.name == "invalid-directive-context")
        .unwrap();
    assert!(plugin.is_plugin);
    assert_eq!(plugin.references, vec!["https://nginx.org/en/docs/beginners_guide.html".to_string()]);
    assert_eq!(plugin.why, native.why);
}

#[test]
fn plugin_docs_follow_the_native_ones() {
    let docs = all_rule_docs_with_plugins();
    let names: Vec<&str> = docs.iter().map(|d| d.name.as_str()).collect();
    assert_eq!(
        names,
        vec![
            "unmatched-braces",
            "unclosed-quote",
            "missing-semicolon",
            "invalid-directive-context",
            "include-path-exists",
            "indent",
            "duplicate-directive",
            "invalid-directive-context",
            "space-before-semicolon",
            "trailing-whitespace",
            "block-lines"
        ]
    );
    assert!(docs[..6].iter().all(|d| !d.is_plugin));
    assert!(docs[6..].iter().all(|d| d.is_plugin));
    assert_eq!(docs[7].severity, "error");
    assert!(docs[8..].iter().all(|d| d.severity == "warning"));
    assert!(docs[6].references.is_empty());
}

#[test]
fn rule_docs_with_plugins_are_found_by_name() {
    let doc = get_rule_doc_with_plugins("block-lines").unwrap();
    assert_eq!(doc.category, "style");
    assert!(doc.is_plugin);
    let native = get_rule_doc_with_plugins("include-path-exists").unwrap();
    assert!(!native.is_plugin);
    let owned = RuleDocOwned::from_doc(&get_rule_doc("include-path-exists").unwrap());
    assert_eq!(owned.why, native.why);
    assert!(!get_rule_doc_with_plugins("invalid-directive-context").unwrap().is_plugin);
    assert!(get_rule_doc_with_plugins("nonexistent-rule").is_none());
}
