
use nginx_lint::includes::{apply_path_mapping, find_include_patterns, resolve_pattern_text, PathMapping};
use nginx_lint::parser::parse_string;

#[test]
fn test_apply_path_mapping_exact_segment() {
    let m = PathMapping {
        from: "sites-enabled".to_string(),
        to: "sites-available".to_string(),
    };
    assert_eq!(
        apply_path_mapping("/etc/nginx/sites-enabled/app.conf", &m),
        "/etc/nginx/sites-available/app.conf"
    );
}

#[test]
fn test_apply_path_mapping_no_partial_match() {
    let m = PathMapping {
        from: "sites-enabled".to_string(),
        to: "sites-available".to_string(),
    };
    // Prefix or suffix should not match
    assert_eq!(
        apply_path_mapping("/etc/nginx/asites-enabled/app.conf", &m),
        "/etc/nginx/asites-enabled/app.conf"
    );
    assert_eq!(
        apply_path_mapping("/etc/nginx/sites-enabled-old/app.conf", &m),
        "/etc/nginx/sites-enabled-old/app.conf"
    );
}

#[test]
fn test_apply_path_mapping_multi_segment_from() {
    // "nginx" followed immediately by "sites-enabled" are consecutive segments → matches
    let m = PathMapping {
        from: "nginx/sites-enabled".to_string(),
        to: "local/sites-available".to_string(),
    };
    assert_eq!(
        apply_path_mapping("/etc/nginx/sites-enabled/app.conf", &m),
        "/etc/local/sites-available/app.conf"
    );
    // "other" before "sites-enabled" means ["other","sites-enabled"] ≠ ["nginx","sites-enabled"]
    assert_eq!(
        apply_path_mapping("/etc/other/sites-enabled/app.conf", &m),
        "/etc/other/sites-enabled/app.conf"
    );
    // Works with a different prefix too
    assert_eq!(
        apply_path_mapping("/usr/nginx/sites-enabled/app.conf", &m),
        "/usr/local/sites-available/app.conf"
    );
}

#[test]
fn test_apply_path_mapping_replaces_all_occurrences() {
    let m = PathMapping {
        from: "foo".to_string(),
        to: "bar".to_string(),
    };
    assert_eq!(
        apply_path_mapping("/foo/baz/foo/qux", &m),
        "/bar/baz/bar/qux"
    );
}

#[test]
fn test_apply_path_mapping_to_empty_converts_absolute_to_relative() {
    // from = "/etc/nginx", to = "" strips the prefix and makes the path relative
    let m = PathMapping {
        from: "/etc/nginx".to_string(),
        to: "".to_string(),
    };
    assert_eq!(
        apply_path_mapping("/etc/nginx/sites-enabled/app.conf", &m),
        "sites-enabled/app.conf"
    );
}

#[test]
fn test_apply_path_mapping_to_empty_mid_path_keeps_absolute() {
    // When the empty-to match is NOT at the start, the path stays absolute
    let m = PathMapping {
        from: "sites-enabled".to_string(),
        to: "".to_string(),
    };
    assert_eq!(
        apply_path_mapping("/etc/nginx/sites-enabled/app.conf", &m),
        "/etc/nginx/app.conf"
    );
}

#[test]
fn test_apply_path_mapping_relative_path() {
    let m = PathMapping {
        from: "sites-enabled".to_string(),
        to: "sites-available".to_string(),
    };
    assert_eq!(
        apply_path_mapping("sites-enabled/app.conf", &m),
        "sites-available/app.conf"
    );
}

#[test]
fn include_patterns_carry_their_block_context() {
    let mut config = parse_string(
        "include a.conf;\nhttp {\n  include mime.types;\n  server {\n    include snippets/*.conf;\n  }\n}\ninclude;\n",
    )
    .unwrap();
    config.include_context = vec!["main".to_string()];
    let found = find_include_patterns(&config);
    assert_eq!(
        found,
        vec![
            ("a.conf".to_string(), vec!["main".to_string()]),
            ("mime.types".to_string(), vec!["main".to_string(), "http".to_string()]),
            (
                "snippets/*.conf".to_string(),
                vec!["main".to_string(), "http".to_string(), "server".to_string()]
            ),
        ]
    );
}

#[test]
fn relative_patterns_are_taken_from_the_including_directory() {
    assert_eq!(resolve_pattern_text("conf.d/*.conf", "/etc/nginx", &[]), "/etc/nginx/conf.d/*.conf");
    assert_eq!(resolve_pattern_text("/opt/site.conf", "/etc/nginx", &[]), "/opt/site.conf");
    let mapping = PathMapping { from: "sites-enabled".to_string(), to: "sites-available".to_string() };
    assert_eq!(
        resolve_pattern_text("sites-enabled/*", "/etc/nginx", &[mapping]),
        "/etc/nginx/sites-available/*"
    );
}
