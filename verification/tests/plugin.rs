use nginx_lint::cache::plugin_cache_dir;
use nginx_lint::lint::Severity;
use nginx_lint::plugin::{
    builtin_plugin_name_list, is_builtin_plugin, is_component_model, CompilationCache, PluginError, PluginLintError,
};
use std::path::PathBuf;

#[test]
fn test_detect_component() {
    let bytes = b"\0asm\x0d\x00\x01\x00";
    assert_eq!(is_component_model(bytes), Some(true));
}

#[test]
fn test_detect_core_module() {
    let bytes = b"\0asm\x01\x00\x00\x00";
    assert_eq!(is_component_model(bytes), Some(false));
}

#[test]
fn test_detect_invalid() {
    let bytes = b"not wasm";
    assert!(is_component_model(bytes).is_none());
}

#[test]
fn test_detect_too_short() {
    let bytes = b"\0asm";
    assert!(is_component_model(bytes).is_none());
}

#[test]
fn test_detect_unknown_version() {
    let bytes = b"\0asm\x02\x00\x00\x00";
    assert!(is_component_model(bytes).is_none());
}

#[test]
fn test_plugin_cache_dir_is_under_root() {
    let dir = plugin_cache_dir("/var/cache/nginx-lint");
    assert_eq!(PathBuf::from(dir), PathBuf::from("/var/cache/nginx-lint/plugins"));
}

#[test]
fn builtin_plugin_names_are_known() {
    assert!(is_builtin_plugin("block-lines"));
    assert!(is_builtin_plugin("nginx-rift"));
    assert!(is_builtin_plugin("map-unnamed-capture"));
    assert!(!is_builtin_plugin("block_lines"));
    assert!(matches!(CompilationCache::default(), CompilationCache::Default));
}

#[test]
fn plugin_error_messages() {
    assert_eq!(
        PluginError::missing_export("a.wasm", "check").message(),
        "Missing required export 'check' in plugin 'a.wasm'"
    );
    assert_eq!(
        PluginError::directory_not_found("/p").message(),
        "Plugin directory not found: /p"
    );
    assert_eq!(
        PluginError::compilation_error("a.wasm", "bad").message(),
        "Failed to compile WASM module 'a.wasm': bad"
    );
    assert_eq!(
        PluginError::invalid_wasm_file("x").message(),
        "Invalid WASM file 'x': not a valid WebAssembly module"
    );
    assert_eq!(PluginError::timeout("t").message(), "Plugin execution timed out in 't'");
}

#[test]
fn plugin_findings_become_lint_errors() {
    let e = PluginLintError {
        rule: "r".to_string(),
        category: "c".to_string(),
        message: "m".to_string(),
        severity: "WARNING".to_string(),
        line: Some(3),
        column: None,
    }
    .into_lint_error();
    assert_eq!(e.severity, Severity::Warning);
    assert_eq!(e.line, Some(3));
    assert_eq!(e.column, Some(1));
    let e = PluginLintError {
        rule: "r".to_string(),
        category: "c".to_string(),
        message: "m".to_string(),
        severity: "note".to_string(),
        line: None,
        column: Some(4),
    }
    .into_lint_error();
    assert_eq!(e.severity, Severity::Info);
    assert_eq!(e.line, None);
    assert_eq!(e.column, None);
}

#[test]
fn test_plugin_entries_match_builtin_plugin_names() {
    let entry_names: Vec<&str> = vec![
        "server-tokens-enabled",
        "autoindex-enabled",
        "gzip-not-enabled",
        "duplicate-directive",
        "space-before-semicolon",
        "trailing-whitespace",
        "block-lines",
        "proxy-pass-domain",
        "upstream-server-no-resolve",
        "directive-inheritance",
        "root-in-location",
        "alias-location-slash-mismatch",
        "proxy-pass-with-uri",
        "proxy-keepalive",
        "try-files-with-proxy",
        "if-is-evil-in-location",
        "unreachable-location",
        "missing-error-log",
        "deprecated-ssl-protocol",
        "weak-ssl-ciphers",
        "invalid-directive-context",
        "map-missing-default",
        "ssl-on-deprecated",
        "listen-http2-deprecated",
        "proxy-missing-host-header",
        "client-max-body-size-not-set",
        "nginx-rift",
        "map-unnamed-capture",
    ];
    assert_eq!(
        entry_names,
        builtin_plugin_name_list(),
        "PLUGIN_ENTRIES and BUILTIN_PLUGIN_NAMES must list the same rules in the same order"
    );
}

#[test]
fn test_all_builtin_plugin_dirs_matches_builtin_plugin_names() {
    let dirs: [(&str, &str); 28] = [
        ("server_tokens_enabled", "plugins/builtin/security/server_tokens_enabled"),
        ("autoindex_enabled", "plugins/builtin/security/autoindex_enabled"),
        ("gzip_not_enabled", "plugins/builtin/best_practices/gzip_not_enabled"),
        ("duplicate_directive", "plugins/builtin/syntax/duplicate_directive"),
        ("space_before_semicolon", "plugins/builtin/style/space_before_semicolon"),
        ("trailing_whitespace", "plugins/builtin/style/trailing_whitespace"),
        ("block_lines", "plugins/builtin/style/block_lines"),
        ("proxy_pass_domain", "plugins/builtin/best_practices/proxy_pass_domain"),
        ("upstream_server_no_resolve", "plugins/builtin/best_practices/upstream_server_no_resolve"),
        ("directive_inheritance", "plugins/builtin/best_practices/directive_inheritance"),
        ("root_in_location", "plugins/builtin/best_practices/root_in_location"),
        ("alias_location_slash_mismatch", "plugins/builtin/best_practices/alias_location_slash_mismatch"),
        ("proxy_pass_with_uri", "plugins/builtin/best_practices/proxy_pass_with_uri"),
        ("proxy_keepalive", "plugins/builtin/best_practices/proxy_keepalive"),
        ("try_files_with_proxy", "plugins/builtin/best_practices/try_files_with_proxy"),
        ("if_is_evil_in_location", "plugins/builtin/best_practices/if_is_evil_in_location"),
        ("unreachable_location", "plugins/builtin/best_practices/unreachable_location"),
        ("missing_error_log", "plugins/builtin/best_practices/missing_error_log"),
        ("deprecated_ssl_protocol", "plugins/builtin/security/deprecated_ssl_protocol"),
        ("weak_ssl_ciphers", "plugins/builtin/security/weak_ssl_ciphers"),
        ("invalid_directive_context", "plugins/builtin/syntax/invalid_directive_context"),
        ("map_missing_default", "plugins/builtin/best_practices/map_missing_default"),
        ("ssl_on_deprecated", "plugins/builtin/deprecation/ssl_on_deprecated"),
        ("listen_http2_deprecated", "plugins/builtin/deprecation/listen_http2_deprecated"),
        ("proxy_missing_host_header", "plugins/builtin/best_practices/proxy_missing_host_header"),
        ("client_max_body_size_not_set", "plugins/builtin/best_practices/client_max_body_size_not_set"),
        ("nginx_rift", "plugins/builtin/security/nginx_rift"),
        ("map_unnamed_capture", "plugins/builtin/security/map_unnamed_capture"),
    ];
    let table_names: Vec<String> = dirs.iter().map(|(wasm_name, _)| wasm_name.replace('_', "-")).collect();
    let table_names: Vec<&str> = table_names.iter().map(String::as_str).collect();
    assert_eq!(
        table_names,
        builtin_plugin_name_list(),
        "ALL_BUILTIN_PLUGIN_DIRS and BUILTIN_PLUGIN_NAMES must list the same rules in the same order"
    );
}
