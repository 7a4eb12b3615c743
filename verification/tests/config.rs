use nginx_lint::config::{
    levenshtein_distance, suggest_field, validate_content, Color, ColorMode, ConfigError,
    LintConfig, RuleConfig, ValidationError,
};

#[test]
fn test_default_config() {
    let config = LintConfig::default();
    assert!(config.is_rule_enabled("any-rule"));
}

#[test]
fn test_color_config_default() {
    let config = LintConfig::default();
    assert_eq!(config.color_mode(), ColorMode::Auto);
}

#[test]
fn test_color_config_default_colors() {
    let config = LintConfig::default();
    assert_eq!(config.color.error, Color::Red);
    assert_eq!(config.color.warning, Color::Yellow);
    assert_eq!(config.color.info, Color::Blue);
}

#[test]
fn rule_settings_are_looked_up_by_name() {
    let mut disabled = RuleConfig::default();
    disabled.enabled = false;
    let mut indent = RuleConfig::default();
    indent.enabled = true;
    indent.indent_size = Some(2);
    let config = LintConfig {
        rules: vec![
            ("server-tokens-enabled".to_string(), disabled),
            ("inconsistent-indentation".to_string(), indent),
        ],
        color: Default::default(),
    };
    assert!(!config.is_rule_enabled("server-tokens-enabled"));
    assert!(config.is_rule_enabled("inconsistent-indentation"));
    assert!(config.is_rule_enabled("unknown-rule"));
    assert_eq!(
        config.get_rule_config("inconsistent-indentation").unwrap().indent_size,
        Some(2)
    );
    assert!(config.get_rule_config("unknown-rule").is_none());
}

#[test]
fn set_rule_replaces_the_settings_of_a_rule() {
    let mut config = LintConfig::default();
    config.set_rule("server-tokens-enabled".to_string(), RuleConfig::default());
    let mut indent = RuleConfig::default();
    indent.enabled = true;
    indent.indent_size = Some(2);
    config.set_rule("inconsistent-indentation".to_string(), indent);
    assert!(!config.is_rule_enabled("server-tokens-enabled"));
    let mut enabled = RuleConfig::default();
    enabled.enabled = true;
    config.set_rule("server-tokens-enabled".to_string(), enabled);
    assert_eq!(config.rules.len(), 2);
    assert!(config.is_rule_enabled("server-tokens-enabled"));
    assert_eq!(
        config.get_rule_config("inconsistent-indentation").unwrap().indent_size,
        Some(2)
    );
}

#[test]
fn colors_are_named_in_any_case() {
    assert_eq!(Color::from_name("Magenta").unwrap(), Color::Magenta);
    assert_eq!(Color::from_name("bright_red").unwrap(), Color::BrightRed);
    assert_eq!(Color::from_name("BRIGHTBLUE").unwrap(), Color::BrightBlue);
    let err = Color::from_name("purple").unwrap_err();
    assert!(err.starts_with("invalid color 'purple', expected one of: black, red,"));
    assert!(err.ends_with("bright_cyan, bright_white"));
}

#[test]
fn color_modes_are_lower_case_words() {
    assert_eq!(ColorMode::from_name("never").unwrap(), ColorMode::Never);
    assert_eq!(ColorMode::from_name("always").unwrap(), ColorMode::Always);
    assert_eq!(
        ColorMode::from_name("Never").unwrap_err(),
        "invalid color mode 'Never', expected 'auto', 'always', or 'never'"
    );
}

#[test]
fn levenshtein_distances() {
    assert_eq!(levenshtein_distance("kitten", "sitting"), 3);
    assert_eq!(levenshtein_distance("", "abc"), 3);
    assert_eq!(levenshtein_distance("abc", ""), 3);
    assert_eq!(levenshtein_distance("rules", "rules"), 0);
    assert_eq!(levenshtein_distance("colr", "color"), 1);
}

#[test]
fn suggestions_pick_the_closest_similar_name() {
    assert_eq!(suggest_field("colr", &["rules", "color"]), Some("color".to_string()));
    assert_eq!(suggest_field("RULE", &["rules", "color"]), Some("rules".to_string()));
    assert_eq!(suggest_field("zzzzzz", &["rules", "color"]), None);
}

#[test]
fn validation_reports_unknown_names_with_suggestions() {
    let content = "colr = 1\n[color]\nuii = \"auto\"\n[rules.server-tokens-enable]\nenabled = true\n[rules.weak-ssl-ciphers]\nweak_cipher = []\n";
    let errors = validate_content(content, "x.toml").unwrap();
    let messages: Vec<String> = errors.iter().map(|e| e.message()).collect();
    assert_eq!(
        messages,
        vec![
            "unknown field 'colr', did you mean 'color'?".to_string(),
            "unknown field 'color.uii', did you mean 'ui'?".to_string(),
            "unknown rule 'server-tokens-enable', did you mean 'server-tokens-enabled'?"
                .to_string(),
            "unknown option 'weak_cipher' for rule 'weak-ssl-ciphers', did you mean 'weak_ciphers'?"
                .to_string(),
        ]
    );
    assert!(matches!(errors[0], ValidationError::UnknownField { .. }));
}

#[test]
fn validation_of_malformed_toml_is_a_parse_error() {
    match validate_content("[rules", "bad.toml") {
        Err(ConfigError::ParseError { path, .. }) => assert_eq!(path, "bad.toml"),
        other => panic!("{:?}", other),
    }
}

#[test]
fn levenshtein_distance_is_symmetric_and_zero_only_between_equal_texts() {
    for (a, b) in [("kitten", "sitting"), ("", "abc"), ("colr", "color"), ("héllo", "hello")] {
        assert_eq!(levenshtein_distance(a, b), levenshtein_distance(b, a));
        assert!(levenshtein_distance(a, b) > 0);
    }
    assert_eq!(levenshtein_distance("héllo", "hello"), 1);
    assert_eq!(levenshtein_distance("same", "same"), 0);
}
