//! Two security rules: `server_tokens on` and `autoindex on` inside `http`.
//!
//! Each reports an explicit `on` in the `http` context (a directive is in it
//! when one of the blocks around it, or the blocks the file is included
//! from, is `http`), with a fix that rewrites the directive to `off`.
use vstd::prelude::*;
use crate::ast::{
    Config, ConfigItem, ConfigItemV, DirectiveV, items_view, item_view, lemma_items_view_index,
};
use crate::ignore::{contains_string, strings_view};
use crate::lexer::{utf8_len, utf8_len_of};
use crate::lint::{Fix, FixV, LintError, LintErrorV, errors_view, warning, warning_spec, range_fix};
use crate::rules::{PluginSpec, PluginSpecV};
use crate::text::str_eq;

verus! {

/// Reports `server_tokens on` in the `http` context
#[derive(Debug, Default)]
pub struct ServerTokensEnabled;

/// Reports `autoindex on` in the `http` context
#[derive(Debug, Default)]
pub struct AutoindexEnabled;

/// Directive `d` is `name on`
pub open spec fn is_on_directive(d: DirectiveV, name: Seq<char>) -> bool {
    d.name == name && d.args.len() > 0 && d.args[0].value == "on"@
}

/// The fix that replaces directive `d`, from its name to its `;`, with
/// `text`, keeping the blanks before it
pub open spec fn replace_directive_fix(d: DirectiveV, text: Seq<char>) -> FixV {
    range_fix(
        (d.span.start.offset - utf8_len(d.leading_whitespace)) as nat,
        d.span.end.offset as nat,
        d.leading_whitespace + text,
    )
}

/// Which rule a check is for: its name, the directive it looks for, its
/// message and the text its fix puts in place
pub ghost struct OnRule {
    pub rule: Seq<char>,
    pub directive: Seq<char>,
    pub message: Seq<char>,
    pub replacement: Seq<char>,
}

/// The rule `server-tokens-enabled-rs`
pub open spec fn server_tokens_rule() -> OnRule {
    OnRule {
        rule: "server-tokens-enabled-rs"@,
        directive: "server_tokens"@,
        message: "server_tokens should be 'off' to hide nginx version"@,
        replacement: "server_tokens off;"@,
    }
}

/// The rule `autoindex-enabled-rs`
pub open spec fn autoindex_rule() -> OnRule {
    OnRule {
        rule: "autoindex-enabled-rs"@,
        directive: "autoindex"@,
        message: "autoindex is enabled, which can expose directory contents"@,
        replacement: "autoindex off;"@,
    }
}

/// The finding of rule `r` for directive `d`
pub open spec fn on_error(r: OnRule, d: DirectiveV) -> LintErrorV {
    LintErrorV {
        fix: Some(replace_directive_fix(d, r.replacement)),
        ..warning_spec(
            r.rule,
            "security"@,
            r.message,
            d.span.start.line as nat,
            d.span.start.column as nat,
        )
    }
}

/// Directive `d`, with `in_http` telling whether it is in the `http`
/// context, is a finding of `r`
pub open spec fn reported(r: OnRule, d: DirectiveV, in_http: bool) -> bool {
    in_http && is_on_directive(d, r.directive)
}

/// Every finding of `r` among `items` starts after the blanks before it, so
/// that its fix's byte range can be computed
pub open spec fn on_offsets_ok(r: OnRule, items: Seq<ConfigItemV>, in_http: bool) -> bool
    decreases items,
{
    if items.len() == 0 {
        true
    } else {
        on_offsets_ok(r, items.subrange(0, items.len() - 1), in_http) && item_on_offsets_ok(
            r,
            items[items.len() - 1],
            in_http,
        )
    }
}

pub open spec fn item_on_offsets_ok(r: OnRule, item: ConfigItemV, in_http: bool) -> bool
    decreases item,
{
    match item {
        ConfigItemV::Directive(d) => {
            &&& reported(r, d, in_http) ==> d.span.start.offset >= utf8_len(d.leading_whitespace)
            &&& match d.block {
                Some(b) => on_offsets_ok(r, b.items, in_http || d.name == "http"@),
                None => true,
            }
        },
        _ => true,
    }
}

/// The findings of `r` for `items` and the blocks inside them, in document
/// order; `in_http` tells whether `items` are in the `http` context
pub open spec fn on_errors(r: OnRule, items: Seq<ConfigItemV>, in_http: bool) -> Seq<LintErrorV>
    decreases items,
{
    if items.len() == 0 {
        seq![]
    } else {
        on_errors(r, items.subrange(0, items.len() - 1), in_http) + item_on_errors(
            r,
            items[items.len() - 1],
            in_http,
        )
    }
}

/// The findings of `r` for one item: its own, then those of its block
pub open spec fn item_on_errors(r: OnRule, item: ConfigItemV, in_http: bool) -> Seq<LintErrorV>
    decreases item,
{
    match item {
        ConfigItemV::Directive(d) => (if reported(r, d, in_http) {
            seq![on_error(r, d)]
        } else {
            seq![]
        }) + match d.block {
            Some(b) => on_errors(r, b.items, in_http || d.name == "http"@),
            None => seq![],
        },
        _ => seq![],
    }
}

/// A file is in the `http` context when it is included from an `http` block
pub open spec fn included_in_http(include_context: Seq<String>) -> bool {
    strings_view(include_context).contains("http"@)
}

proof fn lemma_on_ok_at(r: OnRule, items: Seq<ConfigItemV>, in_http: bool, i: int)
    requires
        on_offsets_ok(r, items, in_http),
        0 <= i < items.len(),
    ensures
        item_on_offsets_ok(r, items[i], in_http),
    decreases items.len(),
{
    if i < items.len() - 1 {
        let pre = items.subrange(0, items.len() - 1);
        lemma_on_ok_at(r, pre, in_http, i);
        assert(pre[i] == items[i]);
    }
}

/// Pushes the findings of rule `rule` (looking for `name on`) for `items`
fn check_on(
    items: &Vec<ConfigItem>,
    in_http: bool,
    rule: &str,
    name: &str,
    message: &str,
    replacement: &str,
    errors: &mut Vec<LintError>,
)
    requires
        on_offsets_ok(
            OnRule { rule: rule@, directive: name@, message: message@, replacement: replacement@ },
            items_view(items@),
            in_http,
        ),
    ensures
        errors_view(final(errors)@) == errors_view(old(errors)@) + on_errors(
            OnRule { rule: rule@, directive: name@, message: message@, replacement: replacement@ },
            items_view(items@),
            in_http,
        ),
    decreases items@,
{
    let ghost r = OnRule {
        rule: rule@,
        directive: name@,
        message: message@,
        replacement: replacement@,
    };
    let ghost start = errors_view(errors@);
    let mut i: usize = 0;
    proof {
        assert(items@.subrange(0, 0) =~= Seq::<ConfigItem>::empty());
        assert(start =~= start + on_errors(r, items_view(items@.subrange(0, 0)), in_http));
    }
    while i < items.len()
        invariant
            i <= items@.len(),
            r == (OnRule {
                rule: rule@,
                directive: name@,
                message: message@,
                replacement: replacement@,
            }),
            on_offsets_ok(r, items_view(items@), in_http),
            errors_view(errors@) == start + on_errors(
                r,
                items_view(items@.subrange(0, i as int)),
                in_http,
            ),
        decreases items@.len() - i,
    {
        let ghost before = errors_view(errors@);
        let ghost item = item_view(items@[i as int]);
        proof {
            let pre = items@.subrange(0, i as int);
            let pre1 = items@.subrange(0, i + 1);
            assert(pre1.subrange(0, i as int) =~= pre);
            assert(items_view(pre1) == items_view(pre).push(item));
            let v1 = items_view(pre1);
            assert(v1.subrange(0, v1.len() - 1) =~= items_view(pre));
            lemma_items_view_index(items@, i as int);
            lemma_on_ok_at(r, items_view(items@), in_http, i as int);
        }
        match &items[i] {
            ConfigItem::Directive(d) => {
                let ghost dv = crate::ast::directive_view(**d);
                if in_http && d.is(name) && d.first_arg_is("on") {
                    let start_offset = d.span.start.offset - utf8_len_of(
                        d.leading_whitespace.as_str(),
                    );
                    let mut text = d.leading_whitespace.clone();
                    text.append(replacement);
                    let e = warning(
                        rule,
                        "security",
                        message,
                        d.span.start.line,
                        d.span.start.column,
                    ).with_fix(Fix::replace_range(start_offset, d.span.end.offset, text.as_str()));
                    assert(e@ == on_error(r, dv));
                    let ghost mid = errors_view(errors@);
                    errors.push(e);
                    assert(errors_view(errors@) =~= mid.push(e@));
                }
                match &d.block {
                    Some(b) => {
                        let child_in_http = in_http || d.is("http");
                        check_on(&b.items, child_in_http, rule, name, message, replacement, errors);
                    },
                    None => {},
                }
            },
            _ => {},
        }
        proof {
            assert(errors_view(errors@) =~= before + item_on_errors(r, item, in_http));
        }
        i += 1;
    }
    assert(items@.subrange(0, i as int) =~= items@);
}

/// What the rule is
pub open spec fn server_tokens_spec() -> PluginSpecV {
    PluginSpecV {
        name: "server-tokens-enabled-rs"@,
        category: "security"@,
        description: "Detects when server_tokens is enabled (exposes nginx version)"@,
        severity: "warning"@,
        why: "With server_tokens on, nginx puts its version number in the Server response header and on default error pages, which tells an attacker which published vulnerabilities to try."@,
        references: seq![],
    }
}

impl ServerTokensEnabled {
    /// What the rule is
    pub fn spec(&self) -> (s: PluginSpec)
        ensures
            s@ == server_tokens_spec(),
    {
        PluginSpec::new(
            "server-tokens-enabled-rs",
            "security",
            "Detects when server_tokens is enabled (exposes nginx version)",
            "With server_tokens on, nginx puts its version number in the Server response header and on default error pages, which tells an attacker which published vulnerabilities to try.",
        )
    }

    /// The findings for `config`, in document order
    pub fn check(&self, config: &Config, path: &str) -> (errors: Vec<LintError>)
        requires
            on_offsets_ok(
                server_tokens_rule(),
                items_view(config.items@),
                included_in_http(config.include_context@),
            ),
        ensures
            errors_view(errors@) == on_errors(
                server_tokens_rule(),
                items_view(config.items@),
                included_in_http(config.include_context@),
            ),
    {
        let mut errors: Vec<LintError> = Vec::new();
        let in_http = contains_string(&config.include_context, "http");
        check_on(
            &config.items,
            in_http,
            "server-tokens-enabled-rs",
            "server_tokens",
            "server_tokens should be 'off' to hide nginx version",
            "server_tokens off;",
            &mut errors,
        );
        assert(errors_view(errors@) =~= on_errors(
            server_tokens_rule(),
            items_view(config.items@),
            in_http,
        ));
        errors
    }
}

/// What the rule is
pub open spec fn autoindex_spec() -> PluginSpecV {
    PluginSpecV {
        name: "autoindex-enabled-rs"@,
        category: "security"@,
        description: "Detects when autoindex is enabled (can expose directory contents)"@,
        severity: "warning"@,
        why: "With autoindex on, a request for a directory without an index file gets a listing of the directory, which can expose backups and other files that were not meant to be public."@,
        references: seq![],
    }
}

impl AutoindexEnabled {
    /// What the rule is
    pub fn spec(&self) -> (s: PluginSpec)
        ensures
            s@ == autoindex_spec(),
    {
        PluginSpec::new(
            "autoindex-enabled-rs",
            "security",
            "Detects when autoindex is enabled (can expose directory contents)",
            "With autoindex on, a request for a directory without an index file gets a listing of the directory, which can expose backups and other files that were not meant to be public.",
        )
    }

    /// The findings for `config`, in document order
    pub fn check(&self, config: &Config, path: &str) -> (errors: Vec<LintError>)
        requires
            on_offsets_ok(
                autoindex_rule(),
                items_view(config.items@),
                included_in_http(config.include_context@),
            ),
        ensures
            errors_view(errors@) == on_errors(
                autoindex_rule(),
                items_view(config.items@),
                included_in_http(config.include_context@),
            ),
    {
        let mut errors: Vec<LintError> = Vec::new();
        let in_http = contains_string(&config.include_context, "http");
        check_on(
            &config.items,
            in_http,
            "autoindex-enabled-rs",
            "autoindex",
            "autoindex is enabled, which can expose directory contents",
            "autoindex off;",
            &mut errors,
        );
        assert(errors_view(errors@) =~= on_errors(
            autoindex_rule(),
            items_view(config.items@),
            in_http,
        ));
        errors
    }
}

} // verus!
