//! The linter: a list of rules run over a configuration, and the filtering
//! of their findings through the file's disable comments.
use vstd::prelude::*;
use crate::ast::{
    Config, ConfigItem, ConfigItemV, DirectiveV, items_view, item_view, lemma_items_view_index,
};
use crate::lexer::{utf8_len, utf8_len_capped};
use crate::text::str_eq;
use crate::config::{LintConfig, rule_enabled};
use crate::ignore::{
    FilterResult, IgnoreTracker, IgnoreWarningV, contains_string, file_directives, file_warnings, filter_errors,
    strings_view, suppressed, unused_warnings_of, used_after, warning_error, warnings_to_errors,
};
use crate::lint::{LintError, LintErrorV, errors_view};
use crate::rules::block_lines::{
    BlockLinesPlugin, block_lines_countable, block_lines_errors, item_countable,
};
use crate::rules::duplicate_directive::{
    DuplicateDirectivePlugin, duplicate_errors, immediate_parent_context,
};
use crate::rules::invalid_directive_context::{InvalidDirectiveContextPlugin, context_errors};
use crate::rules::security::{
    AutoindexEnabled, ServerTokensEnabled, autoindex_rule, included_in_http, on_errors,
    on_offsets_ok, server_tokens_rule, item_on_offsets_ok, reported, is_on_directive,
};
use crate::rules::space_before_semicolon::{
    SpaceBeforeSemicolonPlugin, semicolon_offsets_ok, space_before_semicolon_errors,
    item_semicolon_offset_ok,
};
use crate::rules::trailing_whitespace::{
    TrailingWhitespacePlugin, tail_offsets_ok, trailing_whitespace_errors, item_tail_offsets_ok,
};

verus! {

/// A rule the linter runs
#[derive(Debug)]
pub enum LintRule {
    BlockLines(BlockLinesPlugin),
    SpaceBeforeSemicolon(SpaceBeforeSemicolonPlugin),
    TrailingWhitespace(TrailingWhitespacePlugin),
    DuplicateDirective(DuplicateDirectivePlugin),
    InvalidDirectiveContext(InvalidDirectiveContextPlugin),
    ServerTokensEnabled(ServerTokensEnabled),
    AutoindexEnabled(AutoindexEnabled),
}

/// The name of rule `r`
pub open spec fn rule_name(r: LintRule) -> Seq<char> {
    match r {
        LintRule::BlockLines(_) => "block-lines"@,
        LintRule::SpaceBeforeSemicolon(_) => "space-before-semicolon"@,
        LintRule::TrailingWhitespace(_) => "trailing-whitespace"@,
        LintRule::DuplicateDirective(_) => "duplicate-directive"@,
        LintRule::InvalidDirectiveContext(_) => "invalid-directive-context"@,
        LintRule::ServerTokensEnabled(_) => "server-tokens-enabled-rs"@,
        LintRule::AutoindexEnabled(_) => "autoindex-enabled-rs"@,
    }
}

/// The positions in `config` are consistent enough for every rule to
/// compute its fixes: each block closes after its directive starts, and
/// each `;` and each run of trailing blanks lies where its offsets say
pub open spec fn positions_consistent(config: Config) -> bool {
    let items = items_view(config.items@);
    let in_http = included_in_http(config.include_context@);
    &&& block_lines_countable(items)
    &&& semicolon_offsets_ok(items)
    &&& tail_offsets_ok(items)
    &&& on_offsets_ok(server_tokens_rule(), items, in_http)
    &&& on_offsets_ok(autoindex_rule(), items, in_http)
}

/// The findings of rule `r` for `config`, in document order
pub open spec fn rule_findings(r: LintRule, config: Config) -> Seq<LintErrorV> {
    let items = items_view(config.items@);
    match r {
        LintRule::BlockLines(p) => block_lines_errors(items, p.max_lines() as nat),
        LintRule::SpaceBeforeSemicolon(_) => space_before_semicolon_errors(items),
        LintRule::TrailingWhitespace(_) => trailing_whitespace_errors(items),
        LintRule::DuplicateDirective(_) => duplicate_errors(
            items,
            immediate_parent_context(config.include_context@),
        ),
        LintRule::InvalidDirectiveContext(_) => context_errors(
            items,
            immediate_parent_context(config.include_context@),
        ),
        LintRule::ServerTokensEnabled(_) => on_errors(
            server_tokens_rule(),
            items,
            included_in_http(config.include_context@),
        ),
        LintRule::AutoindexEnabled(_) => on_errors(
            autoindex_rule(),
            items,
            included_in_http(config.include_context@),
        ),
    }
}

/// The findings of `rules` for `config`: those of each rule in turn
pub open spec fn findings(rules: Seq<LintRule>, config: Config) -> Seq<LintErrorV>
    decreases rules.len(),
{
    if rules.len() == 0 {
        seq![]
    } else {
        findings(rules.drop_last(), config) + rule_findings(rules.last(), config)
    }
}

impl LintRule {
    /// The name of the rule
    pub fn name(&self) -> (s: &'static str)
        ensures
            s@ == rule_name(*self),
    {
        match self {
            LintRule::BlockLines(_) => "block-lines",
            LintRule::SpaceBeforeSemicolon(_) => "space-before-semicolon",
            LintRule::TrailingWhitespace(_) => "trailing-whitespace",
            LintRule::DuplicateDirective(_) => "duplicate-directive",
            LintRule::InvalidDirectiveContext(_) => "invalid-directive-context",
            LintRule::ServerTokensEnabled(_) => "server-tokens-enabled-rs",
            LintRule::AutoindexEnabled(_) => "autoindex-enabled-rs",
        }
    }

    /// The findings of the rule for `config`, in document order
    pub fn check(&self, config: &Config, path: &str) -> (errors: Vec<LintError>)
        requires
            positions_consistent(*config),
        ensures
            errors_view(errors@) == rule_findings(*self, *config),
    {
        match self {
            LintRule::BlockLines(p) => p.check(config, path),
            LintRule::SpaceBeforeSemicolon(p) => p.check(config, path),
            LintRule::TrailingWhitespace(p) => p.check(config, path),
            LintRule::DuplicateDirective(p) => p.check(config, path),
            LintRule::InvalidDirectiveContext(p) => p.check(config, path),
            LintRule::ServerTokensEnabled(p) => p.check(config, path),
            LintRule::AutoindexEnabled(p) => p.check(config, path),
        }
    }
}

/// Runs a list of rules over a configuration
#[derive(Debug)]
pub struct Linter {
    rules: Vec<LintRule>,
}

impl View for Linter {
    type V = Seq<LintRule>;

    closed spec fn view(&self) -> Seq<LintRule> {
        self.rules@
    }
}

/// The rules registered when nothing is configured, in the order they run
pub open spec fn default_rule_names() -> Seq<Seq<char>> {
    seq![
        "invalid-directive-context"@,
        "duplicate-directive"@,
        "space-before-semicolon"@,
        "trailing-whitespace"@,
        "block-lines"@,
    ]
}

/// The names of the default rules that `config` leaves enabled, in order
pub open spec fn enabled_default_rules(config: Option<&LintConfig>) -> Seq<Seq<char>> {
    default_rule_names().filter(
        |n: Seq<char>|
            match config {
                Some(c) => rule_enabled(c.rules@, n),
                None => true,
            },
    )
}

impl Linter {
    /// A linter without rules
    pub fn new() -> (l: Linter)
        ensures
            l@ == Seq::<LintRule>::empty(),
    {
        Linter { rules: Vec::new() }
    }

    /// A linter with the default rules
    pub fn with_default_rules() -> (l: Linter)
        ensures
            l@.map_values(|r: LintRule| rule_name(r)) == default_rule_names(),
            forall|i: int| 0 <= i < l@.len() ==> (#[trigger] l@[i] matches LintRule::BlockLines(p)
                ==> p.max_lines() == crate::rules::block_lines::DEFAULT_MAX_LINES),
    {
        let l = Self::with_config(None);
        assert(enabled_default_rules(None) =~= default_rule_names()) by {
            reveal_with_fuel(Seq::filter, 6);
        }
        l
    }

    /// A linter with the default rules that `config` leaves enabled
    pub fn with_config(config: Option<&LintConfig>) -> (l: Linter)
        ensures
            l@.map_values(|r: LintRule| rule_name(r)) == enabled_default_rules(config),
            forall|i: int| 0 <= i < l@.len() ==> (#[trigger] l@[i] matches LintRule::BlockLines(p)
                ==> p.max_lines() == crate::rules::block_lines::DEFAULT_MAX_LINES),
    {
        let mut linter = Linter::new();
        let candidates: Vec<LintRule> = vec![
            LintRule::InvalidDirectiveContext(InvalidDirectiveContextPlugin),
            LintRule::DuplicateDirective(DuplicateDirectivePlugin),
            LintRule::SpaceBeforeSemicolon(SpaceBeforeSemicolonPlugin),
            LintRule::TrailingWhitespace(TrailingWhitespacePlugin),
            LintRule::BlockLines(BlockLinesPlugin::new()),
        ];
        let ghost names = default_rule_names();
        let ghost keep = |n: Seq<char>|
            match config {
                Some(c) => rule_enabled(c.rules@, n),
                None => true,
            };
        assert(candidates@.map_values(|r: LintRule| rule_name(r)) =~= names);
        for r in it: candidates.into_iter()
            invariant
                it.seq().map_values(|r: LintRule| rule_name(r)) == names,
                names == default_rule_names(),
                keep == (|n: Seq<char>|
                    match config {
                        Some(c) => rule_enabled(c.rules@, n),
                        None => true,
                    }),
                forall|i: int| 0 <= i < it.seq().len() ==> (#[trigger] it.seq()[i] matches LintRule::BlockLines(p)
                    ==> p.max_lines() == crate::rules::block_lines::DEFAULT_MAX_LINES),
                linter@.map_values(|r: LintRule| rule_name(r)) == names.take(it.index() as int).filter(keep),
                forall|i: int| 0 <= i < linter@.len() ==> (#[trigger] linter@[i] matches LintRule::BlockLines(p)
                    ==> p.max_lines() == crate::rules::block_lines::DEFAULT_MAX_LINES),
        {
            let ghost i = it.index() as int;
            proof {
                assert(names[i] == rule_name(r));
                assert(names.take(i + 1).drop_last() =~= names.take(i));
                assert(names.take(i + 1).last() == names[i]);
                reveal(Seq::filter);
            }
            let enabled = match config {
                Some(c) => c.is_rule_enabled(r.name()),
                None => true,
            };
            if enabled {
                let ghost before = linter@;
                linter.rules.push(r);
                assert(linter@.map_values(|r: LintRule| rule_name(r)) =~= before.map_values(
                    |r: LintRule| rule_name(r),
                ).push(rule_name(r)));
            }
        }
        assert(names.take(names.len() as int) =~= names);
        linter
    }

    /// Adds `rule` after the rules already registered
    pub fn add_rule(&mut self, rule: LintRule)
        ensures
            final(self)@ == old(self)@.push(rule),
    {
        self.rules.push(rule);
    }

    /// Removes the rules whose names are among `names`; the others keep
    /// their order
    pub fn remove_rules_by_name(&mut self, names: &Vec<String>)
        ensures
            final(self)@ == old(self)@.filter(
                |r: LintRule| !strings_view(names@).contains(rule_name(r)),
            ),
    {
        let ghost keep = |r: LintRule| !strings_view(names@).contains(rule_name(r));
        let ghost start = self.rules@;
        let mut rest: Vec<LintRule> = Vec::new();
        std::mem::swap(&mut rest, &mut self.rules);
        let mut kept: Vec<LintRule> = Vec::new();
        let n = rest.len();
        let mut k: usize = 0;
        proof {
            reveal(Seq::filter);
            assert(start.take(0) =~= Seq::<LintRule>::empty());
            assert(start.skip(0) =~= start);
        }
        while k < n
            invariant
                n == start.len(),
                rest@ == start.skip(k as int),
                keep == (|r: LintRule| !strings_view(names@).contains(rule_name(r))),
                k <= n,
                kept@ == start.take(k as int).filter(keep),
            decreases n - k,
        {
            let r = rest.remove(0);
            proof {
                reveal(Seq::filter);
                assert(start.take(k + 1).drop_last() =~= start.take(k as int));
                assert(r == start[k as int]);
                assert(rest@ =~= start.skip(k + 1));
            }
            if !contains_string(names, r.name()) {
                kept.push(r);
            }
            k += 1;
        }
        assert(start.take(n as int) =~= start);
        self.rules = kept;
    }

    /// The rules, in the order they run
    pub fn rules(&self) -> (r: &Vec<LintRule>)
        ensures
            r@ == self@,
    {
        &self.rules
    }

    /// The names of the rules, in the order they run
    pub fn rule_names(&self) -> (r: Vec<String>)
        ensures
            strings_view(r@) == self@.map_values(|r: LintRule| rule_name(r)),
    {
        let mut out: Vec<String> = Vec::new();
        let n = self.rules.len();
        let mut k: usize = 0;
        while k < n
            invariant
                n == self.rules@.len() == self@.len(),
                k <= n,
                strings_view(out@) == self@.map_values(|r: LintRule| rule_name(r)).take(k as int),
            decreases n - k,
        {
            let ghost before = out@;
            out.push(self.rules[k].name().to_owned());
            proof {
                let f = |r: LintRule| rule_name(r);
                assert(self@[k as int] == self.rules@[k as int]);
                assert(strings_view(out@) =~= strings_view(before).push(rule_name(self@[k as int])));
                assert(self@.map_values(f).take(k + 1) =~= self@.map_values(f).take(k as int).push(
                    rule_name(self@[k as int]),
                ));
            }
            k += 1;
        }
        assert(self@.map_values(|r: LintRule| rule_name(r)).take(n as int) =~= self@.map_values(
            |r: LintRule| rule_name(r),
        ));
        out
    }

    /// The findings of all rules for `config`: those of each rule in turn
    pub fn lint(&self, config: &Config, path: &str) -> (errors: Vec<LintError>)
        requires
            positions_consistent(*config),
        ensures
            errors_view(errors@) == findings(self@, *config),
    {
        let mut out: Vec<LintError> = Vec::new();
        let n = self.rules.len();
        let mut k: usize = 0;
        while k < n
            invariant
                n == self.rules@.len() == self@.len(),
                positions_consistent(*config),
                k <= n,
                errors_view(out@) == findings(self@.take(k as int), *config),
            decreases n - k,
        {
            let mut found = self.rules[k].check(config, path);
            let ghost before = errors_view(out@);
            out.append(&mut found);
            proof {
                assert(self@.take(k + 1).drop_last() =~= self@.take(k as int));
                assert(self@.take(k + 1).last() == self@[k as int]);
                assert(errors_view(out@) =~= before + rule_findings(self@[k as int], *config));
            }
            k += 1;
        }
        assert(self@.take(n as int) =~= self@);
        out
    }

    /// The findings of all rules for `config`, whose text is `content`,
    /// filtered through the disable comments of `content`: those that no
    /// comment silences, then the warnings for malformed comments and for
    /// comments naming a rule the linter does not run, then those for
    /// comments that silenced nothing; and how many findings were silenced
    pub fn lint_with_content(&self, config: &Config, path: &str, content: &str) -> (r: (
        Vec<LintError>,
        usize,
    ))
        requires
            positions_consistent(*config),
            content@.len() < usize::MAX,
        ensures
            ({
                let found = findings(self@, *config);
                let ds = file_directives(content@);
                let names = self@.map_values(|r: LintRule| rule_name(r));
                &&& errors_view(r.0@) == found.filter(|e: LintErrorV| !suppressed(ds, e))
                    + file_warnings(content@, Some(names)).map_values(
                    |w: IgnoreWarningV| warning_error(w),
                ) + unused_warnings_of(used_after(ds, found)).map_values(
                    |w: IgnoreWarningV| warning_error(w),
                )
                &&& r.1 + found.filter(|e: LintErrorV| !suppressed(ds, e)).len() == found.len()
            }),
    {
        let names = self.rule_names();
        let (mut tracker, warnings) = IgnoreTracker::from_content_with_rules(content, Some(&names));
        let errors = self.lint(config, path);
        let result = filter_errors(errors, &mut tracker);
        let FilterResult { errors: kept, ignored_count, unused_warnings } = result;
        let mut out = kept;
        let mut malformed = warnings_to_errors(warnings);
        let mut unused = warnings_to_errors(unused_warnings);
        let ghost a = errors_view(out@);
        let ghost b = errors_view(malformed@);
        let ghost c = errors_view(unused@);
        out.append(&mut malformed);
        out.append(&mut unused);
        assert(errors_view(out@) =~= a + b + c);
        (out, ignored_count)
    }
}

// ---------------------------------------------------------------------------
// Checking positions
// ---------------------------------------------------------------------------

/// The position conditions of every rule for `items`; `in_http` tells
/// whether they are in the `http` context
pub open spec fn items_consistent(items: Seq<ConfigItemV>, in_http: bool) -> bool {
    &&& block_lines_countable(items)
    &&& semicolon_offsets_ok(items)
    &&& tail_offsets_ok(items)
    &&& on_offsets_ok(server_tokens_rule(), items, in_http)
    &&& on_offsets_ok(autoindex_rule(), items, in_http)
}

/// The position conditions of every rule for one item
pub open spec fn item_consistent(item: ConfigItemV, in_http: bool) -> bool {
    &&& item_countable(item)
    &&& item_semicolon_offset_ok(item)
    &&& item_tail_offsets_ok(item)
    &&& item_on_offsets_ok(server_tokens_rule(), item, in_http)
    &&& item_on_offsets_ok(autoindex_rule(), item, in_http)
}

/// `utf8_len(s@) <= bound`
fn fits_before(s: &str, bound: usize) -> (r: bool)
    ensures
        r == (utf8_len(s@) <= bound),
{
    match utf8_len_capped(s) {
        Some(n) => n <= bound,
        None => false,
    }
}

/// `base + utf8_len(s@)` is a machine integer
fn fits_after(s: &str, base: usize) -> (r: bool)
    ensures
        r == (base + utf8_len(s@) <= usize::MAX),
{
    match utf8_len_capped(s) {
        Some(n) => n <= usize::MAX - base,
        None => false,
    }
}

/// Whether `items`, in the `http` context when `in_http`, meet the position
/// conditions of every rule
fn check_items_positions(items: &Vec<ConfigItem>, in_http: bool) -> (r: bool)
    ensures
        r == items_consistent(items_view(items@), in_http),
    decreases items@,
{
    let mut i: usize = 0;
    proof {
        assert(items@.subrange(0, 0) =~= Seq::<ConfigItem>::empty());
    }
    while i < items.len()
        invariant
            i <= items@.len(),
            items_consistent(items_view(items@.subrange(0, i as int)), in_http),
        decreases items@.len() - i,
    {
        let ghost item = item_view(items@[i as int]);
        proof {
            let pre = items@.subrange(0, i as int);
            let pre1 = items@.subrange(0, i + 1);
            assert(pre1.subrange(0, i as int) =~= pre);
            assert(items_view(pre1) == items_view(pre).push(item));
            let v1 = items_view(pre1);
            assert(v1.subrange(0, v1.len() - 1) =~= items_view(pre));
            assert(v1[v1.len() - 1] == item);
            assert(items_consistent(v1, in_http) == (items_consistent(items_view(pre), in_http)
                && item_consistent(item, in_http)));
        }
        let ok = match &items[i] {
            ConfigItem::Directive(d) => {
                let ghost dv = crate::ast::directive_view(**d);
                let semicolon_ok = if d.block.is_none() && !d.space_before_terminator.as_str().is_empty() {
                    d.span.end.offset >= 1 && fits_before(
                        d.space_before_terminator.as_str(),
                        d.span.end.offset - 1,
                    )
                } else {
                    true
                };
                let tail_start_ok = match &d.block {
                    Some(b) => b.span.start.offset < usize::MAX,
                    None => true,
                };
                let tail_ok = if d.trailing_whitespace.as_str().is_empty() {
                    true
                } else if !tail_start_ok {
                    false
                } else {
                    let start = match &d.block {
                        Some(b) => b.span.start.offset + 1,
                        None => d.span.end.offset,
                    };
                    fits_after(d.trailing_whitespace.as_str(), start)
                };
                let is_on = d.first_arg_is("on");
                let st_ok = if in_http && d.is("server_tokens") && is_on {
                    fits_before(d.leading_whitespace.as_str(), d.span.start.offset)
                } else {
                    true
                };
                let ai_ok = if in_http && d.is("autoindex") && is_on {
                    fits_before(d.leading_whitespace.as_str(), d.span.start.offset)
                } else {
                    true
                };
                let block_ok = match &d.block {
                    Some(b) => {
                        let lines_ok = d.span.start.line <= b.span.end.line && b.span.end.line
                            - d.span.start.line < usize::MAX;
                        let close_ok = b.trailing_whitespace.as_str().is_empty() || fits_after(
                            b.trailing_whitespace.as_str(),
                            b.span.end.offset,
                        );
                        let child_in_http = in_http || d.is("http");
                        lines_ok && close_ok && check_items_positions(&b.items, child_in_http)
                    },
                    None => true,
                };
                semicolon_ok && tail_ok && st_ok && ai_ok && block_ok
            },
            ConfigItem::Comment(c) => c.trailing_whitespace.as_str().is_empty() || fits_after(
                c.trailing_whitespace.as_str(),
                c.span.end.offset,
            ),
            ConfigItem::BlankLine(bl) => bl.content.as_str().is_empty() || fits_after(
                bl.content.as_str(),
                bl.span.start.offset,
            ),
        };
        if !ok {
            proof {
                lemma_items_view_index(items@, i as int);
                if items_consistent(items_view(items@), in_http) {
                    lemma_items_consistent_prefix(items_view(items@), i as int, in_http);
                }
            }
            return false;
        }
        i += 1;
    }
    assert(items@.subrange(0, i as int) =~= items@);
    true
}

proof fn lemma_items_consistent_prefix(items: Seq<ConfigItemV>, i: int, in_http: bool)
    requires
        0 <= i < items.len(),
        items_consistent(items, in_http),
    ensures
        item_consistent(items[i], in_http),
    decreases items.len(),
{
    let pre = items.subrange(0, items.len() - 1);
    if i < items.len() - 1 {
        lemma_items_consistent_prefix(pre, i, in_http);
        assert(pre[i] == items[i]);
    }
}

/// Whether the positions in `config` meet the conditions of every rule
pub fn check_positions(config: &Config) -> (r: bool)
    ensures
        r == positions_consistent(*config),
{
    let in_http = crate::ignore::contains_string(&config.include_context, "http");
    check_items_positions(&config.items, in_http)
}

impl Linter {
    /// The findings for `config`, whose text is `content`, filtered through
    /// its disable comments, as [`Linter::lint_with_content`] gives them;
    /// `None` when the positions in `config` are inconsistent or `content`
    /// is too long to number its lines
    pub fn lint_checked(&self, config: &Config, path: &str, content: &str) -> (r: Option<
        (Vec<LintError>, usize),
    >)
        ensures
            (r is Some) == (positions_consistent(*config) && content@.len() < usize::MAX),
            r matches Some(res) ==> ({
                let found = findings(self@, *config);
                let ds = file_directives(content@);
                let names = self@.map_values(|r: LintRule| rule_name(r));
                &&& errors_view(res.0@) == found.filter(|e: LintErrorV| !suppressed(ds, e))
                    + file_warnings(content@, Some(names)).map_values(
                    |w: IgnoreWarningV| warning_error(w),
                ) + unused_warnings_of(used_after(ds, found)).map_values(
                    |w: IgnoreWarningV| warning_error(w),
                )
                &&& res.1 + found.filter(|e: LintErrorV| !suppressed(ds, e)).len() == found.len()
            }),
    {
        if !check_positions(config) {
            return None;
        }
        let n = crate::text::chars_of(content).len();
        if n == usize::MAX {
            return None;
        }
        Some(self.lint_with_content(config, path, content))
    }
}

} // verus!
