//! `space-before-semicolon`: blanks between a directive's last argument and
//! its `;`.
//!
//! Each finding carries a fix that deletes exactly those blanks: the byte
//! range that ends at the `;`.
use vstd::prelude::*;
use crate::ast::{
    Config, ConfigItem, ConfigItemV, DirectiveV, items_view, item_view, lemma_items_view_index,
};
use crate::lexer::{utf8_len, utf8_len_of};
use crate::lint::{Fix, LintError, LintErrorV, errors_view, warning, warning_spec, range_fix};
use crate::rules::{PluginSpec, PluginSpecV};

verus! {

/// Reports blanks before the `;` of a directive
#[derive(Debug, Default)]
pub struct SpaceBeforeSemicolonPlugin;

/// Directive `d` ends in `;` with blanks before it
pub open spec fn has_space_before_semicolon(d: DirectiveV) -> bool {
    d.block is None && d.space_before_terminator.len() > 0
}

/// The `;` of every reported directive of `items` lies after its blanks in
/// the file, so that the fix's byte range can be computed
pub open spec fn semicolon_offsets_ok(items: Seq<ConfigItemV>) -> bool
    decreases items,
{
    if items.len() == 0 {
        true
    } else {
        semicolon_offsets_ok(items.subrange(0, items.len() - 1)) && item_semicolon_offset_ok(
            items[items.len() - 1],
        )
    }
}

pub open spec fn item_semicolon_offset_ok(item: ConfigItemV) -> bool
    decreases item,
{
    match item {
        ConfigItemV::Directive(d) => {
            &&& has_space_before_semicolon(d) ==> d.span.end.offset >= 1 + utf8_len(
                d.space_before_terminator,
            )
            &&& match d.block {
                Some(b) => semicolon_offsets_ok(b.items),
                None => true,
            }
        },
        _ => true,
    }
}

/// The finding for directive `d`; its fix deletes the bytes just before the `;`
pub open spec fn space_before_semicolon_error(d: DirectiveV) -> LintErrorV {
    let semicolon = d.span.end.offset - 1;
    LintErrorV {
        fix: Some(
            range_fix(
                (semicolon - utf8_len(d.space_before_terminator)) as nat,
                semicolon as nat,
                seq![],
            ),
        ),
        ..warning_spec(
            "space-before-semicolon"@,
            "style"@,
            "space before semicolon"@,
            d.span.start.line as nat,
            d.span.start.column as nat,
        )
    }
}

/// The findings for `items` and the blocks inside them, in document order
pub open spec fn space_before_semicolon_errors(items: Seq<ConfigItemV>) -> Seq<LintErrorV>
    decreases items,
{
    if items.len() == 0 {
        seq![]
    } else {
        space_before_semicolon_errors(items.subrange(0, items.len() - 1))
            + item_space_before_semicolon_errors(items[items.len() - 1])
    }
}

/// The findings for one item: its own, then those of its block
pub open spec fn item_space_before_semicolon_errors(item: ConfigItemV) -> Seq<LintErrorV>
    decreases item,
{
    match item {
        ConfigItemV::Directive(d) => (if has_space_before_semicolon(d) {
            seq![space_before_semicolon_error(d)]
        } else {
            seq![]
        }) + match d.block {
            Some(b) => space_before_semicolon_errors(b.items),
            None => seq![],
        },
        _ => seq![],
    }
}

/// What the rule is
pub open spec fn space_before_semicolon_spec() -> PluginSpecV {
    PluginSpecV {
        name: "space-before-semicolon"@,
        category: "style"@,
        description: "Detects spaces or tabs before semicolons"@,
        severity: "warning"@,
        why: "Spaces before semicolons violate common coding style conventions and reduce readability. Semicolons should be placed immediately after directive values."@,
        references: seq![],
    }
}

impl SpaceBeforeSemicolonPlugin {
    /// What the rule is
    pub fn spec(&self) -> (s: PluginSpec)
        ensures
            s@ == space_before_semicolon_spec(),
    {
        PluginSpec::new(
            "space-before-semicolon",
            "style",
            "Detects spaces or tabs before semicolons",
            "Spaces before semicolons violate common coding style conventions and reduce readability. Semicolons should be placed immediately after directive values.",
        )
    }

    /// The findings for `config`, in document order
    pub fn check(&self, config: &Config, path: &str) -> (errors: Vec<LintError>)
        requires
            semicolon_offsets_ok(items_view(config.items@)),
        ensures
            errors_view(errors@) == space_before_semicolon_errors(items_view(config.items@)),
    {
        let mut errors: Vec<LintError> = Vec::new();
        check_items(&config.items, &mut errors);
        assert(errors_view(errors@) =~= space_before_semicolon_errors(items_view(config.items@)));
        errors
    }
}

proof fn lemma_offsets_ok_at(items: Seq<ConfigItemV>, i: int)
    requires
        semicolon_offsets_ok(items),
        0 <= i < items.len(),
    ensures
        item_semicolon_offset_ok(items[i]),
    decreases items.len(),
{
    if i < items.len() - 1 {
        let pre = items.subrange(0, items.len() - 1);
        lemma_offsets_ok_at(pre, i);
        assert(pre[i] == items[i]);
    }
}

fn check_items(items: &Vec<ConfigItem>, errors: &mut Vec<LintError>)
    requires
        semicolon_offsets_ok(items_view(items@)),
    ensures
        errors_view(final(errors)@) == errors_view(old(errors)@) + space_before_semicolon_errors(
            items_view(items@),
        ),
    decreases items@,
{
    let ghost start = errors_view(errors@);
    let mut i: usize = 0;
    proof {
        assert(items@.subrange(0, 0) =~= Seq::<ConfigItem>::empty());
        assert(start =~= start + space_before_semicolon_errors(items_view(items@.subrange(0, 0))));
    }
    while i < items.len()
        invariant
            i <= items@.len(),
            semicolon_offsets_ok(items_view(items@)),
            errors_view(errors@) == start + space_before_semicolon_errors(
                items_view(items@.subrange(0, i as int)),
            ),
        decreases items@.len() - i,
    {
        let ghost before = errors_view(errors@);
        let ghost item = item_view(items@[i as int]);
        proof {
            let pre = items@.subrange(0, i as int);
            let pre1 = items@.subrange(0, i + 1);
            assert(pre1.subrange(0, i as int) =~= pre);
            assert(items_view(pre1) == items_view(pre).push(item));
            let v1 = items_view(pre1);
            assert(v1.subrange(0, v1.len() - 1) =~= items_view(pre));
            lemma_items_view_index(items@, i as int);
            lemma_offsets_ok_at(items_view(items@), i as int);
        }
        match &items[i] {
            ConfigItem::Directive(d) => {
                let ghost dv = crate::ast::directive_view(**d);
                if d.block.is_none() && !d.space_before_terminator.as_str().is_empty() {
                    let semicolon = d.span.end.offset - 1;
                    let start_offset = semicolon - utf8_len_of(d.space_before_terminator.as_str());
                    let e = warning(
                        "space-before-semicolon",
                        "style",
                        "space before semicolon",
                        d.span.start.line,
                        d.span.start.column,
                    ).with_fix(Fix::replace_range(start_offset, semicolon, ""));
                    proof {
                        reveal_strlit("");
                    }
                    assert(""@ =~= Seq::<char>::empty());
                    assert(e@ == space_before_semicolon_error(dv));
                    let ghost mid = errors_view(errors@);
                    errors.push(e);
                    assert(errors_view(errors@) =~= mid.push(e@));
                }
                match &d.block {
                    Some(b) => {
                        check_items(&b.items, errors);
                    },
                    None => {},
                }
            },
            _ => {},
        }
        proof {
            assert(errors_view(errors@) =~= before + item_space_before_semicolon_errors(item));
        }
        i += 1;
    }
    assert(items@.subrange(0, i as int) =~= items@);
}

} // verus!
