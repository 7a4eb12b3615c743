//! `block-lines`: a block directive that spans too many lines.
//!
//! A block is reported when it spans more lines than the limit, counted from
//! the line of its name to the line of its closing `}`, unless a block
//! nested in it was already reported: the innermost long block is the one
//! to split.
use vstd::prelude::*;
use crate::ast::{
    Config, ConfigItem, ConfigItemV, DirectiveV, items_view, item_view, lemma_items_view_index,
};
use crate::lint::{LintError, LintErrorV, errors_view, warning, warning_spec};
use crate::rules::{PluginSpec, PluginSpecV};
use crate::text::{decimal, push_decimal};

verus! {

/// The line limit when none is configured
pub const DEFAULT_MAX_LINES: usize = 100;

/// Reports blocks that span more than `max_lines` lines
#[derive(Debug)]
pub struct BlockLinesPlugin {
    max_lines: usize,
}

/// Every block of `items` closes on or after the line where its directive
/// starts, so that the number of lines it spans is a machine integer
pub open spec fn block_lines_countable(items: Seq<ConfigItemV>) -> bool
    decreases items,
{
    if items.len() == 0 {
        true
    } else {
        block_lines_countable(items.subrange(0, items.len() - 1)) && item_countable(
            items[items.len() - 1],
        )
    }
}

pub open spec fn item_countable(item: ConfigItemV) -> bool
    decreases item,
{
    match item {
        ConfigItemV::Directive(d) => match d.block {
            Some(b) => {
                &&& d.span.start.line <= b.span.end.line
                &&& b.span.end.line - d.span.start.line < usize::MAX
                &&& block_lines_countable(b.items)
            },
            None => true,
        },
        _ => true,
    }
}

/// The finding for directive `d`, whose block spans `count` lines
pub open spec fn block_lines_error(d: DirectiveV, count: nat, max: nat) -> LintErrorV {
    warning_spec(
        "block-lines"@,
        "style"@,
        "'"@ + d.name + "' block is "@ + decimal(count) + " lines long (max "@ + decimal(max)
            + "), consider splitting with include"@,
        d.span.start.line as nat,
        d.span.start.column as nat,
    )
}

/// The findings for `items` and the blocks inside them, in document order
pub open spec fn block_lines_errors(items: Seq<ConfigItemV>, max: nat) -> Seq<LintErrorV>
    decreases items,
{
    if items.len() == 0 {
        seq![]
    } else {
        block_lines_errors(items.subrange(0, items.len() - 1), max) + item_block_lines_errors(
            items[items.len() - 1],
            max,
        )
    }
}

/// The findings for one item: those of the blocks nested in it, then the
/// item's own block if it is too long and none of those was
pub open spec fn item_block_lines_errors(item: ConfigItemV, max: nat) -> Seq<LintErrorV>
    decreases item,
{
    match item {
        ConfigItemV::Directive(d) => match d.block {
            Some(b) => {
                let inner = block_lines_errors(b.items, max);
                let count = (b.span.end.line - d.span.start.line + 1) as nat;
                if count > max && inner.len() == 0 {
                    inner.push(block_lines_error(d, count, max))
                } else {
                    inner
                }
            },
            None => seq![],
        },
        _ => seq![],
    }
}

/// What the rule is
pub open spec fn block_lines_spec() -> PluginSpecV {
    PluginSpecV {
        name: "block-lines"@,
        category: "style"@,
        description: "Warns when a block directive exceeds the maximum number of lines"@,
        severity: "warning"@,
        why: "Blocks with too many lines are difficult to read and maintain. Consider splitting large blocks into smaller files using the include directive."@,
        references: seq![],
    }
}

impl BlockLinesPlugin {
    /// The rule with the default limit of lines
    pub fn new() -> (p: Self)
        ensures
            p.max_lines() == DEFAULT_MAX_LINES,
    {
        BlockLinesPlugin { max_lines: DEFAULT_MAX_LINES }
    }

    /// The rule with a limit of `max_lines` lines
    pub fn with_max_lines(max_lines: usize) -> (p: Self)
        ensures
            p.max_lines() == max_lines,
    {
        BlockLinesPlugin { max_lines }
    }

    /// The configured limit of lines
    pub closed spec fn max_lines(&self) -> usize {
        self.max_lines
    }

    /// What the rule is
    pub fn spec(&self) -> (s: PluginSpec)
        ensures
            s@ == block_lines_spec(),
    {
        PluginSpec::new(
            "block-lines",
            "style",
            "Warns when a block directive exceeds the maximum number of lines",
            "Blocks with too many lines are difficult to read and maintain. Consider splitting large blocks into smaller files using the include directive.",
        )
    }

    /// The findings for `config`, in document order
    pub fn check(&self, config: &Config, path: &str) -> (errors: Vec<LintError>)
        requires
            block_lines_countable(items_view(config.items@)),
        ensures
            errors_view(errors@) == block_lines_errors(
                items_view(config.items@),
                self.max_lines() as nat,
            ),
    {
        let mut errors: Vec<LintError> = Vec::new();
        check_items(&config.items, self.max_lines, &mut errors);
        assert(errors_view(errors@) =~= block_lines_errors(
            items_view(config.items@),
            self.max_lines as nat,
        ));
        errors
    }
}

impl Default for BlockLinesPlugin {
    fn default() -> (p: Self)
        ensures
            p.max_lines() == DEFAULT_MAX_LINES,
    {
        BlockLinesPlugin::new()
    }
}

fn check_items(items: &Vec<ConfigItem>, max_lines: usize, errors: &mut Vec<LintError>)
    requires
        block_lines_countable(items_view(items@)),
    ensures
        errors_view(final(errors)@) == errors_view(old(errors)@) + block_lines_errors(
            items_view(items@),
            max_lines as nat,
        ),
    decreases items@,
{
    let ghost start = errors_view(errors@);
    let mut i: usize = 0;
    proof {
        assert(items@.subrange(0, 0) =~= Seq::<ConfigItem>::empty());
        assert(start =~= start + block_lines_errors(
            items_view(items@.subrange(0, 0)),
            max_lines as nat,
        ));
    }
    while i < items.len()
        invariant
            i <= items@.len(),
            block_lines_countable(items_view(items@)),
            errors_view(errors@) == start + block_lines_errors(
                items_view(items@.subrange(0, i as int)),
                max_lines as nat,
            ),
        decreases items@.len() - i,
    {
        let ghost before = errors_view(errors@);
        let ghost item = item_view(items@[i as int]);
        proof {
            let pre = items@.subrange(0, i as int);
            let pre1 = items@.subrange(0, i + 1);
            assert(pre1.subrange(0, i as int) =~= pre);
            assert(items_view(pre1) == items_view(pre).push(item));
            let v1 = items_view(pre1);
            assert(v1.subrange(0, v1.len() - 1) =~= items_view(pre));
            lemma_items_view_index(items@, i as int);
            lemma_countable_at(items_view(items@), i as int);
            assert(items_view(items@)[i as int] == item);
        }
        match &items[i] {
            ConfigItem::Directive(d) => {
                match &d.block {
                    Some(b) => {
                        let errors_before = errors.len();
                        let ghost mid = errors_view(errors@);
                        check_items(&b.items, max_lines, errors);
                        let child_exceeded = errors.len() > errors_before;
                        let line_count = b.span.end.line - d.span.start.line + 1;
                        if line_count > max_lines && !child_exceeded {
                            let mut message = "'".to_owned();
                            message.append(d.name.as_str());
                            message.append("' block is ");
                            push_decimal(&mut message, line_count);
                            message.append(" lines long (max ");
                            push_decimal(&mut message, max_lines);
                            message.append("), consider splitting with include");
                            let e = warning(
                                "block-lines",
                                "style",
                                message.as_str(),
                                d.span.start.line,
                                d.span.start.column,
                            );
                            let ghost mid2 = errors_view(errors@);
                            errors.push(e);
                            proof {
                                assert(errors_view(errors@) =~= mid2.push(e@));
                                assert(mid2 =~= mid + block_lines_errors(
                                    items_view(b.items@),
                                    max_lines as nat,
                                ));
                                assert(block_lines_errors(items_view(b.items@), max_lines as nat).len()
                                    == 0);
                            }
                        }
                    },
                    None => {},
                }
            },
            _ => {},
        }
        proof {
            assert(errors_view(errors@) =~= before + item_block_lines_errors(item, max_lines as nat));
        }
        i += 1;
    }
    assert(items@.subrange(0, i as int) =~= items@);
}

proof fn lemma_countable_at(items: Seq<ConfigItemV>, i: int)
    requires
        block_lines_countable(items),
        0 <= i < items.len(),
    ensures
        item_countable(items[i]),
    decreases items.len(),
{
    if i < items.len() - 1 {
        let pre = items.subrange(0, items.len() - 1);
        lemma_countable_at(pre, i);
        assert(pre[i] == items[i]);
    }
}

} // verus!
