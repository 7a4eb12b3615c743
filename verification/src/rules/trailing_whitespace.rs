//! `trailing-whitespace`: blanks at the end of a line.
//!
//! The tree keeps the blanks after each `;`, `{`, `}`, comment and blank
//! line; each non-empty run is a finding, whose fix deletes that byte range.
use vstd::prelude::*;
use crate::ast::{
    Config, ConfigItem, ConfigItemV, DirectiveV, items_view, item_view, lemma_items_view_index,
};
use crate::lexer::{utf8_len, utf8_len_of};
use crate::lint::{Fix, LintError, LintErrorV, errors_view, warning, warning_spec, range_fix};
use crate::rules::{PluginSpec, PluginSpecV};

verus! {

/// Reports blanks at the end of lines
#[derive(Debug, Default)]
pub struct TrailingWhitespacePlugin;

/// The finding at `line` whose fix deletes the bytes `start..start + len`
pub open spec fn trailing_whitespace_error(line: nat, start: nat, len: nat) -> LintErrorV {
    LintErrorV {
        fix: Some(range_fix(start, start + len, seq![])),
        ..warning_spec(
            "trailing-whitespace"@,
            "style"@,
            "trailing whitespace at end of line"@,
            line,
            1,
        )
    }
}

/// Where the blanks after a directive's `;` or `{` start
pub open spec fn directive_tail_start(d: DirectiveV) -> int {
    match d.block {
        Some(b) => b.span.start.offset + 1,
        None => d.span.end.offset as int,
    }
}

/// The byte ranges of the fixes for `items` fit in a machine integer
pub open spec fn tail_offsets_ok(items: Seq<ConfigItemV>) -> bool
    decreases items,
{
    if items.len() == 0 {
        true
    } else {
        tail_offsets_ok(items.subrange(0, items.len() - 1)) && item_tail_offsets_ok(
            items[items.len() - 1],
        )
    }
}

pub open spec fn item_tail_offsets_ok(item: ConfigItemV) -> bool
    decreases item,
{
    match item {
        ConfigItemV::Directive(d) => {
            &&& d.trailing_whitespace.len() > 0 ==> directive_tail_start(d) + utf8_len(
                d.trailing_whitespace,
            ) <= usize::MAX
            &&& match d.block {
                Some(b) => {
                    &&& b.trailing_whitespace.len() > 0 ==> b.span.end.offset + utf8_len(
                        b.trailing_whitespace,
                    ) <= usize::MAX
                    &&& tail_offsets_ok(b.items)
                },
                None => true,
            }
        },
        ConfigItemV::Comment(c) => c.trailing_whitespace.len() > 0 ==> c.span.end.offset
            + utf8_len(c.trailing_whitespace) <= usize::MAX,
        ConfigItemV::BlankLine(bl) => bl.content.len() > 0 ==> bl.span.start.offset + utf8_len(
            bl.content,
        ) <= usize::MAX,
    }
}

/// The findings for `items` and the blocks inside them, in document order
pub open spec fn trailing_whitespace_errors(items: Seq<ConfigItemV>) -> Seq<LintErrorV>
    decreases items,
{
    if items.len() == 0 {
        seq![]
    } else {
        trailing_whitespace_errors(items.subrange(0, items.len() - 1))
            + item_trailing_whitespace_errors(items[items.len() - 1])
    }
}

/// The findings for one item: for a directive, the blanks after its `;` or
/// `{`, those after its closing `}`, then those inside its block
pub open spec fn item_trailing_whitespace_errors(item: ConfigItemV) -> Seq<LintErrorV>
    decreases item,
{
    match item {
        ConfigItemV::Directive(d) => (if d.trailing_whitespace.len() > 0 {
            seq![
                trailing_whitespace_error(
                    d.span.start.line as nat,
                    directive_tail_start(d) as nat,
                    utf8_len(d.trailing_whitespace),
                ),
            ]
        } else {
            seq![]
        }) + match d.block {
            Some(b) => (if b.trailing_whitespace.len() > 0 {
                seq![
                    trailing_whitespace_error(
                        b.span.end.line as nat,
                        b.span.end.offset as nat,
                        utf8_len(b.trailing_whitespace),
                    ),
                ]
            } else {
                seq![]
            }) + trailing_whitespace_errors(b.items),
            None => seq![],
        },
        ConfigItemV::Comment(c) => if c.trailing_whitespace.len() > 0 {
            seq![
                trailing_whitespace_error(
                    c.span.start.line as nat,
                    c.span.end.offset as nat,
                    utf8_len(c.trailing_whitespace),
                ),
            ]
        } else {
            seq![]
        },
        ConfigItemV::BlankLine(bl) => if bl.content.len() > 0 {
            seq![
                trailing_whitespace_error(
                    bl.span.start.line as nat,
                    bl.span.start.offset as nat,
                    utf8_len(bl.content),
                ),
            ]
        } else {
            seq![]
        },
    }
}

/// The blanks `text` end a line of the tree `items` (or of a block inside
/// it): after a directive's `;` or `{`, after a block's `}`, after a
/// comment, or making up a blank line; the line is `line` and the blanks
/// start at byte `start`
pub open spec fn tail_in(items: Seq<ConfigItemV>, line: nat, start: nat, text: Seq<char>) -> bool
    decreases items,
{
    if items.len() == 0 {
        false
    } else {
        tail_in(items.subrange(0, items.len() - 1), line, start, text) || item_tail_in(
            items[items.len() - 1],
            line,
            start,
            text,
        )
    }
}

pub open spec fn item_tail_in(item: ConfigItemV, line: nat, start: nat, text: Seq<char>) -> bool
    decreases item,
{
    match item {
        ConfigItemV::Directive(d) => {
            ||| (line == d.span.start.line && text == d.trailing_whitespace && start == match d.block {
                Some(b) => b.span.start.offset + 1,
                None => d.span.end.offset as int,
            })
            ||| match d.block {
                Some(b) => {
                    ||| (line == b.span.end.line && start == b.span.end.offset && text
                        == b.trailing_whitespace)
                    ||| tail_in(b.items, line, start, text)
                },
                None => false,
            }
        },
        ConfigItemV::Comment(c) => line == c.span.start.line && start == c.span.end.offset && text
            == c.trailing_whitespace,
        ConfigItemV::BlankLine(bl) => line == bl.span.start.line && start == bl.span.start.offset
            && text == bl.content,
    }
}

/// The finding for blanks at the end of line `line` that start at byte
/// `start` and take `len` bytes: a warning of `trailing-whitespace` at
/// column 1 whose fix deletes exactly those bytes
pub open spec fn expected_tail_finding(line: nat, start: nat, len: nat) -> LintErrorV {
    LintErrorV {
        rule: "trailing-whitespace"@,
        category: "style"@,
        message: "trailing whitespace at end of line"@,
        severity: crate::lint::Severity::Warning,
        line: Some(line),
        column: Some(1),
        fix: Some(
            crate::lint::FixV {
                line: 0,
                old_text: None,
                new_text: seq![],
                delete_line: false,
                insert_after: false,
                start_offset: Some(start),
                end_offset: Some(start + len),
            },
        ),
    }
}

/// Every run of blanks that ends a line of the tree, a blank line's content
/// among them, is reported: a finding on its line whose fix deletes it
pub proof fn lemma_tail_reported(items: Seq<ConfigItemV>, line: nat, start: nat, text: Seq<char>)
    requires
        tail_in(items, line, start, text),
        text.len() > 0,
    ensures
        trailing_whitespace_errors(items).contains(expected_tail_finding(line, start, utf8_len(text))),
    decreases items,
{
    if items.len() > 0 {
        let pre = items.subrange(0, items.len() - 1);
        let last = items[items.len() - 1];
        let a = trailing_whitespace_errors(pre);
        let b = item_trailing_whitespace_errors(last);
        let e = expected_tail_finding(line, start, utf8_len(text));
        assert(trailing_whitespace_errors(items) == a + b);
        if tail_in(pre, line, start, text) {
            lemma_tail_reported(pre, line, start, text);
            let m = choose|m: int| 0 <= m < a.len() && a[m] == e;
            assert((a + b)[m] == e);
        } else {
            lemma_item_tail_reported(last, line, start, text);
            let m = choose|m: int| 0 <= m < b.len() && b[m] == e;
            assert((a + b)[a.len() + m] == e);
        }
    }
}

proof fn lemma_item_tail_reported(item: ConfigItemV, line: nat, start: nat, text: Seq<char>)
    requires
        item_tail_in(item, line, start, text),
        text.len() > 0,
    ensures
        item_trailing_whitespace_errors(item).contains(
            expected_tail_finding(line, start, utf8_len(text)),
        ),
    decreases item,
{
    let e = expected_tail_finding(line, start, utf8_len(text));
    let r = item_trailing_whitespace_errors(item);
    match item {
        ConfigItemV::Directive(d) => {
            let own = if d.trailing_whitespace.len() > 0 {
                seq![
                    trailing_whitespace_error(
                        d.span.start.line as nat,
                        directive_tail_start(d) as nat,
                        utf8_len(d.trailing_whitespace),
                    ),
                ]
            } else {
                seq![]
            };
            if line == d.span.start.line && text == d.trailing_whitespace && start == match d.block {
                Some(b) => b.span.start.offset + 1,
                None => d.span.end.offset as int,
            } {
                assert(r[0] == e);
            } else {
                let b = d.block->Some_0;
                let close = if b.trailing_whitespace.len() > 0 {
                    seq![
                        trailing_whitespace_error(
                            b.span.end.line as nat,
                            b.span.end.offset as nat,
                            utf8_len(b.trailing_whitespace),
                        ),
                    ]
                } else {
                    seq![]
                };
                let inner = trailing_whitespace_errors(b.items);
                assert(r == own + (close + inner));
                if line == b.span.end.line && start == b.span.end.offset && text == b.trailing_whitespace {
                    assert(r[own.len() as int] == e);
                } else {
                    lemma_tail_reported(b.items, line, start, text);
                    let m = choose|m: int| 0 <= m < inner.len() && inner[m] == e;
                    assert(r[own.len() + close.len() + m] == e);
                }
            }
        },
        ConfigItemV::Comment(c) => {
            assert(r[0] == e);
        },
        ConfigItemV::BlankLine(bl) => {
            assert(r[0] == e);
        },
    }
}

/// `e` is the finding for a run of blanks that ends a line of `items`
pub open spec fn reports_tail(items: Seq<ConfigItemV>, e: LintErrorV) -> bool {
    exists|line: nat, start: nat, text: Seq<char>|
        #[trigger] tail_in(items, line, start, text) && text.len() > 0 && e == expected_tail_finding(
            line,
            start,
            utf8_len(text),
        )
}

/// `e` is the finding for a run of blanks that ends a line of `item`
pub open spec fn item_reports_tail(item: ConfigItemV, e: LintErrorV) -> bool {
    exists|line: nat, start: nat, text: Seq<char>|
        #[trigger] item_tail_in(item, line, start, text) && text.len() > 0 && e
            == expected_tail_finding(line, start, utf8_len(text))
}

/// Every finding is one of those: it reports a run of blanks that ends a
/// line of the tree, and its fix deletes exactly that run
pub proof fn lemma_findings_are_tails(items: Seq<ConfigItemV>)
    ensures
        forall|m: int|
            0 <= m < trailing_whitespace_errors(items).len() ==> reports_tail(
                items,
                #[trigger] trailing_whitespace_errors(items)[m],
            ),
    decreases items,
{
    if items.len() > 0 {
        let pre = items.subrange(0, items.len() - 1);
        let last = items[items.len() - 1];
        let a = trailing_whitespace_errors(pre);
        let b = item_trailing_whitespace_errors(last);
        let r = trailing_whitespace_errors(items);
        assert(r == a + b);
        lemma_findings_are_tails(pre);
        lemma_item_findings_are_tails(last);
        assert forall|m: int| 0 <= m < r.len() implies reports_tail(items, #[trigger] r[m]) by {
            if m < a.len() {
                assert(r[m] == a[m]);
                assert(reports_tail(pre, a[m]));
                let (line, start, text) = choose|line: nat, start: nat, text: Seq<char>|
                    #[trigger] tail_in(pre, line, start, text) && text.len() > 0 && a[m]
                        == expected_tail_finding(line, start, utf8_len(text));
                assert(tail_in(items, line, start, text));
            } else {
                let k = m - a.len();
                assert(r[m] == b[k]);
                assert(item_reports_tail(last, b[k]));
                let (line, start, text) = choose|line: nat, start: nat, text: Seq<char>|
                    #[trigger] item_tail_in(last, line, start, text) && text.len() > 0 && b[k]
                        == expected_tail_finding(line, start, utf8_len(text));
                assert(tail_in(items, line, start, text));
            }
        }
    }
}

proof fn lemma_item_findings_are_tails(item: ConfigItemV)
    ensures
        forall|m: int|
            0 <= m < item_trailing_whitespace_errors(item).len() ==> item_reports_tail(
                item,
                #[trigger] item_trailing_whitespace_errors(item)[m],
            ),
    decreases item,
{
    let r = item_trailing_whitespace_errors(item);
    match item {
        ConfigItemV::Directive(d) => {
            let st: nat = directive_tail_start(d) as nat;
            let own = if d.trailing_whitespace.len() > 0 {
                seq![trailing_whitespace_error(d.span.start.line as nat, st, utf8_len(d.trailing_whitespace))]
            } else {
                seq![]
            };
            match d.block {
                Some(b) => {
                    let close = if b.trailing_whitespace.len() > 0 {
                        seq![
                            trailing_whitespace_error(
                                b.span.end.line as nat,
                                b.span.end.offset as nat,
                                utf8_len(b.trailing_whitespace),
                            ),
                        ]
                    } else {
                        seq![]
                    };
                    let inner = trailing_whitespace_errors(b.items);
                    assert(r == own + (close + inner));
                    lemma_findings_are_tails(b.items);
                    assert forall|m: int| 0 <= m < r.len() implies item_reports_tail(item, #[trigger] r[m]) by {
                        if m < own.len() {
                            assert(item_tail_in(item, d.span.start.line as nat, st, d.trailing_whitespace));
                        } else if m < own.len() + close.len() {
                            assert(item_tail_in(
                                item,
                                b.span.end.line as nat,
                                b.span.end.offset as nat,
                                b.trailing_whitespace,
                            ));
                        } else {
                            let k = m - own.len() - close.len();
                            assert(inner[k] == r[m]);
                            assert(reports_tail(b.items, inner[k]));
                            let (line, start, text) = choose|line: nat, start: nat, text: Seq<char>|
                                #[trigger] tail_in(b.items, line, start, text) && text.len() > 0 && inner[k]
                                    == expected_tail_finding(line, start, utf8_len(text));
                            assert(item_tail_in(item, line, start, text));
                        }
                    }
                },
                None => {
                    assert(r == own + Seq::<LintErrorV>::empty());
                    assert forall|m: int| 0 <= m < r.len() implies item_reports_tail(item, #[trigger] r[m]) by {
                        assert(item_tail_in(item, d.span.start.line as nat, st, d.trailing_whitespace));
                    }
                },
            }
        },
        ConfigItemV::Comment(c) => {
            assert forall|m: int| 0 <= m < r.len() implies item_reports_tail(item, #[trigger] r[m]) by {
                assert(item_tail_in(item, c.span.start.line as nat, c.span.end.offset as nat, c.trailing_whitespace));
            }
        },
        ConfigItemV::BlankLine(bl) => {
            assert forall|m: int| 0 <= m < r.len() implies item_reports_tail(item, #[trigger] r[m]) by {
                assert(item_tail_in(item, bl.span.start.line as nat, bl.span.start.offset as nat, bl.content));
            }
        },
    }
}

/// What the rule is
pub open spec fn trailing_whitespace_spec() -> PluginSpecV {
    PluginSpecV {
        name: "trailing-whitespace"@,
        category: "style"@,
        description: "Detects trailing whitespace at the end of lines"@,
        severity: "warning"@,
        why: "Trailing whitespace is invisible and can cause unnecessary diffs in version control and hinder code reviews. Removing trailing whitespace keeps configuration files clean."@,
        references: seq![],
    }
}

impl TrailingWhitespacePlugin {
    /// What the rule is
    pub fn spec(&self) -> (s: PluginSpec)
        ensures
            s@ == trailing_whitespace_spec(),
    {
        PluginSpec::new(
            "trailing-whitespace",
            "style",
            "Detects trailing whitespace at the end of lines",
            "Trailing whitespace is invisible and can cause unnecessary diffs in version control and hinder code reviews. Removing trailing whitespace keeps configuration files clean.",
        )
    }

    /// The findings for `config`, in document order
    pub fn check(&self, config: &Config, path: &str) -> (errors: Vec<LintError>)
        requires
            tail_offsets_ok(items_view(config.items@)),
        ensures
            errors_view(errors@) == trailing_whitespace_errors(items_view(config.items@)),
    {
        let mut errors: Vec<LintError> = Vec::new();
        check_items(&config.items, &mut errors);
        assert(errors_view(errors@) =~= trailing_whitespace_errors(items_view(config.items@)));
        errors
    }
}

proof fn lemma_tail_ok_at(items: Seq<ConfigItemV>, i: int)
    requires
        tail_offsets_ok(items),
        0 <= i < items.len(),
    ensures
        item_tail_offsets_ok(items[i]),
    decreases items.len(),
{
    if i < items.len() - 1 {
        let pre = items.subrange(0, items.len() - 1);
        lemma_tail_ok_at(pre, i);
        assert(pre[i] == items[i]);
    }
}

/// The finding at `line` for the blanks at `start..start + len`
fn tail_error(line: usize, start: usize, blanks: &str) -> (e: LintError)
    requires
        start + utf8_len(blanks@) <= usize::MAX,
    ensures
        e@ == trailing_whitespace_error(line as nat, start as nat, utf8_len(blanks@)),
{
    let end = start + utf8_len_of(blanks);
    proof {
        reveal_strlit("");
        assert(""@ =~= Seq::<char>::empty());
    }
    warning("trailing-whitespace", "style", "trailing whitespace at end of line", line, 1).with_fix(
        Fix::replace_range(start, end, ""),
    )
}

fn check_items(items: &Vec<ConfigItem>, errors: &mut Vec<LintError>)
    requires
        tail_offsets_ok(items_view(items@)),
    ensures
        errors_view(final(errors)@) == errors_view(old(errors)@) + trailing_whitespace_errors(
            items_view(items@),
        ),
    decreases items@,
{
    let ghost start = errors_view(errors@);
    let mut i: usize = 0;
    proof {
        assert(items@.subrange(0, 0) =~= Seq::<ConfigItem>::empty());
        assert(start =~= start + trailing_whitespace_errors(items_view(items@.subrange(0, 0))));
    }
    while i < items.len()
        invariant
            i <= items@.len(),
            tail_offsets_ok(items_view(items@)),
            errors_view(errors@) == start + trailing_whitespace_errors(
                items_view(items@.subrange(0, i as int)),
            ),
        decreases items@.len() - i,
    {
        let ghost before = errors_view(errors@);
        let ghost item = item_view(items@[i as int]);
        proof {
            let pre = items@.subrange(0, i as int);
            let pre1 = items@.subrange(0, i + 1);
            assert(pre1.subrange(0, i as int) =~= pre);
            assert(items_view(pre1) == items_view(pre).push(item));
            let v1 = items_view(pre1);
            assert(v1.subrange(0, v1.len() - 1) =~= items_view(pre));
            lemma_items_view_index(items@, i as int);
            lemma_tail_ok_at(items_view(items@), i as int);
        }
        match &items[i] {
            ConfigItem::Directive(d) => {
                if !d.trailing_whitespace.as_str().is_empty() {
                    let tail_start = match &d.block {
                        Some(b) => b.span.start.offset + 1,
                        None => d.span.end.offset,
                    };
                    let e = tail_error(d.span.start.line, tail_start, d.trailing_whitespace.as_str());
                    let ghost mid = errors_view(errors@);
                    errors.push(e);
                    assert(errors_view(errors@) =~= mid.push(e@));
                }
                match &d.block {
                    Some(b) => {
                        if !b.trailing_whitespace.as_str().is_empty() {
                            let e = tail_error(
                                b.span.end.line,
                                b.span.end.offset,
                                b.trailing_whitespace.as_str(),
                            );
                            let ghost mid = errors_view(errors@);
                            errors.push(e);
                            assert(errors_view(errors@) =~= mid.push(e@));
                        }
                        check_items(&b.items, errors);
                    },
                    None => {},
                }
            },
            ConfigItem::Comment(c) => {
                if !c.trailing_whitespace.as_str().is_empty() {
                    let e = tail_error(c.span.start.line, c.span.end.offset, c.trailing_whitespace.as_str());
                    let ghost mid = errors_view(errors@);
                    errors.push(e);
                    assert(errors_view(errors@) =~= mid.push(e@));
                }
            },
            ConfigItem::BlankLine(bl) => {
                if !bl.content.as_str().is_empty() {
                    let e = tail_error(bl.span.start.line, bl.span.start.offset, bl.content.as_str());
                    let ghost mid = errors_view(errors@);
                    errors.push(e);
                    assert(errors_view(errors@) =~= mid.push(e@));
                }
            },
        }
        proof {
            assert(errors_view(errors@) =~= before + item_trailing_whitespace_errors(item));
        }
        i += 1;
    }
    assert(items@.subrange(0, i as int) =~= items@);
}

} // verus!
