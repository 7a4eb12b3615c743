//! `invalid-directive-context`: a block directive inside a block where
//! nginx does not accept it.
//!
//! `server` may only stand in `http`, `stream` or `mail`; `location` only in
//! `server` or another `location`; `http`, `events`, `stream` and `mail` only
//! in the main context; and so on for a few more block directives. A file
//! included from elsewhere takes the innermost block it is included from as
//! its parent.
use vstd::prelude::*;
use crate::ast::{Config, ConfigItem, ConfigItemV, DirectiveV, items_view, item_view};
use crate::lint::{LintError, LintErrorV, errors_view, error_spec};
use crate::rules::{PluginSpec, PluginSpecV};
use crate::rules::duplicate_directive::immediate_parent_context;
use crate::text::str_eq;

verus! {

/// Reports block directives placed in a parent block that nginx rejects
#[derive(Debug, Default)]
pub struct InvalidDirectiveContextPlugin;

/// The parent blocks where the directive `name` may stand: `None` where it
/// may stand anywhere (every directive without a block, and most with one),
/// an empty list where it may only stand in the main context
pub open spec fn valid_contexts(name: Seq<char>, has_block: bool) -> Option<Seq<Seq<char>>> {
    if !has_block {
        None
    } else if name == "http"@ || name == "events"@ || name == "stream"@ || name == "mail"@ {
        Some(seq![])
    } else if name == "server"@ {
        Some(seq!["http"@, "stream"@, "mail"@])
    } else if name == "location"@ {
        Some(seq!["server"@, "location"@])
    } else if name == "upstream"@ {
        Some(seq!["http"@, "stream"@])
    } else if name == "if"@ {
        Some(seq!["server"@, "location"@])
    } else if name == "limit_except"@ {
        Some(seq!["location"@])
    } else if name == "types"@ {
        Some(seq!["http"@, "server"@, "location"@])
    } else if name == "map"@ || name == "geo"@ {
        Some(seq!["http"@, "stream"@])
    } else {
        None
    }
}

/// `parts` joined by `", "`
pub open spec fn join_comma(parts: Seq<Seq<char>>) -> Seq<char>
    decreases parts.len(),
{
    if parts.len() == 0 {
        seq![]
    } else if parts.len() == 1 {
        parts[0]
    } else {
        join_comma(parts.drop_last()) + ", "@ + parts.last()
    }
}

/// A directive whose parent blocks are `valid` may stand in `parent` (`None`
/// for the main context)
pub open spec fn placed_validly(valid: Seq<Seq<char>>, parent: Option<Seq<char>>) -> bool {
    if valid.len() == 0 {
        parent is None
    } else {
        match parent {
            Some(p) => valid.contains(p),
            None => false,
        }
    }
}

/// The message for the directive `name`, whose parent blocks are `valid`,
/// placed in `parent`
pub open spec fn context_message(
    name: Seq<char>,
    parent: Option<Seq<char>>,
    valid: Seq<Seq<char>>,
) -> Seq<char> {
    let parent_name = match parent {
        Some(p) => p,
        None => "unknown"@,
    };
    if valid.len() == 0 {
        "'"@ + name + "' directive must be in main context, not inside '"@ + parent_name + "'"@
    } else if parent is None {
        "'"@ + name + "' directive must be inside one of: "@ + join_comma(valid)
            + ", not in main context"@
    } else {
        "'"@ + name + "' directive cannot be inside '"@ + parent_name + "', valid contexts: "@
            + join_comma(valid)
    }
}

/// The finding for the directive `d` in `parent`, if it is misplaced
pub open spec fn directive_context_errors(d: DirectiveV, parent: Option<Seq<char>>) -> Seq<
    LintErrorV,
> {
    match valid_contexts(d.name, d.block is Some) {
        Some(valid) => if placed_validly(valid, parent) {
            seq![]
        } else {
            seq![
                error_spec(
                    "invalid-directive-context"@,
                    "syntax"@,
                    context_message(d.name, parent, valid),
                    d.span.start.line as nat,
                    d.span.start.column as nat,
                ),
            ]
        },
        None => seq![],
    }
}

/// The findings for `items`, whose parent block is `parent`, in document
/// order: each directive's own, then those inside its block
pub open spec fn context_errors(items: Seq<ConfigItemV>, parent: Option<Seq<char>>) -> Seq<
    LintErrorV,
>
    decreases items,
{
    if items.len() == 0 {
        seq![]
    } else {
        let before = context_errors(items.subrange(0, items.len() - 1), parent);
        match items[items.len() - 1] {
            ConfigItemV::Directive(d) => {
                let nested = match d.block {
                    Some(b) => context_errors(b.items, Some(d.name)),
                    None => seq![],
                };
                before + directive_context_errors(d, parent) + nested
            },
            _ => before,
        }
    }
}

/// What the rule is
pub open spec fn invalid_directive_context_spec() -> PluginSpecV {
    PluginSpecV {
        name: "invalid-directive-context"@,
        category: "syntax"@,
        description: "Detects directives placed in invalid parent contexts"@,
        severity: "error"@,
        why: "nginx directives must be placed in the correct context (parent block). For example, 'server' can only be inside 'http', 'stream', or 'mail' blocks, and 'location' can only be inside 'server' or another 'location' block. When directives are placed in the wrong context, nginx will fail to start with a configuration error."@,
        references: seq!["https://nginx.org/en/docs/beginners_guide.html"@],
    }
}

/// The parent blocks nginx documents for a block directive `name`: `http`,
/// `events`, `stream` and `mail` only at the top, `server` in `http`,
/// `stream` or `mail`, `location` in `server` or `location`, `upstream`,
/// `map` and `geo` in `http` or `stream`, `if` in `server` or `location`,
/// `limit_except` in `location`, `types` in `http`, `server` or `location`
pub open spec fn documented_placement(name: Seq<char>, parent: Option<Seq<char>>) -> bool {
    let is = |c: Seq<char>| parent == Some(c);
    ||| (name == "http"@ || name == "events"@ || name == "stream"@ || name == "mail"@) && parent is None
    ||| name == "server"@ && (is("http"@) || is("stream"@) || is("mail"@))
    ||| name == "location"@ && (is("server"@) || is("location"@))
    ||| (name == "upstream"@ || name == "map"@ || name == "geo"@) && (is("http"@) || is("stream"@))
    ||| name == "if"@ && (is("server"@) || is("location"@))
    ||| name == "limit_except"@ && is("location"@)
    ||| name == "types"@ && (is("http"@) || is("server"@) || is("location"@))
}

/// The block directives whose parent nginx restricts
pub open spec fn restricted_block(name: Seq<char>) -> bool {
    ||| name == "http"@ || name == "events"@ || name == "stream"@ || name == "mail"@
    ||| name == "server"@ || name == "location"@ || name == "upstream"@ || name == "if"@
    ||| name == "limit_except"@ || name == "types"@ || name == "map"@ || name == "geo"@
}

proof fn lemma_names_differ()
    ensures
        "http"@.len() == 4 && "http"@[0] == 'h',
        "events"@.len() == 6 && "events"@[0] == 'e',
        "stream"@.len() == 6 && "stream"@[0] == 's' && "stream"@[1] == 't',
        "mail"@.len() == 4 && "mail"@[0] == 'm',
        "server"@.len() == 6 && "server"@[0] == 's' && "server"@[1] == 'e',
        "location"@.len() == 8 && "location"@[0] == 'l',
        "upstream"@.len() == 8 && "upstream"@[0] == 'u',
        "if"@.len() == 2 && "if"@[0] == 'i',
        "limit_except"@.len() == 12 && "limit_except"@[0] == 'l',
        "types"@.len() == 5 && "types"@[0] == 't',
        "map"@.len() == 3 && "map"@[0] == 'm',
        "geo"@.len() == 3 && "geo"@[0] == 'g',
{
    reveal_strlit("http");
    reveal_strlit("events");
    reveal_strlit("stream");
    reveal_strlit("mail");
    reveal_strlit("server");
    reveal_strlit("location");
    reveal_strlit("upstream");
    reveal_strlit("if");
    reveal_strlit("limit_except");
    reveal_strlit("types");
    reveal_strlit("map");
    reveal_strlit("geo");
}

proof fn lemma_single_directive(d: DirectiveV, parent: Option<Seq<char>>)
    ensures
        context_errors(seq![ConfigItemV::Directive(d)], parent) == directive_context_errors(d, parent)
            + match d.block {
            Some(b) => context_errors(b.items, Some(d.name)),
            None => Seq::<LintErrorV>::empty(),
        },
{
    let items = seq![ConfigItemV::Directive(d)];
    assert(items.subrange(0, 0) =~= Seq::<ConfigItemV>::empty());
    assert(context_errors(items.subrange(0, 0), parent) =~= Seq::<LintErrorV>::empty());
    assert(items[items.len() - 1] == ConfigItemV::Directive(d));
    let nested = match d.block {
        Some(b) => context_errors(b.items, Some(d.name)),
        None => Seq::<LintErrorV>::empty(),
    };
    assert(context_errors(items, parent) =~= Seq::<LintErrorV>::empty() + directive_context_errors(
        d,
        parent,
    ) + nested);
    assert(Seq::<LintErrorV>::empty() + directive_context_errors(d, parent) + nested
        =~= directive_context_errors(d, parent) + nested);
}

/// A block directive placed where nginx documents it may stand gives no
/// finding of its own: the findings are only those inside its block
pub proof fn lemma_documented_placement_accepted(d: DirectiveV, parent: Option<Seq<char>>)
    requires
        d.block is Some,
        documented_placement(d.name, parent),
    ensures
        context_errors(seq![ConfigItemV::Directive(d)], parent) == context_errors(
            d.block->Some_0.items,
            Some(d.name),
        ),
{
    lemma_names_differ();
    lemma_single_directive(d, parent);
    let items = seq![ConfigItemV::Directive(d)];
    let valid = valid_contexts(d.name, true);
    assert(valid is Some);
    let v = valid->Some_0;
    if v.len() > 0 {
        let p = parent->Some_0;
        assert(v.contains(p)) by {
            if v[0] == p {
            } else if v[1] == p {
            } else {
                assert(v[2] == p);
            }
        }
    }
    assert(directive_context_errors(d, parent) =~= Seq::<LintErrorV>::empty());
    assert(context_errors(items, parent) =~= context_errors(d.block->Some_0.items, Some(d.name)));
}

/// A block directive whose parent nginx restricts, placed anywhere else,
/// gives one error of its own, on its line, before those inside its block
pub proof fn lemma_misplaced_block_reported(d: DirectiveV, parent: Option<Seq<char>>)
    requires
        d.block is Some,
        restricted_block(d.name),
        !documented_placement(d.name, parent),
    ensures
        ({
            let r = context_errors(seq![ConfigItemV::Directive(d)], parent);
            &&& r.len() == 1 + context_errors(d.block->Some_0.items, Some(d.name)).len()
            &&& r[0].rule == "invalid-directive-context"@
            &&& r[0].severity == crate::lint::Severity::Error
            &&& r[0].line == Some(d.span.start.line as nat)
            &&& r.skip(1) == context_errors(d.block->Some_0.items, Some(d.name))
        }),
{
    lemma_names_differ();
    lemma_single_directive(d, parent);
    let items = seq![ConfigItemV::Directive(d)];
    let valid = valid_contexts(d.name, true);
    assert(valid is Some);
    let v = valid->Some_0;
    assert(!placed_validly(v, parent)) by {
        if v.len() > 0 && parent is Some {
            let p = parent->Some_0;
            if v.contains(p) {
                let i = choose|i: int| 0 <= i < v.len() && v[i] == p;
                assert(v[i] == p);
            }
        }
    }
    let nested = context_errors(d.block->Some_0.items, Some(d.name));
    let r = context_errors(items, parent);
    assert(r =~= directive_context_errors(d, parent) + nested);
    assert(r.skip(1) =~= nested);
}

/// A directive without a block, and a block directive whose parent nginx
/// does not restrict, give no finding of their own anywhere
pub proof fn lemma_unrestricted_accepted(d: DirectiveV, parent: Option<Seq<char>>)
    requires
        d.block is None || !restricted_block(d.name),
    ensures
        context_errors(seq![ConfigItemV::Directive(d)], parent) == match d.block {
            Some(b) => context_errors(b.items, Some(d.name)),
            None => Seq::<LintErrorV>::empty(),
        },
{
    lemma_names_differ();
    lemma_single_directive(d, parent);
    let items = seq![ConfigItemV::Directive(d)];
    assert(valid_contexts(d.name, d.block is Some) is None);
    assert(directive_context_errors(d, parent) =~= Seq::<LintErrorV>::empty());
    assert(context_errors(items, parent) =~= match d.block {
        Some(b) => context_errors(b.items, Some(d.name)),
        None => Seq::<LintErrorV>::empty(),
    });
}

/// [`valid_contexts`]
fn valid_contexts_of(name: &str, has_block: bool) -> (r: Option<Vec<&'static str>>)
    ensures
        match r {
            Some(v) => valid_contexts(name@, has_block) == Some(
                v@.map_values(|s: &'static str| s@),
            ),
            None => valid_contexts(name@, has_block) is None,
        },
{
    if !has_block {
        return None;
    }
    let v: Vec<&'static str> = if str_eq(name, "http") || str_eq(name, "events") || str_eq(
        name,
        "stream",
    ) || str_eq(name, "mail") {
        vec![]
    } else if str_eq(name, "server") {
        vec!["http", "stream", "mail"]
    } else if str_eq(name, "location") {
        vec!["server", "location"]
    } else if str_eq(name, "upstream") {
        vec!["http", "stream"]
    } else if str_eq(name, "if") {
        vec!["server", "location"]
    } else if str_eq(name, "limit_except") {
        vec!["location"]
    } else if str_eq(name, "types") {
        vec!["http", "server", "location"]
    } else if str_eq(name, "map") || str_eq(name, "geo") {
        vec!["http", "stream"]
    } else {
        return None;
    };
    assert(valid_contexts(name@, has_block) == Some(v@.map_values(|s: &'static str| s@)));
    Some(v)
}

/// [`placed_validly`]
fn placed_validly_in(valid: &Vec<&'static str>, parent: Option<&str>) -> (r: bool)
    ensures
        r == placed_validly(
            valid@.map_values(|s: &'static str| s@),
            match parent {
                Some(p) => Some(p@),
                None => None,
            },
        ),
{
    let ghost vv = valid@.map_values(|s: &'static str| s@);
    if valid.len() == 0 {
        return parent.is_none();
    }
    match parent {
        None => false,
        Some(p) => {
            let mut k: usize = 0;
            while k < valid.len()
                invariant
                    vv == valid@.map_values(|s: &'static str| s@),
                    valid@.len() > 0,
                    parent == Some(p),
                    k <= valid@.len(),
                    forall|j: int| 0 <= j < k ==> vv[j] != p@,
                decreases valid@.len() - k,
            {
                if str_eq(valid[k], p) {
                    assert(vv[k as int] == p@);
                    assert(vv.contains(p@));
                    return true;
                }
                k += 1;
            }
            assert(!vv.contains(p@));
            false
        },
    }
}

/// [`join_comma`]
fn join_comma_of(parts: &Vec<&'static str>) -> (s: String)
    ensures
        s@ == join_comma(parts@.map_values(|p: &'static str| p@)),
{
    let ghost pv = parts@.map_values(|p: &'static str| p@);
    let mut s = String::new();
    proof {
        reveal_strlit("");
        assert(s@ =~= join_comma(pv.take(0)));
    }
    for k in 0..parts.len()
        invariant
            pv == parts@.map_values(|p: &'static str| p@),
            s@ == join_comma(pv.take(k as int)),
    {
        assert(pv.take(k + 1).drop_last() =~= pv.take(k as int));
        if k > 0 {
            s.append(", ");
        }
        s.append(parts[k]);
        if k == 0 {
            assert(s@ =~= join_comma(pv.take(1)));
        } else {
            assert(s@ =~= join_comma(pv.take(k + 1)));
        }
    }
    assert(pv.take(parts@.len() as int) =~= pv);
    s
}

impl InvalidDirectiveContextPlugin {
    /// What the rule is
    pub fn spec(&self) -> (s: PluginSpec)
        ensures
            s@ == invalid_directive_context_spec(),
    {
        let references = vec!["https://nginx.org/en/docs/beginners_guide.html".to_owned()];
        assert(references@.map_values(|r: String| r@) =~= seq![
            "https://nginx.org/en/docs/beginners_guide.html"@,
        ]);
        PluginSpec::new(
            "invalid-directive-context",
            "syntax",
            "Detects directives placed in invalid parent contexts",
            "nginx directives must be placed in the correct context (parent block). For example, 'server' can only be inside 'http', 'stream', or 'mail' blocks, and 'location' can only be inside 'server' or another 'location' block. When directives are placed in the wrong context, nginx will fail to start with a configuration error.",
        ).with_severity("error").with_references(references)
    }

    /// The findings for `config`, in document order; a file included from a
    /// block has the innermost such block as its parent
    pub fn check(&self, config: &Config, path: &str) -> (errors: Vec<LintError>)
        ensures
            errors_view(errors@) == context_errors(
                items_view(config.items@),
                immediate_parent_context(config.include_context@),
            ),
    {
        let mut errors: Vec<LintError> = Vec::new();
        let parent: Option<&str> = if config.include_context.len() > 0 {
            Some(config.include_context[config.include_context.len() - 1].as_str())
        } else {
            None
        };
        check_block(&config.items, parent, &mut errors);
        assert(errors_view(errors@) =~= context_errors(
            items_view(config.items@),
            immediate_parent_context(config.include_context@),
        ));
        errors
    }
}

/// Pushes the findings for `items`, whose parent block is `parent`
fn check_block(items: &Vec<ConfigItem>, parent: Option<&str>, errors: &mut Vec<LintError>)
    ensures
        errors_view(final(errors)@) == errors_view(old(errors)@) + context_errors(
            items_view(items@),
            match parent {
                Some(p) => Some(p@),
                None => None,
            },
        ),
    decreases items@,
{
    let ghost par = match parent {
        Some(p) => Some(p@),
        None => None::<Seq<char>>,
    };
    let ghost start = errors_view(errors@);
    let mut i: usize = 0;
    proof {
        assert(items@.subrange(0, 0) =~= Seq::<ConfigItem>::empty());
        assert(start =~= start + context_errors(items_view(items@.subrange(0, 0)), par));
    }
    while i < items.len()
        invariant
            i <= items@.len(),
            par == match parent {
                Some(p) => Some(p@),
                None => None::<Seq<char>>,
            },
            errors_view(errors@) == start + context_errors(
                items_view(items@.subrange(0, i as int)),
                par,
            ),
        decreases items@.len() - i,
    {
        let ghost item = item_view(items@[i as int]);
        let ghost pre = items@.subrange(0, i as int);
        let ghost pre1 = items@.subrange(0, i + 1);
        proof {
            assert(pre1.subrange(0, i as int) =~= pre);
            assert(items_view(pre1) == items_view(pre).push(item));
            let v1 = items_view(pre1);
            assert(v1.subrange(0, v1.len() - 1) =~= items_view(pre));
            assert(v1[v1.len() - 1] == item);
        }
        match &items[i] {
            ConfigItem::Directive(d) => {
                let ghost dv = crate::ast::directive_view(**d);
                let ghost before = errors_view(errors@);
                match valid_contexts_of(d.name.as_str(), d.block.is_some()) {
                    Some(valid) => {
                        if !placed_validly_in(&valid, parent) {
                            let name = d.name.as_str();
                            let mut message = "'".to_owned();
                            message.append(name);
                            if valid.len() == 0 {
                                message.append("' directive must be in main context, not inside '");
                                match parent {
                                    Some(p) => message.append(p),
                                    None => message.append("unknown"),
                                }
                                message.append("'");
                            } else {
                                match parent {
                                    None => {
                                        message.append("' directive must be inside one of: ");
                                        let joined = join_comma_of(&valid);
                                        message.append(joined.as_str());
                                        message.append(", not in main context");
                                    },
                                    Some(p) => {
                                        message.append("' directive cannot be inside '");
                                        message.append(p);
                                        message.append("', valid contexts: ");
                                        let joined = join_comma_of(&valid);
                                        message.append(joined.as_str());
                                    },
                                }
                            }
                            let e = LintError::error(
                                "invalid-directive-context",
                                "syntax",
                                message.as_str(),
                                d.span.start.line,
                                d.span.start.column,
                            );
                            assert(seq![e@] == directive_context_errors(dv, par));
                            errors.push(e);
                            assert(errors_view(errors@) =~= before + directive_context_errors(dv, par));
                        } else {
                            assert(errors_view(errors@) =~= before + directive_context_errors(dv, par));
                        }
                    },
                    None => {
                        assert(errors_view(errors@) =~= before + directive_context_errors(dv, par));
                    },
                }
                let ghost mid = errors_view(errors@);
                match &d.block {
                    Some(b) => {
                        check_block(&b.items, Some(d.name.as_str()), errors);
                    },
                    None => {},
                }
                proof {
                    assert(errors_view(errors@) == mid + match dv.block {
                        Some(bv) => context_errors(bv.items, Some(dv.name)),
                        None => seq![],
                    });
                }
            },
            _ => {},
        }
        proof {
            assert(errors_view(errors@) =~= start + context_errors(items_view(pre1), par));
        }
        i += 1;
    }
    assert(items@.subrange(0, i as int) =~= items@);
}

} // verus!
