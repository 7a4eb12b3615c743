//! `duplicate-directive`: a directive that may appear once per context,
//! given twice in the same block.
//!
//! Which directives must be unique depends on the enclosing block (`http`,
//! `server`, `location`, `upstream`, or the main context); a configuration
//! file included from elsewhere takes the innermost block it is included
//! from as its context. Every repetition after the first is a finding, whose
//! fix deletes its line.
use vstd::prelude::*;
use crate::ast::{
    Config, ConfigItem, ConfigItemV, DirectiveV, items_view, item_view, lemma_items_view_index,
};
use crate::lint::{Fix, LintError, LintErrorV, errors_view, warning, warning_spec, delete_fix};
use crate::rules::{PluginSpec, PluginSpecV};
use crate::text::{decimal, push_decimal, str_eq};

verus! {

/// Reports repeated directives that may appear once per context
#[derive(Debug, Default)]
pub struct DuplicateDirectivePlugin;

/// The directives that may appear once in the context `context` (the name of
/// the enclosing block, `None` for the main context)
pub open spec fn unique_directives(context: Option<Seq<char>>) -> Seq<Seq<char>> {
    match context {
        None => seq![
            "worker_processes"@,
            "pid"@,
            "error_log"@,
            "user"@,
            "daemon"@,
            "master_process"@,
            "timer_resolution"@,
            "lock_file"@,
            "pcre_jit"@,
            "thread_pool"@,
        ],
        Some(c) => if c == "http"@ {
            seq![
                "default_type"@,
                "sendfile"@,
                "tcp_nopush"@,
                "tcp_nodelay"@,
                "keepalive_timeout"@,
                "types_hash_max_size"@,
                "server_names_hash_bucket_size"@,
                "server_names_hash_max_size"@,
                "variables_hash_max_size"@,
                "variables_hash_bucket_size"@,
            ]
        } else if c == "server"@ {
            seq![
                "root"@,
                "index"@,
                "server_tokens"@,
                "client_max_body_size"@,
                "access_log"@,
                "error_log"@,
            ]
        } else if c == "location"@ {
            seq![
                "root"@,
                "alias"@,
                "index"@,
                "try_files"@,
                "internal"@,
                "autoindex"@,
                "client_max_body_size"@,
            ]
        } else if c == "upstream"@ {
            seq![
                "hash"@,
                "ip_hash"@,
                "least_conn"@,
                "random"@,
                "keepalive"@,
                "keepalive_requests"@,
                "keepalive_timeout"@,
                "zone"@,
            ]
        } else {
            seq![]
        },
    }
}

/// The line where `name` was first given, in a list of first occurrences
pub open spec fn first_line_of(seen: Seq<(Seq<char>, nat)>, name: Seq<char>) -> Option<nat>
    decreases seen.len(),
{
    if seen.len() == 0 {
        None
    } else if seen[0].0 == name {
        Some(seen[0].1)
    } else {
        first_line_of(seen.drop_first(), name)
    }
}

/// The finding for directive `d`, a repetition in `context` of the
/// directive first given on line `first`
pub open spec fn duplicate_error(d: DirectiveV, context: Option<Seq<char>>, first: nat) -> LintErrorV {
    let context_name = match context {
        Some(c) => c,
        None => "main"@,
    };
    LintErrorV {
        fix: Some(delete_fix(d.span.start.line as nat)),
        ..warning_spec(
            "duplicate-directive"@,
            "syntax"@,
            "Duplicate '"@ + d.name + "' directive in "@ + context_name
                + " context (first defined on line "@ + decimal(first) + ")"@,
            d.span.start.line as nat,
            d.span.start.column as nat,
        )
    }
}

/// Going through `items`, whose enclosing block is `context`: the findings,
/// in document order, and the first occurrences of the unique directives
pub open spec fn duplicate_scan(items: Seq<ConfigItemV>, context: Option<Seq<char>>) -> (
    Seq<LintErrorV>,
    Seq<(Seq<char>, nat)>,
)
    decreases items,
{
    if items.len() == 0 {
        (seq![], seq![])
    } else {
        let (errors, seen) = duplicate_scan(items.subrange(0, items.len() - 1), context);
        match items[items.len() - 1] {
            ConfigItemV::Directive(d) => {
                let unique = unique_directives(context).contains(d.name);
                let own = if unique && first_line_of(seen, d.name) is Some {
                    seq![duplicate_error(d, context, first_line_of(seen, d.name).unwrap())]
                } else {
                    seq![]
                };
                let seen2 = if unique && first_line_of(seen, d.name) is None {
                    seen.push((d.name, d.span.start.line as nat))
                } else {
                    seen
                };
                let nested = match d.block {
                    Some(b) => duplicate_scan(b.items, Some(d.name)).0,
                    None => seq![],
                };
                (errors + own + nested, seen2)
            },
            _ => (errors, seen),
        }
    }
}

/// The findings for `items`, whose enclosing block is `context`
pub open spec fn duplicate_errors(items: Seq<ConfigItemV>, context: Option<Seq<char>>) -> Seq<
    LintErrorV,
> {
    duplicate_scan(items, context).0
}

/// The directives nginx allows once per block of kind `context` (`None`
/// for the main context): in the main context `worker_processes`, `pid`,
/// `error_log`, `user`, `daemon`, `master_process`, `timer_resolution`,
/// `lock_file`, `pcre_jit`, `thread_pool`; in `http` the type, transfer and
/// hash-size settings; in `server` `root`, `index`, `server_tokens`,
/// `client_max_body_size`, `access_log`, `error_log`; in `location` `root`,
/// `alias`, `index`, `try_files`, `internal`, `autoindex`,
/// `client_max_body_size`; in `upstream` the balancing method, keepalive
/// settings and `zone`
pub open spec fn documented_once(context: Option<Seq<char>>, name: Seq<char>) -> bool {
    match context {
        None => seq![
            "worker_processes"@, "pid"@, "error_log"@, "user"@, "daemon"@, "master_process"@,
            "timer_resolution"@, "lock_file"@, "pcre_jit"@, "thread_pool"@,
        ].contains(name),
        Some(c) => {
            ||| c == "http"@ && seq![
                "default_type"@, "sendfile"@, "tcp_nopush"@, "tcp_nodelay"@, "keepalive_timeout"@,
                "types_hash_max_size"@, "server_names_hash_bucket_size"@,
                "server_names_hash_max_size"@, "variables_hash_max_size"@,
                "variables_hash_bucket_size"@,
            ].contains(name)
            ||| c == "server"@ && seq![
                "root"@, "index"@, "server_tokens"@, "client_max_body_size"@, "access_log"@,
                "error_log"@,
            ].contains(name)
            ||| c == "location"@ && seq![
                "root"@, "alias"@, "index"@, "try_files"@, "internal"@, "autoindex"@,
                "client_max_body_size"@,
            ].contains(name)
            ||| c == "upstream"@ && seq![
                "hash"@, "ip_hash"@, "least_conn"@, "random"@, "keepalive"@,
                "keepalive_requests"@, "keepalive_timeout"@, "zone"@,
            ].contains(name)
        },
    }
}

/// `item` is a directive named `name`
pub open spec fn directive_named(item: ConfigItemV, name: Seq<char>) -> bool {
    item matches ConfigItemV::Directive(d) && d.name == name
}

/// The line where the item `item`, a directive, starts
pub open spec fn directive_line(item: ConfigItemV) -> nat {
    match item {
        ConfigItemV::Directive(d) => d.span.start.line as nat,
        _ => 0,
    }
}

/// The first line recorded for `name` after one more record `x`
proof fn lemma_first_line_push(seen: Seq<(Seq<char>, nat)>, x: (Seq<char>, nat), name: Seq<char>)
    ensures
        first_line_of(seen.push(x), name) == if first_line_of(seen, name) is Some {
            first_line_of(seen, name)
        } else if x.0 == name {
            Some(x.1)
        } else {
            None
        },
    decreases seen.len(),
{
    if seen.len() > 0 {
        assert(seen.push(x)[0] == seen[0]);
        assert(seen.push(x).drop_first() =~= seen.drop_first().push(x));
        lemma_first_line_push(seen.drop_first(), x, name);
    } else {
        assert(seen.push(x).drop_first() =~= Seq::<(Seq<char>, nat)>::empty());
        assert(first_line_of(seen.push(x).drop_first(), name) is None);
        assert(seen.push(x)[0] == x);
        assert(first_line_of(seen, name) is None);
    }
}

proof fn lemma_context_names_differ()
    ensures
        "http"@.len() == 4,
        "server"@.len() == 6,
        "location"@.len() == 8 && "location"@[0] == 'l',
        "upstream"@.len() == 8 && "upstream"@[0] == 'u',
{
    reveal_strlit("http");
    reveal_strlit("server");
    reveal_strlit("location");
    reveal_strlit("upstream");
}

/// After going through `items`, the line recorded for a once-only `name`
/// is that of its first directive, and none is recorded when there is none
proof fn lemma_scan_first_line(items: Seq<ConfigItemV>, context: Option<Seq<char>>, name: Seq<char>)
    requires
        unique_directives(context).contains(name),
    ensures
        (forall|k: int| 0 <= k < items.len() ==> !directive_named(#[trigger] items[k], name))
            ==> first_line_of(duplicate_scan(items, context).1, name) is None,
        forall|i: int|
            0 <= i < items.len() && directive_named(#[trigger] items[i], name) && (forall|k: int|
                0 <= k < i ==> !directive_named(#[trigger] items[k], name)) ==> first_line_of(
                duplicate_scan(items, context).1,
                name,
            ) == Some(directive_line(items[i])),
    decreases items.len(),
{
    if items.len() > 0 {
        let last = items.len() - 1;
        let pre = items.subrange(0, last);
        lemma_scan_first_line(pre, context, name);
        assert forall|k: int| 0 <= k < pre.len() implies pre[k] == items[k] by {}
        let (errors, seen) = duplicate_scan(pre, context);
        match items[last] {
            ConfigItemV::Directive(d) => {
                lemma_first_line_push(seen, (d.name, d.span.start.line as nat), name);
            },
            _ => {},
        }
        assert forall|i: int|
            0 <= i < items.len() && directive_named(#[trigger] items[i], name) && (forall|k: int|
                0 <= k < i ==> !directive_named(#[trigger] items[k], name)) implies first_line_of(
            duplicate_scan(items, context).1,
            name,
        ) == Some(directive_line(items[i])) by {
            if i < last {
                assert(directive_named(pre[i], name));
                assert forall|k: int| 0 <= k < i implies !directive_named(#[trigger] pre[k], name) by {
                    assert(!directive_named(items[k], name));
                }
            } else {
                assert forall|k: int| 0 <= k < pre.len() implies !directive_named(#[trigger] pre[k], name) by {
                    assert(!directive_named(items[k], name));
                }
            }
        }
        if forall|k: int| 0 <= k < items.len() ==> !directive_named(#[trigger] items[k], name) {
            assert forall|k: int| 0 <= k < pre.len() implies !directive_named(#[trigger] pre[k], name) by {
                assert(!directive_named(items[k], name));
            }
        }
    }
}

/// The findings for the first `k` items come first among those for all
proof fn lemma_scan_prefix(items: Seq<ConfigItemV>, context: Option<Seq<char>>, k: int)
    requires
        0 <= k <= items.len(),
    ensures
        duplicate_scan(items, context).0.len() >= duplicate_scan(items.subrange(0, k), context).0.len(),
        duplicate_scan(items, context).0.take(
            duplicate_scan(items.subrange(0, k), context).0.len() as int,
        ) == duplicate_scan(items.subrange(0, k), context).0,
    decreases items.len() - k,
{
    if k == items.len() {
        assert(items.subrange(0, k) =~= items);
        let e = duplicate_scan(items, context).0;
        assert(e.take(e.len() as int) =~= e);
    } else {
        let pre = items.subrange(0, items.len() - 1);
        lemma_scan_prefix_step(items, context);
        if k < items.len() {
            lemma_scan_prefix(pre, context, k);
            assert(pre.subrange(0, k) =~= items.subrange(0, k));
            let a = duplicate_scan(items.subrange(0, k), context).0;
            let b = duplicate_scan(pre, context).0;
            let c = duplicate_scan(items, context).0;
            assert(c.take(a.len() as int) =~= b.take(a.len() as int));
        }
    }
}

proof fn lemma_scan_prefix_step(items: Seq<ConfigItemV>, context: Option<Seq<char>>)
    requires
        items.len() > 0,
    ensures
        ({
            let b = duplicate_scan(items.subrange(0, items.len() - 1), context).0;
            let c = duplicate_scan(items, context).0;
            c.len() >= b.len() && c.take(b.len() as int) == b
        }),
{
    let b = duplicate_scan(items.subrange(0, items.len() - 1), context).0;
    let c = duplicate_scan(items, context).0;
    assert(c.take(b.len() as int) =~= b);
}

/// A directive allowed once in its block, given a second time, is reported
/// on the line of the repetition, as a duplicate of the first, with a fix
/// that deletes the repeated line
pub proof fn lemma_repeated_directive_reported(
    items: Seq<ConfigItemV>,
    context: Option<Seq<char>>,
    name: Seq<char>,
    i: int,
    j: int,
)
    requires
        documented_once(context, name),
        0 <= i < j < items.len(),
        directive_named(items[i], name),
        directive_named(items[j], name),
        forall|k: int| 0 <= k < i ==> !directive_named(#[trigger] items[k], name),
    ensures
        exists|m: int|
            0 <= m < duplicate_errors(items, context).len() && {
                let e = #[trigger] duplicate_errors(items, context)[m];
                &&& e.rule == "duplicate-directive"@
                &&& e.line == Some(directive_line(items[j]))
                &&& e.message == "Duplicate '"@ + name + "' directive in "@ + (match context {
                    Some(c) => c,
                    None => "main"@,
                }) + " context (first defined on line "@ + decimal(directive_line(items[i]))
                    + ")"@
                &&& e.fix == Some(
                    crate::lint::FixV {
                        line: directive_line(items[j]),
                        old_text: None,
                        new_text: seq![],
                        delete_line: true,
                        insert_after: false,
                        start_offset: None,
                        end_offset: None,
                    },
                )
            },
{
    lemma_context_names_differ();
    assert(unique_directives(context).contains(name)) by {
        let u = unique_directives(context);
        match context {
            None => {
                let l = seq![
                    "worker_processes"@, "pid"@, "error_log"@, "user"@, "daemon"@, "master_process"@,
                    "timer_resolution"@, "lock_file"@, "pcre_jit"@, "thread_pool"@,
                ];
                assert(u == l);
            },
            Some(c) => {
                if c == "http"@ {
                } else if c == "server"@ {
                } else if c == "location"@ {
                } else {
                }
            },
        }
    }
    let pre = items.subrange(0, j);
    assert forall|k: int| 0 <= k < pre.len() implies pre[k] == items[k] by {}
    lemma_scan_first_line(pre, context, name);
    assert(directive_named(pre[i], name));
    assert forall|k: int| 0 <= k < i implies !directive_named(#[trigger] pre[k], name) by {
        assert(!directive_named(items[k], name));
    }
    let upto = items.subrange(0, j + 1);
    assert(upto.subrange(0, j) =~= pre);
    assert(upto[j] == items[j]);
    let (errors, seen) = duplicate_scan(pre, context);
    let d = items[j]->Directive_0;
    let err = duplicate_error(d, context, directive_line(items[i]));
    let r = duplicate_scan(upto, context).0;
    assert(r[errors.len() as int] == err);
    lemma_scan_prefix(items, context, j + 1);
    let all = duplicate_scan(items, context).0;
    assert(all[errors.len() as int] == r[errors.len() as int]);
    assert(duplicate_errors(items, context)[errors.len() as int] == err);
}

/// Some directive of `items` (or of a block inside them) at line `line`
/// repeats, in the same block, a directive allowed once there
pub open spec fn repeat_in(items: Seq<ConfigItemV>, context: Option<Seq<char>>, line: nat) -> bool
    decreases items,
{
    if items.len() == 0 {
        false
    } else {
        let pre = items.subrange(0, items.len() - 1);
        repeat_in(pre, context, line) || match items[items.len() - 1] {
            ConfigItemV::Directive(d) => {
                ||| documented_once(context, d.name) && line == d.span.start.line && exists|k: int|
                    0 <= k < pre.len() && directive_named(#[trigger] pre[k], d.name)
                ||| match d.block {
                    Some(b) => repeat_in(b.items, Some(d.name), line),
                    None => false,
                }
            },
            _ => false,
        }
    }
}

/// `e` is a duplicate-directive finding on the line of such a repetition
pub open spec fn reports_repeat(items: Seq<ConfigItemV>, context: Option<Seq<char>>, e: LintErrorV) -> bool {
    &&& e.rule == "duplicate-directive"@
    &&& exists|line: nat| #[trigger] repeat_in(items, context, line) && e.line == Some(line)
}

proof fn lemma_unique_is_documented(context: Option<Seq<char>>, name: Seq<char>)
    requires
        unique_directives(context).contains(name),
    ensures
        documented_once(context, name),
{
}

/// Every finding reports a directive that repeats, in its own block, one
/// allowed once there: nothing else is reported
pub proof fn lemma_findings_are_repeats(items: Seq<ConfigItemV>, context: Option<Seq<char>>)
    ensures
        forall|m: int|
            0 <= m < duplicate_errors(items, context).len() ==> reports_repeat(
                items,
                context,
                #[trigger] duplicate_errors(items, context)[m],
            ),
    decreases items,
{
    if items.len() > 0 {
        let pre = items.subrange(0, items.len() - 1);
        let (errors, seen) = duplicate_scan(pre, context);
        lemma_findings_are_repeats(pre, context);
        let r = duplicate_errors(items, context);
        match items[items.len() - 1] {
            ConfigItemV::Directive(d) => {
                let unique = unique_directives(context).contains(d.name);
                let own = if unique && first_line_of(seen, d.name) is Some {
                    seq![duplicate_error(d, context, first_line_of(seen, d.name).unwrap())]
                } else {
                    seq![]
                };
                let nested = match d.block {
                    Some(b) => duplicate_scan(b.items, Some(d.name)).0,
                    None => seq![],
                };
                assert(r == errors + own + nested);
                if unique {
                    lemma_scan_first_line(pre, context, d.name);
                    lemma_unique_is_documented(context, d.name);
                }
                match d.block {
                    Some(b) => lemma_findings_are_repeats(b.items, Some(d.name)),
                    None => {},
                }
                assert forall|m: int| 0 <= m < r.len() implies reports_repeat(items, context, #[trigger] r[m]) by {
                    if m < errors.len() {
                        assert(r[m] == errors[m]);
                        assert(duplicate_errors(pre, context)[m] == errors[m]);
                        assert(reports_repeat(pre, context, errors[m]));
                        let line = choose|line: nat| #[trigger] repeat_in(pre, context, line) && errors[m].line
                            == Some(line);
                        assert(repeat_in(items, context, line));
                    } else if m < errors.len() + own.len() {
                        assert(r[m] == own[0]);
                        let line = d.span.start.line as nat;
                        assert(first_line_of(seen, d.name) is Some);
                        assert(exists|k: int| 0 <= k < pre.len() && directive_named(#[trigger] pre[k], d.name));
                        assert(repeat_in(items, context, line));
                    } else {
                        let b = d.block->Some_0;
                        let k = m - errors.len() - own.len();
                        assert(r[m] == nested[k]);
                        assert(duplicate_errors(b.items, Some(d.name))[k] == nested[k]);
                        assert(reports_repeat(b.items, Some(d.name), nested[k]));
                        let line = choose|line: nat| #[trigger] repeat_in(b.items, Some(d.name), line)
                            && nested[k].line == Some(line);
                        assert(repeat_in(items, context, line));
                    }
                }
            },
            _ => {
                assert(r == errors);
                assert forall|m: int| 0 <= m < r.len() implies reports_repeat(items, context, #[trigger] r[m]) by {
                    assert(duplicate_errors(pre, context)[m] == errors[m]);
                    assert(reports_repeat(pre, context, errors[m]));
                    let line = choose|line: nat| #[trigger] repeat_in(pre, context, line) && errors[m].line
                        == Some(line);
                    assert(repeat_in(items, context, line));
                }
            },
        }
    }
}

/// The innermost block a file is included from, if any
pub open spec fn immediate_parent_context(include_context: Seq<String>) -> Option<Seq<char>> {
    if include_context.len() == 0 {
        None
    } else {
        Some(include_context.last()@)
    }
}

/// `name` may appear once in `context`
fn is_unique_in(context: Option<&str>, name: &str) -> (r: bool)
    ensures
        r == unique_directives(
            match context {
                Some(c) => Some(c@),
                None => None,
            },
        ).contains(name@),
{
    let ghost ctx = match context {
        Some(c) => Some(c@),
        None => None,
    };
    let table: Vec<&str> = match context {
        None => vec![
            "worker_processes",
            "pid",
            "error_log",
            "user",
            "daemon",
            "master_process",
            "timer_resolution",
            "lock_file",
            "pcre_jit",
            "thread_pool",
        ],
        Some(c) => if str_eq(c, "http") {
            vec![
                "default_type",
                "sendfile",
                "tcp_nopush",
                "tcp_nodelay",
                "keepalive_timeout",
                "types_hash_max_size",
                "server_names_hash_bucket_size",
                "server_names_hash_max_size",
                "variables_hash_max_size",
                "variables_hash_bucket_size",
            ]
        } else if str_eq(c, "server") {
            vec!["root", "index", "server_tokens", "client_max_body_size", "access_log", "error_log"]
        } else if str_eq(c, "location") {
            vec![
                "root",
                "alias",
                "index",
                "try_files",
                "internal",
                "autoindex",
                "client_max_body_size",
            ]
        } else if str_eq(c, "upstream") {
            vec![
                "hash",
                "ip_hash",
                "least_conn",
                "random",
                "keepalive",
                "keepalive_requests",
                "keepalive_timeout",
                "zone",
            ]
        } else {
            vec![]
        },
    };
    let ghost want = unique_directives(ctx);
    assert(table@.len() == want.len());
    assert(forall|j: int| 0 <= j < want.len() ==> #[trigger] table@[j]@ == want[j]);
    let n = table.len();
    let mut k: usize = 0;
    while k < n
        invariant
            n == table@.len() == want.len(),
            ctx == match context {
                Some(c) => Some(c@),
                None => None::<Seq<char>>,
            },
            want == unique_directives(ctx),
            forall|j: int| 0 <= j < want.len() ==> #[trigger] table@[j]@ == want[j],
            k <= n,
            forall|j: int| 0 <= j < k ==> want[j] != name@,
        decreases n - k,
    {
        if str_eq(table[k], name) {
            assert(want[k as int] == name@);
            assert(want.contains(name@));
            return true;
        }
        k += 1;
    }
    false
}

/// The line where `name` was first given, from the first occurrences seen so far
fn lookup_first(seen: &Vec<(String, usize)>, name: &str) -> (r: Option<usize>)
    ensures
        match r {
            Some(l) => first_line_of(seen_view(seen@), name@) == Some(l as nat),
            None => first_line_of(seen_view(seen@), name@) is None,
        },
{
    let n = seen.len();
    let mut k: usize = 0;
    assert(seen_view(seen@).skip(0) =~= seen_view(seen@));
    while k < n
        invariant
            n == seen@.len(),
            k <= n,
            first_line_of(seen_view(seen@), name@) == first_line_of(
                seen_view(seen@).skip(k as int),
                name@,
            ),
        decreases n - k,
    {
        let ghost rest = seen_view(seen@).skip(k as int);
        assert(rest[0] == (seen@[k as int].0@, seen@[k as int].1 as nat));
        if str_eq(seen[k].0.as_str(), name) {
            return Some(seen[k].1);
        }
        assert(rest.drop_first() =~= seen_view(seen@).skip(k + 1));
        k += 1;
    }
    assert(seen_view(seen@).skip(n as int) =~= Seq::<(Seq<char>, nat)>::empty());
    None
}

pub open spec fn seen_view(seen: Seq<(String, usize)>) -> Seq<(Seq<char>, nat)> {
    seen.map_values(|p: (String, usize)| (p.0@, p.1 as nat))
}

/// What the rule is
pub open spec fn duplicate_directive_spec() -> PluginSpecV {
    PluginSpecV {
        name: "duplicate-directive"@,
        category: "syntax"@,
        description: "Detects duplicate directives in the same context"@,
        severity: "warning"@,
        why: "Some directives cannot be specified multiple times in the same context. When duplicated, nginx may use only the last value or throw an error. Duplicate directives often indicate unintentional configuration mistakes and should be reviewed."@,
        references: seq![],
    }
}

impl DuplicateDirectivePlugin {
    /// What the rule is
    pub fn spec(&self) -> (s: PluginSpec)
        ensures
            s@ == duplicate_directive_spec(),
    {
        PluginSpec::new(
            "duplicate-directive",
            "syntax",
            "Detects duplicate directives in the same context",
            "Some directives cannot be specified multiple times in the same context. When duplicated, nginx may use only the last value or throw an error. Duplicate directives often indicate unintentional configuration mistakes and should be reviewed.",
        )
    }

    /// The findings for `config`, in document order; a file included from a
    /// block is checked in the context of the innermost such block
    pub fn check(&self, config: &Config, path: &str) -> (errors: Vec<LintError>)
        ensures
            errors_view(errors@) == duplicate_errors(
                items_view(config.items@),
                immediate_parent_context(config.include_context@),
            ),
    {
        let mut errors: Vec<LintError> = Vec::new();
        let parent: Option<&str> = if config.include_context.len() > 0 {
            Some(config.include_context[config.include_context.len() - 1].as_str())
        } else {
            None
        };
        check_block(&config.items, parent, &mut errors);
        assert(errors_view(errors@) =~= duplicate_errors(
            items_view(config.items@),
            immediate_parent_context(config.include_context@),
        ));
        errors
    }
}

/// Pushes the findings for `items`, whose enclosing block is `context`
fn check_block(items: &Vec<ConfigItem>, context: Option<&str>, errors: &mut Vec<LintError>)
    ensures
        errors_view(final(errors)@) == errors_view(old(errors)@) + duplicate_errors(
            items_view(items@),
            match context {
                Some(c) => Some(c@),
                None => None,
            },
        ),
    decreases items@,
{
    let ghost ctx = match context {
        Some(c) => Some(c@),
        None => None::<Seq<char>>,
    };
    let ghost start = errors_view(errors@);
    let mut seen: Vec<(String, usize)> = Vec::new();
    let mut i: usize = 0;
    proof {
        assert(items@.subrange(0, 0) =~= Seq::<ConfigItem>::empty());
        assert(start =~= start + duplicate_errors(items_view(items@.subrange(0, 0)), ctx));
        assert(seen_view(seen@) =~= Seq::<(Seq<char>, nat)>::empty());
    }
    while i < items.len()
        invariant
            i <= items@.len(),
            ctx == match context {
                Some(c) => Some(c@),
                None => None::<Seq<char>>,
            },
            errors_view(errors@) == start + duplicate_scan(
                items_view(items@.subrange(0, i as int)),
                ctx,
            ).0,
            seen_view(seen@) == duplicate_scan(items_view(items@.subrange(0, i as int)), ctx).1,
        decreases items@.len() - i,
    {
        let ghost before = errors_view(errors@);
        let ghost seen_before = seen_view(seen@);
        let ghost item = item_view(items@[i as int]);
        let ghost pre = items@.subrange(0, i as int);
        let ghost pre1 = items@.subrange(0, i + 1);
        proof {
            assert(pre1.subrange(0, i as int) =~= pre);
            assert(items_view(pre1) == items_view(pre).push(item));
            let v1 = items_view(pre1);
            assert(v1.subrange(0, v1.len() - 1) =~= items_view(pre));
            assert(v1[v1.len() - 1] == item);
        }
        match &items[i] {
            ConfigItem::Directive(d) => {
                let ghost dv = crate::ast::directive_view(**d);
                if is_unique_in(context, d.name.as_str()) {
                    match lookup_first(&seen, d.name.as_str()) {
                        Some(first_line) => {
                            let mut message = "Duplicate '".to_owned();
                            message.append(d.name.as_str());
                            message.append("' directive in ");
                            match context {
                                Some(c) => message.append(c),
                                None => message.append("main"),
                            }
                            message.append(" context (first defined on line ");
                            push_decimal(&mut message, first_line);
                            message.append(")");
                            let e = warning(
                                "duplicate-directive",
                                "syntax",
                                message.as_str(),
                                d.span.start.line,
                                d.span.start.column,
                            ).with_fix(Fix::delete(d.span.start.line));
                            assert(e@ == duplicate_error(dv, ctx, first_line as nat));
                            let ghost mid = errors_view(errors@);
                            errors.push(e);
                            assert(errors_view(errors@) =~= mid.push(e@));
                        },
                        None => {
                            let entry = (d.name.clone(), d.span.start.line);
                            seen.push(entry);
                            assert(seen_view(seen@) =~= seen_before.push(
                                (dv.name, dv.span.start.line as nat),
                            ));
                        },
                    }
                }
                let ghost mid = errors_view(errors@);
                match &d.block {
                    Some(b) => {
                        check_block(&b.items, Some(d.name.as_str()), errors);
                    },
                    None => {},
                }
                proof {
                    assert(errors_view(errors@) == mid + match dv.block {
                        Some(bv) => duplicate_scan(bv.items, Some(dv.name)).0,
                        None => seq![],
                    });
                }
            },
            _ => {},
        }
        proof {
            assert(errors_view(errors@) =~= start + duplicate_scan(items_view(pre1), ctx).0);
        }
        i += 1;
    }
    assert(items@.subrange(0, i as int) =~= items@);
}

} // verus!
