//! The decisions of a lint run that do not touch the file system: how the
//! command line is read, which findings are merged, and what the exit code
//! is.
use vstd::prelude::*;
use crate::config::ColorMode;
use crate::ignore::{contains_string, split_on, strings_view};
use crate::lint::{LintError, LintErrorV, Severity, errors_view};
use crate::text::{chars_of, decimal, push_decimal, str_eq, trim_bounds, string_from_range, trim_seq};

verus! {

/// The exit code of a run whose findings are `errors`: 1 when there is an
/// issue (any finding, or with `no_fail_on_warnings` any error), else 0
pub open spec fn exit_status(errors: Seq<LintErrorV>, no_fail_on_warnings: bool) -> u8 {
    let has_issues = if no_fail_on_warnings {
        exists|i: int| 0 <= i < errors.len() && errors[i].severity == Severity::Error
    } else {
        errors.len() > 0
    };
    if has_issues {
        1
    } else {
        0
    }
}

/// Without `--no-fail-on-warnings` any finding fails the run, whatever its
/// severity, and a run without findings succeeds; with it, exactly the runs
/// with a finding of severity error fail; the flag never makes a run fail
pub proof fn lemma_exit_status(errors: Seq<LintErrorV>)
    ensures
        exit_status(errors, false) == (if errors.len() > 0 {
            1u8
        } else {
            0u8
        }),
        exit_status(errors, true) == 1 <==> exists|i: int|
            0 <= i < errors.len() && (#[trigger] errors[i]).severity == Severity::Error,
        exit_status(errors, true) == 0 || exit_status(errors, true) == 1,
        exit_status(errors, true) <= exit_status(errors, false),
{
}

/// The exit code of a run whose findings are `errors`
pub fn exit_code(errors: &Vec<LintError>, no_fail_on_warnings: bool) -> (c: u8)
    ensures
        c == exit_status(errors_view(errors@), no_fail_on_warnings),
{
    if !no_fail_on_warnings {
        return if errors.len() > 0 {
            1
        } else {
            0
        };
    }
    let n = errors.len();
    let mut k: usize = 0;
    while k < n
        invariant
            n == errors@.len(),
            k <= n,
            forall|i: int| 0 <= i < k ==> errors@[i].severity != Severity::Error,
        decreases n - k,
    {
        if errors[k].severity == Severity::Error {
            assert(errors_view(errors@)[k as int].severity == Severity::Error);
            return 1;
        }
        k += 1;
    }
    assert forall|i: int| 0 <= i < errors_view(errors@).len() implies errors_view(
        errors@,
    )[i].severity != Severity::Error by {
        assert(errors_view(errors@)[i] == errors@[i]@);
    }
    0
}

/// Finding `e` says what `f` says: same rule, place and message
pub open spec fn same_finding(e: LintErrorV, f: LintErrorV) -> bool {
    e.rule == f.rule && e.line == f.line && e.column == f.column && e.message == f.message
}

/// `errors` with each of `additional` added, in order, unless a finding
/// already there (one of `errors` or one added before it) says the same
pub open spec fn merged(errors: Seq<LintErrorV>, additional: Seq<LintErrorV>) -> Seq<LintErrorV>
    decreases additional.len(),
{
    if additional.len() == 0 {
        errors
    } else {
        let before = merged(errors, additional.drop_last());
        let e = additional.last();
        if exists|i: int| 0 <= i < before.len() && same_finding(#[trigger] before[i], e) {
            before
        } else {
            before.push(e)
        }
    }
}

fn same_finding_exec(a: &LintError, b: &LintError) -> (r: bool)
    ensures
        r == same_finding(a@, b@),
{
    str_eq(a.rule.as_str(), b.rule.as_str()) && a.line == b.line && a.column == b.column && str_eq(
        a.message.as_str(),
        b.message.as_str(),
    )
}

/// Adds the findings of `additional` to `errors`, dropping those that say
/// what one already there says
pub fn extend_errors_dedup(errors: &mut Vec<LintError>, additional: Vec<LintError>)
    ensures
        errors_view(final(errors)@) == merged(errors_view(old(errors)@), errors_view(additional@)),
{
    let ghost start = errors_view(errors@);
    let ghost add = errors_view(additional@);
    proof {
        assert(add.take(0) =~= Seq::<LintErrorV>::empty());
    }
    for err in it: additional.into_iter()
        invariant
            add == errors_view(it.seq()),
            errors_view(errors@) == merged(start, add.take(it.index() as int)),
    {
        let ghost i = it.index() as int;
        proof {
            assert(add.take(i + 1).drop_last() =~= add.take(i));
            assert(add.take(i + 1).last() == err@);
        }
        let n = errors.len();
        let mut k: usize = 0;
        while k < n && !same_finding_exec(&errors[k], &err)
            invariant
                n == errors@.len(),
                k <= n,
                forall|j: int| 0 <= j < k ==> !same_finding(#[trigger] errors@[j]@, err@),
            decreases n - k,
        {
            k += 1;
        }
        let duplicate = k < n;
        let ghost before = errors_view(errors@);
        if duplicate {
            assert(before[k as int] == errors@[k as int]@);
            assert(same_finding(before[k as int], err@));
        } else {
            assert forall|j: int| 0 <= j < before.len() implies !same_finding(
                #[trigger] before[j],
                err@,
            ) by {
                assert(before[j] == errors@[j]@);
                assert(!same_finding(errors@[j]@, err@));
            }
            errors.push(err);
            assert(errors_view(errors@) =~= before.push(err@));
        }
    }
    assert(add.take(add.len() as int) =~= add);
}

/// The block names of a `--context` value: the comma-separated parts, trimmed
pub open spec fn context_option(s: Seq<char>) -> Seq<Seq<char>> {
    split_on(s, ',').map_values(|p: Seq<char>| trim_seq(p))
}

/// The block names of a `--context` value such as `http, server`
pub fn parse_context_option(s: &str) -> (r: Vec<String>)
    ensures
        strings_view(r@) == context_option(s@),
{
    let cv = chars_of(s);
    let cs = cv.as_slice();
    let n = cs.len();
    let ghost tr = |p: Seq<char>| trim_seq(p);
    let mut out: Vec<String> = Vec::new();
    let mut start: usize = 0;
    let mut j: usize = 0;
    proof {
        assert(cs@.take(0) =~= Seq::<char>::empty());
        assert(split_on(cs@.take(0), ',').drop_last().map_values(tr) =~= Seq::<Seq<char>>::empty());
    }
    while j < n
        invariant
            n == cs@.len(),
            cs@ == s@,
            tr == (|p: Seq<char>| trim_seq(p)),
            start <= j <= n,
            strings_view(out@) == split_on(cs@.take(j as int), ',').drop_last().map_values(tr),
            split_on(cs@.take(j as int), ',').last() == cs@.subrange(start as int, j as int),
        decreases n - j,
    {
        let ghost t = cs@.take(j + 1);
        let ghost p = split_on(cs@.take(j as int), ',');
        proof {
            crate::ignore::lemma_split_len(cs@.take(j as int), ',');
            assert(t.drop_last() =~= cs@.take(j as int));
            assert(t.last() == cs@[j as int]);
        }
        if cs[j] == ',' {
            let (a, b) = trim_bounds(cs, start, j);
            let ghost before = out@;
            out.push(string_from_range(cs, a, b));
            proof {
                assert(split_on(t, ',') == p.push(seq![]));
                assert(split_on(t, ',').drop_last() =~= p);
                assert(p =~= p.drop_last().push(p.last()));
                assert(strings_view(out@) =~= strings_view(before).push(trim_seq(p.last())));
                assert(p.map_values(tr) =~= p.drop_last().map_values(tr).push(trim_seq(p.last())));
                assert(cs@.subrange(j + 1, j + 1) =~= Seq::<char>::empty());
            }
            start = j + 1;
        } else {
            proof {
                assert(split_on(t, ',') == p.update(p.len() - 1, p.last().push(cs@[j as int])));
                assert(split_on(t, ',').drop_last() =~= p.drop_last());
                assert(cs@.subrange(start as int, j + 1) =~= p.last().push(cs@[j as int]));
            }
        }
        j += 1;
    }
    let ghost p = split_on(cs@, ',');
    proof {
        assert(cs@.take(n as int) =~= cs@);
        crate::ignore::lemma_split_len(cs@, ',');
        assert(p =~= p.drop_last().push(p.last()));
        assert(p.map_values(tr) =~= p.drop_last().map_values(tr).push(trim_seq(p.last())));
    }
    let (a, b) = trim_bounds(cs, start, n);
    let ghost before = out@;
    out.push(string_from_range(cs, a, b));
    assert(strings_view(out@) =~= strings_view(before).push(trim_seq(p.last())));
    out
}

/// Whether output is colored, as far as the run decides it: `Some(true)`
/// or `Some(false)` forces it, `None` leaves it to the terminal. The flags
/// `--color` and `--no-color` come first, then the configured mode.
pub open spec fn color_choice(color: bool, no_color: bool, mode: Option<ColorMode>) -> Option<bool> {
    if color {
        Some(true)
    } else if no_color {
        Some(false)
    } else {
        match mode {
            Some(ColorMode::Always) => Some(true),
            Some(ColorMode::Never) => Some(false),
            _ => None,
        }
    }
}

/// Whether output is colored: forced on, forced off, or left to the terminal
pub fn color_override(color: bool, no_color: bool, mode: Option<ColorMode>) -> (r: Option<bool>)
    ensures
        r == color_choice(color, no_color, mode),
{
    if color {
        Some(true)
    } else if no_color {
        Some(false)
    } else {
        match mode {
            Some(ColorMode::Always) => Some(true),
            Some(ColorMode::Never) => Some(false),
            _ => None,
        }
    }
}

/// The run reads standard input: the only file given is `-`
pub fn is_stdin_mode(files: &Vec<String>) -> (r: bool)
    ensures
        r == (files@.len() == 1 && files@[0]@ == "-"@),
{
    files.len() == 1 && str_eq(files[0].as_str(), "-")
}

// ---------------------------------------------------------------------------
// Lines of the report
// ---------------------------------------------------------------------------

/// The name of a severity
pub open spec fn severity_text(s: Severity) -> Seq<char> {
    match s {
        Severity::Error => "error"@,
        Severity::Warning => "warning"@,
        Severity::Info => "info"@,
    }
}

/// The name of a severity
pub fn severity_name(s: Severity) -> (r: &'static str)
    ensures
        r@ == severity_text(s),
{
    match s {
        Severity::Error => "error",
        Severity::Warning => "warning",
        Severity::Info => "info",
    }
}

/// The line, or 1 when the finding has none
pub open spec fn line_or_first(n: Option<nat>) -> nat {
    match n {
        Some(n) => n,
        None => 1,
    }
}

/// The line of the `errorformat` report for finding `e` of the file `path`,
/// with the severity written as `severity`:
/// `path:line:column: severity: message [rule]`
pub open spec fn errorformat_text(path: Seq<char>, e: LintErrorV, severity: Seq<char>) -> Seq<char> {
    path + ":"@ + decimal(line_or_first(e.line)) + ":"@ + decimal(line_or_first(e.column)) + ": "@
        + severity + ": "@ + e.message + " ["@ + e.rule + "]\n"@
}

/// The level of a finding in a GitHub Actions annotation
pub open spec fn github_level(s: Severity) -> Seq<char> {
    match s {
        Severity::Error => "error"@,
        Severity::Warning => "warning"@,
        Severity::Info => "notice"@,
    }
}

/// The GitHub Actions annotation for finding `e` of the file `path`:
/// `::level file=path,line=line,col=column::message [rule]`
pub open spec fn github_actions_text(path: Seq<char>, e: LintErrorV) -> Seq<char> {
    "::"@ + github_level(e.severity) + " file="@ + path + ",line="@ + decimal(line_or_first(e.line))
        + ",col="@ + decimal(line_or_first(e.column)) + "::"@ + e.message + " ["@ + e.rule
        + "]\n"@
}

/// The line or column, or 1
fn number_or_first(n: Option<usize>) -> (r: usize)
    ensures
        r as nat == line_or_first(match n {
            Some(v) => Some(v as nat),
            None => None,
        }),
{
    match n {
        Some(v) => v,
        None => 1,
    }
}

/// The line of the `errorformat` report for finding `e` of the file `path`
pub fn errorformat_line(path: &str, e: &LintError, severity: &str) -> (s: String)
    ensures
        s@ == errorformat_text(path@, e@, severity@),
{
    let mut s = path.to_owned();
    s.append(":");
    push_decimal(&mut s, number_or_first(e.line));
    s.append(":");
    push_decimal(&mut s, number_or_first(e.column));
    s.append(": ");
    s.append(severity);
    s.append(": ");
    s.append(e.message.as_str());
    s.append(" [");
    s.append(e.rule.as_str());
    s.append("]\n");
    assert(s@ =~= errorformat_text(path@, e@, severity@));
    s
}

/// The GitHub Actions annotation for finding `e` of the file `path`
pub fn github_actions_line(path: &str, e: &LintError) -> (s: String)
    ensures
        s@ == github_actions_text(path@, e@),
{
    let mut s = "::".to_owned();
    let level = match e.severity {
        Severity::Error => "error",
        Severity::Warning => "warning",
        Severity::Info => "notice",
    };
    s.append(level);
    s.append(" file=");
    s.append(path);
    s.append(",line=");
    push_decimal(&mut s, number_or_first(e.line));
    s.append(",col=");
    push_decimal(&mut s, number_or_first(e.column));
    s.append("::");
    s.append(e.message.as_str());
    s.append(" [");
    s.append(e.rule.as_str());
    s.append("]\n");
    assert(s@ =~= github_actions_text(path@, e@));
    s
}

// ---------------------------------------------------------------------------
// Running only some rules
// ---------------------------------------------------------------------------

/// The names of `v`, in order, that are among `names` exactly when `inside`
pub open spec fn names_filtered(v: Seq<Seq<char>>, names: Seq<Seq<char>>, inside: bool) -> Seq<
    Seq<char>,
> {
    v.filter(|n: Seq<char>| names.contains(n) == inside)
}

/// The names of `v`, in order, that are among `names` exactly when `inside`
pub fn filter_names(v: &Vec<String>, names: &Vec<String>, inside: bool) -> (r: Vec<String>)
    ensures
        strings_view(r@) == names_filtered(strings_view(v@), strings_view(names@), inside),
{
    let ghost sv = strings_view(v@);
    let ghost p = |n: Seq<char>| strings_view(names@).contains(n) == inside;
    let mut out: Vec<String> = Vec::new();
    let n = v.len();
    let mut k: usize = 0;
    proof {
        reveal(Seq::filter);
        assert(sv.take(0) =~= Seq::<Seq<char>>::empty());
    }
    while k < n
        invariant
            n == v@.len(),
            sv == strings_view(v@),
            p == (|n: Seq<char>| strings_view(names@).contains(n) == inside),
            k <= n,
            strings_view(out@) == sv.take(k as int).filter(p),
        decreases n - k,
    {
        proof {
            reveal(Seq::filter);
            assert(sv.take(k + 1).drop_last() =~= sv.take(k as int));
            assert(sv[k as int] == v@[k as int]@);
        }
        if contains_string(names, v[k].as_str()) == inside {
            let ghost before = out@;
            out.push(v[k].as_str().to_owned());
            assert(strings_view(out@) =~= strings_view(before).push(sv[k as int]));
        }
        k += 1;
    }
    assert(sv.take(n as int) =~= sv);
    out
}

/// What `--rule-only` finds wrong with the rules `requested`, given the
/// rules `registered` in this run and the rules the documentation knows
/// (`catalog`): the requested rules that are documented but not loaded,
/// and those that nothing knows; both empty when every requested rule runs
pub fn rule_only_problems(requested: &Vec<String>, registered: &Vec<String>, catalog: &Vec<String>) -> (r: (
    Vec<String>,
    Vec<String>,
))
    ensures
        strings_view(r.0@) == names_filtered(
            names_filtered(strings_view(requested@), strings_view(registered@), false),
            strings_view(catalog@),
            true,
        ),
        strings_view(r.1@) == names_filtered(
            names_filtered(strings_view(requested@), strings_view(registered@), false),
            strings_view(catalog@),
            false,
        ),
{
    let missing = filter_names(requested, registered, false);
    (filter_names(&missing, catalog, true), filter_names(&missing, catalog, false))
}

} // verus!
