//! What checking a plugin against its own examples decides: the findings
//! that are the plugin's own, whether an example passes, fails or is
//! skipped, and whether fixing the bad example makes the rule stop firing.
//! Running the plugin and reading its examples is left to the caller, which
//! hands the findings in.
use vstd::prelude::*;
use crate::fixes::fixes_view;
use crate::ignore::{spec_lines, split_lines};
use crate::lint::{Fix, FixV, LintError, LintErrorV, errors_view};
use crate::plugin_script::{debug_string, debug_text};
use crate::text::{decimal, push_decimal, str_eq};

verus! {

/// How a check ends
#[derive(Debug)]
pub enum Outcome {
    Passed,
    Failed(String),
    /// The plugin does not carry what the check needs (an example, or a fix)
    Skipped(String),
}

/// Model of an [`Outcome`]
pub ghost enum OutcomeV {
    Passed,
    Failed(Seq<char>),
    Skipped(Seq<char>),
}

impl View for Outcome {
    type V = OutcomeV;

    open spec fn view(&self) -> OutcomeV {
        match self {
            Outcome::Passed => OutcomeV::Passed,
            Outcome::Failed(m) => OutcomeV::Failed(m@),
            Outcome::Skipped(m) => OutcomeV::Skipped(m@),
        }
    }
}

/// What running a plugin over one example gave
#[derive(Debug)]
pub struct Checked {
    /// The findings reported under the plugin's own rule name
    pub found: Vec<LintError>,
    /// How many findings it reported under another name
    pub under_other_names: usize,
    /// The syntax errors of the example
    pub syntax_errors: usize,
}

/// The findings of `reported` under the rule name `rule`, in order
pub open spec fn own_findings(reported: Seq<LintErrorV>, rule: Seq<char>) -> Seq<LintErrorV> {
    reported.filter(|e: LintErrorV| e.rule == rule)
}

/// Splits what a plugin named `rule` reported into its own findings and a
/// count of the others
pub fn sort_findings(reported: Vec<LintError>, rule: &str, syntax_errors: usize) -> (c: Checked)
    ensures
        errors_view(c.found@) == own_findings(errors_view(reported@), rule@),
        c.under_other_names == reported@.len() - c.found@.len(),
        c.syntax_errors == syntax_errors,
{
    let ghost all = errors_view(reported@);
    let ghost own = |e: LintErrorV| e.rule == rule@;
    let mut rest = reported;
    let mut found: Vec<LintError> = Vec::new();
    let n = rest.len();
    let mut k: usize = 0;
    let mut others: usize = 0;
    proof {
        reveal(Seq::filter);
        assert(all.take(0) =~= Seq::<LintErrorV>::empty());
        assert(all.skip(0) =~= all);
    }
    while k < n
        invariant
            n == all.len(),
            k <= n,
            own == (|e: LintErrorV| e.rule == rule@),
            errors_view(rest@) == all.skip(k as int),
            rest@.len() == n - k,
            errors_view(found@) == all.take(k as int).filter(own),
            others + found@.len() == k,
        decreases n - k,
    {
        let ghost old_rest = rest@;
        let e = rest.remove(0);
        proof {
            reveal(Seq::filter);
            assert(errors_view(old_rest)[0] == old_rest[0]@);
            assert(all.take(k + 1).drop_last() =~= all.take(k as int));
            assert(all.skip(k as int)[0] == e@);
            assert(rest@ =~= old_rest.skip(1));
            assert(errors_view(rest@) =~= errors_view(old_rest).skip(1));
            assert(all.skip(k + 1) =~= all.skip(k as int).skip(1));
            assert(errors_view(rest@) =~= all.skip(k + 1));
            assert(all.take(k + 1).last() == e@);
        }
        if str_eq(e.rule.as_str(), rule) {
            let ghost before = found@;
            found.push(e);
            assert(errors_view(found@) =~= errors_view(before).push(all[k as int]));
        } else {
            others += 1;
        }
        k += 1;
    }
    assert(all.take(n as int) =~= all);
    Checked { found, under_other_names: others, syntax_errors }
}

/// The lines of `v` joined by newlines
pub open spec fn joined(v: Seq<Seq<char>>) -> Seq<char>
    decreases v.len(),
{
    if v.len() == 0 {
        seq![]
    } else if v.len() == 1 {
        v[0]
    } else {
        joined(v.drop_last()) + seq!['\n'] + v.last()
    }
}

fn push_joined(out: &mut String, lines: &Vec<String>)
    ensures
        final(out)@ == old(out)@ + joined(lines@.map_values(|l: String| l@)),
{
    let ghost start = out@;
    let ghost lv = lines@.map_values(|l: String| l@);
    let n = lines.len();
    let mut k: usize = 0;
    assert(start =~= start + joined(lv.take(0)));
    while k < n
        invariant
            n == lines@.len() == lv.len(),
            lv == lines@.map_values(|l: String| l@),
            k <= n,
            out@ == start + joined(lv.take(k as int)),
        decreases n - k,
    {
        proof {
            reveal_strlit("\n");
        }
        if k > 0 {
            out.append("\n");
        }
        out.append(lines[k].as_str());
        proof {
            assert(lv.take(k + 1).drop_last() =~= lv.take(k as int));
            assert(lv[k as int] == lines@[k as int]@);
            if k == 0 {
                assert(lv.take(1) =~= seq![lv[0]]);
            }
        }
        k += 1;
    }
    assert(lv.take(n as int) =~= lv);
}

/// How a finding is described: `line:column: message`, 0 where unknown
pub open spec fn finding_text(e: LintErrorV) -> Seq<char> {
    let line: nat = match e.line {
        Some(l) => l,
        None => 0,
    };
    let column: nat = match e.column {
        Some(c) => c,
        None => 0,
    };
    decimal(line) + ":"@ + decimal(column) + ": "@ + e.message
}

/// The findings `errors`, one per line
pub fn describe(errors: &Vec<LintError>) -> (s: String)
    ensures
        s@ == joined(errors_view(errors@).map_values(|e: LintErrorV| finding_text(e))),
{
    let mut lines: Vec<String> = Vec::new();
    let ghost ev = errors_view(errors@).map_values(|e: LintErrorV| finding_text(e));
    let n = errors.len();
    let mut k: usize = 0;
    while k < n
        invariant
            n == errors@.len(),
            ev == errors_view(errors@).map_values(|e: LintErrorV| finding_text(e)),
            k <= n,
            lines@.map_values(|l: String| l@) == ev.take(k as int),
        decreases n - k,
    {
        let e = &errors[k];
        let mut line = String::new();
        push_decimal(&mut line, match e.line { Some(l) => l, None => 0 });
        line.append(":");
        push_decimal(&mut line, match e.column { Some(c) => c, None => 0 });
        line.append(": ");
        line.append(e.message.as_str());
        let ghost before = lines@;
        proof {
            assert(ev[k as int] == finding_text(errors@[k as int]@));
        }
        lines.push(line);
        proof {
            assert(lines@.map_values(|l: String| l@) =~= before.map_values(|l: String| l@).push(
                ev[k as int],
            ));
            assert(ev.take(k + 1) =~= ev.take(k as int).push(ev[k as int]));
        }
        k += 1;
    }
    assert(ev.take(n as int) =~= ev);
    let mut s = String::new();
    push_joined(&mut s, &lines);
    s
}

/// `content` with each of its lines indented by two blanks
pub open spec fn indented(content: Seq<char>) -> Seq<char> {
    joined(spec_lines(content).map_values(|l: Seq<char>| "  "@ + l))
}

/// `content` with each of its lines indented by two blanks
pub fn indent(content: &str) -> (s: String)
    ensures
        s@ == indented(content@),
{
    let ls = split_lines(content);
    let ghost lv = spec_lines(content@).map_values(|l: Seq<char>| "  "@ + l);
    let mut lines: Vec<String> = Vec::new();
    let n = ls.len();
    let mut k: usize = 0;
    while k < n
        invariant
            n == ls@.len() == spec_lines(content@).len(),
            crate::ignore::strings_view(ls@) == spec_lines(content@),
            lv == spec_lines(content@).map_values(|l: Seq<char>| "  "@ + l),
            k <= n,
            lines@.map_values(|l: String| l@) == lv.take(k as int),
        decreases n - k,
    {
        let mut line = "  ".to_owned();
        line.append(ls[k].as_str());
        let ghost before = lines@;
        proof {
            assert(spec_lines(content@)[k as int] == ls@[k as int]@);
        }
        lines.push(line);
        proof {
            assert(lines@.map_values(|l: String| l@) =~= before.map_values(|l: String| l@).push(
                lv[k as int],
            ));
            assert(lv.take(k + 1) =~= lv.take(k as int).push(lv[k as int]));
        }
        k += 1;
    }
    assert(lv.take(n as int) =~= lv);
    let mut s = String::new();
    push_joined(&mut s, &lines);
    s
}

/// The example a check needs, or the skip when the plugin declares none:
/// `kind` is `bad` or `good`
pub fn declared_example(example: Option<String>, kind: &str) -> (r: Result<String, Outcome>)
    ensures
        match example {
            Some(e) if e@.len() > 0 => r matches Ok(x) && x@ == e@,
            _ => r matches Err(o) && o@ == OutcomeV::Skipped(
                "the plugin declares no "@ + kind@ + " example"@,
            ),
        },
{
    match example {
        Some(e) if crate::text::chars_of(e.as_str()).len() > 0 => Ok(e),
        _ => {
            let mut m = "the plugin declares no ".to_owned();
            m.append(kind);
            m.append(" example");
            Err(Outcome::Skipped(m))
        },
    }
}

/// The outcome for the bad example: the rule has to report it under its
/// own name (`rule`)
pub open spec fn bad_example_outcome(found: nat, under_other_names: nat, rule: Seq<char>) -> OutcomeV {
    if found > 0 {
        OutcomeV::Passed
    } else if under_other_names == 0 {
        OutcomeV::Failed("the bad example was reported clean"@)
    } else {
        OutcomeV::Failed(
            "the bad example was reported clean under "@ + debug_text(rule)
                + ", though the plugin reported "@ + decimal(under_other_names)
                + " finding(s) under another rule name — the spec and the findings have to agree on it"@,
        )
    }
}

/// The outcome for the bad example, from what the plugin `rule` reported on it
pub fn check_bad_example(checked: &Checked, rule: &str) -> (o: Outcome)
    ensures
        o@ == bad_example_outcome(
            checked.found@.len(),
            checked.under_other_names as nat,
            rule@,
        ),
{
    if checked.found.len() > 0 {
        return Outcome::Passed;
    }
    if checked.under_other_names == 0 {
        return Outcome::Failed("the bad example was reported clean".to_owned());
    }
    let mut m = "the bad example was reported clean under ".to_owned();
    let d = debug_string(rule);
    m.append(d.as_str());
    m.append(", though the plugin reported ");
    push_decimal(&mut m, checked.under_other_names);
    m.append(" finding(s) under another rule name — the spec and the findings have to agree on it");
    Outcome::Failed(m)
}

/// The outcome for a configuration that has to be clean: no syntax error,
/// then no finding
pub open spec fn clean_outcome(found: Seq<LintErrorV>, syntax_errors: nat) -> OutcomeV {
    if syntax_errors > 0 {
        OutcomeV::Failed("it does not parse: "@ + decimal(syntax_errors) + " syntax error(s)"@)
    } else if found.len() == 0 {
        OutcomeV::Passed
    } else {
        OutcomeV::Failed(joined(found.map_values(|e: LintErrorV| finding_text(e))))
    }
}

/// The outcome for a configuration that has to be clean, such as the good example
pub fn clean(checked: &Checked) -> (o: Outcome)
    ensures
        o@ == clean_outcome(errors_view(checked.found@), checked.syntax_errors as nat),
{
    if checked.syntax_errors > 0 {
        let mut m = "it does not parse: ".to_owned();
        push_decimal(&mut m, checked.syntax_errors);
        m.append(" syntax error(s)");
        return Outcome::Failed(m);
    }
    if checked.found.len() == 0 {
        return Outcome::Passed;
    }
    Outcome::Failed(describe(&checked.found))
}

/// The fixes that the findings `errors` carry, in order
pub open spec fn carried_fixes(errors: Seq<LintErrorV>) -> Seq<FixV>
    decreases errors.len(),
{
    if errors.len() == 0 {
        seq![]
    } else {
        carried_fixes(errors.drop_last()) + match errors.last().fix {
            Some(f) => seq![f],
            None => seq![],
        }
    }
}

/// A copy of `f`
fn copy_fix(f: &Fix) -> (r: Fix)
    ensures
        r@ == f@,
{
    Fix {
        line: f.line,
        old_text: match &f.old_text {
            Some(t) => Some(t.as_str().to_owned()),
            None => None,
        },
        new_text: f.new_text.as_str().to_owned(),
        delete_line: f.delete_line,
        insert_after: f.insert_after,
        start_offset: f.start_offset,
        end_offset: f.end_offset,
    }
}

/// The fixes that the findings `errors` carry, in order
pub fn fixes_of(errors: &Vec<LintError>) -> (r: Vec<Fix>)
    ensures
        fixes_view(r@) == carried_fixes(errors_view(errors@)),
{
    let ghost ev = errors_view(errors@);
    let mut out: Vec<Fix> = Vec::new();
    let n = errors.len();
    let mut k: usize = 0;
    assert(ev.take(0) =~= Seq::<LintErrorV>::empty());
    while k < n
        invariant
            n == errors@.len() == ev.len(),
            ev == errors_view(errors@),
            k <= n,
            fixes_view(out@) == carried_fixes(ev.take(k as int)),
        decreases n - k,
    {
        proof {
            assert(ev.take(k + 1).drop_last() =~= ev.take(k as int));
            assert(ev[k as int] == errors@[k as int]@);
        }
        match &errors[k].fix {
            Some(f) => {
                let ghost before = out@;
                let g = copy_fix(f);
                out.push(g);
                assert(fixes_view(out@) =~= fixes_view(before).push(f@));
            },
            None => {
                assert(fixes_view(out@) =~= fixes_view(out@) + Seq::<FixV>::empty());
            },
        }
        k += 1;
    }
    assert(ev.take(n as int) =~= ev);
    out
}

/// Before fixing: the skip when the findings carry no fix, told apart by
/// whether the rule fired at all
pub open spec fn fix_start_outcome(found: Seq<LintErrorV>) -> Option<OutcomeV> {
    if carried_fixes(found).len() > 0 {
        None
    } else if found.len() == 0 {
        Some(OutcomeV::Skipped("the plugin reported nothing here, so there is nothing to fix"@))
    } else {
        Some(OutcomeV::Skipped("the plugin reports no fixes"@))
    }
}

/// Before fixing: the skip when there is nothing to fix
pub fn fix_start(checked: &Checked) -> (o: Option<Outcome>)
    ensures
        match o {
            Some(x) => fix_start_outcome(errors_view(checked.found@)) == Some(x@),
            None => fix_start_outcome(errors_view(checked.found@)) is None,
        },
{
    let fixes = fixes_of(&checked.found);
    if fixes.len() > 0 {
        return None;
    }
    if checked.found.len() == 0 {
        Some(Outcome::Skipped("the plugin reported nothing here, so there is nothing to fix".to_owned()))
    } else {
        Some(Outcome::Skipped("the plugin reports no fixes".to_owned()))
    }
}

/// After applying `total` fixes: the failure when not all of them landed
pub open spec fn fix_applied_outcome(applied: nat, total: nat, invalid: nat) -> Option<OutcomeV> {
    if applied == total {
        None
    } else {
        Some(
            OutcomeV::Failed(
                decimal(applied) + " of the "@ + decimal(total)
                    + " fix(es) reported were applied; "@ + decimal(invalid)
                    + " had offsets the applier rejected, and the rest it dropped for conflicting with a fix it had already applied"@,
            ),
        )
    }
}

/// After applying `total` fixes: the failure when not all of them landed
pub fn fix_applied(applied: usize, total: usize, invalid: usize) -> (o: Option<Outcome>)
    ensures
        match o {
            Some(x) => fix_applied_outcome(applied as nat, total as nat, invalid as nat) == Some(
                x@,
            ),
            None => fix_applied_outcome(applied as nat, total as nat, invalid as nat) is None,
        },
{
    if applied == total {
        return None;
    }
    let mut m = String::new();
    push_decimal(&mut m, applied);
    m.append(" of the ");
    push_decimal(&mut m, total);
    m.append(" fix(es) reported were applied; ");
    push_decimal(&mut m, invalid);
    m.append(
        " had offsets the applier rejected, and the rest it dropped for conflicting with a fix it had already applied",
    );
    Some(Outcome::Failed(m))
}

/// After fixing: the rule must not add syntax errors, and must stop firing
/// on the fixed text `fixed`
pub open spec fn fix_end_outcome(before_syntax: nat, after: Seq<LintErrorV>, after_syntax: nat, fixed: Seq<char>) -> OutcomeV {
    if after_syntax > before_syntax {
        OutcomeV::Failed(
            "fixing introduced "@ + decimal((after_syntax - before_syntax) as nat)
                + " syntax error(s); the fixed configuration was:\n"@ + indented(fixed),
        )
    } else if after.len() == 0 {
        OutcomeV::Passed
    } else {
        OutcomeV::Failed(
            "after fixing, the rule still reports:\n"@ + joined(
                after.map_values(|e: LintErrorV| finding_text(e)),
            ) + "\nthe fixed configuration was:\n"@ + indented(fixed),
        )
    }
}

/// After fixing: the outcome, from the syntax errors before fixing and what
/// the plugin reported on the fixed text `fixed`
pub fn fix_end(before_syntax: usize, after: &Checked, fixed: &str) -> (o: Outcome)
    ensures
        o@ == fix_end_outcome(
            before_syntax as nat,
            errors_view(after.found@),
            after.syntax_errors as nat,
            fixed@,
        ),
{
    if after.syntax_errors > before_syntax {
        let mut m = "fixing introduced ".to_owned();
        push_decimal(&mut m, after.syntax_errors - before_syntax);
        m.append(" syntax error(s); the fixed configuration was:\n");
        let ind = indent(fixed);
        m.append(ind.as_str());
        return Outcome::Failed(m);
    }
    if after.found.len() == 0 {
        return Outcome::Passed;
    }
    let mut m = "after fixing, the rule still reports:\n".to_owned();
    let d = describe(&after.found);
    m.append(d.as_str());
    m.append("\nthe fixed configuration was:\n");
    let ind = indent(fixed);
    m.append(ind.as_str());
    Outcome::Failed(m)
}

} // verus!
