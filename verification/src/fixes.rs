//! Applying fixes to the text of a file.
//!
//! Fixes on byte ranges go first, from the last range in the file to the
//! first, so that the ranges still to apply keep their offsets; a range that
//! overlaps one already applied is passed over, and one that does not fall
//! on character boundaries of the text is counted as invalid. Fixes on lines
//! go next, from the last line to the first.
use vstd::prelude::*;
use crate::ignore::{spec_lines, split_lines, strings_view};
use crate::lexer::{utf8_len, utf8_width, utf8_width_of, utf8_len_of, lemma_utf8_len_concat};
use crate::lint::{Fix, FixV};
use crate::config::{contains_chars, contains_seq};
use crate::text::{chars_of, is_whitespace_char, is_unicode_ws, lemma_trim_start_range, string_from_range, trim_start_seq};

verus! {

// ---------------------------------------------------------------------------
// Byte offsets
// ---------------------------------------------------------------------------

/// The index of `s`, searching from index `i` after which `acc` bytes have
/// passed, before which exactly `b` bytes of UTF-8 stand
pub open spec fn char_index_from(s: Seq<char>, b: nat, i: int, acc: nat) -> Option<nat>
    decreases s.len() - i,
{
    if acc == b {
        Some(i as nat)
    } else if acc > b || i < 0 || i >= s.len() {
        None
    } else {
        char_index_from(s, b, i + 1, acc + utf8_width(s[i]))
    }
}

/// The index of `s` before which exactly `b` bytes of UTF-8 stand: `None`
/// when `b` is past the end or inside a character
pub open spec fn char_index(s: Seq<char>, b: nat) -> Option<nat> {
    char_index_from(s, b, 0, 0)
}

/// The index of `cs` before which exactly `b` bytes stand
fn char_index_of(cs: &[char], b: usize) -> (r: Option<usize>)
    ensures
        match r {
            Some(i) => char_index(cs@, b as nat) == Some(i as nat) && i <= cs@.len(),
            None => char_index(cs@, b as nat) is None,
        },
{
    let n = cs.len();
    let mut i: usize = 0;
    let mut acc: usize = 0;
    while i < n && acc < b
        invariant
            n == cs@.len(),
            i <= n,
            acc <= b,
            char_index(cs@, b as nat) == char_index_from(cs@, b as nat, i as int, acc as nat),
        decreases n - i,
    {
        let w = utf8_width_of(cs[i]);
        if w > b - acc {
            assert(char_index_from(cs@, b as nat, i + 1, (acc + w) as nat) is None);
            return None;
        }
        acc = acc + w;
        i += 1;
    }
    if acc == b {
        Some(i)
    } else {
        None
    }
}

/// `s` with the bytes `start..end` replaced by `text`, when both offsets
/// fall on character boundaries in order
pub open spec fn replace_bytes(s: Seq<char>, start: nat, end: nat, text: Seq<char>) -> Option<
    Seq<char>,
> {
    match (char_index(s, start), char_index(s, end)) {
        (Some(i), Some(j)) => if i <= j {
            Some(s.take(i as int) + text + s.skip(j as int))
        } else {
            None
        },
        _ => None,
    }
}

/// `cs` with the bytes `start..end` replaced by `text`, when both offsets
/// fall on character boundaries in order
fn replace_bytes_exec(cs: &Vec<char>, start: usize, end: usize, text: &str) -> (r: Option<Vec<char>>)
    ensures
        match r {
            Some(v) => replace_bytes(cs@, start as nat, end as nat, text@) == Some(v@),
            None => replace_bytes(cs@, start as nat, end as nat, text@) is None,
        },
{
    let i = match char_index_of(cs.as_slice(), start) {
        Some(i) => i,
        None => return None,
    };
    let j = match char_index_of(cs.as_slice(), end) {
        Some(j) => j,
        None => return None,
    };
    if i > j {
        return None;
    }
    let tv = chars_of(text);
    let mut out: Vec<char> = Vec::new();
    let mut k: usize = 0;
    while k < i
        invariant
            i <= j <= cs@.len(),
            k <= i,
            out@ == cs@.take(k as int),
        decreases i - k,
    {
        out.push(cs[k]);
        assert(cs@.take(k + 1) =~= cs@.take(k as int).push(cs@[k as int]));
        k += 1;
    }
    let mut k: usize = 0;
    while k < tv.len()
        invariant
            i <= j <= cs@.len(),
            k <= tv@.len(),
            out@ == cs@.take(i as int) + tv@.take(k as int),
        decreases tv@.len() - k,
    {
        out.push(tv[k]);
        assert(tv@.take(k + 1) =~= tv@.take(k as int).push(tv@[k as int]));
        assert(out@ =~= cs@.take(i as int) + tv@.take(k + 1));
        k += 1;
    }
    assert(tv@.take(tv@.len() as int) =~= tv@);
    let mut k: usize = j;
    let n = cs.len();
    while k < n
        invariant
            i <= j <= n == cs@.len(),
            j <= k <= n,
            out@ == cs@.take(i as int) + tv@ + cs@.subrange(j as int, k as int),
        decreases n - k,
    {
        out.push(cs[k]);
        assert(cs@.subrange(j as int, k + 1) =~= cs@.subrange(j as int, k as int).push(cs@[k as int]));
        assert(out@ =~= cs@.take(i as int) + tv@ + cs@.subrange(j as int, k + 1));
        k += 1;
    }
    assert(cs@.subrange(j as int, n as int) =~= cs@.skip(j as int));
    Some(out)
}

// ---------------------------------------------------------------------------
// The order in which fixes are applied
// ---------------------------------------------------------------------------

/// The models of `fs`
pub open spec fn fixes_view(fs: Seq<Fix>) -> Seq<FixV> {
    fs.map_values(|f: Fix| f@)
}

/// The fixes of `fs` at the indices `idx`, in that order
pub open spec fn indexed(fs: Seq<Fix>, idx: Seq<usize>) -> Seq<FixV> {
    idx.map_values(|i: usize| fs[i as int]@)
}

/// `f` replaces a byte range
pub open spec fn is_range_fix(f: FixV) -> bool {
    f.start_offset is Some && f.end_offset is Some
}

/// Start of the byte range of `f`
pub open spec fn start_at(f: FixV) -> nat {
    match f.start_offset {
        Some(s) => s,
        None => 0,
    }
}

/// End of the byte range of `f`
pub open spec fn end_at(f: FixV) -> nat {
    match f.end_offset {
        Some(e) => e,
        None => 0,
    }
}

/// Number of bytes of leading whitespace of `t` (`t.len() - t.trim_start().len()`)
pub open spec fn indent_of(t: Seq<char>) -> int {
    utf8_len(t) - utf8_len(trim_start_seq(t))
}

/// The line fix `a` is applied before the line fix `b`: it is on a later
/// line, or both insert a line after the same line and `a` is indented less
pub open spec fn line_before(a: FixV, b: FixV) -> bool {
    ||| a.line > b.line
    ||| a.line == b.line && a.insert_after && b.insert_after && indent_of(a.new_text) < indent_of(
        b.new_text,
    )
}

/// The fix `a` is applied before the fix `b` of the same kind: range fixes
/// from the last start to the first, line fixes by [`line_before`]
pub open spec fn fix_precedes(a: FixV, b: FixV, by_range: bool) -> bool {
    if by_range {
        start_at(a) > start_at(b)
    } else {
        line_before(a, b)
    }
}

/// How many fixes at the front of `r` are not preceded by `f`
pub open spec fn leading_not_preceded(r: Seq<FixV>, f: FixV, by_range: bool) -> nat
    decreases r.len(),
{
    if r.len() > 0 && !fix_precedes(f, r[0], by_range) {
        1 + leading_not_preceded(r.drop_first(), f, by_range)
    } else {
        0
    }
}

/// The range fixes (`by_range`) or the line fixes of `fixes`, in the order
/// they are applied: each one goes in front of the first one it precedes
/// among those before it, so fixes that neither precedes keep their order
pub open spec fn fix_order(fixes: Seq<FixV>, by_range: bool) -> Seq<FixV>
    decreases fixes.len(),
{
    if fixes.len() == 0 {
        seq![]
    } else {
        let r = fix_order(fixes.drop_last(), by_range);
        let f = fixes.last();
        if is_range_fix(f) == by_range {
            let k = leading_not_preceded(r, f, by_range) as int;
            r.take(k) + seq![f] + r.skip(k)
        } else {
            r
        }
    }
}

/// Every fix goes to one of the two orders
pub proof fn lemma_fix_order_len(fixes: Seq<FixV>)
    ensures
        fix_order(fixes, true).len() + fix_order(fixes, false).len() == fixes.len(),
    decreases fixes.len(),
{
    if fixes.len() > 0 {
        lemma_fix_order_len(fixes.drop_last());
        let f = fixes.last();
        lemma_leading_bound(fix_order(fixes.drop_last(), true), f, true);
        lemma_leading_bound(fix_order(fixes.drop_last(), false), f, false);
    }
}

proof fn lemma_leading_bound(r: Seq<FixV>, f: FixV, by_range: bool)
    ensures
        leading_not_preceded(r, f, by_range) <= r.len(),
    decreases r.len(),
{
    if r.len() > 0 {
        lemma_leading_bound(r.drop_first(), f, by_range);
    }
}

proof fn lemma_leading_count(r: Seq<FixV>, f: FixV, by_range: bool, k: int)
    requires
        0 <= k <= r.len(),
        forall|p: int| 0 <= p < k ==> !fix_precedes(f, #[trigger] r[p], by_range),
        k == r.len() || fix_precedes(f, r[k], by_range),
    ensures
        leading_not_preceded(r, f, by_range) == k,
    decreases k,
{
    if k > 0 {
        assert forall|p: int| 0 <= p < k - 1 implies !fix_precedes(
            f,
            #[trigger] r.drop_first()[p],
            by_range,
        ) by {
            assert(r.drop_first()[p] == r[p + 1]);
        }
        if k < r.len() {
            assert(r.drop_first()[k - 1] == r[k]);
        }
        lemma_leading_count(r.drop_first(), f, by_range, k - 1);
    }
}

/// Number of bytes of leading whitespace of `t`
fn indent_len(t: &str) -> (n: usize)
    requires
        utf8_len(t@) <= usize::MAX,
    ensures
        n == indent_of(t@),
{
    let cs = chars_of(t);
    let mut i: usize = 0;
    let mut n: usize = 0;
    while i < cs.len() && is_whitespace_char(cs[i])
        invariant
            cs@ == t@,
            i <= cs@.len(),
            forall|k: int| 0 <= k < i ==> is_unicode_ws(#[trigger] cs@[k]),
            n == utf8_len(cs@.take(i as int)),
            utf8_len(t@) <= usize::MAX,
        decreases cs@.len() - i,
    {
        proof {
            assert(cs@.take(i + 1).drop_last() =~= cs@.take(i as int));
            assert(cs@ =~= cs@.take(i + 1) + cs@.skip(i + 1));
            lemma_utf8_len_concat(cs@.take(i + 1), cs@.skip(i + 1));
        }
        n = n + utf8_width_of(cs[i]);
        i += 1;
    }
    proof {
        lemma_trim_start_range(cs@, i as int);
        assert(cs@ =~= cs@.take(i as int) + cs@.skip(i as int));
        lemma_utf8_len_concat(cs@.take(i as int), cs@.skip(i as int));
    }
    n
}

/// [`fix_precedes`]
fn precedes(a: &Fix, b: &Fix, by_range: bool) -> (r: bool)
    requires
        utf8_len(a.new_text@) <= usize::MAX,
        utf8_len(b.new_text@) <= usize::MAX,
    ensures
        r == fix_precedes(a@, b@, by_range),
{
    if by_range {
        let sa: usize = match a.start_offset {
            Some(s) => s,
            None => 0,
        };
        let sb: usize = match b.start_offset {
            Some(s) => s,
            None => 0,
        };
        sa > sb
    } else if a.line != b.line {
        a.line > b.line
    } else if a.insert_after && b.insert_after {
        indent_len(a.new_text.as_str()) < indent_len(b.new_text.as_str())
    } else {
        false
    }
}

/// Indices of the range fixes (`by_range`) or the line fixes of `fixes`, in
/// [`fix_order`]
fn order_fixes(fixes: &Vec<Fix>, by_range: bool) -> (idx: Vec<usize>)
    requires
        forall|k: int| 0 <= k < fixes@.len() ==> utf8_len(#[trigger] fixes@[k].new_text@) <= usize::MAX,
    ensures
        forall|k: int| 0 <= k < idx@.len() ==> #[trigger] idx@[k] < fixes@.len(),
        indexed(fixes@, idx@) == fix_order(fixes_view(fixes@), by_range),
{
    let mut idx: Vec<usize> = Vec::new();
    let n = fixes.len();
    let ghost fv = fixes_view(fixes@);
    for j in 0..n
        invariant
            n == fixes@.len(),
            fv == fixes_view(fixes@),
            forall|k: int| 0 <= k < fixes@.len() ==> utf8_len(#[trigger] fixes@[k].new_text@) <= usize::MAX,
            forall|k: int| 0 <= k < idx@.len() ==> #[trigger] idx@[k] < fixes@.len(),
            indexed(fixes@, idx@) == fix_order(fv.take(j as int), by_range),
    {
        proof {
            assert(fv.take(j + 1).drop_last() =~= fv.take(j as int));
        }
        let f = &fixes[j];
        let is_range = f.start_offset.is_some() && f.end_offset.is_some();
        if is_range == by_range {
            let ghost r = indexed(fixes@, idx@);
            let mut k: usize = 0;
            while k < idx.len() && !precedes(f, &fixes[idx[k]], by_range)
                invariant
                    n == fixes@.len(),
                    j < n,
                    f == fixes@[j as int],
                    forall|q: int| 0 <= q < fixes@.len() ==> utf8_len(#[trigger] fixes@[q].new_text@) <= usize::MAX,
                    forall|q: int| 0 <= q < idx@.len() ==> #[trigger] idx@[q] < fixes@.len(),
                    r == indexed(fixes@, idx@),
                    k <= idx@.len(),
                    forall|p: int| 0 <= p < k ==> !fix_precedes(f@, #[trigger] r[p], by_range),
                decreases idx@.len() - k,
            {
                k += 1;
            }
            proof {
                lemma_leading_count(r, f@, by_range, k as int);
            }
            let ghost old_idx = idx@;
            idx.insert(k, j);
            proof {
                assert(fv.take(j + 1).last() == f@);
                assert(indexed(fixes@, idx@) =~= r.take(k as int) + seq![f@] + r.skip(k as int)) by {
                    assert(idx@ == old_idx.insert(k as int, j));
                }
                assert forall|q: int| 0 <= q < idx@.len() implies #[trigger] idx@[q] < fixes@.len() by {
                    if q < k {
                        assert(idx@[q] == old_idx[q]);
                    } else if q > k {
                        assert(idx@[q] == old_idx[q - 1]);
                    }
                }
            }
        }
    }
    proof {
        assert(fv.take(n as int) =~= fv);
    }
    idx
}

// ---------------------------------------------------------------------------
// Applying fixes on byte ranges
// ---------------------------------------------------------------------------

/// The text, the byte ranges written so far, and the counts of fixes
/// applied and found invalid
pub ghost struct FixState {
    pub text: Seq<char>,
    pub written: Seq<(nat, nat)>,
    pub applied: nat,
    pub invalid: nat,
}

/// The state before any fix: `text`, nothing written, nothing counted
pub open spec fn start_state(text: Seq<char>) -> FixState {
    FixState { text, written: seq![], applied: 0, invalid: 0 }
}

/// The range `start..end` overlaps one already written
pub open spec fn overlaps_written(written: Seq<(nat, nat)>, start: nat, end: nat) -> bool {
    exists|k: int| 0 <= k < written.len() && start < (#[trigger] written[k]).1 && end > written[k].0
}

/// The state after the range fix `f`: one that overlaps a range already
/// written is passed over; one whose offsets are past the end, inside a
/// character or out of order is counted as invalid; any other replaces its
/// range and records the range of its new text
pub open spec fn apply_range(st: FixState, f: FixV) -> FixState {
    let s = start_at(f);
    let e = end_at(f);
    if overlaps_written(st.written, s, e) {
        st
    } else {
        match replace_bytes(st.text, s, e, f.new_text) {
            Some(t) => FixState {
                text: t,
                written: st.written.push((s, s + utf8_len(f.new_text))),
                applied: st.applied + 1,
                invalid: st.invalid,
            },
            None => FixState { invalid: st.invalid + 1, ..st },
        }
    }
}

/// The state after the range fixes `fs`, in order
pub open spec fn apply_ranges(st: FixState, fs: Seq<FixV>) -> FixState
    decreases fs.len(),
{
    if fs.len() == 0 {
        st
    } else {
        apply_range(apply_ranges(st, fs.drop_last()), fs.last())
    }
}

/// The ranges of `w` as numbers
pub open spec fn written_view(w: Seq<(usize, u128)>) -> Seq<(nat, nat)> {
    w.map_values(|p: (usize, u128)| (p.0 as nat, p.1 as nat))
}

/// [`overlaps_written`]
fn overlaps(written: &Vec<(usize, u128)>, start: usize, end: usize) -> (r: bool)
    ensures
        r == overlaps_written(written_view(written@), start as nat, end as nat),
{
    let ghost wv = written_view(written@);
    for k in 0..written.len()
        invariant
            wv == written_view(written@),
            forall|p: int| 0 <= p < k ==> !(start < (#[trigger] wv[p]).1 && end > wv[p].0),
    {
        let (s, e) = written[k];
        if (start as u128) < e && end > s {
            assert(start < wv[k as int].1 && end > wv[k as int].0);
            return true;
        }
    }
    false
}

/// The range fixes `fixes[order[..]]` applied to `text`, with the counts of
/// fixes applied and found invalid
fn apply_range_fixes(text: Vec<char>, fixes: &Vec<Fix>, order: &Vec<usize>) -> (r: (
    Vec<char>,
    usize,
    usize,
))
    requires
        forall|k: int| 0 <= k < order@.len() ==> #[trigger] order@[k] < fixes@.len(),
        forall|k: int| 0 <= k < fixes@.len() ==> utf8_len(#[trigger] fixes@[k].new_text@) <= usize::MAX,
    ensures
        r.0@ == apply_ranges(start_state(text@), indexed(fixes@, order@)).text,
        r.1 == apply_ranges(start_state(text@), indexed(fixes@, order@)).applied,
        r.2 == apply_ranges(start_state(text@), indexed(fixes@, order@)).invalid,
        r.1 + r.2 <= order@.len(),
{
    let ghost ord = indexed(fixes@, order@);
    let ghost st0 = start_state(text@);
    let mut text = text;
    let mut written: Vec<(usize, u128)> = Vec::new();
    let mut applied: usize = 0;
    let mut invalid: usize = 0;
    proof {
        assert(written_view(written@) =~= seq![]);
    }
    for j in 0..order.len()
        invariant
            ord == indexed(fixes@, order@),
            forall|k: int| 0 <= k < order@.len() ==> #[trigger] order@[k] < fixes@.len(),
            forall|k: int| 0 <= k < fixes@.len() ==> utf8_len(#[trigger] fixes@[k].new_text@) <= usize::MAX,
            text@ == apply_ranges(st0, ord.take(j as int)).text,
            written_view(written@) == apply_ranges(st0, ord.take(j as int)).written,
            applied == apply_ranges(st0, ord.take(j as int)).applied,
            invalid == apply_ranges(st0, ord.take(j as int)).invalid,
            applied + invalid <= j,
    {
        proof {
            assert(ord.take(j + 1).drop_last() =~= ord.take(j as int));
        }
        let f = &fixes[order[j]];
        assert(ord.take(j + 1).last() == f@);
        let s: usize = match f.start_offset {
            Some(s) => s,
            None => 0,
        };
        let e: usize = match f.end_offset {
            Some(e) => e,
            None => 0,
        };
        if !overlaps(&written, s, e) {
            match replace_bytes_exec(&text, s, e, f.new_text.as_str()) {
                Some(t) => {
                    text = t;
                    let len = utf8_len_of(f.new_text.as_str());
                    let ghost w0 = written@;
                    written.push((s, s as u128 + len as u128));
                    proof {
                        assert(written_view(written@) =~= written_view(w0).push(
                            (s as nat, (s + utf8_len(f.new_text@)) as nat),
                        ));
                    }
                    applied += 1;
                },
                None => {
                    invalid += 1;
                },
            }
        }
    }
    proof {
        assert(ord.take(order@.len() as int) =~= ord);
    }
    (text, applied, invalid)
}

// ---------------------------------------------------------------------------
// Applying fixes on lines
// ---------------------------------------------------------------------------

/// `s` with each occurrence of `pat`, from the left and not overlapping,
/// replaced by `new` (`str::replace`); an empty `pat` occurs before each
/// character and at the end
pub open spec fn replace_all(s: Seq<char>, pat: Seq<char>, new: Seq<char>) -> Seq<char>
    decreases s.len(),
{
    if s.len() == 0 {
        if pat.len() == 0 {
            new
        } else {
            seq![]
        }
    } else if pat.len() == 0 {
        new + seq![s[0]] + replace_all(s.skip(1), pat, new)
    } else if pat.len() <= s.len() && s.take(pat.len() as int) == pat {
        new + replace_all(s.skip(pat.len() as int), pat, new)
    } else {
        seq![s[0]] + replace_all(s.skip(1), pat, new)
    }
}

/// The lines `ls` joined by `'\n'`
pub open spec fn join_lines(ls: Seq<Seq<char>>) -> Seq<char>
    decreases ls.len(),
{
    if ls.len() == 0 {
        seq![]
    } else if ls.len() == 1 {
        ls[0]
    } else {
        join_lines(ls.drop_last()) + seq!['\n'] + ls.last()
    }
}

/// The line number of `f` is neither a line of `ls` nor the one after the last
pub open spec fn line_fix_invalid(ls: Seq<Seq<char>>, f: FixV) -> bool {
    f.line == 0 || f.line > ls.len() + 1
}

/// The line fix `f` changes `ls`: it inserts a line, or it deletes or
/// rewrites a line that is there (rewriting part of it only where that part
/// occurs in it)
pub open spec fn line_fix_takes(ls: Seq<Seq<char>>, f: FixV) -> bool {
    let n = ls.len();
    if line_fix_invalid(ls, f) {
        false
    } else if f.insert_after {
        true
    } else if f.delete_line {
        f.line <= n
    } else {
        match f.old_text {
            Some(old) => f.line <= n && contains_seq(ls[f.line - 1], old),
            None => f.line <= n,
        }
    }
}

/// The lines `ls` after the line fix `f`
pub open spec fn line_fix_lines(ls: Seq<Seq<char>>, f: FixV) -> Seq<Seq<char>> {
    let n = ls.len();
    if !line_fix_takes(ls, f) {
        ls
    } else if f.insert_after {
        ls.insert(if f.line < n { f.line as int } else { n as int }, f.new_text)
    } else if f.delete_line {
        ls.remove(f.line - 1)
    } else {
        match f.old_text {
            Some(old) => ls.update(f.line - 1, replace_all(ls[f.line - 1], old, f.new_text)),
            None => ls.update(f.line - 1, f.new_text),
        }
    }
}

/// The state after the line fix `f`: the text is split into its lines, `f`
/// is applied to them, and they are joined again by `'\n'`
pub open spec fn apply_line(st: FixState, f: FixV) -> FixState {
    let ls = spec_lines(st.text);
    FixState {
        text: join_lines(line_fix_lines(ls, f)),
        written: st.written,
        applied: if line_fix_takes(ls, f) {
            st.applied + 1
        } else {
            st.applied
        },
        invalid: if line_fix_invalid(ls, f) {
            st.invalid + 1
        } else {
            st.invalid
        },
    }
}

/// The state after the line fixes `fs`, in order
pub open spec fn apply_lines(st: FixState, fs: Seq<FixV>) -> FixState
    decreases fs.len(),
{
    if fs.len() == 0 {
        st
    } else {
        apply_line(apply_lines(st, fs.drop_last()), fs.last())
    }
}

/// `pat` occurs in `cs` at index `i`
fn occurs_at(cs: &[char], i: usize, pat: &[char]) -> (r: bool)
    requires
        i <= cs@.len(),
    ensures
        r == (pat@.len() <= cs@.len() - i && cs@.subrange(i as int, i + pat@.len()) == pat@),
{
    let n = cs.len();
    if pat.len() > n - i {
        return false;
    }
    let mut k: usize = 0;
    while k < pat.len()
        invariant
            n == cs@.len(),
            i + pat@.len() <= n,
            k <= pat@.len(),
            forall|q: int| 0 <= q < k ==> cs@[i + q] == pat@[q],
        decreases pat@.len() - k,
    {
        if cs[i + k] != pat[k] {
            assert(cs@.subrange(i as int, i + pat@.len())[k as int] != pat@[k as int]);
            return false;
        }
        k += 1;
    }
    assert(cs@.subrange(i as int, i + pat@.len()) =~= pat@);
    true
}

/// [`replace_all`]
fn replace_chars(cs: &[char], pat: &[char], new: &[char]) -> (r: Vec<char>)
    ensures
        r@ == replace_all(cs@, pat@, new@),
{
    let n = cs.len();
    let mut out: Vec<char> = Vec::new();
    let mut i: usize = 0;
    assert(cs@.skip(0) =~= cs@);
    while i < n
        invariant
            n == cs@.len(),
            i <= n,
            out@ + replace_all(cs@.skip(i as int), pat@, new@) == replace_all(cs@, pat@, new@),
        decreases n - i,
    {
        let ghost rest = cs@.skip(i as int);
        let ghost before = out@;
        if pat.len() > 0 && occurs_at(cs, i, pat) {
            assert(rest.take(pat@.len() as int) =~= cs@.subrange(i as int, i + pat@.len()));
            assert(rest.skip(pat@.len() as int) =~= cs@.skip(i + pat@.len()));
            append_chars(&mut out, new);
            assert(out@ + replace_all(cs@.skip(i + pat@.len()), pat@, new@) =~= before + replace_all(
                rest,
                pat@,
                new@,
            ));
            i = i + pat.len();
        } else {
            if pat.len() > 0 && pat.len() <= n - i {
                assert(rest.take(pat@.len() as int) =~= cs@.subrange(i as int, i + pat@.len()));
            }
            assert(rest.skip(1) =~= cs@.skip(i + 1));
            if pat.len() == 0 {
                append_chars(&mut out, new);
            }
            out.push(cs[i]);
            assert(out@ + replace_all(cs@.skip(i + 1), pat@, new@) =~= before + replace_all(
                rest,
                pat@,
                new@,
            ));
            i = i + 1;
        }
    }
    assert(cs@.skip(n as int) =~= seq![]);
    if pat.len() == 0 {
        append_chars(&mut out, new);
    }
    assert(out@ =~= replace_all(cs@, pat@, new@));
    out
}

/// Appends the characters `cs` to `out`
fn append_chars(out: &mut Vec<char>, cs: &[char])
    ensures
        final(out)@ == old(out)@ + cs@,
{
    let ghost start = out@;
    for k in 0..cs.len()
        invariant
            out@ == start + cs@.take(k as int),
    {
        out.push(cs[k]);
        assert(cs@.take(k + 1) =~= cs@.take(k as int).push(cs@[k as int]));
        assert(out@ =~= start + cs@.take(k + 1));
    }
    assert(cs@.take(cs@.len() as int) =~= cs@);
}

/// The lines joined by `'\n'` (`lines.join("\n")`)
fn join_strings(lines: &Vec<String>) -> (s: String)
    ensures
        s@ == join_lines(strings_view(lines@)),
{
    let ghost sv = strings_view(lines@);
    let mut out: Vec<char> = Vec::new();
    for k in 0..lines.len()
        invariant
            sv == strings_view(lines@),
            out@ == join_lines(sv.take(k as int)),
    {
        let ghost before = out@;
        assert(sv.take(k + 1).drop_last() =~= sv.take(k as int));
        if k > 0 {
            out.push('\n');
        }
        let cs = chars_of(lines[k].as_str());
        append_chars(&mut out, cs.as_slice());
        assert(sv.take(k + 1).last() == lines@[k as int]@);
        if k == 0 {
            assert(out@ =~= join_lines(sv.take(1)));
        } else {
            assert(out@ =~= join_lines(sv.take(k + 1)));
        }
    }
    assert(sv.take(lines@.len() as int) =~= sv);
    string_from_range(out.as_slice(), 0, out.len())
}

/// The line fix `f` applied to `content`, and whether it was applied or
/// found invalid
fn apply_line_fix(content: &str, fix: &Fix) -> (r: (String, bool, bool))
    ensures
        r.0@ == join_lines(line_fix_lines(spec_lines(content@), fix@)),
        r.1 == line_fix_takes(spec_lines(content@), fix@),
        r.2 == line_fix_invalid(spec_lines(content@), fix@),
{
    let mut lines = split_lines(content);
    let ghost ls = spec_lines(content@);
    let n = lines.len();
    let line = fix.line;
    if line == 0 || line - 1 > n {
        return (join_strings(&lines), false, true);
    }
    if fix.insert_after {
        let k = if line < n {
            line
        } else {
            n
        };
        let t = fix.new_text.clone();
        lines.insert(k, t);
        assert(strings_view(lines@) =~= ls.insert(k as int, fix.new_text@));
        (join_strings(&lines), true, false)
    } else if fix.delete_line {
        if line <= n {
            lines.remove(line - 1);
            assert(strings_view(lines@) =~= ls.remove(line - 1));
            (join_strings(&lines), true, false)
        } else {
            (join_strings(&lines), false, false)
        }
    } else {
        match &fix.old_text {
            Some(old) => {
                if line <= n {
                    let cs = chars_of(lines[line - 1].as_str());
                    let pat = chars_of(old.as_str());
                    if contains_chars(cs.as_slice(), pat.as_slice()) {
                        let nt = chars_of(fix.new_text.as_str());
                        let rep = replace_chars(cs.as_slice(), pat.as_slice(), nt.as_slice());
                        let t = string_from_range(rep.as_slice(), 0, rep.len());
                        assert(rep@.subrange(0, rep@.len() as int) =~= rep@);
                        lines.set(line - 1, t);
                        assert(strings_view(lines@) =~= ls.update(
                            line - 1,
                            replace_all(ls[line - 1], old@, fix.new_text@),
                        ));
                        return (join_strings(&lines), true, false);
                    }
                }
                (join_strings(&lines), false, false)
            },
            None => {
                if line <= n {
                    let t = fix.new_text.clone();
                    lines.set(line - 1, t);
                    assert(strings_view(lines@) =~= ls.update(line - 1, fix.new_text@));
                    (join_strings(&lines), true, false)
                } else {
                    (join_strings(&lines), false, false)
                }
            },
        }
    }
}

// ---------------------------------------------------------------------------
// Applying all fixes
// ---------------------------------------------------------------------------

/// The state after all of `fixes` are applied to `content`: the range fixes
/// first, then the line fixes
pub open spec fn fixed_state(content: Seq<char>, fixes: Seq<FixV>) -> FixState {
    apply_lines(
        apply_ranges(start_state(content), fix_order(fixes, true)),
        fix_order(fixes, false),
    )
}

/// Every fix's new text has a byte length that is a machine integer
pub open spec fn fixes_fit(fixes: Seq<Fix>) -> bool {
    forall|k: int| 0 <= k < fixes.len() ==> utf8_len(#[trigger] fixes[k].new_text@) <= usize::MAX
}

/// The outcome of applying fixes to a text
pub struct FixApplyResult {
    /// The text with the fixes applied
    pub content: String,
    /// How many fixes changed the text
    pub applied: usize,
    /// How many fixes were skipped for offsets or lines that do not fit the text
    pub skipped_invalid: usize,
}

/// The line fixes `fixes[order[..]]` applied to `text`, the counts going on
/// from `applied` and `invalid`
fn apply_line_fixes(text: String, fixes: &Vec<Fix>, order: &Vec<usize>, applied: usize, invalid: usize) -> (r: (
    String,
    usize,
    usize,
))
    requires
        forall|k: int| 0 <= k < order@.len() ==> #[trigger] order@[k] < fixes@.len(),
        applied + invalid + order@.len() <= usize::MAX,
    ensures
        ({
            let st = apply_lines(
                FixState { text: text@, written: seq![], applied: applied as nat, invalid: invalid as nat },
                indexed(fixes@, order@),
            );
            &&& r.0@ == st.text
            &&& r.1 == st.applied
            &&& r.2 == st.invalid
        }),
        r.1 + r.2 <= applied + invalid + order@.len(),
{
    let ghost ord = indexed(fixes@, order@);
    let ghost st0 = FixState { text: text@, written: seq![], applied: applied as nat, invalid: invalid as nat };
    let mut text = text;
    let mut applied = applied;
    let mut invalid = invalid;
    let ghost base = applied + invalid;
    for j in 0..order.len()
        invariant
            ord == indexed(fixes@, order@),
            forall|k: int| 0 <= k < order@.len() ==> #[trigger] order@[k] < fixes@.len(),
            base + order@.len() <= usize::MAX,
            text@ == apply_lines(st0, ord.take(j as int)).text,
            applied == apply_lines(st0, ord.take(j as int)).applied,
            invalid == apply_lines(st0, ord.take(j as int)).invalid,
            apply_lines(st0, ord.take(j as int)).written == st0.written,
            applied + invalid <= base + j,
    {
        proof {
            assert(ord.take(j + 1).drop_last() =~= ord.take(j as int));
        }
        let f = &fixes[order[j]];
        assert(ord.take(j + 1).last() == f@);
        let (t, took, bad) = apply_line_fix(text.as_str(), f);
        text = t;
        if took {
            applied += 1;
        }
        if bad {
            invalid += 1;
        }
    }
    proof {
        assert(ord.take(order@.len() as int) =~= ord);
    }
    (text, applied, invalid)
}

/// Applies `fixes` to `content`: the fixes on byte ranges first, from the
/// last range in the text to the first, passing over one that overlaps a
/// range already written and counting as invalid one whose offsets do not
/// fall on character boundaries in order; then the fixes on lines, from the
/// last line to the first, counting as invalid one whose line is neither a
/// line of the text nor the one after the last.
pub fn apply_fixes_to_content_detailed(content: &str, fixes: &Vec<Fix>) -> (r: FixApplyResult)
    requires
        fixes_fit(fixes@),
    ensures
        r.content@ == fixed_state(content@, fixes_view(fixes@)).text,
        r.applied == fixed_state(content@, fixes_view(fixes@)).applied,
        r.skipped_invalid == fixed_state(content@, fixes_view(fixes@)).invalid,
        r.applied + r.skipped_invalid <= fixes@.len(),
{
    let ranges = order_fixes(fixes, true);
    let lines = order_fixes(fixes, false);
    proof {
        lemma_fix_order_len(fixes_view(fixes@));
        assert(indexed(fixes@, ranges@).len() == ranges@.len());
        assert(indexed(fixes@, lines@).len() == lines@.len());
        assert(fixes_view(fixes@).len() == fixes@.len());
    }
    let nf = fixes.len();
    assert(ranges@.len() + lines@.len() == nf);
    let (text, applied, invalid) = apply_range_fixes(chars_of(content), fixes, &ranges);
    let ghost st = apply_ranges(start_state(content@), fix_order(fixes_view(fixes@), true));
    let s = string_from_range(text.as_slice(), 0, text.len());
    proof {
        assert(text@.subrange(0, text@.len() as int) =~= text@);
    }
    let (content, applied, invalid) = apply_line_fixes(s, fixes, &lines, applied, invalid);
    proof {
        lemma_apply_lines_written(st, fix_order(fixes_view(fixes@), false));
    }
    FixApplyResult { content, applied, skipped_invalid: invalid }
}

/// Line fixes read only the text and the counts of the state
proof fn lemma_apply_lines_written(st: FixState, fs: Seq<FixV>)
    ensures
        apply_lines(st, fs) == ({
            let r = apply_lines(FixState { written: seq![], ..st }, fs);
            FixState { written: st.written, ..r }
        }),
    decreases fs.len(),
{
    if fs.len() > 0 {
        lemma_apply_lines_written(st, fs.drop_last());
    }
}

/// [`apply_fixes_to_content_detailed`], giving the text and the number of
/// fixes applied
pub fn apply_fixes_to_content(content: &str, fixes: &Vec<Fix>) -> (r: (String, usize))
    requires
        fixes_fit(fixes@),
    ensures
        r.0@ == fixed_state(content@, fixes_view(fixes@)).text,
        r.1 == fixed_state(content@, fixes_view(fixes@)).applied,
{
    let d = apply_fixes_to_content_detailed(content, fixes);
    (d.content, d.applied)
}

// ---------------------------------------------------------------------------
// Laws
// ---------------------------------------------------------------------------

/// The order of a single fix: itself where it is of the kind, else nothing
proof fn lemma_order_one(f: FixV, by_range: bool)
    ensures
        fix_order(seq![f], by_range) == (if is_range_fix(f) == by_range {
            seq![f]
        } else {
            Seq::<FixV>::empty()
        }),
{
    let fs = seq![f];
    assert(fs.drop_last() =~= Seq::<FixV>::empty());
    assert(fix_order(Seq::<FixV>::empty(), by_range) == Seq::<FixV>::empty());
    assert(leading_not_preceded(Seq::<FixV>::empty(), f, by_range) == 0);
    assert(fs.last() == f);
    if is_range_fix(f) == by_range {
        let e = Seq::<FixV>::empty();
        assert(e.take(0) + seq![f] + e.skip(0) =~= seq![f]);
    }
}

/// The state after the single range fix `f`
proof fn lemma_ranges_one(st: FixState, f: FixV)
    ensures
        apply_ranges(st, seq![f]) == apply_range(st, f),
{
    assert(seq![f].drop_last() =~= Seq::<FixV>::empty());
    assert(apply_ranges(st, Seq::<FixV>::empty()) == st);
    assert(seq![f].last() == f);
}

/// With no fixes the text stays as it is and nothing is counted
pub proof fn lemma_no_fixes_keep_text(content: Seq<char>)
    ensures
        fixed_state(content, seq![]) == start_state(content),
{
    assert(fix_order(seq![], true) =~= seq![]);
    assert(fix_order(seq![], false) =~= seq![]);
}

/// A single fix on a byte range whose offsets fall on character boundaries
/// in order replaces exactly those bytes, and counts as applied
pub proof fn lemma_single_range_fix(content: Seq<char>, f: FixV)
    requires
        is_range_fix(f),
        replace_bytes(content, start_at(f), end_at(f), f.new_text) is Some,
    ensures
        fixed_state(content, seq![f]).text == replace_bytes(
            content,
            start_at(f),
            end_at(f),
            f.new_text,
        )->Some_0,
        fixed_state(content, seq![f]).applied == 1,
        fixed_state(content, seq![f]).invalid == 0,
{
    lemma_order_one(f, true);
    lemma_order_one(f, false);
    lemma_ranges_one(start_state(content), f);
    assert(!overlaps_written(seq![], start_at(f), end_at(f)));
}

/// A fix whose offsets do not fall on character boundaries in order leaves
/// the text as it is and counts as invalid
pub proof fn lemma_invalid_range_fix(content: Seq<char>, f: FixV)
    requires
        is_range_fix(f),
        replace_bytes(content, start_at(f), end_at(f), f.new_text) is None,
    ensures
        fixed_state(content, seq![f]) == (FixState { invalid: 1, ..start_state(content) }),
{
    lemma_order_one(f, true);
    lemma_order_one(f, false);
    lemma_ranges_one(start_state(content), f);
    assert(!overlaps_written(seq![], start_at(f), end_at(f)));
}

/// Of two range fixes where the later one in the text overlaps the
/// earlier, only the later one is applied
pub proof fn lemma_overlapping_range_fixes(content: Seq<char>, a: FixV, b: FixV)
    requires
        is_range_fix(a),
        is_range_fix(b),
        start_at(a) < start_at(b),
        start_at(b) < end_at(a),
        replace_bytes(content, start_at(b), end_at(b), b.new_text) is Some,
    ensures
        fixed_state(content, seq![a, b]).text == replace_bytes(
            content,
            start_at(b),
            end_at(b),
            b.new_text,
        )->Some_0,
        fixed_state(content, seq![a, b]).applied == 1,
        fixed_state(content, seq![a, b]).invalid == 0,
{
    let fs = seq![a, b];
    lemma_order_one(a, true);
    lemma_order_one(a, false);
    assert(fs.drop_last() =~= seq![a]);
    assert(fs.last() == b);
    assert(fix_order(fs, false) == fix_order(seq![a], false));
    let r = seq![a];
    assert(r.drop_first() =~= Seq::<FixV>::empty());
    assert(leading_not_preceded(r.drop_first(), b, true) == 0);
    assert(leading_not_preceded(r, b, true) == 0);
    assert(r.take(0) + seq![b] + r.skip(0) =~= seq![b, a]);
    assert(fix_order(fs, true) == seq![b, a]);
    let ord = seq![b, a];
    assert(ord.drop_last() =~= seq![b]);
    let st0 = start_state(content);
    lemma_ranges_one(st0, b);
    let st1 = apply_ranges(st0, seq![b]);
    assert(!overlaps_written(seq![], start_at(b), end_at(b)));
    assert(st1.written.len() == 1);
    assert(st1.written[0] == (start_at(b), (start_at(b) + utf8_len(b.new_text)) as nat));
    assert(overlaps_written(st1.written, start_at(a), end_at(a)));
    assert(apply_ranges(st0, ord) == apply_range(st1, a));
}

} // verus!
