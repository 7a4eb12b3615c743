//! Inline disable comments that silence findings on chosen lines.
//!
//! A comment-only line `# nginx-lint:disable rule-name reason` silences
//! `rule-name` on the next line that is not itself such a comment; an inline
//! comment `directive; # nginx-lint:disable rule-name reason` silences it on
//! its own line. Both the rule name and the reason are required, and
//! `nginx-lint:ignore` may stand for `nginx-lint:disable`.
use vstd::prelude::*;
use crate::lint::{
    Fix, FixV, LintError, LintErrorV, Severity, opt_fix_view, delete_fix, replace_line_fix, errors_view,
};
use crate::text::{
    chars_of, push_char, string_from_range, trim_bounds, trim_end_bound, find_char_from,
    find_ws_from, find_char, find_ws, lemma_find_char_at, lemma_find_ws_at, trim_seq,
    trim_end_seq, starts_with_seq, str_eq, lemma_trim_seq_shape,
};

verus! {

// ---------------------------------------------------------------------------
// Lines of a file (`str::lines`)
// ---------------------------------------------------------------------------

/// The pieces of `s` between its `sep` characters (`str::split(sep)`)
pub open spec fn split_on(s: Seq<char>, sep: char) -> Seq<Seq<char>>
    decreases s.len(),
{
    if s.len() == 0 {
        seq![seq![]]
    } else {
        let p = split_on(s.drop_last(), sep);
        if s.last() == sep {
            p.push(seq![])
        } else {
            p.update(p.len() - 1, p.last().push(s.last()))
        }
    }
}

/// A line without the `'\r'` of its `"\r\n"` ending
pub open spec fn strip_cr(l: Seq<char>) -> Seq<char> {
    if l.len() > 0 && l.last() == '\r' {
        l.drop_last()
    } else {
        l
    }
}

/// `str::lines`: the lines of `s`, split at `"\n"` or `"\r\n"`; a final line
/// ending adds no empty line, and a `'\r'` not followed by `'\n'` stays.
pub open spec fn spec_lines(s: Seq<char>) -> Seq<Seq<char>> {
    let p = split_on(s, '\n');
    p.drop_last().map_values(|l: Seq<char>| strip_cr(l)) + (if p.last().len() > 0 {
        seq![p.last()]
    } else {
        seq![]
    })
}

/// `split_on` gives at least one piece, and the pieces fit in the text
pub proof fn lemma_split_len(s: Seq<char>, sep: char)
    ensures
        split_on(s, sep).len() >= 1,
        split_on(s, sep).len() - 1 + split_on(s, sep).last().len() <= s.len(),
    decreases s.len(),
{
    if s.len() > 0 {
        lemma_split_len(s.drop_last(), sep);
    }
}

/// A file has no more lines than characters
pub proof fn lemma_lines_len(s: Seq<char>)
    ensures
        spec_lines(s).len() <= s.len(),
{
    lemma_split_len(s, '\n');
}

pub open spec fn strings_view(v: Seq<String>) -> Seq<Seq<char>> {
    v.map_values(|l: String| l@)
}

/// The lines of `content` (`str::lines`)
pub fn split_lines(content: &str) -> (lines: Vec<String>)
    ensures
        strings_view(lines@) == spec_lines(content@),
{
    let cs = chars_of(content);
    let n = cs.len();
    let mut lines: Vec<String> = Vec::new();
    let mut start: usize = 0;
    let mut i: usize = 0;
    proof {
        assert(cs@.take(0) =~= seq![]);
    }
    while i < n
        invariant
            n == cs@.len(),
            cs@ == content@,
            start <= i <= n,
            strings_view(lines@) == split_on(cs@.take(i as int), '\n').drop_last().map_values(
                |l: Seq<char>| strip_cr(l),
            ),
            split_on(cs@.take(i as int), '\n').last() == cs@.subrange(start as int, i as int),
            split_on(cs@.take(i as int), '\n').len() >= 1,
        decreases n - i,
    {
        let ghost t = cs@.take(i + 1);
        let ghost p = split_on(cs@.take(i as int), '\n');
        proof {
            assert(t.drop_last() =~= cs@.take(i as int));
            assert(t.last() == cs@[i as int]);
        }
        if cs[i] == '\n' {
            let line = string_from_range(cs.as_slice(), start, i);
            let ghost ln = line@;
            let mut line = line;
            if i > start && cs[i - 1] == '\r' {
                line = string_from_range(cs.as_slice(), start, i - 1);
                assert(line@ =~= ln.drop_last());
            }
            assert(line@ == strip_cr(p.last()));
            let ghost old_lines = lines@;
            lines.push(line);
            proof {
                assert(lines@.last()@ == strip_cr(p.last()));
                assert(lines@.drop_last() =~= old_lines);
                assert(strings_view(lines@) =~= strings_view(old_lines).push(strip_cr(p.last())));
                assert(split_on(t, '\n') == p.push(seq![]));
                assert(split_on(t, '\n').drop_last() =~= p);
                assert(p.drop_last().push(p.last()) =~= p);
                assert(strings_view(lines@) =~= p.map_values(|l: Seq<char>| strip_cr(l)));
                assert(cs@.subrange(i + 1, i + 1) =~= seq![]);
            }
            start = i + 1;
        } else {
            proof {
                assert(split_on(t, '\n') == p.update(p.len() - 1, p.last().push(cs@[i as int])));
                assert(split_on(t, '\n').drop_last() =~= p.drop_last());
                assert(cs@.subrange(start as int, i + 1) =~= p.last().push(cs@[i as int]));
            }
        }
        i += 1;
    }
    proof {
        assert(cs@.take(n as int) =~= cs@);
    }
    if start < n {
        let last = string_from_range(cs.as_slice(), start, n);
        lines.push(last);
        proof {
            let p = split_on(cs@, '\n');
            assert(strings_view(lines@) =~= p.drop_last().map_values(|l: Seq<char>| strip_cr(l))
                + seq![p.last()]);
        }
    } else {
        proof {
            let p = split_on(cs@, '\n');
            assert(strings_view(lines@) =~= p.drop_last().map_values(|l: Seq<char>| strip_cr(l))
                + seq![]);
        }
    }
    lines
}

// ---------------------------------------------------------------------------
// Disable comments
// ---------------------------------------------------------------------------

/// A problem with a disable comment: a malformed one, one naming an unknown
/// rule, or one that silenced nothing
#[derive(Debug, Clone)]
pub struct IgnoreWarning {
    /// Line of the comment (1-indexed)
    pub line: usize,
    pub message: String,
    /// How to remove the comment, where that is known
    pub fix: Option<Fix>,
}

/// Model of an [`IgnoreWarning`]
pub ghost struct IgnoreWarningV {
    pub line: nat,
    pub message: Seq<char>,
    pub fix: Option<FixV>,
}

impl View for IgnoreWarning {
    type V = IgnoreWarningV;

    open spec fn view(&self) -> IgnoreWarningV {
        IgnoreWarningV { line: self.line as nat, message: self.message@, fix: opt_fix_view(self.fix) }
    }
}

pub open spec fn warnings_view(v: Seq<IgnoreWarning>) -> Seq<IgnoreWarningV> {
    v.map_values(|w: IgnoreWarning| w@)
}

/// A well-formed disable comment
#[derive(Debug)]
pub struct ParsedDisableComment {
    /// Rule it silences
    pub rule_name: String,
    /// Line it silences the rule on (1-indexed)
    pub target_line: usize,
    /// Line of the comment (1-indexed)
    pub comment_line: usize,
    /// The comment follows other text on its line
    pub is_inline: bool,
    /// For an inline comment, the text before it without trailing whitespace
    pub content_before_comment: Option<String>,
}

/// Model of a [`ParsedDisableComment`]
pub ghost struct ParsedDisableCommentV {
    pub rule_name: Seq<char>,
    pub target_line: nat,
    pub comment_line: nat,
    pub is_inline: bool,
    pub content_before_comment: Option<Seq<char>>,
}

pub open spec fn opt_seq_view(s: Option<String>) -> Option<Seq<char>> {
    match s {
        Some(s) => Some(s@),
        None => None,
    }
}

impl View for ParsedDisableComment {
    type V = ParsedDisableCommentV;

    open spec fn view(&self) -> ParsedDisableCommentV {
        ParsedDisableCommentV {
            rule_name: self.rule_name@,
            target_line: self.target_line as nat,
            comment_line: self.comment_line as nat,
            is_inline: self.is_inline,
            content_before_comment: opt_seq_view(self.content_before_comment),
        }
    }
}

pub open spec fn parsed_view(r: Option<Result<ParsedDisableComment, IgnoreWarning>>) -> Option<
    Result<ParsedDisableCommentV, IgnoreWarningV>,
> {
    match r {
        None => None,
        Some(Ok(p)) => Some(Ok(p@)),
        Some(Err(w)) => Some(Err(w@)),
    }
}

/// The warning for a disable comment without a rule name
pub open spec fn missing_rule_warning(line: nat) -> IgnoreWarningV {
    IgnoreWarningV { line, message: "nginx-lint:disable requires a rule name"@, fix: None }
}

/// The warning for a disable comment without a reason
pub open spec fn missing_reason_warning(line: nat, rule: Seq<char>) -> IgnoreWarningV {
    IgnoreWarningV {
        line,
        message: "nginx-lint:disable "@ + rule + " requires a reason"@,
        fix: None,
    }
}

/// `str::trim_start_matches('#')`
pub open spec fn strip_hashes(s: Seq<char>) -> Seq<char>
    decreases s.len(),
{
    if s.len() > 0 && s[0] == '#' {
        strip_hashes(s.drop_first())
    } else {
        s
    }
}

/// The text of the comment that starts at `cs`, without its leading `#`s
/// and surrounding whitespace
pub open spec fn comment_text(l: Seq<char>, cs: int) -> Seq<char> {
    trim_seq(strip_hashes(l.skip(cs)))
}

/// The length of the keyword a comment text starts with: `nginx-lint:disable`
/// or its synonym `nginx-lint:ignore`
pub open spec fn keyword_len(comment: Seq<char>) -> Option<int> {
    if starts_with_seq(comment, "nginx-lint:disable"@) {
        Some("nginx-lint:disable"@.len() as int)
    } else if starts_with_seq(comment, "nginx-lint:ignore"@) {
        Some("nginx-lint:ignore"@.len() as int)
    } else {
        None
    }
}

/// Where line `l` holds a disable comment: the position of its `#` and the
/// trimmed text after its keyword
pub open spec fn disable_args(l: Seq<char>) -> Option<(int, Seq<char>)> {
    match find_char(l, '#') {
        None => None,
        Some(cs) => {
            let comment = comment_text(l, cs);
            match keyword_len(comment) {
                Some(k) => Some((cs, trim_seq(comment.skip(k)))),
                None => None,
            }
        },
    }
}

/// The rule name of a disable comment: its arguments up to the first whitespace
pub open spec fn rule_part(rest: Seq<char>) -> Seq<char> {
    match find_ws(rest) {
        Some(k) => rest.take(k),
        None => rest,
    }
}

/// A disable comment gives a reason after its rule name
pub open spec fn has_reason(rest: Seq<char>) -> bool {
    match find_ws(rest) {
        Some(k) => trim_seq(rest.skip(k + 1)).len() > 0,
        None => false,
    }
}

/// The disable comment at `cs` on line `l` (numbered `n`), with arguments `rest`
pub open spec fn read_disable(l: Seq<char>, cs: int, rest: Seq<char>, n: nat) -> Result<
    ParsedDisableCommentV,
    IgnoreWarningV,
> {
    let is_inline = trim_seq(l.take(cs)).len() > 0;
    let rule = rule_part(rest);
    if rule.len() == 0 {
        Err(missing_rule_warning(n))
    } else if !has_reason(rest) {
        Err(missing_reason_warning(n, rule))
    } else {
        Ok(
            ParsedDisableCommentV {
                rule_name: rule,
                target_line: if is_inline { n } else { n + 1 },
                comment_line: n,
                is_inline,
                content_before_comment: if is_inline {
                    Some(trim_end_seq(l.take(cs)))
                } else {
                    None
                },
            },
        )
    }
}

/// What line `l` (numbered `n`) holds as a disable comment: nothing, a
/// well-formed comment, or the warning for a malformed one.
///
/// The comment starts at the first `#`; after its leading `#`s and
/// whitespace it must start with `nginx-lint:disable` (or `nginx-lint:ignore`).
/// The rest, trimmed,
/// is the rule name up to the first whitespace, then the reason. A comment
/// after other text silences its own line, a comment alone the next one.
pub open spec fn disable_comment(l: Seq<char>, n: nat) -> Option<
    Result<ParsedDisableCommentV, IgnoreWarningV>,
> {
    match disable_args(l) {
        None => None,
        Some((cs, rest)) => Some(read_disable(l, cs, rest, n)),
    }
}

proof fn lemma_strip_hashes(s: Seq<char>, i: int)
    requires
        0 <= i <= s.len(),
        forall|k: int| 0 <= k < i ==> s[k] == '#',
        i < s.len() ==> s[i] != '#',
    ensures
        strip_hashes(s) == s.skip(i),
    decreases i,
{
    if i > 0 {
        assert forall|k: int| 0 <= k < i - 1 implies s.drop_first()[k] == '#' by {
            assert(s.drop_first()[k] == s[k + 1]);
        }
        if i < s.len() {
            assert(s.drop_first()[i - 1] == s[i]);
        }
        lemma_strip_hashes(s.drop_first(), i - 1);
        assert(s.drop_first().skip(i - 1) =~= s.skip(i));
    } else {
        assert(s.skip(0) =~= s);
    }
}

/// Bounds of the text of `l[from..to]` without its leading `#`s and
/// surrounding whitespace
fn comment_bounds(l: &[char], from: usize, to: usize) -> (r: (usize, usize))
    requires
        from <= to <= l@.len(),
    ensures
        from <= r.0 <= r.1 <= to,
        l@.subrange(r.0 as int, r.1 as int) == trim_seq(
            strip_hashes(l@.subrange(from as int, to as int)),
        ),
{
    let mut j = from;
    while j < to && l[j] == '#'
        invariant
            from <= j <= to <= l@.len(),
            forall|k: int| from <= k < j ==> l@[k] == '#',
        decreases to - j,
    {
        j += 1;
    }
    proof {
        let u = l@.subrange(from as int, to as int);
        assert forall|k: int| 0 <= k < j - from implies u[k] == '#' by {
            assert(u[k] == l@[from + k]);
        }
        if j < to {
            assert(u[j - from] == l@[j as int]);
        }
        lemma_strip_hashes(u, j - from);
        assert(u.skip(j - from) =~= l@.subrange(j as int, to as int));
    }
    trim_bounds(l, j, to)
}

/// `l[a..b]` starts with `p`
fn starts_with_at(l: &[char], a: usize, b: usize, p: &[char]) -> (r: bool)
    requires
        a <= b <= l@.len(),
    ensures
        r == starts_with_seq(l@.subrange(a as int, b as int), p@),
{
    let ghost c = l@.subrange(a as int, b as int);
    let plen = p.len();
    if b - a < plen {
        return false;
    }
    let mut k: usize = 0;
    while k < plen
        invariant
            a + plen <= b <= l@.len(),
            plen == p@.len(),
            k <= plen,
            c == l@.subrange(a as int, b as int),
            forall|q: int| 0 <= q < k ==> c[q] == p@[q],
        decreases plen - k,
    {
        if l[a + k] != p[k] {
            assert(c.take(plen as int)[k as int] != p@[k as int]);
            return false;
        }
        k += 1;
    }
    assert(c.take(plen as int) =~= p@);
    true
}

/// Where line `l` holds a disable comment: its `#` and the bounds of its arguments
fn find_disable_args(l: &[char]) -> (r: Option<(usize, usize, usize)>)
    ensures
        match r {
            None => disable_args(l@) is None,
            Some((cs, r0, r1)) => {
                &&& cs <= r0 <= r1 <= l@.len()
                &&& disable_args(l@) == Some((cs as int, l@.subrange(r0 as int, r1 as int)))
            },
        },
{
    let n = l.len();
    proof {
        assert(l@.subrange(0, n as int) =~= l@);
    }
    let cs = find_char_from(l, 0, n, '#');
    proof {
        lemma_find_char_at(l@, '#', cs as int);
    }
    if cs == n {
        return None;
    }
    assert(l@.subrange(cs as int, n as int) =~= l@.skip(cs as int));
    let (a, b) = comment_bounds(l, cs, n);
    let dv = chars_of("nginx-lint:disable");
    let iv = chars_of("nginx-lint:ignore");
    let plen = if starts_with_at(l, a, b, dv.as_slice()) {
        dv.len()
    } else if starts_with_at(l, a, b, iv.as_slice()) {
        iv.len()
    } else {
        return None;
    };
    let (r0, r1) = trim_bounds(l, a + plen, b);
    assert(l@.subrange(a as int, b as int).skip(plen as int) =~= l@.subrange(a + plen, b as int));
    Some((cs, r0, r1))
}

/// Reads line `line` (numbered `line_number`) as a disable comment: `None`
/// when it holds none, the warning when it is malformed.
pub fn parse_disable_comment(line: &str, line_number: usize) -> (r: Option<
    Result<ParsedDisableComment, IgnoreWarning>,
>)
    requires
        line_number < usize::MAX,
    ensures
        parsed_view(r) == disable_comment(line@, line_number as nat),
{
    let lv = chars_of(line);
    let l = lv.as_slice();
    match find_disable_args(l) {
        None => None,
        Some((cs, r0, r1)) => Some(read_disable_exec(l, cs, r0, r1, line_number)),
    }
}

fn read_disable_exec(l: &[char], cs: usize, r0: usize, r1: usize, line_number: usize) -> (r: Result<
    ParsedDisableComment,
    IgnoreWarning,
>)
    requires
        cs <= r0 <= r1 <= l@.len(),
        line_number < usize::MAX,
    ensures
        match r {
            Ok(p) => read_disable(l@, cs as int, l@.subrange(r0 as int, r1 as int), line_number as nat)
                == Ok::<ParsedDisableCommentV, IgnoreWarningV>(p@),
            Err(w) => read_disable(l@, cs as int, l@.subrange(r0 as int, r1 as int), line_number as nat)
                == Err::<ParsedDisableCommentV, IgnoreWarningV>(w@),
        },
{
    let ghost ls = l@;
    let ghost rest = ls.subrange(r0 as int, r1 as int);
    let (t0, t1) = trim_bounds(l, 0, cs);
    assert(ls.take(cs as int) =~= ls.subrange(0, cs as int));
    let is_inline = t1 > t0;
    let w = find_ws_from(l, r0, r1);
    proof {
        assert forall|q: int| 0 <= q < w - r0 implies !crate::text::is_unicode_ws(#[trigger] rest[q]) by {
            assert(rest[q] == ls[r0 + q]);
        }
        if w < r1 {
            assert(rest[w - r0] == ls[w as int]);
        }
        lemma_find_ws_at(rest, w - r0);
        assert(rest.take(w - r0) =~= ls.subrange(r0 as int, w as int));
    }
    if w == r0 {
        if w < r1 {
            assert(rest.take(0) =~= seq![]);
        }
        return Err(IgnoreWarning {
            line: line_number,
            message: "nginx-lint:disable requires a rule name".to_owned(),
            fix: None,
        });
    }
    let rule = string_from_range(l, r0, w);
    let mut reason = false;
    if w < r1 {
        let (q0, q1) = trim_bounds(l, w + 1, r1);
        assert(rest.skip(w - r0 + 1) =~= ls.subrange(w + 1, r1 as int));
        reason = q1 > q0;
    } else {
        assert(rest =~= ls.subrange(r0 as int, w as int));
    }
    if !reason {
        let mut message = "nginx-lint:disable ".to_owned();
        message.append(rule.as_str());
        message.append(" requires a reason");
        return Err(IgnoreWarning { line: line_number, message, fix: None });
    }
    let content_before_comment = if is_inline {
        let e = trim_end_bound(l, 0, cs);
        Some(string_from_range(l, 0, e))
    } else {
        None
    };
    Ok(ParsedDisableComment {
        rule_name: rule,
        target_line: if is_inline { line_number } else { line_number + 1 },
        comment_line: line_number,
        is_inline,
        content_before_comment,
    })
}

// ---------------------------------------------------------------------------
// The tracker
// ---------------------------------------------------------------------------

/// A disable comment as the tracker keeps it
#[derive(Debug)]
pub struct IgnoreDirective {
    /// Line of the comment (1-indexed)
    pub comment_line: usize,
    /// Line it silences its rule on (1-indexed)
    pub target_line: usize,
    /// Rule it silences
    pub rule_name: String,
    /// It silenced a finding
    pub used: bool,
    /// The comment follows other text on its line
    pub is_inline: bool,
    /// For an inline comment, the text before it
    pub content_before_comment: Option<String>,
}

/// Model of an [`IgnoreDirective`]
pub ghost struct IgnoreDirectiveV {
    pub comment_line: nat,
    pub target_line: nat,
    pub rule_name: Seq<char>,
    pub used: bool,
    pub is_inline: bool,
    pub content_before_comment: Option<Seq<char>>,
}

impl View for IgnoreDirective {
    type V = IgnoreDirectiveV;

    open spec fn view(&self) -> IgnoreDirectiveV {
        IgnoreDirectiveV {
            comment_line: self.comment_line as nat,
            target_line: self.target_line as nat,
            rule_name: self.rule_name@,
            used: self.used,
            is_inline: self.is_inline,
            content_before_comment: opt_seq_view(self.content_before_comment),
        }
    }
}

/// The disable comments of a file, and which of them silenced a finding
#[derive(Debug)]
pub struct IgnoreTracker {
    directives: Vec<IgnoreDirective>,
}

impl View for IgnoreTracker {
    type V = Seq<IgnoreDirectiveV>;

    closed spec fn view(&self) -> Seq<IgnoreDirectiveV> {
        self.directives@.map_values(|d: IgnoreDirective| d@)
    }
}

/// Some directive of `ds` silences `rule` on `line`
pub open spec fn ignores(ds: Seq<IgnoreDirectiveV>, rule: Seq<char>, line: nat) -> bool {
    exists|k: int| 0 <= k < ds.len() && #[trigger] ds[k].target_line == line && ds[k].rule_name == rule
}

/// `ds` after every directive that silences `rule` on `line` was marked used
pub open spec fn mark_used_spec(ds: Seq<IgnoreDirectiveV>, rule: Seq<char>, line: nat) -> Seq<
    IgnoreDirectiveV,
> {
    Seq::new(
        ds.len(),
        |k: int|
            if ds[k].target_line == line && ds[k].rule_name == rule {
                IgnoreDirectiveV { used: true, ..ds[k] }
            } else {
                ds[k]
            },
    )
}

/// The directive for an ignore added by hand for `rule` on `line`
pub open spec fn added_directive(rule: Seq<char>, line: nat) -> IgnoreDirectiveV {
    IgnoreDirectiveV {
        comment_line: if line >= 2 { (line - 1) as nat } else { 1 },
        target_line: line,
        rule_name: rule,
        used: false,
        is_inline: false,
        content_before_comment: None,
    }
}

/// The warning for a directive that silenced nothing, with the fix that
/// removes it: the whole line for a comment alone on its line, the comment
/// alone for an inline one
pub open spec fn unused_warning(d: IgnoreDirectiveV) -> IgnoreWarningV {
    IgnoreWarningV {
        line: d.comment_line,
        message: "unused nginx-lint:disable comment for rule '"@ + d.rule_name + "'"@,
        fix: if d.is_inline {
            match d.content_before_comment {
                Some(c) => Some(replace_line_fix(d.comment_line, c)),
                None => None,
            }
        } else {
            Some(delete_fix(d.comment_line))
        },
    }
}

/// The warnings for the directives of `ds` that silenced nothing, in order
pub open spec fn unused_warnings_of(ds: Seq<IgnoreDirectiveV>) -> Seq<IgnoreWarningV> {
    ds.filter(|d: IgnoreDirectiveV| !d.used).map_values(|d: IgnoreDirectiveV| unused_warning(d))
}

impl IgnoreTracker {
    /// A tracker with no directives
    pub fn new() -> (t: IgnoreTracker)
        ensures
            t@ == Seq::<IgnoreDirectiveV>::empty(),
    {
        let t = IgnoreTracker { directives: Vec::new() };
        assert(t@ =~= Seq::<IgnoreDirectiveV>::empty());
        t
    }

    /// `rule` is silenced on `line`
    pub fn is_ignored(&self, rule: &str, line: usize) -> (r: bool)
        ensures
            r == ignores(self@, rule@, line as nat),
    {
        let n = self.directives.len();
        let mut k: usize = 0;
        while k < n
            invariant
                n == self.directives@.len() == self@.len(),
                k <= n,
                forall|j: int|
                    0 <= j < k ==> !(#[trigger] self@[j].target_line == line && self@[j].rule_name
                        == rule@),
            decreases n - k,
        {
            let d = &self.directives[k];
            assert(self@[k as int] == d@);
            if d.target_line == line && str_eq(d.rule_name.as_str(), rule) {
                assert(self@[k as int].target_line == line && self@[k as int].rule_name == rule@);
                return true;
            }
            k += 1;
        }
        false
    }

    /// Silences `rule` on `line`, as if a disable comment stood on the line before
    pub fn add_ignore(&mut self, rule: &str, line: usize)
        ensures
            final(self)@ == old(self)@.push(added_directive(rule@, line as nat)),
    {
        let comment_line = if line >= 2 { line - 1 } else { 1 };
        self.push_directive(IgnoreDirective {
            comment_line,
            target_line: line,
            rule_name: rule.to_owned(),
            used: false,
            is_inline: false,
            content_before_comment: None,
        });
    }

    fn push_directive(&mut self, d: IgnoreDirective)
        ensures
            final(self)@ == old(self)@.push(d@),
    {
        let ghost old_v = self@;
        self.directives.push(d);
        assert(self@ =~= old_v.push(d@));
    }

    /// Marks every directive that silences `rule` on `line` as used
    fn mark_used(&mut self, rule: &str, line: usize)
        ensures
            final(self)@ == mark_used_spec(old(self)@, rule@, line as nat),
    {
        let ghost old_v = self@;
        let mut old_dirs: Vec<IgnoreDirective> = Vec::new();
        std::mem::swap(&mut old_dirs, &mut self.directives);
        assert(old_dirs@.map_values(|d: IgnoreDirective| d@) == old_v);
        let ghost target = mark_used_spec(old_v, rule@, line as nat);
        for d in it: old_dirs.into_iter()
            invariant
                it.seq().map_values(|d: IgnoreDirective| d@) == old_v,
                target == mark_used_spec(old_v, rule@, line as nat),
                self@ == target.take(it.index() as int),
        {
            let mut d = d;
            assert(d@ == old_v[it.index() as int]);
            if d.target_line == line && str_eq(d.rule_name.as_str(), rule) {
                d.used = true;
            }
            let ghost before = self@;
            self.directives.push(d);
            proof {
                assert(self@ =~= before.push(d@));
                assert(target.take(it.index() + 1) =~= target.take(it.index() as int).push(
                    target[it.index() as int],
                ));
            }
        }
        assert(target.take(old_v.len() as int) =~= target);
    }

    /// The warnings for the directives that silenced nothing, in order
    pub fn unused_warnings(&self) -> (w: Vec<IgnoreWarning>)
        ensures
            warnings_view(w@) == unused_warnings_of(self@),
    {
        let n = self.directives.len();
        let mut out: Vec<IgnoreWarning> = Vec::new();
        let mut k: usize = 0;
        while k < n
            invariant
                n == self.directives@.len() == self@.len(),
                k <= n,
                warnings_view(out@) == unused_warnings_of(self@.take(k as int)),
            decreases n - k,
        {
            let ghost ds = self@.take(k + 1);
            proof {
                assert(ds.drop_last() =~= self@.take(k as int));
                reveal(Seq::filter);
            }
            let d = &self.directives[k];
            assert(self@[k as int] == d@);
            if !d.used {
                let fix = if d.is_inline {
                    match &d.content_before_comment {
                        Some(c) => Some(Fix::replace_line(d.comment_line, c.as_str())),
                        None => None,
                    }
                } else {
                    Some(Fix::delete(d.comment_line))
                };
                let mut message = "unused nginx-lint:disable comment for rule '".to_owned();
                message.append(d.rule_name.as_str());
                message.append("'");
                let w = IgnoreWarning { line: d.comment_line, message, fix };
                assert(w@ == unused_warning(self@[k as int]));
                let ghost before = out@;
                out.push(w);
                proof {
                    let f = |d: IgnoreDirectiveV| !d.used;
                    assert(ds.filter(f) == self@.take(k as int).filter(f).push(self@[k as int]));
                    assert(warnings_view(out@) =~= warnings_view(before).push(w@));
                    assert(unused_warnings_of(ds) =~= unused_warnings_of(self@.take(k as int)).push(
                        unused_warning(self@[k as int]),
                    ));
                }
            } else {
                proof {
                    let f = |d: IgnoreDirectiveV| !d.used;
                    assert(ds.filter(f) == self@.take(k as int).filter(f));
                }
            }
            k += 1;
        }
        assert(self@.take(n as int) =~= self@);
        out
    }
}

// ---------------------------------------------------------------------------
// Reading the disable comments of a file
// ---------------------------------------------------------------------------

/// Line `j` (0-indexed) of `ls` is a disable comment alone on its line
pub open spec fn is_comment_only_disable(ls: Seq<Seq<char>>, j: int) -> bool {
    &&& 0 <= j < ls.len()
    &&& disable_comment(ls[j], (j + 1) as nat) matches Some(Ok(p))
    &&& !p.is_inline
}

/// The first line (0-indexed) from `j` on that is not a disable comment alone
/// on its line: a run of such comments all silence that line
pub open spec fn first_target(ls: Seq<Seq<char>>, j: int) -> int
    decreases ls.len() - j,
{
    if 0 <= j < ls.len() && is_comment_only_disable(ls, j) {
        first_target(ls, j + 1)
    } else {
        j
    }
}

/// A run of disable comments alone on their lines silences the first line
/// after it that is not such a comment: every line from `j` up to the
/// target is one, the target is not, and a comment of the run has the same
/// target as the one after it
pub proof fn lemma_disable_run_target(ls: Seq<Seq<char>>, j: int)
    requires
        0 <= j <= ls.len(),
    ensures
        j <= first_target(ls, j) <= ls.len(),
        forall|k: int| j <= k < first_target(ls, j) ==> is_comment_only_disable(ls, k),
        !is_comment_only_disable(ls, first_target(ls, j)),
        is_comment_only_disable(ls, j) ==> first_target(ls, j) == first_target(ls, j + 1),
    decreases ls.len() - j,
{
    if j < ls.len() && is_comment_only_disable(ls, j) {
        lemma_disable_run_target(ls, j + 1);
    }
}

/// A directive added by hand silences its rule on its line, whatever
/// directives stood before it
pub proof fn lemma_added_ignore_silences(ds: Seq<IgnoreDirectiveV>, rule: Seq<char>, line: nat)
    ensures
        ignores(ds.push(added_directive(rule, line)), rule, line),
        forall|r: Seq<char>, l: nat| #[trigger] ignores(ds, r, l) ==> ignores(
            ds.push(added_directive(rule, line)),
            r,
            l,
        ),
{
    let e = ds.push(added_directive(rule, line));
    assert(e[ds.len() as int].target_line == line);
    assert forall|r: Seq<char>, l: nat| #[trigger] ignores(ds, r, l) implies ignores(e, r, l) by {
        let k = choose|k: int| 0 <= k < ds.len() && #[trigger] ds[k].target_line == l && ds[k].rule_name == r;
        assert(e[k] == ds[k]);
    }
}

/// The directive that line `i` (0-indexed) of `ls` adds, if any
pub open spec fn line_directives(ls: Seq<Seq<char>>, i: int) -> Seq<IgnoreDirectiveV> {
    match disable_comment(ls[i], (i + 1) as nat) {
        Some(Ok(p)) => seq![
            IgnoreDirectiveV {
                comment_line: p.comment_line,
                target_line: if p.is_inline {
                    p.target_line
                } else {
                    (first_target(ls, i + 1) + 1) as nat
                },
                rule_name: p.rule_name,
                used: false,
                is_inline: p.is_inline,
                content_before_comment: p.content_before_comment,
            },
        ],
        _ => seq![],
    }
}

/// The warning for a disable comment that names a rule nobody knows
pub open spec fn unknown_rule_warning(line: nat, rule: Seq<char>) -> IgnoreWarningV {
    IgnoreWarningV {
        line,
        message: "unknown rule '"@ + rule + "' in nginx-lint:disable comment"@,
        fix: None,
    }
}

/// `rule` is acceptable: no list of rules was given, or it is on the list
pub open spec fn is_known_rule(valid: Option<Seq<Seq<char>>>, rule: Seq<char>) -> bool {
    match valid {
        None => true,
        Some(v) => v.contains(rule),
    }
}

/// The warnings that line `i` (0-indexed) of `ls` gives
pub open spec fn line_warnings(ls: Seq<Seq<char>>, valid: Option<Seq<Seq<char>>>, i: int) -> Seq<
    IgnoreWarningV,
> {
    match disable_comment(ls[i], (i + 1) as nat) {
        Some(Ok(p)) => if is_known_rule(valid, p.rule_name) {
            seq![]
        } else {
            seq![unknown_rule_warning(p.comment_line, p.rule_name)]
        },
        Some(Err(w)) => seq![w],
        None => seq![],
    }
}

/// The directives of the first `k` lines of `ls`, in order
pub open spec fn scan_directives(ls: Seq<Seq<char>>, k: int) -> Seq<IgnoreDirectiveV>
    decreases k,
{
    if k <= 0 {
        seq![]
    } else {
        scan_directives(ls, k - 1) + line_directives(ls, k - 1)
    }
}

/// The warnings of the first `k` lines of `ls`, in order
pub open spec fn scan_warnings(ls: Seq<Seq<char>>, valid: Option<Seq<Seq<char>>>, k: int) -> Seq<
    IgnoreWarningV,
>
    decreases k,
{
    if k <= 0 {
        seq![]
    } else {
        scan_warnings(ls, valid, k - 1) + line_warnings(ls, valid, k - 1)
    }
}

/// The directives of file `content`
pub open spec fn file_directives(content: Seq<char>) -> Seq<IgnoreDirectiveV> {
    scan_directives(spec_lines(content), spec_lines(content).len() as int)
}

/// The warnings of file `content`, checked against the rule names `valid`
pub open spec fn file_warnings(content: Seq<char>, valid: Option<Seq<Seq<char>>>) -> Seq<
    IgnoreWarningV,
> {
    scan_warnings(spec_lines(content), valid, spec_lines(content).len() as int)
}

pub open spec fn opt_strings_view(v: Option<&Vec<String>>) -> Option<Seq<Seq<char>>> {
    match v {
        Some(v) => Some(strings_view(v@)),
        None => None,
    }
}

/// `s` is one of `v`
pub fn contains_string(v: &Vec<String>, s: &str) -> (r: bool)
    ensures
        r == strings_view(v@).contains(s@),
{
    let n = v.len();
    let mut k: usize = 0;
    while k < n
        invariant
            n == v@.len(),
            k <= n,
            forall|j: int| 0 <= j < k ==> v@[j]@ != s@,
        decreases n - k,
    {
        if str_eq(v[k].as_str(), s) {
            assert(strings_view(v@)[k as int] == s@);
            return true;
        }
        k += 1;
    }
    proof {
        if strings_view(v@).contains(s@) {
            let j = choose|j: int| 0 <= j < strings_view(v@).len() && strings_view(v@)[j] == s@;
            assert(v@[j]@ == s@);
        }
    }
    false
}

impl IgnoreTracker {
    /// The tracker for file `content`, with the warnings for its malformed
    /// disable comments
    pub fn from_content(content: &str) -> (r: (IgnoreTracker, Vec<IgnoreWarning>))
        requires
            content@.len() < usize::MAX,
        ensures
            r.0@ == file_directives(content@),
            warnings_view(r.1@) == file_warnings(content@, None),
    {
        Self::from_content_with_rules(content, None)
    }

    /// The tracker for file `content`, with the warnings for its malformed
    /// disable comments and, where `valid_rules` is given, for those that name
    /// a rule not in it
    pub fn from_content_with_rules(content: &str, valid_rules: Option<&Vec<String>>) -> (r: (
        IgnoreTracker,
        Vec<IgnoreWarning>,
    ))
        requires
            content@.len() < usize::MAX,
        ensures
            r.0@ == file_directives(content@),
            warnings_view(r.1@) == file_warnings(content@, opt_strings_view(valid_rules)),
    {
        let lines = split_lines(content);
        let ghost ls = spec_lines(content@);
        let ghost valid = opt_strings_view(valid_rules);
        let n = lines.len();
        proof {
            lemma_lines_len(content@);
            assert(strings_view(lines@).len() == n);
        }
        let mut comment_only: Vec<bool> = Vec::new();
        for i in 0..n
            invariant
                n == lines@.len() == ls.len(),
                n < usize::MAX,
                strings_view(lines@) == ls,
                comment_only@.len() == i,
                forall|j: int| 0 <= j < i ==> comment_only@[j] == is_comment_only_disable(ls, j),
        {
            assert(lines@[i as int]@ == ls[i as int]);
            let b = match parse_disable_comment(lines[i].as_str(), i + 1) {
                Some(Ok(p)) => !p.is_inline,
                _ => false,
            };
            comment_only.push(b);
        }
        let mut tracker = IgnoreTracker::new();
        let mut warnings: Vec<IgnoreWarning> = Vec::new();
        for i in 0..n
            invariant
                n == lines@.len() == ls.len(),
                n < usize::MAX,
                strings_view(lines@) == ls,
                valid == opt_strings_view(valid_rules),
                comment_only@.len() == n,
                forall|j: int| 0 <= j < n ==> comment_only@[j] == is_comment_only_disable(ls, j),
                tracker@ == scan_directives(ls, i as int),
                warnings_view(warnings@) == scan_warnings(ls, valid, i as int),
        {
            assert(lines@[i as int]@ == ls[i as int]);
            let ghost wv = warnings_view(warnings@);
            match parse_disable_comment(lines[i].as_str(), i + 1) {
                None => {
                    assert(scan_warnings(ls, valid, i + 1) =~= wv);
                    assert(scan_directives(ls, i + 1) =~= tracker@);
                },
                Some(Err(w)) => {
                    warnings.push(w);
                    assert(warnings_view(warnings@) =~= wv.push(w@));
                    assert(scan_warnings(ls, valid, i + 1) =~= wv.push(w@));
                    assert(scan_directives(ls, i + 1) =~= tracker@);
                },
                Some(Ok(p)) => {
                    let target_line = if p.is_inline {
                        p.target_line
                    } else {
                        let mut t = i + 1;
                        while t < n && comment_only[t]
                            invariant
                                i + 1 <= t <= n == ls.len() == comment_only@.len(),
                                forall|j: int| 0 <= j < n ==> comment_only@[j] == is_comment_only_disable(ls, j),
                                first_target(ls, i + 1) == first_target(ls, t as int),
                            decreases n - t,
                        {
                            t += 1;
                        }
                        t + 1
                    };
                    if let Some(valid_names) = valid_rules {
                        if !contains_string(valid_names, p.rule_name.as_str()) {
                            let mut message = "unknown rule '".to_owned();
                            message.append(p.rule_name.as_str());
                            message.append("' in nginx-lint:disable comment");
                            let w = IgnoreWarning { line: p.comment_line, message, fix: None };
                            warnings.push(w);
                            assert(warnings_view(warnings@) =~= wv.push(w@));
                        } else {
                            assert(warnings_view(warnings@) =~= wv);
                        }
                    } else {
                        assert(warnings_view(warnings@) =~= wv);
                    }
                    assert(scan_warnings(ls, valid, i + 1) =~= warnings_view(warnings@));
                    let ghost tv = tracker@;
                    let d = IgnoreDirective {
                        comment_line: p.comment_line,
                        target_line,
                        rule_name: p.rule_name,
                        used: false,
                        is_inline: p.is_inline,
                        content_before_comment: p.content_before_comment,
                    };
                    tracker.push_directive(d);
                    assert(scan_directives(ls, i + 1) =~= tv.push(d@));
                },
            }
        }
        (tracker, warnings)
    }
}

// ---------------------------------------------------------------------------
// Filtering findings
// ---------------------------------------------------------------------------

/// Finding `e` is silenced by a directive of `ds`
pub open spec fn suppressed(ds: Seq<IgnoreDirectiveV>, e: LintErrorV) -> bool {
    &&& e.line matches Some(l)
    &&& ignores(ds, e.rule, l)
}

/// Finding `e` is one that directive `d` silences
pub open spec fn hits(e: LintErrorV, d: IgnoreDirectiveV) -> bool {
    e.line == Some(d.target_line) && e.rule == d.rule_name
}

/// Some finding of `es` is one that `d` silences
pub open spec fn hit_by_any(es: Seq<LintErrorV>, d: IgnoreDirectiveV) -> bool {
    exists|j: int| 0 <= j < es.len() && hits(#[trigger] es[j], d)
}

/// `ds` after the findings `es` went through it: a directive is used once
/// it silenced one of them
pub open spec fn used_after(ds: Seq<IgnoreDirectiveV>, es: Seq<LintErrorV>) -> Seq<IgnoreDirectiveV> {
    Seq::new(
        ds.len(),
        |k: int| IgnoreDirectiveV { used: ds[k].used || hit_by_any(es, ds[k]), ..ds[k] },
    )
}

/// Marking directives used changes nothing of what they silence
pub proof fn lemma_used_after_ignores(
    ds: Seq<IgnoreDirectiveV>,
    es: Seq<LintErrorV>,
    rule: Seq<char>,
    line: nat,
)
    ensures
        ignores(used_after(ds, es), rule, line) == ignores(ds, rule, line),
{
    let u = used_after(ds, es);
    if ignores(ds, rule, line) {
        let k = choose|k: int| 0 <= k < ds.len() && #[trigger] ds[k].target_line == line && ds[k].rule_name == rule;
        assert(u[k].target_line == line);
    }
    if ignores(u, rule, line) {
        let k = choose|k: int| 0 <= k < u.len() && #[trigger] u[k].target_line == line && u[k].rule_name == rule;
        assert(ds[k].target_line == line);
    }
}

proof fn lemma_used_after_step(ds: Seq<IgnoreDirectiveV>, es: Seq<LintErrorV>, i: int)
    requires
        0 <= i < es.len(),
    ensures
        suppressed(ds, es[i]) ==> used_after(ds, es.take(i + 1)) == mark_used_spec(
            used_after(ds, es.take(i)),
            es[i].rule,
            es[i].line.unwrap(),
        ),
        !suppressed(ds, es[i]) ==> used_after(ds, es.take(i + 1)) == used_after(ds, es.take(i)),
{
    let e = es[i];
    let a = es.take(i);
    let b = es.take(i + 1);
    assert forall|k: int| 0 <= k < ds.len() implies #[trigger] hit_by_any(b, ds[k]) == (hit_by_any(
        a,
        ds[k],
    ) || hits(e, ds[k])) by {
        if hit_by_any(a, ds[k]) {
            let j = choose|j: int| 0 <= j < a.len() && hits(#[trigger] a[j], ds[k]);
            assert(b[j] == a[j]);
        }
        if hits(e, ds[k]) {
            assert(b[i] == e);
        }
        if hit_by_any(b, ds[k]) {
            let j = choose|j: int| 0 <= j < b.len() && hits(#[trigger] b[j], ds[k]);
            if j < i {
                assert(a[j] == b[j]);
            }
        }
    }
    if suppressed(ds, e) {
        assert(used_after(ds, b) =~= mark_used_spec(used_after(ds, a), e.rule, e.line.unwrap()));
    } else {
        assert forall|k: int| 0 <= k < ds.len() implies !hits(e, #[trigger] ds[k]) by {
            if hits(e, ds[k]) {
                assert(ds[k].target_line == e.line.unwrap() && ds[k].rule_name == e.rule);
            }
        }
        assert(used_after(ds, b) =~= used_after(ds, a));
    }
}

/// What filtering findings through a tracker gives
#[derive(Debug)]
pub struct FilterResult {
    /// The findings that no directive silenced, in order
    pub errors: Vec<LintError>,
    /// How many findings were silenced
    pub ignored_count: usize,
    /// The warnings for the directives that silenced nothing
    pub unused_warnings: Vec<IgnoreWarning>,
}

/// Drops the findings that `tracker` silences, marks the directives that
/// silenced one as used, and reports those that silenced nothing
pub fn filter_errors(errors: Vec<LintError>, tracker: &mut IgnoreTracker) -> (r: FilterResult)
    ensures
        errors_view(r.errors@) == errors_view(errors@).filter(
            |e: LintErrorV| !suppressed(old(tracker)@, e),
        ),
        r.ignored_count + r.errors@.len() == errors@.len(),
        final(tracker)@ == used_after(old(tracker)@, errors_view(errors@)),
        warnings_view(r.unused_warnings@) == unused_warnings_of(final(tracker)@),
{
    let ghost ds0 = tracker@;
    let ghost es = errors_view(errors@);
    let ghost f = |e: LintErrorV| !suppressed(ds0, e);
    let mut remaining: Vec<LintError> = Vec::new();
    let mut ignored_count: usize = 0;
    let n = errors.len();
    proof {
        assert(es.take(0) =~= seq![]);
        assert(used_after(ds0, es.take(0)) =~= ds0);
        reveal(Seq::filter);
    }
    for error in it: errors.into_iter()
        invariant
            es == errors_view(it.seq()),
            f == (|e: LintErrorV| !suppressed(ds0, e)),
            tracker@ == used_after(ds0, es.take(it.index() as int)),
            errors_view(remaining@) == es.take(it.index() as int).filter(f),
            ignored_count + remaining@.len() == it.index(),
            it.index() <= it.seq().len(),
            es.len() == n,
    {
        let ghost i = it.index() as int;
        let ghost e = error@;
        proof {
            assert(e == es[i]);
            assert(es.take(i + 1).drop_last() =~= es.take(i));
            reveal(Seq::filter);
            lemma_used_after_step(ds0, es, i);
        }
        let mut silenced = false;
        if let Some(line) = error.line {
            proof {
                lemma_used_after_ignores(ds0, es.take(i), e.rule, line as nat);
            }
            if tracker.is_ignored(error.rule.as_str(), line) {
                tracker.mark_used(error.rule.as_str(), line);
                silenced = true;
            }
        }
        if silenced {
            ignored_count += 1;
        } else {
            let ghost before = remaining@;
            remaining.push(error);
            proof {
                assert(errors_view(remaining@) =~= errors_view(before).push(e));
            }
        }
    }
    proof {
        assert(es.take(es.len() as int) =~= es);
    }
    let unused_warnings = tracker.unused_warnings();
    FilterResult { errors: remaining, ignored_count, unused_warnings }
}

/// The finding that reports warning `w`
pub open spec fn warning_error(w: IgnoreWarningV) -> LintErrorV {
    LintErrorV {
        rule: "invalid-nginx-lint-disable"@,
        category: "ignore"@,
        message: w.message,
        severity: Severity::Warning,
        line: Some(w.line),
        column: Some(1),
        fix: w.fix,
    }
}

/// Reports each warning as a finding of the rule `invalid-nginx-lint-disable`
pub fn warnings_to_errors(warnings: Vec<IgnoreWarning>) -> (r: Vec<LintError>)
    ensures
        errors_view(r@) == warnings_view(warnings@).map_values(|w: IgnoreWarningV| warning_error(w)),
{
    let ghost ws = warnings_view(warnings@);
    let mut out: Vec<LintError> = Vec::new();
    for warning in it: warnings.into_iter()
        invariant
            ws == warnings_view(it.seq()),
            errors_view(out@) == ws.take(it.index() as int).map_values(
                |w: IgnoreWarningV| warning_error(w),
            ),
    {
        let ghost i = it.index() as int;
        let ghost wv = warning@;
        assert(wv == ws[i]);
        let mut error = LintError::new(
            "invalid-nginx-lint-disable",
            "ignore",
            warning.message.as_str(),
            Severity::Warning,
        ).with_location(warning.line, 1);
        if let Some(fix) = warning.fix {
            error = error.with_fix(fix);
        }
        assert(error@ == warning_error(wv));
        let ghost before = out@;
        out.push(error);
        proof {
            assert(errors_view(out@) =~= errors_view(before).push(error@));
            assert(ws.take(i + 1) =~= ws.take(i).push(wv));
            assert(ws.take(i + 1).map_values(|w: IgnoreWarningV| warning_error(w)) =~= ws.take(
                i,
            ).map_values(|w: IgnoreWarningV| warning_error(w)).push(warning_error(wv)));
        }
    }
    proof {
        assert(ws.take(ws.len() as int) =~= ws);
    }
    out
}

// ---------------------------------------------------------------------------
// Rule names and context comments
// ---------------------------------------------------------------------------

/// The rules that a disable comment may name
pub open spec fn known_rules() -> Seq<Seq<char>> {
    seq![
        "duplicate-directive"@,
        "unmatched-braces"@,
        "unclosed-quote"@,
        "missing-semicolon"@,
        "invalid-directive-context"@,
        "deprecated-ssl-protocol"@,
        "server-tokens-enabled"@,
        "autoindex-enabled"@,
        "weak-ssl-ciphers"@,
        "indent"@,
        "trailing-whitespace"@,
        "space-before-semicolon"@,
        "gzip-not-enabled"@,
        "missing-error-log"@,
        "proxy-pass-domain"@,
        "upstream-server-no-resolve"@,
        "proxy-set-header-inheritance"@,
        "root-in-location"@,
        "alias-location-slash-mismatch"@,
        "proxy-pass-with-uri"@,
        "add-header-inheritance"@,
        "proxy-keepalive"@,
    ]
}

/// The rules that a disable comment may name
pub fn known_rule_names() -> (r: Vec<String>)
    ensures
        strings_view(r@) == known_rules(),
{
    let names: [&str; 22] = [
        "duplicate-directive",
        "unmatched-braces",
        "unclosed-quote",
        "missing-semicolon",
        "invalid-directive-context",
        "deprecated-ssl-protocol",
        "server-tokens-enabled",
        "autoindex-enabled",
        "weak-ssl-ciphers",
        "indent",
        "trailing-whitespace",
        "space-before-semicolon",
        "gzip-not-enabled",
        "missing-error-log",
        "proxy-pass-domain",
        "upstream-server-no-resolve",
        "proxy-set-header-inheritance",
        "root-in-location",
        "alias-location-slash-mismatch",
        "proxy-pass-with-uri",
        "add-header-inheritance",
        "proxy-keepalive",
    ];
    let ghost want = known_rules();
    assert(want.len() == 22);
    let mut out: Vec<String> = Vec::new();
    for k in 0..22usize
        invariant
            names@.len() == 22,
            want == known_rules(),
            forall|j: int| 0 <= j < 22 ==> #[trigger] names@[j]@ == want[j],
            strings_view(out@) == want.take(k as int),
    {
        let ghost before = out@;
        out.push(names[k].to_owned());
        proof {
            assert(strings_view(out@) =~= strings_view(before).push(want[k as int]));
            assert(want.take(k + 1) =~= want.take(k as int).push(want[k as int]));
        }
    }
    assert(want.take(22) =~= want);
    out
}

/// The names of a context list: split at `,`, trimmed, empty ones dropped
pub open spec fn context_list(rest: Seq<char>) -> Seq<Seq<char>> {
    split_on(rest, ',').map_values(|p: Seq<char>| trim_seq(p)).filter(|p: Seq<char>| p.len() > 0)
}

/// The context that the comment lines from line `i` (0-indexed) of `ls` on
/// give: blank lines are passed over, the search stops at the first line
/// that is not a comment and after the tenth line, and an empty list gives none
pub open spec fn context_from(ls: Seq<Seq<char>>, i: int) -> Option<Seq<Seq<char>>>
    decreases 10 - i,
{
    if i < 0 || i >= ls.len() || i >= 10 {
        None
    } else {
        let t = trim_seq(ls[i]);
        if t.len() == 0 {
            context_from(ls, i + 1)
        } else if t[0] != '#' {
            None
        } else {
            let c = trim_seq(strip_hashes(t));
            let prefix = "nginx-lint:context"@;
            if starts_with_seq(c, prefix) {
                let list = context_list(trim_seq(c.skip(prefix.len() as int)));
                if list.len() == 0 {
                    None
                } else {
                    Some(list)
                }
            } else {
                context_from(ls, i + 1)
            }
        }
    }
}

/// The context that a `# nginx-lint:context http,server` comment among the
/// first comment lines of file `content` declares
pub open spec fn file_context(content: Seq<char>) -> Option<Seq<Seq<char>>> {
    context_from(spec_lines(content), 0)
}

/// No part of `split_on(s, sep)` holds `sep`
proof fn lemma_split_parts(s: Seq<char>, sep: char)
    ensures
        forall|i: int, j: int|
            0 <= i < split_on(s, sep).len() && 0 <= j < split_on(s, sep)[i].len()
                ==> #[trigger] split_on(s, sep)[i][j] != sep,
    decreases s.len(),
{
    if s.len() > 0 {
        lemma_split_parts(s.drop_last(), sep);
        lemma_split_len(s.drop_last(), sep);
        let p = split_on(s.drop_last(), sep);
        let r = split_on(s, sep);
        if s.last() != sep {
            assert forall|i: int, j: int| 0 <= i < r.len() && 0 <= j < r[i].len() implies #[trigger] r[i][j]
                != sep by {
                if i < p.len() - 1 {
                    assert(r[i] == p[i]);
                } else if j < p.last().len() {
                    assert(r[i][j] == p[i][j]);
                }
            }
        } else {
            assert forall|i: int, j: int| 0 <= i < r.len() && 0 <= j < r[i].len() implies #[trigger] r[i][j]
                != sep by {
                assert(r[i] == p[i]);
            }
        }
    }
}

/// The names of a context list are not empty, are trimmed and hold no `,`
proof fn lemma_context_list_names(rest: Seq<char>)
    ensures
        forall|k: int|
            0 <= k < context_list(rest).len() ==> {
                let v = #[trigger] context_list(rest)[k];
                v.len() > 0 && trim_seq(v) == v && !v.contains(',')
            },
{
    let parts = split_on(rest, ',');
    let tr = |p: Seq<char>| trim_seq(p);
    let ne = |p: Seq<char>| p.len() > 0;
    let m = parts.map_values(tr);
    assert(context_list(rest) == m.filter(ne));
    lemma_split_parts(rest, ',');
    assert forall|k: int| 0 <= k < context_list(rest).len() implies {
        let v = #[trigger] context_list(rest)[k];
        v.len() > 0 && trim_seq(v) == v && !v.contains(',')
    } by {
        let v = m.filter(ne)[k];
        m.lemma_filter_pred(ne, k);
        assert(m.filter(ne).contains(v));
        m.lemma_filter_contains_rev(ne, v);
        let i = choose|i: int| 0 <= i < m.len() && m[i] == v;
        assert(v == trim_seq(parts[i]));
        lemma_trim_seq_shape(parts[i]);
        assert forall|j: int| 0 <= j < v.len() implies v[j] != ',' by {
            assert(parts[i].contains(v[j]));
            let jj = choose|jj: int| 0 <= jj < parts[i].len() && parts[i][jj] == v[j];
            assert(parts[i][jj] != ',');
        }
    }
}

proof fn lemma_context_from_names(ls: Seq<Seq<char>>, i: int)
    ensures
        context_from(ls, i) matches Some(v) ==> v.len() > 0 && forall|k: int|
            0 <= k < v.len() ==> {
                &&& (#[trigger] v[k]).len() > 0
                &&& trim_seq(v[k]) == v[k]
                &&& !v[k].contains(',')
            },
    decreases 10 - i,
{
    if !(i < 0 || i >= ls.len() || i >= 10) {
        let t = trim_seq(ls[i]);
        let c = trim_seq(strip_hashes(t));
        let prefix = "nginx-lint:context"@;
        lemma_context_list_names(trim_seq(c.skip(prefix.len() as int)));
        lemma_context_from_names(ls, i + 1);
    }
}

/// A context that a file declares is a list of at least one name, each
/// name non-empty, trimmed and free of `,`
pub proof fn lemma_file_context_names(content: Seq<char>)
    ensures
        file_context(content) matches Some(v) ==> v.len() > 0 && forall|k: int|
            0 <= k < v.len() ==> {
                &&& (#[trigger] v[k]).len() > 0
                &&& trim_seq(v[k]) == v[k]
                &&& !v[k].contains(',')
            },
{
    lemma_context_from_names(spec_lines(content), 0);
}

/// The names that the trimmed comment line `t` declares as the context, if
/// it is a `nginx-lint:context` comment
pub open spec fn line_context(t: Seq<char>) -> Option<Seq<Seq<char>>> {
    let c = trim_seq(strip_hashes(t));
    let prefix = "nginx-lint:context"@;
    if starts_with_seq(c, prefix) {
        Some(context_list(trim_seq(c.skip(prefix.len() as int))))
    } else {
        None
    }
}

/// A line that is neither blank nor a comment
pub open spec fn is_code_line(l: Seq<char>) -> bool {
    trim_seq(l).len() > 0 && trim_seq(l)[0] != '#'
}

proof fn lemma_context_from_ten(ls: Seq<Seq<char>>, i: int)
    requires
        0 <= i,
    ensures
        context_from(ls, i) == context_from(ls.take(if ls.len() < 10 { ls.len() as int } else { 10 }), i),
    decreases 10 - i,
{
    let t = ls.take(if ls.len() < 10 { ls.len() as int } else { 10 });
    if i < ls.len() && i < 10 {
        assert(t[i] == ls[i]);
        lemma_context_from_ten(ls, i + 1);
    }
}

proof fn lemma_context_from_line(ls: Seq<Seq<char>>, i: int)
    ensures
        context_from(ls, i) matches Some(v) ==> exists|k: int|
            #![trigger ls[k]]
            {
                &&& 0 <= i <= k < ls.len()
                &&& k < 10
                &&& !is_code_line(ls[k])
                &&& line_context(trim_seq(ls[k])) == Some(v)
                &&& forall|j: int| i <= j < k ==> !is_code_line(#[trigger] ls[j])
            },
    decreases 10 - i,
{
    if !(i < 0 || i >= ls.len() || i >= 10) {
        lemma_context_from_line(ls, i + 1);
        let t = trim_seq(ls[i]);
        if context_from(ls, i) is Some && !(t.len() > 0 && t[0] == '#' && line_context(t) is Some) {
            let v = context_from(ls, i)->Some_0;
            let k = choose|k: int|
                #![trigger ls[k]]
                {
                    &&& 0 <= i + 1 <= k < ls.len()
                    &&& k < 10
                    &&& !is_code_line(ls[k])
                    &&& line_context(trim_seq(ls[k])) == Some(v)
                    &&& forall|j: int| i + 1 <= j < k ==> !is_code_line(#[trigger] ls[j])
                };
            assert(!is_code_line(ls[i]));
            assert(forall|j: int| i <= j < k ==> !is_code_line(#[trigger] ls[j]));
        }
    }
}

proof fn lemma_context_from_stops(ls: Seq<Seq<char>>, i: int, m: int)
    requires
        0 <= i <= m < ls.len(),
        is_code_line(ls[m]),
        forall|j: int| i <= j < m ==> line_context(trim_seq(#[trigger] ls[j])) is None,
    ensures
        context_from(ls, i) is None,
    decreases m - i,
{
    if i < 10 && i < m {
        lemma_context_from_stops(ls, i + 1, m);
    }
}

/// Only the first ten lines of a file can declare its context
pub proof fn lemma_file_context_first_ten_lines(content: Seq<char>)
    ensures
        file_context(content) == context_from(
            spec_lines(content).take(
                if spec_lines(content).len() < 10 {
                    spec_lines(content).len() as int
                } else {
                    10
                },
            ),
            0,
        ),
{
    lemma_context_from_ten(spec_lines(content), 0);
}

/// A declared context comes from a context comment among the first ten
/// lines, before which every line is blank or a comment
pub proof fn lemma_file_context_line(content: Seq<char>)
    ensures
        file_context(content) matches Some(v) ==> exists|k: int|
            #![trigger spec_lines(content)[k]]
            {
                &&& 0 <= k < spec_lines(content).len()
                &&& k < 10
                &&& line_context(trim_seq(spec_lines(content)[k])) == Some(v)
                &&& forall|j: int| 0 <= j < k ==> !is_code_line(#[trigger] spec_lines(content)[j])
            },
{
    lemma_context_from_line(spec_lines(content), 0);
}

/// A line that is neither blank nor a comment, before any context comment,
/// leaves the file without a declared context
pub proof fn lemma_file_context_code_first(content: Seq<char>, m: int)
    requires
        0 <= m < spec_lines(content).len(),
        is_code_line(spec_lines(content)[m]),
        forall|j: int| 0 <= j < m ==> line_context(trim_seq(#[trigger] spec_lines(content)[j])) is None,
    ensures
        file_context(content) is None,
{
    lemma_context_from_stops(spec_lines(content), 0, m);
}

pub open spec fn opt_list_view(v: Option<Vec<String>>) -> Option<Seq<Seq<char>>> {
    match v {
        Some(v) => Some(strings_view(v@)),
        None => None,
    }
}

/// The names of the context list `cs[r0..r1]`
fn split_context(cs: &[char], r0: usize, r1: usize) -> (r: Vec<String>)
    requires
        r0 <= r1 <= cs@.len(),
    ensures
        strings_view(r@) == context_list(cs@.subrange(r0 as int, r1 as int)),
{
    let ghost rest = cs@.subrange(r0 as int, r1 as int);
    let ghost tr = |p: Seq<char>| trim_seq(p);
    let ghost ne = |p: Seq<char>| p.len() > 0;
    let mut out: Vec<String> = Vec::new();
    let mut start = r0;
    let mut j = r0;
    proof {
        assert(rest.take(0) =~= seq![]);
        reveal(Seq::filter);
        assert(split_on(rest.take(0), ',').drop_last() =~= seq![]);
        assert(seq![].map_values(tr) =~= Seq::<Seq<char>>::empty());
    }
    while j < r1
        invariant
            r0 <= start <= j <= r1 <= cs@.len(),
            rest == cs@.subrange(r0 as int, r1 as int),
            tr == (|p: Seq<char>| trim_seq(p)),
            ne == (|p: Seq<char>| p.len() > 0),
            strings_view(out@) == split_on(rest.take(j - r0), ',').drop_last().map_values(tr).filter(
                ne,
            ),
            split_on(rest.take(j - r0), ',').last() == cs@.subrange(start as int, j as int),
        decreases r1 - j,
    {
        let ghost t = rest.take(j - r0 + 1);
        let ghost p = split_on(rest.take(j - r0), ',');
        proof {
            assert(t.drop_last() =~= rest.take(j - r0));
            assert(t.last() == cs@[j as int]);
            lemma_split_len(rest.take(j - r0), ',');
        }
        if cs[j] == ',' {
            let (a, b) = trim_bounds(cs, start, j);
            proof {
                assert(split_on(t, ',') == p.push(seq![]));
                assert(split_on(t, ',').drop_last() =~= p);
                assert(p =~= p.drop_last().push(p.last()));
                assert(p.map_values(tr) =~= p.drop_last().map_values(tr).push(trim_seq(p.last())));
                reveal(Seq::filter);
                assert(p.map_values(tr).drop_last() =~= p.drop_last().map_values(tr));
            }
            if a < b {
                let ghost before = out@;
                out.push(string_from_range(cs, a, b));
                proof {
                    assert(strings_view(out@) =~= strings_view(before).push(trim_seq(p.last())));
                }
            }
            proof {
                assert(cs@.subrange(j + 1, j + 1) =~= seq![]);
            }
            start = j + 1;
        } else {
            proof {
                assert(split_on(t, ',') == p.update(p.len() - 1, p.last().push(cs@[j as int])));
                assert(split_on(t, ',').drop_last() =~= p.drop_last());
                assert(cs@.subrange(start as int, j + 1) =~= p.last().push(cs@[j as int]));
            }
        }
        j += 1;
    }
    let ghost p = split_on(rest, ',');
    proof {
        assert(rest.take(r1 - r0) =~= rest);
        lemma_split_len(rest, ',');
        assert(p =~= p.drop_last().push(p.last()));
        assert(p.map_values(tr) =~= p.drop_last().map_values(tr).push(trim_seq(p.last())));
        reveal(Seq::filter);
        assert(p.map_values(tr).drop_last() =~= p.drop_last().map_values(tr));
    }
    let (a, b) = trim_bounds(cs, start, r1);
    if a < b {
        let ghost before = out@;
        out.push(string_from_range(cs, a, b));
        proof {
            assert(strings_view(out@) =~= strings_view(before).push(trim_seq(p.last())));
        }
    }
    out
}

/// The context that a `# nginx-lint:context http,server` comment among the
/// first comment lines of `content` declares
pub fn parse_context_comment(content: &str) -> (r: Option<Vec<String>>)
    ensures
        opt_list_view(r) == file_context(content@),
{
    let lines = split_lines(content);
    let ghost ls = spec_lines(content@);
    let n = lines.len();
    let mut i: usize = 0;
    while i < n && i < 10
        invariant
            n == lines@.len() == ls.len(),
            strings_view(lines@) == ls,
            ls == spec_lines(content@),
            context_from(ls, 0) == context_from(ls, i as int),
        decreases n - i,
    {
        assert(lines@[i as int]@ == ls[i as int]);
        let lv = chars_of(lines[i].as_str());
        let l = lv.as_slice();
        let len = l.len();
        let (a, b) = trim_bounds(l, 0, len);
        assert(l@.subrange(0, len as int) =~= l@);
        if a == b {
            i += 1;
            continue;
        }
        let ghost t = l@.subrange(a as int, b as int);
        assert(t == trim_seq(ls[i as int]));
        assert(t[0] == l@[a as int]);
        if l[a] != '#' {
            return None;
        }
        let (c0, c1) = comment_bounds(l, a, b);
        assert(l@.subrange(c0 as int, c1 as int) == trim_seq(strip_hashes(t)));
        let pv = chars_of("nginx-lint:context");
        if starts_with_at(l, c0, c1, pv.as_slice()) {
            let plen = pv.len();
            let (r0, r1) = trim_bounds(l, c0 + plen, c1);
            assert(l@.subrange(c0 as int, c1 as int).skip(plen as int) =~= l@.subrange(
                c0 + plen,
                c1 as int,
            ));
            let list = split_context(l, r0, r1);
            if list.len() == 0 {
                return None;
            }
            return Some(list);
        }
        i += 1;
    }
    None
}

} // verus!
