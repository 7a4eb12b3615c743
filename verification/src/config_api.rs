//! What a rule sees of a configuration beyond its syntax tree: where the
//! file is included from, a directive's arguments, the fixes that insert,
//! replace or delete around a directive, and the paths by which nested
//! directives are found again.
use vstd::prelude::*;
use crate::ast::{
    Config, ConfigItem, ConfigItemV, Directive, DirectiveV, items_view, item_view, directive_view,
    lemma_items_view_index, lemma_items_view_len,
};
use crate::ignore::strings_view;
use crate::includes::copy_strings;
use crate::lexer::{utf8_len, utf8_len_of};
use crate::lint::{Fix, FixV, delete_fix, range_fix};
use crate::text::str_eq;

verus! {

// ---------------------------------------------------------------------------
// Where the file is included from
// ---------------------------------------------------------------------------

/// The first index of `name` in `ctx`
pub open spec fn first_index(ctx: Seq<Seq<char>>, name: Seq<char>) -> Option<int>
    decreases ctx.len(),
{
    if ctx.len() == 0 {
        None
    } else if ctx[0] == name {
        Some(0)
    } else {
        match first_index(ctx.drop_first(), name) {
            Some(i) => Some(i + 1),
            None => None,
        }
    }
}

/// The first `outer` in `ctx` comes before the first `inner`
pub open spec fn included_within(ctx: Seq<Seq<char>>, outer: Seq<char>, inner: Seq<char>) -> bool {
    match (first_index(ctx, outer), first_index(ctx, inner)) {
        (Some(a), Some(b)) => a < b,
        _ => false,
    }
}

proof fn lemma_first_index(ctx: Seq<Seq<char>>, name: Seq<char>, i: int)
    requires
        0 <= i <= ctx.len(),
        forall|k: int| 0 <= k < i ==> ctx[k] != name,
        i == ctx.len() || ctx[i] == name,
    ensures
        first_index(ctx, name) == (if i < ctx.len() { Some(i) } else { None::<int> }),
        first_index(ctx, name) is None <==> !ctx.contains(name),
    decreases i,
{
    if i > 0 {
        assert forall|k: int| 0 <= k < i - 1 implies ctx.drop_first()[k] != name by {
            assert(ctx.drop_first()[k] == ctx[k + 1]);
        }
        if i < ctx.len() {
            assert(ctx.drop_first()[i - 1] == ctx[i]);
        }
        lemma_first_index(ctx.drop_first(), name, i - 1);
        if ctx.contains(name) {
            let j = choose|j: int| 0 <= j < ctx.len() && ctx[j] == name;
            assert(ctx.drop_first()[j - 1] == ctx[j]);
        }
    } else if i < ctx.len() {
        assert(ctx.contains(name));
    }
}

/// The first index of `name` in `ctx`
fn position(ctx: &Vec<String>, name: &str) -> (r: Option<usize>)
    ensures
        match r {
            Some(i) => first_index(strings_view(ctx@), name@) == Some(i as int),
            None => first_index(strings_view(ctx@), name@) is None,
        },
        r is None <==> !strings_view(ctx@).contains(name@),
{
    let ghost cv = strings_view(ctx@);
    let mut k: usize = 0;
    while k < ctx.len()
        invariant
            cv == strings_view(ctx@),
            k <= ctx@.len(),
            forall|j: int| 0 <= j < k ==> cv[j] != name@,
        decreases ctx@.len() - k,
    {
        if str_eq(ctx[k].as_str(), name) {
            proof {
                lemma_first_index(cv, name@, k as int);
            }
            return Some(k);
        }
        k += 1;
    }
    proof {
        lemma_first_index(cv, name@, k as int);
    }
    None
}

impl Config {
    /// The file is included from a block named `context`
    pub fn is_included_from(&self, context: &str) -> (r: bool)
        ensures
            r == strings_view(self.include_context@).contains(context@),
    {
        position(&self.include_context, context).is_some()
    }

    /// The file is included from an `http` block
    pub fn is_included_from_http(&self) -> (r: bool)
        ensures
            r == strings_view(self.include_context@).contains("http"@),
    {
        self.is_included_from("http")
    }

    /// The file is included from a `stream` block
    pub fn is_included_from_stream(&self) -> (r: bool)
        ensures
            r == strings_view(self.include_context@).contains("stream"@),
    {
        self.is_included_from("stream")
    }

    /// The file is included from a `server` block inside an `http` block
    pub fn is_included_from_http_server(&self) -> (r: bool)
        ensures
            r == included_within(strings_view(self.include_context@), "http"@, "server"@),
    {
        match (position(&self.include_context, "http"), position(&self.include_context, "server")) {
            (Some(h), Some(s)) => h < s,
            _ => false,
        }
    }

    /// The file is included from a `location` block inside an `http` block
    pub fn is_included_from_http_location(&self) -> (r: bool)
        ensures
            r == included_within(strings_view(self.include_context@), "http"@, "location"@),
    {
        match (position(&self.include_context, "http"), position(&self.include_context, "location")) {
            (Some(h), Some(l)) => h < l,
            _ => false,
        }
    }

    /// The innermost block the file is included from
    pub fn immediate_parent_context(&self) -> (r: Option<&str>)
        ensures
            self.include_context@.len() == 0 ==> r is None,
            self.include_context@.len() > 0 ==> (r matches Some(s) && s@
                == self.include_context@.last()@),
    {
        let n = self.include_context.len();
        if n > 0 {
            Some(self.include_context[n - 1].as_str())
        } else {
            None
        }
    }
}

// ---------------------------------------------------------------------------
// Arguments
// ---------------------------------------------------------------------------

impl Directive {
    /// The value of argument `index`
    pub fn arg_at(&self, index: usize) -> (r: Option<&str>)
        ensures
            index < self.args@.len() ==> (r matches Some(s) && s@ == self.args@[index as int].value.text()),
            index >= self.args@.len() ==> r is None,
    {
        if index < self.args.len() {
            Some(self.args[index].as_str())
        } else {
            None
        }
    }

    /// The value of the last argument
    pub fn last_arg(&self) -> (r: Option<&str>)
        ensures
            self.args@.len() == 0 ==> r is None,
            self.args@.len() > 0 ==> (r matches Some(s) && s@ == self.args@.last().value.text()),
    {
        let n = self.args.len();
        if n > 0 {
            Some(self.args[n - 1].as_str())
        } else {
            None
        }
    }

    /// Some argument has the value `value`
    pub fn has_arg(&self, value: &str) -> (r: bool)
        ensures
            r == exists|k: int| 0 <= k < self.args@.len() && #[trigger] self.args@[k].value.text() == value@,
    {
        let mut k: usize = 0;
        while k < self.args.len()
            invariant
                k <= self.args@.len(),
                forall|j: int| 0 <= j < k ==> #[trigger] self.args@[j].value.text() != value@,
            decreases self.args@.len() - k,
        {
            if str_eq(self.args[k].as_str(), value) {
                return true;
            }
            k += 1;
        }
        false
    }

    /// The number of arguments
    pub fn arg_count(&self) -> (r: usize)
        ensures
            r == self.args@.len(),
    {
        self.args.len()
    }

    /// The directive has a block
    pub fn has_block(&self) -> (r: bool)
        ensures
            r == (self.block is Some),
    {
        self.block.is_some()
    }

    /// The directive has a block that holds raw text
    pub fn block_is_raw(&self) -> (r: bool)
        ensures
            r == (self.block matches Some(b) && b.raw_content is Some),
    {
        match &self.block {
            Some(b) => b.is_raw(),
            None => false,
        }
    }
}

// ---------------------------------------------------------------------------
// Fixes around a directive
// ---------------------------------------------------------------------------

/// The number of columns before the directive starts
pub open spec fn columns_before(d: DirectiveV) -> nat {
    if d.span.start.column >= 1 {
        (d.span.start.column - 1) as nat
    } else {
        0
    }
}

/// The spaces that indent a line to the directive's column
pub open spec fn indent_for(d: DirectiveV) -> Seq<char> {
    Seq::new(columns_before(d), |i: int| ' ')
}

/// The offset where the directive's line starts, taking each column before
/// it as one byte
pub open spec fn line_start_offset(d: DirectiveV) -> nat {
    if d.span.start.offset >= columns_before(d) {
        (d.span.start.offset - columns_before(d)) as nat
    } else {
        0
    }
}

/// `parts` with `f` applied to each, joined
pub open spec fn concat_lines(lines: Seq<Seq<char>>, f: spec_fn(Seq<char>) -> Seq<char>) -> Seq<char>
    decreases lines.len(),
{
    if lines.len() == 0 {
        seq![]
    } else {
        concat_lines(lines.drop_last(), f) + f(lines.last())
    }
}

/// The fix that replaces the directive, and the blanks before it, by those
/// blanks and `text`
pub open spec fn replace_with_fix(d: DirectiveV, text: Seq<char>) -> FixV {
    range_fix(
        (d.span.start.offset - utf8_len(d.leading_whitespace)) as nat,
        d.span.end.offset as nat,
        d.leading_whitespace + text,
    )
}

/// The fix that inserts the lines `lines`, indented as the directive, after it
pub open spec fn insert_after_fix(d: DirectiveV, lines: Seq<Seq<char>>) -> FixV {
    range_fix(
        d.span.end.offset as nat,
        d.span.end.offset as nat,
        concat_lines(lines, |l: Seq<char>| seq!['\n'] + indent_for(d) + l),
    )
}

/// The fix that inserts the lines `lines`, indented as the directive, before
/// the line of the directive
pub open spec fn insert_before_fix(d: DirectiveV, lines: Seq<Seq<char>>) -> FixV {
    range_fix(
        line_start_offset(d),
        line_start_offset(d),
        concat_lines(lines, |l: Seq<char>| indent_for(d) + l + seq!['\n']),
    )
}

/// The spaces that indent a line to the directive's column
fn indent_of_directive(d: &Directive) -> (s: Vec<char>)
    ensures
        s@ == indent_for(directive_view(*d)),
{
    let n: usize = if d.span.start.column >= 1 {
        d.span.start.column - 1
    } else {
        0
    };
    let mut s: Vec<char> = Vec::new();
    for k in 0..n
        invariant
            s@ == Seq::new(k as nat, |i: int| ' '),
    {
        s.push(' ');
        assert(s@ =~= Seq::new((k + 1) as nat, |i: int| ' '));
    }
    assert(s@ =~= indent_for(directive_view(*d)));
    s
}

/// A string holding the characters `cs`
fn string_of(cs: &Vec<char>) -> (s: String)
    ensures
        s@ == cs@,
{
    let s = crate::text::string_from_range(cs.as_slice(), 0, cs.len());
    assert(cs@.subrange(0, cs@.len() as int) =~= cs@);
    s
}

/// Appends the characters of `t` to `out`
fn push_str_chars(out: &mut Vec<char>, t: &str)
    ensures
        final(out)@ == old(out)@ + t@,
{
    let cs = crate::text::chars_of(t);
    let ghost start = out@;
    for k in 0..cs.len()
        invariant
            out@ == start + cs@.take(k as int),
    {
        out.push(cs[k]);
        assert(cs@.take(k + 1) =~= cs@.take(k as int).push(cs@[k as int]));
        assert(out@ =~= start + cs@.take(k + 1));
    }
    assert(cs@.take(cs@.len() as int) =~= cs@);
}

/// The lines `lines`, each through `before + line + after`, joined
fn wrap_lines(lines: &Vec<String>, before: &Vec<char>, after: &Vec<char>) -> (s: String)
    ensures
        s@ == concat_lines(strings_view(lines@), |l: Seq<char>| before@ + l + after@),
{
    let ghost f = |l: Seq<char>| before@ + l + after@;
    let ghost lv = strings_view(lines@);
    let mut out: Vec<char> = Vec::new();
    for k in 0..lines.len()
        invariant
            lv == strings_view(lines@),
            f == (|l: Seq<char>| before@ + l + after@),
            out@ == concat_lines(lv.take(k as int), f),
    {
        assert(lv.take(k + 1).drop_last() =~= lv.take(k as int));
        let ghost prev = out@;
        for j in 0..before.len()
            invariant
                out@ == prev + before@.take(j as int),
        {
            out.push(before[j]);
            assert(out@ =~= prev + before@.take(j + 1));
        }
        assert(before@.take(before@.len() as int) =~= before@);
        push_str_chars(&mut out, lines[k].as_str());
        let ghost mid = out@;
        for j in 0..after.len()
            invariant
                out@ == mid + after@.take(j as int),
        {
            out.push(after[j]);
            assert(out@ =~= mid + after@.take(j + 1));
        }
        assert(after@.take(after@.len() as int) =~= after@);
        assert(lv.take(k + 1).last() == lines@[k as int]@);
        assert(out@ =~= concat_lines(lv.take(k + 1), f));
    }
    assert(lv.take(lines@.len() as int) =~= lv);
    string_of(&out)
}

impl Directive {
    /// The fix that replaces this directive, and the blanks before it, by
    /// those blanks and `new_text`
    pub fn replace_with(&self, new_text: &str) -> (f: Fix)
        requires
            utf8_len(self.leading_whitespace@) <= self.span.start.offset,
        ensures
            f@ == replace_with_fix(directive_view(*self), new_text@),
    {
        let lw = utf8_len_of(self.leading_whitespace.as_str());
        let start = self.span.start.offset - lw;
        let mut text = self.leading_whitespace.clone();
        text.append(new_text);
        Fix::replace_range(start, self.span.end.offset, text.as_str())
    }

    /// The fix that deletes the line of this directive
    pub fn delete_line_fix(&self) -> (f: Fix)
        ensures
            f@ == delete_fix(self.span.start.line as nat),
    {
        Fix::delete(self.span.start.line)
    }

    /// The fix that inserts `new_text`, on a line of its own indented as
    /// this directive, after it
    pub fn insert_after(&self, new_text: &str) -> (f: Fix)
        ensures
            f@ == insert_after_fix(directive_view(*self), seq![new_text@]),
    {
        let lines = vec![new_text.to_owned()];
        assert(strings_view(lines@) =~= seq![new_text@]);
        self.insert_after_many(&lines)
    }

    /// The fix that inserts the lines `lines`, each indented as this
    /// directive, after it
    pub fn insert_after_many(&self, lines: &Vec<String>) -> (f: Fix)
        ensures
            f@ == insert_after_fix(directive_view(*self), strings_view(lines@)),
    {
        let mut before: Vec<char> = vec!['\n'];
        let indent = indent_of_directive(self);
        let mut k: usize = 0;
        while k < indent.len()
            invariant
                k <= indent@.len(),
                before@ == seq!['\n'] + indent@.take(k as int),
            decreases indent@.len() - k,
        {
            before.push(indent[k]);
            assert(before@ =~= seq!['\n'] + indent@.take(k + 1));
            k += 1;
        }
        assert(indent@.take(indent@.len() as int) =~= indent@);
        let after: Vec<char> = Vec::new();
        let text = wrap_lines(lines, &before, &after);
        let ghost d = directive_view(*self);
        assert((|l: Seq<char>| before@ + l + after@) =~= (|l: Seq<char>| seq!['\n'] + indent_for(d) + l));
        Fix::replace_range(self.span.end.offset, self.span.end.offset, text.as_str())
    }

    /// The fix that inserts `new_text`, on a line of its own indented as
    /// this directive, before the directive's line
    pub fn insert_before(&self, new_text: &str) -> (f: Fix)
        ensures
            f@ == insert_before_fix(directive_view(*self), seq![new_text@]),
    {
        let lines = vec![new_text.to_owned()];
        assert(strings_view(lines@) =~= seq![new_text@]);
        self.insert_before_many(&lines)
    }

    /// The fix that inserts the lines `lines`, each indented as this
    /// directive, before the directive's line
    pub fn insert_before_many(&self, lines: &Vec<String>) -> (f: Fix)
        ensures
            f@ == insert_before_fix(directive_view(*self), strings_view(lines@)),
    {
        let indent = indent_of_directive(self);
        let after: Vec<char> = vec!['\n'];
        let text = wrap_lines(lines, &indent, &after);
        let ghost d = directive_view(*self);
        assert((|l: Seq<char>| indent@ + l + after@) =~= (|l: Seq<char>| indent_for(d) + l + seq!['\n']));
        let back: usize = if self.span.start.column >= 1 {
            self.span.start.column - 1
        } else {
            0
        };
        let offset: usize = if self.span.start.offset >= back {
            self.span.start.offset - back
        } else {
            0
        };
        Fix::replace_range(offset, offset, text.as_str())
    }
}

// ---------------------------------------------------------------------------
// Directive paths
// ---------------------------------------------------------------------------

/// The directive reached from `items` by the indices `path`: each index but
/// the last picks a directive with a block, whose items the next index
/// reads; `None` where an index picks no directive, or no block is there to
/// go on in, or the path is empty
pub open spec fn directive_at(items: Seq<ConfigItemV>, path: Seq<usize>) -> Option<DirectiveV>
    decreases path.len(),
{
    if path.len() == 0 || path[0] >= items.len() {
        None
    } else {
        match items[path[0] as int] {
            ConfigItemV::Directive(d) => if path.len() == 1 {
                Some(d)
            } else {
                match d.block {
                    Some(b) => directive_at(b.items, path.drop_first()),
                    None => None,
                }
            },
            _ => None,
        }
    }
}

/// Each directive of `items`, depth first, with its path (below `prefix`)
/// and the names of the blocks around it (below `stack`)
pub open spec fn directive_paths(
    items: Seq<ConfigItemV>,
    stack: Seq<Seq<char>>,
    prefix: Seq<usize>,
) -> Seq<(Seq<usize>, Seq<Seq<char>>)>
    decreases items,
{
    if items.len() == 0 {
        seq![]
    } else {
        let n = items.len() - 1;
        let before = directive_paths(items.subrange(0, n), stack, prefix);
        match items[n] {
            ConfigItemV::Directive(d) => {
                let p = prefix.push(n as usize);
                let nested = match d.block {
                    Some(b) => directive_paths(b.items, stack.push(d.name), p),
                    None => seq![],
                };
                before + seq![(p, stack)] + nested
            },
            _ => before,
        }
    }
}

/// A directive of a configuration, found by its path, with the blocks
/// around it
#[derive(Debug)]
pub struct DirectiveContext {
    /// The indices that lead to the directive
    pub path: Vec<usize>,
    /// The names of the blocks around it, the outermost first, starting with
    /// those the file is included from
    pub parent_stack: Vec<String>,
    /// How many blocks are around it
    pub depth: usize,
}

/// The path and block names of each context
pub open spec fn contexts_view(v: Seq<DirectiveContext>) -> Seq<(Seq<usize>, Seq<Seq<char>>)> {
    v.map_values(|c: DirectiveContext| (c.path@, strings_view(c.parent_stack@)))
}

/// Pushes the directives of `items`, below `prefix` and `stack`
fn collect_paths(
    items: &Vec<ConfigItem>,
    stack: &Vec<String>,
    prefix: &Vec<usize>,
    out: &mut Vec<DirectiveContext>,
)
    requires
        forall|k: int| 0 <= k < old(out)@.len() ==> (#[trigger] old(out)@[k]).depth == old(out)@[k].parent_stack@.len(),
    ensures
        contexts_view(final(out)@) == contexts_view(old(out)@) + directive_paths(
            items_view(items@),
            strings_view(stack@),
            prefix@,
        ),
        forall|k: int| 0 <= k < final(out)@.len() ==> (#[trigger] final(out)@[k]).depth == final(out)@[k].parent_stack@.len(),
    decreases items@,
{
    let ghost sv = strings_view(stack@);
    let ghost start = contexts_view(out@);
    let mut i: usize = 0;
    proof {
        assert(items@.subrange(0, 0) =~= Seq::<ConfigItem>::empty());
        assert(start =~= start + directive_paths(items_view(items@.subrange(0, 0)), sv, prefix@));
    }
    while i < items.len()
        invariant
            i <= items@.len(),
            sv == strings_view(stack@),
            contexts_view(out@) == start + directive_paths(
                items_view(items@.subrange(0, i as int)),
                sv,
                prefix@,
            ),
            forall|k: int| 0 <= k < out@.len() ==> (#[trigger] out@[k]).depth == out@[k].parent_stack@.len(),
        decreases items@.len() - i,
    {
        let ghost item = item_view(items@[i as int]);
        let ghost pre = items@.subrange(0, i as int);
        let ghost pre1 = items@.subrange(0, i + 1);
        proof {
            assert(pre1.subrange(0, i as int) =~= pre);
            assert(items_view(pre1) == items_view(pre).push(item));
            let v1 = items_view(pre1);
            assert(v1.subrange(0, v1.len() - 1) =~= items_view(pre));
            assert(v1[v1.len() - 1] == item);
        }
        match &items[i] {
            ConfigItem::Directive(d) => {
                let ghost dv = directive_view(**d);
                let mut path: Vec<usize> = Vec::new();
                for j in 0..prefix.len()
                    invariant
                        path@ == prefix@.take(j as int),
                {
                    path.push(prefix[j]);
                    assert(prefix@.take(j + 1) =~= prefix@.take(j as int).push(prefix@[j as int]));
                }
                assert(prefix@.take(prefix@.len() as int) =~= prefix@);
                path.push(i);
                assert(path@ =~= prefix@.push(i));
                let parents = copy_strings(stack);
                let depth = parents.len();
                let ghost before = contexts_view(out@);
                let entry = DirectiveContext { path, parent_stack: parents, depth };
                let ghost ev = (entry.path@, strings_view(entry.parent_stack@));
                out.push(entry);
                assert(contexts_view(out@) =~= before.push(ev));
                match &d.block {
                    Some(b) => {
                        let mut inner = copy_strings(stack);
                        inner.push(d.name.clone());
                        assert(strings_view(inner@) =~= sv.push(dv.name));
                        let mut p2: Vec<usize> = Vec::new();
                        for j in 0..prefix.len()
                            invariant
                                p2@ == prefix@.take(j as int),
                        {
                            p2.push(prefix[j]);
                            assert(prefix@.take(j + 1) =~= prefix@.take(j as int).push(prefix@[j as int]));
                        }
                        assert(prefix@.take(prefix@.len() as int) =~= prefix@);
                        p2.push(i);
                        assert(p2@ =~= prefix@.push(i));
                        collect_paths(&b.items, &inner, &p2, out);
                    },
                    None => {},
                }
                proof {
                    assert(contexts_view(out@) == before.push((prefix@.push(i), sv)) + match dv.block {
                        Some(bv) => directive_paths(bv.items, sv.push(dv.name), prefix@.push(i)),
                        None => seq![],
                    });
                }
            },
            _ => {},
        }
        proof {
            lemma_items_view_len(pre1);
            assert(contexts_view(out@) =~= start + directive_paths(items_view(pre1), sv, prefix@));
        }
        i += 1;
    }
    assert(items@.subrange(0, i as int) =~= items@);
}

/// Every directive of `config`, depth first, with its path and the blocks
/// around it, those the file is included from first
pub fn collect_directive_paths_with_context(config: &Config) -> (r: Vec<DirectiveContext>)
    ensures
        contexts_view(r@) == directive_paths(
            items_view(config.items@),
            strings_view(config.include_context@),
            seq![],
        ),
        forall|k: int| 0 <= k < r@.len() ==> (#[trigger] r@[k]).depth == r@[k].parent_stack@.len(),
{
    let mut out: Vec<DirectiveContext> = Vec::new();
    let prefix: Vec<usize> = Vec::new();
    collect_paths(&config.items, &config.include_context, &prefix, &mut out);
    assert(contexts_view(out@) =~= directive_paths(
        items_view(config.items@),
        strings_view(config.include_context@),
        seq![],
    ));
    out
}

/// The directive at `path[k..]` from `items`
fn resolve_in<'a>(items: &'a Vec<ConfigItem>, path: &Vec<usize>, k: usize) -> (r: &'a Directive)
    requires
        k < path@.len(),
        directive_at(items_view(items@), path@.skip(k as int)) is Some,
    ensures
        directive_at(items_view(items@), path@.skip(k as int)) == Some(directive_view(*r)),
    decreases path@.len() - k,
{
    let ghost rest = path@.skip(k as int);
    let idx = path[k];
    assert(rest[0] == idx);
    proof {
        lemma_items_view_len(items@);
        lemma_items_view_index(items@, idx as int);
    }
    match &items[idx] {
        ConfigItem::Directive(d) => {
            if k == path.len() - 1 {
                d
            } else {
                assert(rest.drop_first() =~= path@.skip(k + 1));
                match &d.block {
                    Some(b) => resolve_in(&b.items, path, k + 1),
                    None => vstd::pervasive::unreached(),
                }
            }
        },
        _ => vstd::pervasive::unreached(),
    }
}

/// The directive of `config` at `path`
pub fn resolve_directive<'a>(config: &'a Config, path: &Vec<usize>) -> (r: &'a Directive)
    requires
        directive_at(items_view(config.items@), path@) is Some,
    ensures
        directive_at(items_view(config.items@), path@) == Some(directive_view(*r)),
{
    assert(path@.skip(0) =~= path@);
    resolve_in(&config.items, path, 0)
}

/// The items inside the block of the directive at `path`: the top-level
/// items for an empty path, none for a directive without a block
pub fn resolve_block_items<'a>(config: &'a Config, path: &Vec<usize>) -> (r: &'a [ConfigItem])
    requires
        path@.len() == 0 || directive_at(items_view(config.items@), path@) is Some,
    ensures
        path@.len() == 0 ==> r@ == config.items@,
        path@.len() > 0 ==> match directive_at(items_view(config.items@), path@) {
            Some(d) => match d.block {
                Some(b) => items_view(r@) == b.items,
                None => r@.len() == 0,
            },
            None => false,
        },
{
    if path.len() == 0 {
        return config.items.as_slice();
    }
    let d = resolve_directive(config, path);
    match &d.block {
        Some(b) => b.items.as_slice(),
        None => &[],
    }
}

} // verus!
