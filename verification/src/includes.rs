//! Following `include` directives: which patterns a file includes, in which
//! block context, and how configured path mappings rewrite a pattern before
//! it is matched against the file system.
use vstd::prelude::*;
use crate::ast::{Config, ConfigItem, ConfigItemV, items_view, item_view, lemma_items_view_index};
use crate::cache::{path_join, join_path};
use crate::ignore::{lemma_split_len, split_on, strings_view};
use crate::text::{chars_of, string_from_range};

verus! {

/// A file to lint, with its parsed configuration or why it has none
#[derive(Debug)]
pub struct IncludedFile {
    pub path: String,
    pub config: Option<Config>,
    pub parse_error: Option<String>,
    /// The blocks it is included from, outermost first; empty for the root file
    pub include_context: Vec<String>,
}

/// A rewrite of include patterns: the path segments `from` become `to`
#[derive(Debug, Clone)]
pub struct PathMapping {
    pub from: String,
    pub to: String,
}

// ---------------------------------------------------------------------------
// Path mappings
// ---------------------------------------------------------------------------

/// The non-empty segments of a path between its `/`s
pub open spec fn components(s: Seq<char>) -> Seq<Seq<char>> {
    split_on(s, '/').filter(|c: Seq<char>| c.len() > 0)
}

/// The segments of `p` from `i` on, with each occurrence of the segments
/// `f` replaced by the segments `t`, scanning from the left
pub open spec fn replace_from(p: Seq<Seq<char>>, f: Seq<Seq<char>>, t: Seq<Seq<char>>, i: int) -> Seq<
    Seq<char>,
>
    decreases p.len() - i,
{
    if i < 0 || i >= p.len() {
        seq![]
    } else if f.len() > 0 && i + f.len() <= p.len() && p.subrange(i, i + f.len()) == f {
        t + replace_from(p, f, t, i + f.len())
    } else {
        seq![p[i]] + replace_from(p, f, t, i + 1)
    }
}

/// The segments joined with `/`
pub open spec fn join_segments(parts: Seq<Seq<char>>) -> Seq<char>
    decreases parts.len(),
{
    if parts.len() == 0 {
        seq![]
    } else if parts.len() == 1 {
        parts[0]
    } else {
        join_segments(parts.drop_last()) + seq!['/'] + parts.last()
    }
}

/// `pattern` with the mapping `from` to `to` applied: every occurrence of
/// the segments of `from` becomes the segments of `to`. A path stays
/// absolute or relative, except when the mapping matches at its start: then
/// an empty `to` makes it relative and a `to` that starts with `/` makes it
/// absolute.
pub open spec fn mapped_pattern(pattern: Seq<char>, from: Seq<char>, to: Seq<char>) -> Seq<char> {
    let fc = components(from);
    let tc = components(to);
    let pc = components(pattern);
    if fc.len() == 0 || pc.len() < fc.len() {
        pattern
    } else {
        let result = replace_from(pc, fc, tc, 0);
        let at_start = pc.subrange(0, fc.len() as int) == fc;
        let absolute = if at_start && tc.len() == 0 {
            false
        } else if at_start && to.len() > 0 && to[0] == '/' {
            true
        } else {
            pattern.len() > 0 && pattern[0] == '/'
        };
        if absolute {
            seq!['/'] + join_segments(result)
        } else {
            join_segments(result)
        }
    }
}

/// The non-empty segments of `s` between its `/`s
fn path_components(s: &str) -> (r: Vec<String>)
    ensures
        strings_view(r@) == components(s@),
{
    let cv = chars_of(s);
    let cs = cv.as_slice();
    let n = cs.len();
    let ghost ne = |c: Seq<char>| c.len() > 0;
    let mut out: Vec<String> = Vec::new();
    let mut start: usize = 0;
    let mut j: usize = 0;
    proof {
        assert(cs@.take(0) =~= Seq::<char>::empty());
        reveal(Seq::filter);
        assert(split_on(cs@.take(0), '/').drop_last() =~= Seq::<Seq<char>>::empty());
    }
    while j < n
        invariant
            n == cs@.len(),
            cs@ == s@,
            ne == (|c: Seq<char>| c.len() > 0),
            start <= j <= n,
            strings_view(out@) == split_on(cs@.take(j as int), '/').drop_last().filter(ne),
            split_on(cs@.take(j as int), '/').last() == cs@.subrange(start as int, j as int),
        decreases n - j,
    {
        let ghost t = cs@.take(j + 1);
        let ghost p = split_on(cs@.take(j as int), '/');
        proof {
            lemma_split_len(cs@.take(j as int), '/');
            assert(t.drop_last() =~= cs@.take(j as int));
            assert(t.last() == cs@[j as int]);
        }
        if cs[j] == '/' {
            proof {
                assert(split_on(t, '/') == p.push(seq![]));
                assert(split_on(t, '/').drop_last() =~= p);
                reveal(Seq::filter);
                assert(p =~= p.drop_last().push(p.last()));
            }
            if start < j {
                let ghost before = out@;
                out.push(string_from_range(cs, start, j));
                assert(strings_view(out@) =~= strings_view(before).push(p.last()));
            }
            proof {
                assert(cs@.subrange(j + 1, j + 1) =~= Seq::<char>::empty());
            }
            start = j + 1;
        } else {
            proof {
                assert(split_on(t, '/') == p.update(p.len() - 1, p.last().push(cs@[j as int])));
                assert(split_on(t, '/').drop_last() =~= p.drop_last());
                assert(cs@.subrange(start as int, j + 1) =~= p.last().push(cs@[j as int]));
            }
        }
        j += 1;
    }
    let ghost p = split_on(cs@, '/');
    proof {
        lemma_split_len(cs@, '/');
        assert(cs@.take(n as int) =~= cs@);
        reveal(Seq::filter);
        assert(p =~= p.drop_last().push(p.last()));
    }
    if start < n {
        let ghost before = out@;
        out.push(string_from_range(cs, start, n));
        assert(strings_view(out@) =~= strings_view(before).push(p.last()));
    }
    out
}

/// `p[i..i + f.len()]` holds the segments of `f`
fn segments_match(p: &Vec<String>, i: usize, f: &Vec<String>) -> (r: bool)
    requires
        i + f@.len() <= p@.len(),
    ensures
        r == (strings_view(p@).subrange(i as int, i + f@.len()) == strings_view(f@)),
{
    let m = f.len();
    let pl = p.len();
    let mut k: usize = 0;
    while k < m
        invariant
            m == f@.len(),
            pl == p@.len(),
            i + m <= p@.len(),
            k <= m,
            forall|q: int| 0 <= q < k ==> p@[i + q]@ == f@[q]@,
        decreases m - k,
    {
        if p[i + k] != f[k] {
            assert(strings_view(p@).subrange(i as int, i + m)[k as int] != strings_view(f@)[k as int]);
            return false;
        }
        k += 1;
    }
    assert(strings_view(p@).subrange(i as int, i + m) =~= strings_view(f@));
    true
}

/// The segments joined with `/`
fn join_with_slash(parts: &Vec<String>) -> (s: String)
    ensures
        s@ == join_segments(strings_view(parts@)),
{
    let n = parts.len();
    let mut s = String::new();
    let mut k: usize = 0;
    while k < n
        invariant
            n == parts@.len(),
            k <= n,
            s@ == join_segments(strings_view(parts@).take(k as int)),
        decreases n - k,
    {
        let ghost pv = strings_view(parts@);
        proof {
            assert(pv.take(k + 1).drop_last() =~= pv.take(k as int));
            assert(pv.take(k + 1).last() == parts@[k as int]@);
        }
        if k > 0 {
            s.append("/");
            proof {
                reveal_strlit("/");
            }
        } else {
            assert(pv.take(1)[0] == parts@[0]@);
        }
        s.append(parts[k].as_str());
        k += 1;
    }
    assert(strings_view(parts@).take(n as int) =~= strings_view(parts@));
    s
}

proof fn lemma_replace_from_step(p: Seq<Seq<char>>, f: Seq<Seq<char>>, t: Seq<Seq<char>>, i: int)
    requires
        0 <= i < p.len(),
    ensures
        replace_from(p, f, t, i) == if f.len() > 0 && i + f.len() <= p.len() && p.subrange(
            i,
            i + f.len(),
        ) == f {
            t + replace_from(p, f, t, i + f.len())
        } else {
            seq![p[i]] + replace_from(p, f, t, i + 1)
        },
{
}

/// `s` starts with `/`
fn starts_with_slash(s: &str) -> (r: bool)
    ensures
        r == (s@.len() > 0 && s@[0] == '/'),
{
    let cs = chars_of(s);
    cs.len() > 0 && cs[0] == '/'
}

/// `pattern` with `mapping` applied
pub fn apply_path_mapping(pattern: &str, mapping: &PathMapping) -> (r: String)
    ensures
        r@ == mapped_pattern(pattern@, mapping.from@, mapping.to@),
{
    let from_comps = path_components(mapping.from.as_str());
    let to_comps = path_components(mapping.to.as_str());
    if from_comps.len() == 0 {
        return pattern.to_owned();
    }
    let pat_comps = path_components(pattern);
    let n = pat_comps.len();
    let m = from_comps.len();
    if n < m {
        return pattern.to_owned();
    }
    let ghost pc = strings_view(pat_comps@);
    let ghost fc = strings_view(from_comps@);
    let ghost tc = strings_view(to_comps@);
    let mut result: Vec<String> = Vec::new();
    let mut matched_at_start = false;
    let mut i: usize = 0;
    while i < n
        invariant
            n == pat_comps@.len() == pc.len(),
            m == from_comps@.len() == fc.len(),
            m > 0,
            n >= m,
            pc == strings_view(pat_comps@),
            fc == strings_view(from_comps@),
            tc == strings_view(to_comps@),
            i <= n,
            strings_view(result@) + replace_from(pc, fc, tc, i as int) == replace_from(pc, fc, tc, 0),
            matched_at_start == (i > 0 && pc.subrange(0, m as int) == fc),
            i == 0 ==> result@.len() == 0,
        decreases n - i,
    {
        let ghost before = strings_view(result@);
        proof {
            lemma_replace_from_step(pc, fc, tc, i as int);
        }
        if m <= n - i && segments_match(&pat_comps, i, &from_comps) {
            if i == 0 {
                matched_at_start = true;
            }
            let mut k: usize = 0;
            while k < to_comps.len()
                invariant
                    tc == strings_view(to_comps@),
                    k <= to_comps@.len(),
                    strings_view(result@) == before + tc.take(k as int),
                decreases to_comps@.len() - k,
            {
                let ghost b2 = result@;
                result.push(to_comps[k].clone());
                assert(strings_view(result@) =~= strings_view(b2).push(tc[k as int]));
                assert(tc.take(k + 1) =~= tc.take(k as int).push(tc[k as int]));
                k += 1;
            }
            assert(tc.take(tc.len() as int) =~= tc);
            assert(before + (tc + replace_from(pc, fc, tc, i + m)) =~= before + tc + replace_from(
                pc,
                fc,
                tc,
                i + m,
            ));
            i += m;
        } else {
            proof {
                if i == 0 {
                    if n >= m {
                        assert(pc.subrange(0, m as int) != fc);
                    }
                }
            }
            let ghost b2 = result@;
            result.push(pat_comps[i].clone());
            assert(strings_view(result@) =~= strings_view(b2).push(pc[i as int]));
            assert(before + (seq![pc[i as int]] + replace_from(pc, fc, tc, i + 1)) =~= before.push(
                pc[i as int],
            ) + replace_from(pc, fc, tc, i + 1));
            i += 1;
        }
    }
    assert(strings_view(result@) + Seq::<Seq<char>>::empty() =~= strings_view(result@));
    let to_absolute = starts_with_slash(mapping.to.as_str());
    let pattern_absolute = starts_with_slash(pattern);
    let result_is_absolute = if matched_at_start && to_comps.len() == 0 {
        false
    } else if matched_at_start && to_absolute {
        true
    } else {
        pattern_absolute
    };
    let joined = join_with_slash(&result);
    if result_is_absolute {
        let mut s = "/".to_owned();
        s.append(joined.as_str());
        proof {
            reveal_strlit("/");
        }
        s
    } else {
        joined
    }
}

// ---------------------------------------------------------------------------
// Include directives
// ---------------------------------------------------------------------------

/// The patterns of the `include` directives among `items` and the blocks
/// inside them, each with the names of the blocks around it (after
/// `context`), in document order; an `include` without arguments is passed
/// over
pub open spec fn include_patterns(items: Seq<ConfigItemV>, context: Seq<Seq<char>>) -> Seq<
    (Seq<char>, Seq<Seq<char>>),
>
    decreases items,
{
    if items.len() == 0 {
        seq![]
    } else {
        include_patterns(items.subrange(0, items.len() - 1), context) + item_include_patterns(
            items[items.len() - 1],
            context,
        )
    }
}

pub open spec fn item_include_patterns(item: ConfigItemV, context: Seq<Seq<char>>) -> Seq<
    (Seq<char>, Seq<Seq<char>>),
>
    decreases item,
{
    match item {
        ConfigItemV::Directive(d) => (if d.name == "include"@ && d.args.len() > 0 {
            seq![(d.args[0].value, context)]
        } else {
            seq![]
        }) + match d.block {
            Some(b) => include_patterns(b.items, context.push(d.name)),
            None => seq![],
        },
        _ => seq![],
    }
}

pub open spec fn found_view(v: Seq<(String, Vec<String>)>) -> Seq<(Seq<char>, Seq<Seq<char>>)> {
    v.map_values(|p: (String, Vec<String>)| (p.0@, strings_view(p.1@)))
}

/// A copy of `v`
pub fn copy_strings(v: &Vec<String>) -> (r: Vec<String>)
    ensures
        strings_view(r@) == strings_view(v@),
{
    let mut r: Vec<String> = Vec::new();
    let n = v.len();
    let mut k: usize = 0;
    while k < n
        invariant
            n == v@.len(),
            k <= n,
            strings_view(r@) == strings_view(v@).take(k as int),
        decreases n - k,
    {
        let ghost before = r@;
        r.push(v[k].clone());
        assert(strings_view(r@) =~= strings_view(before).push(v@[k as int]@));
        assert(strings_view(v@).take(k + 1) =~= strings_view(v@).take(k as int).push(v@[k as int]@));
        k += 1;
    }
    assert(strings_view(v@).take(n as int) =~= strings_view(v@));
    r
}

fn push_include_patterns(
    items: &Vec<ConfigItem>,
    context: &Vec<String>,
    out: &mut Vec<(String, Vec<String>)>,
)
    ensures
        found_view(final(out)@) == found_view(old(out)@) + include_patterns(
            items_view(items@),
            strings_view(context@),
        ),
    decreases items@,
{
    let ghost ctx = strings_view(context@);
    let ghost start = found_view(out@);
    let mut i: usize = 0;
    proof {
        assert(items@.subrange(0, 0) =~= Seq::<ConfigItem>::empty());
        assert(start =~= start + include_patterns(items_view(items@.subrange(0, 0)), ctx));
    }
    while i < items.len()
        invariant
            i <= items@.len(),
            ctx == strings_view(context@),
            found_view(out@) == start + include_patterns(
                items_view(items@.subrange(0, i as int)),
                ctx,
            ),
        decreases items@.len() - i,
    {
        let ghost before = found_view(out@);
        let ghost item = item_view(items@[i as int]);
        proof {
            let pre = items@.subrange(0, i as int);
            let pre1 = items@.subrange(0, i + 1);
            assert(pre1.subrange(0, i as int) =~= pre);
            assert(items_view(pre1) == items_view(pre).push(item));
            let v1 = items_view(pre1);
            assert(v1.subrange(0, v1.len() - 1) =~= items_view(pre));
        }
        match &items[i] {
            ConfigItem::Directive(d) => {
                if d.is("include") {
                    match d.first_arg() {
                        Some(pattern) => {
                            let entry = (pattern.to_owned(), copy_strings(context));
                            let ghost b2 = out@;
                            out.push(entry);
                            assert(found_view(out@) =~= found_view(b2).push((pattern@, ctx)));
                        },
                        None => {},
                    }
                }
                match &d.block {
                    Some(b) => {
                        let mut child = copy_strings(context);
                        child.push(d.name.clone());
                        assert(strings_view(child@) =~= ctx.push(d.name@));
                        push_include_patterns(&b.items, &child, out);
                    },
                    None => {},
                }
            },
            _ => {},
        }
        proof {
            assert(found_view(out@) =~= before + item_include_patterns(item, ctx));
        }
        i += 1;
    }
    assert(items@.subrange(0, i as int) =~= items@);
}

/// The patterns of the `include` directives of `config`, each with the
/// blocks around it, starting from the blocks the file is included from
pub fn find_include_patterns(config: &Config) -> (r: Vec<(String, Vec<String>)>)
    ensures
        found_view(r@) == include_patterns(
            items_view(config.items@),
            strings_view(config.include_context@),
        ),
{
    let mut out: Vec<(String, Vec<String>)> = Vec::new();
    push_include_patterns(&config.items, &config.include_context, &mut out);
    assert(found_view(out@) =~= include_patterns(
        items_view(config.items@),
        strings_view(config.include_context@),
    ));
    out
}

/// What `Path::is_absolute` says of the path `p`; it follows the path rules
/// of the platform the library is built for, the same for every call in one build
pub uninterp spec fn path_is_absolute(p: Seq<char>) -> bool;

/// `Path::new(p).is_absolute()`
#[verifier::external_body]
fn is_absolute_path(p: &str) -> (r: bool)
    ensures
        r == path_is_absolute(p@),
{
    std::path::Path::new(p).is_absolute()
}

/// `s` with every `\` turned into `/`
pub open spec fn forward_slashes(s: Seq<char>) -> Seq<char> {
    s.map_values(|c: char| if c == '\\' { '/' } else { c })
}

/// `pattern` with the mappings applied in order, each to the result of the one before
pub open spec fn mapped_all(pattern: Seq<char>, mappings: Seq<(Seq<char>, Seq<char>)>) -> Seq<char>
    decreases mappings.len(),
{
    if mappings.len() == 0 {
        pattern
    } else {
        mapped_pattern(mapped_all(pattern, mappings.drop_last()), mappings.last().0, mappings.last().1)
    }
}

pub open spec fn mappings_view(m: Seq<PathMapping>) -> Seq<(Seq<char>, Seq<char>)> {
    m.map_values(|p: PathMapping| (p.from@, p.to@))
}

/// The pattern to match for `include pattern` in a file in `parent_dir`: a
/// relative pattern is taken from that directory, `\` becomes `/`, and the
/// mappings are applied in order
pub open spec fn include_search_pattern(
    pattern: Seq<char>,
    parent_dir: Seq<char>,
    mappings: Seq<(Seq<char>, Seq<char>)>,
) -> Seq<char> {
    let full = if path_is_absolute(pattern) {
        pattern
    } else {
        path_join(parent_dir, pattern)
    };
    mapped_all(forward_slashes(full), mappings)
}

/// The pattern to match for `include pattern` in a file in `parent_dir`
pub fn resolve_pattern_text(pattern: &str, parent_dir: &str, mappings: &[PathMapping]) -> (r: String)
    ensures
        r@ == include_search_pattern(pattern@, parent_dir@, mappings_view(mappings@)),
{
    let full = if is_absolute_path(pattern) {
        pattern.to_owned()
    } else {
        join_path(parent_dir, pattern)
    };
    let cs = chars_of(full.as_str());
    let mut slashed = String::new();
    let n = cs.len();
    let mut k: usize = 0;
    while k < n
        invariant
            n == cs@.len(),
            k <= n,
            slashed@ == forward_slashes(cs@.take(k as int)),
        decreases n - k,
    {
        let c = if cs[k] == '\\' {
            '/'
        } else {
            cs[k]
        };
        crate::text::push_char(&mut slashed, c);
        assert(forward_slashes(cs@.take(k + 1)) =~= forward_slashes(cs@.take(k as int)).push(c));
        k += 1;
    }
    assert(cs@.take(n as int) =~= cs@);
    let ghost mv = mappings_view(mappings@);
    let mut result = slashed;
    let m = mappings.len();
    let mut j: usize = 0;
    while j < m
        invariant
            m == mappings@.len() == mv.len(),
            mv == mappings_view(mappings@),
            j <= m,
            result@ == mapped_all(forward_slashes(full@), mv.take(j as int)),
        decreases m - j,
    {
        proof {
            assert(mv.take(j + 1).drop_last() =~= mv.take(j as int));
            assert(mv.take(j + 1).last() == (mappings@[j as int].from@, mappings@[j as int].to@));
        }
        result = apply_path_mapping(result.as_str(), &mappings[j]);
        j += 1;
    }
    assert(mv.take(m as int) =~= mv);
    result
}

} // verus!
