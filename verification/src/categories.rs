//! Grouping rules by category for the list of rules: the categories of a
//! preferred order first, then any other category in alphabetical order.
use vstd::prelude::*;
use crate::ignore::{contains_string, strings_view};
use crate::text::chars_of;

verus! {

/// `a` comes before `b` in the order of their characters' code points, a
/// proper prefix first (the order of `str`'s `Ord`, since UTF-8 keeps the
/// order of code points)
pub open spec fn text_lt(a: Seq<char>, b: Seq<char>) -> bool
    decreases a.len(),
{
    if a.len() == 0 {
        b.len() > 0
    } else if b.len() == 0 {
        false
    } else if (a[0] as int) < (b[0] as int) {
        true
    } else if a[0] == b[0] {
        text_lt(a.drop_first(), b.drop_first())
    } else {
        false
    }
}

/// The order is strict and total
pub proof fn lemma_text_lt_total(a: Seq<char>, b: Seq<char>)
    ensures
        !text_lt(a, a),
        a != b ==> text_lt(a, b) || text_lt(b, a),
        !(text_lt(a, b) && text_lt(b, a)),
    decreases a.len(),
{
    if a.len() > 0 {
        lemma_text_lt_total(a.drop_first(), a.drop_first());
    }
    if a.len() > 0 && b.len() > 0 {
        lemma_text_lt_total(a.drop_first(), b.drop_first());
        if a != b && a[0] == b[0] {
            assert(a.drop_first() != b.drop_first()) by {
                if a.drop_first() == b.drop_first() {
                    assert(a =~= seq![a[0]] + a.drop_first());
                    assert(b =~= seq![b[0]] + b.drop_first());
                }
            }
        }
    } else if a.len() == 0 && b.len() == 0 {
        assert(a =~= b);
    }
}

/// The order is transitive
pub proof fn lemma_text_lt_transitive(a: Seq<char>, b: Seq<char>, c: Seq<char>)
    requires
        text_lt(a, b),
        text_lt(b, c),
    ensures
        text_lt(a, c),
    decreases a.len(),
{
    if a.len() > 0 && b.len() > 0 && c.len() > 0 && a[0] == b[0] && b[0] == c[0] {
        lemma_text_lt_transitive(a.drop_first(), b.drop_first(), c.drop_first());
    }
}

/// `a < b` in the order of [`text_lt`]
pub fn text_less(a: &str, b: &str) -> (r: bool)
    ensures
        r == text_lt(a@, b@),
{
    let av = chars_of(a);
    let bv = chars_of(b);
    let mut k: usize = 0;
    assert(a@.skip(0) =~= a@);
    assert(b@.skip(0) =~= b@);
    while k < av.len() && k < bv.len() && av[k] == bv[k]
        invariant
            av@ == a@,
            bv@ == b@,
            k <= av@.len(),
            k <= bv@.len(),
            text_lt(a@, b@) == text_lt(a@.skip(k as int), b@.skip(k as int)),
        decreases av@.len() - k,
    {
        assert(a@.skip(k as int).drop_first() =~= a@.skip(k + 1));
        assert(b@.skip(k as int).drop_first() =~= b@.skip(k + 1));
        k += 1;
    }
    if k == av.len() {
        k < bv.len()
    } else if k == bv.len() {
        false
    } else {
        assert(a@.skip(k as int)[0] == av@[k as int]);
        assert(b@.skip(k as int)[0] == bv@[k as int]);
        let x = av[k];
        let y = bv[k];
        x < y
    }
}

/// The positions, below `k`, where `cats` holds `c`
pub open spec fn positions_of(cats: Seq<Seq<char>>, c: Seq<char>, k: int) -> Seq<usize>
    decreases k,
{
    if k <= 0 {
        seq![]
    } else if cats[k - 1] == c {
        positions_of(cats, c, k - 1).push((k - 1) as usize)
    } else {
        positions_of(cats, c, k - 1)
    }
}

/// The positions where `cats` holds `c`, in order
fn positions(cats: &Vec<String>, c: &str) -> (r: Vec<usize>)
    ensures
        r@ == positions_of(strings_view(cats@), c@, cats@.len() as int),
{
    let mut out: Vec<usize> = Vec::new();
    let n = cats.len();
    let mut k: usize = 0;
    while k < n
        invariant
            n == cats@.len(),
            k <= n,
            out@ == positions_of(strings_view(cats@), c@, k as int),
        decreases n - k,
    {
        if crate::text::str_eq(cats[k].as_str(), c) {
            out.push(k);
        }
        k += 1;
    }
    out
}

proof fn lemma_push_contains(s: Seq<Seq<char>>, v: Seq<char>, x: Seq<char>)
    ensures
        s.push(v).contains(x) <==> (s.contains(x) || x == v),
{
    if s.push(v).contains(x) {
        let w = choose|w: int| #![auto] 0 <= w < s.push(v).len() && s.push(v)[w] == x;
        if w < s.len() {
            assert(s[w] == x);
        }
    }
    if s.contains(x) {
        let w = choose|w: int| #![auto] 0 <= w < s.len() && s[w] == x;
        assert(s.push(v)[w] == x);
    }
    assert(s.push(v)[s.len() as int] == v);
}

proof fn lemma_insert_contains(s: Seq<Seq<char>>, j: int, v: Seq<char>, x: Seq<char>)
    requires
        0 <= j <= s.len(),
    ensures
        s.insert(j, v).contains(x) <==> (s.contains(x) || x == v),
{
    let t = s.insert(j, v);
    if t.contains(x) {
        let w = choose|w: int| #![auto] 0 <= w < t.len() && t[w] == x;
        if w < j {
            assert(s[w] == x);
        } else if w > j {
            assert(s[w - 1] == x);
        }
    }
    if s.contains(x) {
        let w = choose|w: int| #![auto] 0 <= w < s.len() && s[w] == x;
        if w < j {
            assert(t[w] == x);
        } else {
            assert(t[w + 1] == x);
        }
    }
    assert(t[j] == v);
}

/// No text occurs twice in `v`
pub open spec fn distinct(v: Seq<Seq<char>>) -> bool {
    forall|i: int, j: int| 0 <= i < j < v.len() ==> v[i] != v[j]
}

/// `v` is in strictly increasing order
pub open spec fn sorted(v: Seq<Seq<char>>) -> bool {
    forall|i: int, j: int| 0 <= i < j < v.len() ==> text_lt(#[trigger] v[i], #[trigger] v[j])
}

/// The categories of the list, in the order they are shown: those of
/// `order` that some rule has, in that order, then the categories of
/// `cats` outside `order`, in alphabetical order (`rest`)
pub open spec fn is_category_listing(
    cats: Seq<Seq<char>>,
    order: Seq<Seq<char>>,
    listing: Seq<Seq<char>>,
) -> bool {
    let known = order.filter(|c: Seq<char>| cats.contains(c));
    let rest = listing.skip(known.len() as int);
    &&& listing.len() >= known.len()
    &&& listing.take(known.len() as int) == known
    &&& sorted(rest)
    &&& forall|c: Seq<char>| rest.contains(c) <==> (cats.contains(c) && !order.contains(c))
}

/// The rules grouped by category: for each category of the listing, its
/// name and the positions in `cats` of the rules in it. `cats` holds the
/// category of each rule, `order` the categories that come first.
pub fn group_by_category(cats: &Vec<String>, order: &Vec<String>) -> (r: Vec<(String, Vec<usize>)>)
    requires
        distinct(strings_view(order@)),
    ensures
        is_category_listing(
            strings_view(cats@),
            strings_view(order@),
            r@.map_values(|g: (String, Vec<usize>)| g.0@),
        ),
        forall|i: int|
            0 <= i < r@.len() ==> (#[trigger] r@[i]).1@ == positions_of(
                strings_view(cats@),
                r@[i].0@,
                cats@.len() as int,
            ),
{
    let ghost cv = strings_view(cats@);
    let ghost ov = strings_view(order@);
    let ghost inside = |c: Seq<char>| cv.contains(c);
    let mut out: Vec<(String, Vec<usize>)> = Vec::new();
    // The categories of `order` that some rule has
    let mut k: usize = 0;
    proof {
        reveal(Seq::filter);
        assert(ov.take(0) =~= Seq::<Seq<char>>::empty());
    }
    while k < order.len()
        invariant
            k <= order@.len(),
            cv == strings_view(cats@),
            ov == strings_view(order@),
            inside == (|c: Seq<char>| cv.contains(c)),
            out@.map_values(|g: (String, Vec<usize>)| g.0@) == ov.take(k as int).filter(inside),
            forall|i: int|
                0 <= i < out@.len() ==> (#[trigger] out@[i]).1@ == positions_of(
                    cv,
                    out@[i].0@,
                    cats@.len() as int,
                ),
        decreases order@.len() - k,
    {
        proof {
            reveal(Seq::filter);
            assert(ov.take(k + 1).drop_last() =~= ov.take(k as int));
            assert(ov[k as int] == order@[k as int]@);
        }
        let ghost before = out@;
        if contains_string(cats, order[k].as_str()) {
            let c = order[k].as_str().to_owned();
            let ps = positions(cats, order[k].as_str());
            out.push((c, ps));
            assert(out@.map_values(|g: (String, Vec<usize>)| g.0@) =~= before.map_values(
                |g: (String, Vec<usize>)| g.0@,
            ).push(ov[k as int]));
        }
        k += 1;
    }
    assert(ov.take(order@.len() as int) =~= ov);
    let ghost known_len = out@.len();
    // The other categories, sorted and without repetition
    let mut rest: Vec<String> = Vec::new();
    let mut i: usize = 0;
    while i < cats.len()
        invariant
            i <= cats@.len(),
            cv == strings_view(cats@),
            ov == strings_view(order@),
            sorted(strings_view(rest@)),
            forall|c: Seq<char>|
                #[trigger] strings_view(rest@).contains(c) <==> (cv.take(i as int).contains(c)
                    && !ov.contains(c)),
        decreases cats@.len() - i,
    {
        let c = cats[i].as_str();
        let ghost cs = c@;
        let ghost next = cv.take(i + 1);
        let ghost prev = cv.take(i as int);
        assert(next =~= prev.push(cs));
        assert(cv[i as int] == cs);
        if !contains_string(order, c) {
            // The first place whose name does not come before `c`
            let mut j: usize = 0;
            while j < rest.len() && text_less(rest[j].as_str(), c)
                invariant
                    j <= rest@.len(),
                    cs == c@,
                    !ov.contains(cs),
                    sorted(strings_view(rest@)),
                    forall|x: Seq<char>|
                        #[trigger] strings_view(rest@).contains(x) <==> (prev.contains(x)
                            && !ov.contains(x)),
                    forall|m: int| 0 <= m < j ==> text_lt(strings_view(rest@)[m], cs),
                decreases rest@.len() - j,
            {
                assert(strings_view(rest@)[j as int] == rest@[j as int]@);
                j += 1;
            }
            let ghost rv = strings_view(rest@);
            if j < rest.len() && crate::text::str_eq(rest[j].as_str(), c) {
                assert(rv[j as int] == cs);
                assert(!ov.contains(cs));
                assert(forall|x: Seq<char>| rv.contains(x) <==> (prev.contains(x) && !ov.contains(x)));
                assert(rv.contains(cs));
                assert forall|x: Seq<char>| rv.contains(x) <==> (next.contains(x)
                    && !ov.contains(x)) by {
                    lemma_push_contains(prev, cs, x);
                }
            } else {
                proof {
                    if j < rv.len() {
                        assert(rv[j as int] == rest@[j as int]@);
                        lemma_text_lt_total(rv[j as int], cs);
                    }
                }
                rest.insert(j, c.to_owned());
                proof {
                    let nv = strings_view(rest@);
                    assert(nv =~= rv.insert(j as int, cs));
                    assert forall|a: int, b: int| 0 <= a < b < nv.len() implies text_lt(
                        #[trigger] nv[a],
                        #[trigger] nv[b],
                    ) by {
                        if b == j {
                            assert(nv[a] == rv[a]);
                        } else if a == j {
                            assert(nv[b] == rv[b - 1]);
                            if b - 1 > j {
                                lemma_text_lt_transitive(cs, rv[j as int], rv[b - 1]);
                            }
                        } else if a < j {
                            if b < j {
                                assert(nv[b] == rv[b]);
                            } else {
                                assert(nv[b] == rv[b - 1]);
                            }
                            assert(nv[a] == rv[a]);
                        } else {
                            assert(nv[a] == rv[a - 1]);
                            assert(nv[b] == rv[b - 1]);
                        }
                    }
                    assert forall|x: Seq<char>| nv.contains(x) <==> (next.contains(x)
                        && !ov.contains(x)) by {
                        lemma_push_contains(prev, cs, x);
                        lemma_insert_contains(rv, j as int, cs, x);
                    }
                }
            }
        } else {
            assert forall|x: Seq<char>| strings_view(rest@).contains(x) <==> (next.contains(x)
                && !ov.contains(x)) by {
                lemma_push_contains(prev, cs, x);
            }
        }
        i += 1;
    }
    assert(cv.take(cats@.len() as int) =~= cv);
    let ghost rest_v = strings_view(rest@);
    let ghost known = ov.filter(inside);
    // Their groups, after those of `order`
    let mut m: usize = 0;
    while m < rest.len()
        invariant
            m <= rest@.len(),
            cv == strings_view(cats@),
            rest_v == strings_view(rest@),
            known_len == known.len(),
            out@.len() == known_len + m,
            out@.map_values(|g: (String, Vec<usize>)| g.0@) == known + rest_v.take(m as int),
            forall|i: int|
                0 <= i < out@.len() ==> (#[trigger] out@[i]).1@ == positions_of(
                    cv,
                    out@[i].0@,
                    cats@.len() as int,
                ),
        decreases rest@.len() - m,
    {
        let ghost before = out@;
        let c = rest[m].as_str().to_owned();
        let ps = positions(cats, rest[m].as_str());
        out.push((c, ps));
        proof {
            assert(rest_v[m as int] == rest@[m as int]@);
            assert(out@.map_values(|g: (String, Vec<usize>)| g.0@) =~= before.map_values(
                |g: (String, Vec<usize>)| g.0@,
            ).push(rest_v[m as int]));
            assert(rest_v.take(m + 1) =~= rest_v.take(m as int).push(rest_v[m as int]));
        }
        m += 1;
    }
    proof {
        let names = out@.map_values(|g: (String, Vec<usize>)| g.0@);
        assert(rest_v.take(rest_v.len() as int) =~= rest_v);
        assert(names.take(known.len() as int) =~= known);
        assert(names.skip(known.len() as int) =~= rest_v);
        assert(known == ov.filter(|c: Seq<char>| cv.contains(c)));
        assert(sorted(names.skip(known.len() as int)));
    }
    out
}

} // verus!
