//! Character-level helpers shared by the lexer, the ignore-comment scanner and the rules.
use vstd::prelude::*;

verus! {

/// `char::is_whitespace`: the Unicode `White_Space` property.
pub open spec fn is_unicode_ws(c: char) -> bool {
    ||| c == ' '
    ||| ('\t' <= c && c <= '\r')
    ||| c == '\u{85}'
    ||| c == '\u{A0}'
    ||| c == '\u{1680}'
    ||| ('\u{2000}' <= c && c <= '\u{200A}')
    ||| c == '\u{2028}'
    ||| c == '\u{2029}'
    ||| c == '\u{202F}'
    ||| c == '\u{205F}'
    ||| c == '\u{3000}'
}

/// Executable `char::is_whitespace`, checked against [`is_unicode_ws`].
pub fn is_whitespace_char(c: char) -> (r: bool)
    ensures
        r == is_unicode_ws(c),
{
    c == ' ' || ('\t' <= c && c <= '\r') || c == '\u{85}' || c == '\u{A0}' || c == '\u{1680}'
        || ('\u{2000}' <= c && c <= '\u{200A}') || c == '\u{2028}' || c == '\u{2029}'
        || c == '\u{202F}' || c == '\u{205F}' || c == '\u{3000}'
}

/// Appends one character to a string (`String::push`).
#[verifier::external_body]
pub(crate) fn push_char(s: &mut String, c: char)
    ensures
        final(s)@ == old(s)@.push(c),
{
    s.push(c);
}

/// What `str::to_lowercase` gives for `s`: the Unicode lowercase mapping
/// of each character
pub uninterp spec fn lowercase(s: Seq<char>) -> Seq<char>;

/// `str::to_lowercase`
#[verifier::external_body]
pub(crate) fn to_lowercase(s: &str) -> (r: String)
    ensures
        r@ == lowercase(s@),
{
    s.to_lowercase()
}

/// The characters of a string slice, in order.
pub fn chars_of(s: &str) -> (v: Vec<char>)
    ensures
        v@ == s@,
{
    let mut v: Vec<char> = Vec::new();
    for c in it: s.chars()
        invariant
            v@ == it.seq().take(it.index() as int),
    {
        v.push(c);
    }
    assert(v@ =~= s@);
    v
}

} // verus!

verus! {

/// Strips leading characters with the Unicode `White_Space` property (`str::trim_start`)
pub open spec fn trim_start_seq(s: Seq<char>) -> Seq<char>
    decreases s.len(),
{
    if s.len() > 0 && is_unicode_ws(s[0]) {
        trim_start_seq(s.drop_first())
    } else {
        s
    }
}

/// Strips trailing characters with the Unicode `White_Space` property (`str::trim_end`)
pub open spec fn trim_end_seq(s: Seq<char>) -> Seq<char>
    decreases s.len(),
{
    if s.len() > 0 && is_unicode_ws(s.last()) {
        trim_end_seq(s.drop_last())
    } else {
        s
    }
}

/// `str::trim`
pub open spec fn trim_seq(s: Seq<char>) -> Seq<char> {
    trim_end_seq(trim_start_seq(s))
}

/// `s` ends with `suffix`
pub open spec fn ends_with_seq(s: Seq<char>, suffix: Seq<char>) -> bool {
    s.len() >= suffix.len() && s.subrange(s.len() - suffix.len(), s.len() as int) == suffix
}

/// `s` starts with `prefix`
pub open spec fn starts_with_seq(s: Seq<char>, prefix: Seq<char>) -> bool {
    s.len() >= prefix.len() && s.take(prefix.len() as int) == prefix
}

/// Index of the first occurrence of `c` in `s`
pub open spec fn find_char(s: Seq<char>, c: char) -> Option<int>
    decreases s.len(),
{
    if s.len() == 0 {
        None
    } else if s[0] == c {
        Some(0)
    } else {
        match find_char(s.drop_first(), c) {
            Some(i) => Some(i + 1),
            None => None,
        }
    }
}

/// Two strings hold the same characters
pub fn str_eq(a: &str, b: &str) -> (r: bool)
    ensures
        r == (a@ == b@),
{
    let x = chars_of(a);
    let y = chars_of(b);
    slice_eq(x.as_slice(), y.as_slice())
}

/// Two character slices are equal
pub fn slice_eq(x: &[char], y: &[char]) -> (r: bool)
    ensures
        r == (x@ == y@),
{
    if x.len() != y.len() {
        return false;
    }
    let mut i: usize = 0;
    while i < x.len()
        invariant
            x@.len() == y@.len(),
            i <= x@.len(),
            forall|k: int| 0 <= k < i ==> x@[k] == y@[k],
        decreases x@.len() - i,
    {
        if x[i] != y[i] {
            return false;
        }
        i += 1;
    }
    assert(x@ =~= y@);
    true
}

/// `s` ends with `suffix` (`str::ends_with`)
pub fn ends_with(s: &str, suffix: &str) -> (r: bool)
    ensures
        r == ends_with_seq(s@, suffix@),
{
    let x = chars_of(s);
    let y = chars_of(suffix);
    if x.len() < y.len() {
        return false;
    }
    let xl = x.len();
    let d = xl - y.len();
    let mut i: usize = 0;
    while i < y.len()
        invariant
            x@ == s@,
            y@ == suffix@,
            d == x@.len() - y@.len(),
            x@.len() >= y@.len(),
            d + y@.len() == x@.len(),
            xl == x@.len(),
            i <= y@.len(),
            forall|k: int| 0 <= k < i ==> x@[d + k] == y@[k],
        decreases y@.len() - i,
    {
        assert(d + i < x@.len());
        if x[d + i] != y[i] {
            assert(s@.subrange(s@.len() - suffix@.len(), s@.len() as int)[i as int] != suffix@[i as int]);
            return false;
        }
        i += 1;
    }
    assert(s@.subrange(s@.len() - suffix@.len(), s@.len() as int) =~= suffix@);
    true
}

/// A string made of the characters `cs[from..to]`
pub fn string_from_range(cs: &[char], from: usize, to: usize) -> (s: String)
    requires
        from <= to <= cs@.len(),
    ensures
        s@ == cs@.subrange(from as int, to as int),
{
    let mut s = String::new();
    let mut j = from;
    while j < to
        invariant
            from <= j <= to <= cs@.len(),
            s@ == cs@.subrange(from as int, j as int),
        decreases to - j,
    {
        push_char(&mut s, cs[j]);
        assert(cs@.subrange(from as int, j + 1) =~= cs@.subrange(from as int, j as int).push(
            cs@[j as int],
        ));
        j += 1;
    }
    s
}

pub proof fn lemma_trim_start_range(s: Seq<char>, i: int)
    requires
        0 <= i <= s.len(),
        forall|k: int| 0 <= k < i ==> is_unicode_ws(#[trigger] s[k]),
        i == s.len() || !is_unicode_ws(s[i]),
    ensures
        trim_start_seq(s) == s.skip(i),
    decreases i,
{
    if i > 0 {
        assert forall|k: int| 0 <= k < i - 1 implies is_unicode_ws(#[trigger] s.drop_first()[k]) by {
            assert(s.drop_first()[k] == s[k + 1]);
        }
        if i < s.len() {
            assert(s.drop_first()[i - 1] == s[i]);
        }
        lemma_trim_start_range(s.drop_first(), i - 1);
        assert(s.drop_first().skip(i - 1) =~= s.skip(i));
    } else {
        assert(s.skip(0) =~= s);
    }
}

/// `trim_start_seq(s)` is a suffix of `s` that is empty or starts with a
/// character that is not white space
pub proof fn lemma_trim_start_shape(s: Seq<char>)
    ensures
        trim_start_seq(s).len() <= s.len(),
        trim_start_seq(s) == s.skip(s.len() - trim_start_seq(s).len()),
        trim_start_seq(s).len() > 0 ==> !is_unicode_ws(trim_start_seq(s)[0]),
    decreases s.len(),
{
    if s.len() > 0 && is_unicode_ws(s[0]) {
        lemma_trim_start_shape(s.drop_first());
        assert(s.drop_first().skip(s.drop_first().len() - trim_start_seq(s).len()) =~= s.skip(
            s.len() - trim_start_seq(s).len(),
        ));
    } else {
        assert(s.skip(0) =~= s);
    }
}

/// `trim_end_seq(s)` is a prefix of `s` that is empty or ends with a
/// character that is not white space
pub proof fn lemma_trim_end_shape(s: Seq<char>)
    ensures
        trim_end_seq(s).len() <= s.len(),
        trim_end_seq(s) == s.take(trim_end_seq(s).len() as int),
        trim_end_seq(s).len() > 0 ==> !is_unicode_ws(trim_end_seq(s).last()),
    decreases s.len(),
{
    if s.len() > 0 && is_unicode_ws(s.last()) {
        lemma_trim_end_shape(s.drop_last());
        assert(s.drop_last().take(trim_end_seq(s).len() as int) =~= s.take(
            trim_end_seq(s).len() as int,
        ));
    } else {
        assert(s.take(s.len() as int) =~= s);
    }
}

/// Trimming a trimmed text changes nothing, and every character of a
/// trimmed text is one of the text's own
pub proof fn lemma_trim_seq_shape(s: Seq<char>)
    ensures
        trim_seq(trim_seq(s)) == trim_seq(s),
        forall|i: int| 0 <= i < trim_seq(s).len() ==> s.contains(#[trigger] trim_seq(s)[i]),
{
    let a = trim_start_seq(s);
    let t = trim_seq(s);
    lemma_trim_start_shape(s);
    lemma_trim_end_shape(a);
    assert forall|i: int| 0 <= i < t.len() implies s.contains(#[trigger] t[i]) by {
        assert(t[i] == a[i]);
        assert(a[i] == s[s.len() - a.len() + i]);
    }
    if t.len() > 0 {
        assert(t[0] == a[0]);
        assert(trim_start_seq(t) == t);
        assert(trim_end_seq(t) == t);
    } else {
        assert(trim_start_seq(t) == t);
    }
}

proof fn lemma_trim_end_range(s: Seq<char>, j: int)
    requires
        0 <= j <= s.len(),
        forall|k: int| j <= k < s.len() ==> is_unicode_ws(#[trigger] s[k]),
        j == 0 || !is_unicode_ws(s[j - 1]),
    ensures
        trim_end_seq(s) == s.take(j),
    decreases s.len() - j,
{
    if j < s.len() {
        lemma_trim_end_range(s.drop_last(), j);
        assert(s.drop_last().take(j) =~= s.take(j));
    } else {
        assert(s.take(j) =~= s);
    }
}

/// Bounds of `str::trim` applied to `cs[from..to]`
pub fn trim_bounds(cs: &[char], from: usize, to: usize) -> (r: (usize, usize))
    requires
        from <= to <= cs@.len(),
    ensures
        from <= r.0 <= r.1 <= to,
        cs@.subrange(r.0 as int, r.1 as int) == trim_seq(cs@.subrange(from as int, to as int)),
{
    let mut i: usize = from;
    while i < to && is_whitespace_char(cs[i])
        invariant
            from <= i <= to <= cs@.len(),
            forall|k: int| from <= k < i ==> is_unicode_ws(#[trigger] cs@[k]),
        decreases to - i,
    {
        i += 1;
    }
    let mut j: usize = to;
    while j > i && is_whitespace_char(cs[j - 1])
        invariant
            from <= i <= j <= to <= cs@.len(),
            forall|k: int| j <= k < to ==> is_unicode_ws(#[trigger] cs@[k]),
        decreases j,
    {
        j -= 1;
    }
    proof {
        let u = cs@.subrange(from as int, to as int);
        assert forall|k: int| 0 <= k < i - from implies is_unicode_ws(#[trigger] u[k]) by {
            assert(u[k] == cs@[from + k]);
        }
        if i < to {
            assert(u[i - from] == cs@[i as int]);
        }
        lemma_trim_start_range(u, i - from);
        let t = u.skip(i - from);
        assert forall|k: int| j - i <= k < t.len() implies is_unicode_ws(#[trigger] t[k]) by {
            assert(t[k] == cs@[i + k]);
        }
        if j > i {
            assert(t[j - i - 1] == cs@[j - 1]);
        }
        lemma_trim_end_range(t, j - i);
        assert(t.take(j - i) =~= cs@.subrange(i as int, j as int));
    }
    (i, j)
}

/// End of `str::trim_end` applied to `cs[from..to]`
pub fn trim_end_bound(cs: &[char], from: usize, to: usize) -> (r: usize)
    requires
        from <= to <= cs@.len(),
    ensures
        from <= r <= to,
        cs@.subrange(from as int, r as int) == trim_end_seq(cs@.subrange(from as int, to as int)),
{
    let mut j: usize = to;
    while j > from && is_whitespace_char(cs[j - 1])
        invariant
            from <= j <= to <= cs@.len(),
            forall|k: int| j <= k < to ==> is_unicode_ws(#[trigger] cs@[k]),
        decreases j,
    {
        j -= 1;
    }
    proof {
        let u = cs@.subrange(from as int, to as int);
        assert forall|k: int| j - from <= k < u.len() implies is_unicode_ws(#[trigger] u[k]) by {
            assert(u[k] == cs@[from + k]);
        }
        if j > from {
            assert(u[j - from - 1] == cs@[j - 1]);
        }
        lemma_trim_end_range(u, j - from);
        assert(u.take(j - from) =~= cs@.subrange(from as int, j as int));
    }
    j
}

/// `str::trim` on a character vector
pub fn trim_chars(cs: &[char]) -> (s: String)
    ensures
        s@ == trim_seq(cs@),
{
    let (i, j) = trim_bounds(cs, 0, cs.len());
    assert(cs@.subrange(0, cs@.len() as int) =~= cs@);
    string_from_range(cs, i, j)
}

/// First index in `cs[from..to]` that holds `c`, or `to` when there is none
pub fn find_char_from(cs: &[char], from: usize, to: usize, c: char) -> (r: usize)
    requires
        from <= to <= cs@.len(),
    ensures
        from <= r <= to,
        forall|k: int| from <= k < r ==> cs@[k] != c,
        r < to ==> cs@[r as int] == c,
{
    let mut i = from;
    while i < to && cs[i] != c
        invariant
            from <= i <= to <= cs@.len(),
            forall|k: int| from <= k < i ==> cs@[k] != c,
        decreases to - i,
    {
        i += 1;
    }
    i
}

/// First index in `cs[from..to]` that holds a whitespace character, or `to`
pub fn find_ws_from(cs: &[char], from: usize, to: usize) -> (r: usize)
    requires
        from <= to <= cs@.len(),
    ensures
        from <= r <= to,
        forall|k: int| from <= k < r ==> !is_unicode_ws(#[trigger] cs@[k]),
        r < to ==> is_unicode_ws(cs@[r as int]),
{
    let mut i = from;
    while i < to && !is_whitespace_char(cs[i])
        invariant
            from <= i <= to <= cs@.len(),
            forall|k: int| from <= k < i ==> !is_unicode_ws(#[trigger] cs@[k]),
        decreases to - i,
    {
        i += 1;
    }
    i
}

/// Index of the first whitespace character of `s`
pub open spec fn find_ws(s: Seq<char>) -> Option<int>
    decreases s.len(),
{
    if s.len() == 0 {
        None
    } else if is_unicode_ws(s[0]) {
        Some(0)
    } else {
        match find_ws(s.drop_first()) {
            Some(i) => Some(i + 1),
            None => None,
        }
    }
}

/// `find_char` is the first index that holds `c`
pub proof fn lemma_find_char_at(s: Seq<char>, c: char, i: int)
    requires
        0 <= i <= s.len(),
        forall|k: int| 0 <= k < i ==> s[k] != c,
        i < s.len() ==> s[i] == c,
    ensures
        find_char(s, c) == (if i < s.len() { Some(i) } else { None::<int> }),
    decreases i,
{
    if i > 0 {
        assert forall|k: int| 0 <= k < i - 1 implies s.drop_first()[k] != c by {
            assert(s.drop_first()[k] == s[k + 1]);
        }
        if i < s.len() {
            assert(s.drop_first()[i - 1] == s[i]);
        }
        lemma_find_char_at(s.drop_first(), c, i - 1);
    }
}

/// `find_ws` is the first index that holds a whitespace character
pub proof fn lemma_find_ws_at(s: Seq<char>, i: int)
    requires
        0 <= i <= s.len(),
        forall|k: int| 0 <= k < i ==> !is_unicode_ws(#[trigger] s[k]),
        i < s.len() ==> is_unicode_ws(s[i]),
    ensures
        find_ws(s) == (if i < s.len() { Some(i) } else { None::<int> }),
    decreases i,
{
    if i > 0 {
        assert forall|k: int| 0 <= k < i - 1 implies !is_unicode_ws(#[trigger] s.drop_first()[k]) by {
            assert(s.drop_first()[k] == s[k + 1]);
        }
        if i < s.len() {
            assert(s.drop_first()[i - 1] == s[i]);
        }
        lemma_find_ws_at(s.drop_first(), i - 1);
    }
}

/// The digit character for `d` (from 0 to 9)
pub open spec fn digit_char(d: int) -> char {
    if d == 0 {
        '0'
    } else if d == 1 {
        '1'
    } else if d == 2 {
        '2'
    } else if d == 3 {
        '3'
    } else if d == 4 {
        '4'
    } else if d == 5 {
        '5'
    } else if d == 6 {
        '6'
    } else if d == 7 {
        '7'
    } else if d == 8 {
        '8'
    } else {
        '9'
    }
}

/// The decimal digits of `n`, without leading zeros (`n.to_string()`)
pub open spec fn decimal(n: nat) -> Seq<char>
    decreases n,
{
    if n < 10 {
        seq![digit_char(n as int)]
    } else {
        decimal(n / 10).push(digit_char((n % 10) as int))
    }
}

fn digit_of(d: usize) -> (c: char)
    requires
        d < 10,
    ensures
        c == digit_char(d as int),
{
    if d == 0 {
        '0'
    } else if d == 1 {
        '1'
    } else if d == 2 {
        '2'
    } else if d == 3 {
        '3'
    } else if d == 4 {
        '4'
    } else if d == 5 {
        '5'
    } else if d == 6 {
        '6'
    } else if d == 7 {
        '7'
    } else if d == 8 {
        '8'
    } else {
        '9'
    }
}

/// Appends the decimal digits of `n` to `out`
pub fn push_decimal(out: &mut String, n: usize)
    ensures
        final(out)@ == old(out)@ + decimal(n as nat),
    decreases n,
{
    if n < 10 {
        push_char(out, digit_of(n));
        assert(old(out)@.push(digit_char(n as int)) =~= old(out)@ + decimal(n as nat));
    } else {
        push_decimal(out, n / 10);
        push_char(out, digit_of(n % 10));
        assert(old(out)@ + decimal((n / 10) as nat) + seq![digit_char((n % 10) as int)] =~= old(
            out,
        )@ + decimal(n as nat));
    }
}

} // verus!
