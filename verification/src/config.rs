//! The linter's settings (`.nginx-lint.toml`): which rules run, with which
//! options, and how output is colored; and the check of a settings file for
//! names nobody knows, with suggestions of close names.
use vstd::prelude::*;
use crate::text::{chars_of, lowercase, str_eq, to_lowercase};

verus! {

// ---------------------------------------------------------------------------
// Edit distance
// ---------------------------------------------------------------------------

pub open spec fn min_nat(x: nat, y: nat) -> nat {
    if x <= y {
        x
    } else {
        y
    }
}

/// The Levenshtein distance between `a` and `b`: the fewest insertions,
/// deletions and substitutions of single characters that turn one into the
/// other
pub open spec fn edit_distance(a: Seq<char>, b: Seq<char>) -> nat
    decreases a.len() + b.len(),
{
    if a.len() == 0 {
        b.len()
    } else if b.len() == 0 {
        a.len()
    } else {
        let cost: nat = if a.last() == b.last() {
            0
        } else {
            1
        };
        min_nat(
            min_nat(edit_distance(a.drop_last(), b) + 1, edit_distance(a, b.drop_last()) + 1),
            edit_distance(a.drop_last(), b.drop_last()) + cost,
        )
    }
}

/// The distance is at most the length of the longer text
pub proof fn lemma_edit_distance_bound(a: Seq<char>, b: Seq<char>)
    ensures
        edit_distance(a, b) <= if a.len() >= b.len() {
            a.len()
        } else {
            b.len()
        },
    decreases a.len() + b.len(),
{
    if a.len() > 0 && b.len() > 0 {
        lemma_edit_distance_bound(a.drop_last(), b.drop_last());
    }
}

/// The distance from `a` to `b` is the distance from `b` to `a`
pub proof fn lemma_edit_distance_symmetric(a: Seq<char>, b: Seq<char>)
    ensures
        edit_distance(a, b) == edit_distance(b, a),
    decreases a.len() + b.len(),
{
    if a.len() > 0 && b.len() > 0 {
        lemma_edit_distance_symmetric(a.drop_last(), b);
        lemma_edit_distance_symmetric(a, b.drop_last());
        lemma_edit_distance_symmetric(a.drop_last(), b.drop_last());
    }
}

/// The distance is zero exactly between equal texts
pub proof fn lemma_edit_distance_zero(a: Seq<char>, b: Seq<char>)
    ensures
        edit_distance(a, b) == 0 <==> a == b,
    decreases a.len() + b.len(),
{
    if a.len() == 0 {
        if b.len() == 0 {
            assert(a =~= b);
        }
    } else if b.len() == 0 {
    } else {
        lemma_edit_distance_zero(a.drop_last(), b.drop_last());
        if a == b {
            assert(a.drop_last() == b.drop_last());
        }
        if edit_distance(a, b) == 0 {
            assert(edit_distance(a.drop_last(), b.drop_last()) == 0);
            assert(a.last() == b.last());
            assert(a =~= a.drop_last().push(a.last()));
            assert(b =~= b.drop_last().push(b.last()));
        }
    }
}

/// One step of an edit script, read from the end of both texts: keep a
/// character, substitute `c` for one, insert `c`, or delete one
pub ghost enum Edit {
    Keep,
    Substitute(char),
    Insert(char),
    Delete,
}

/// The script `s` turns `a` into `b`; its steps are matched with the
/// characters of both texts from their ends
pub open spec fn transforms(a: Seq<char>, b: Seq<char>, s: Seq<Edit>) -> bool
    decreases s.len(),
{
    if s.len() == 0 {
        a.len() == 0 && b.len() == 0
    } else {
        match s.last() {
            Edit::Keep => a.len() > 0 && b.len() > 0 && a.last() == b.last() && transforms(
                a.drop_last(),
                b.drop_last(),
                s.drop_last(),
            ),
            Edit::Substitute(c) => a.len() > 0 && b.len() > 0 && b.last() == c && transforms(
                a.drop_last(),
                b.drop_last(),
                s.drop_last(),
            ),
            Edit::Insert(c) => b.len() > 0 && b.last() == c && transforms(
                a,
                b.drop_last(),
                s.drop_last(),
            ),
            Edit::Delete => a.len() > 0 && transforms(a.drop_last(), b, s.drop_last()),
        }
    }
}

/// The number of edits of a script: its steps other than keeping a character
pub open spec fn edit_count(s: Seq<Edit>) -> nat
    decreases s.len(),
{
    if s.len() == 0 {
        0
    } else {
        edit_count(s.drop_last()) + if s.last() is Keep {
            0nat
        } else {
            1nat
        }
    }
}

/// No script that turns `a` into `b` has fewer edits than the distance
pub proof fn lemma_edit_distance_lower_bound(a: Seq<char>, b: Seq<char>, s: Seq<Edit>)
    requires
        transforms(a, b, s),
    ensures
        edit_distance(a, b) <= edit_count(s),
    decreases s.len(),
{
    if s.len() > 0 {
        match s.last() {
            Edit::Keep => {
                lemma_edit_distance_lower_bound(a.drop_last(), b.drop_last(), s.drop_last());
            },
            Edit::Substitute(_) => {
                lemma_edit_distance_lower_bound(a.drop_last(), b.drop_last(), s.drop_last());
            },
            Edit::Insert(_) => {
                lemma_edit_distance_lower_bound(a, b.drop_last(), s.drop_last());
            },
            Edit::Delete => {
                lemma_edit_distance_lower_bound(a.drop_last(), b, s.drop_last());
            },
        }
    }
}

/// Extending a script by one step at the end
proof fn lemma_extend(a: Seq<char>, b: Seq<char>, s0: Seq<Edit>, op: Edit) -> (r: Seq<Edit>)
    requires
        match op {
            Edit::Keep => a.len() > 0 && b.len() > 0 && a.last() == b.last() && transforms(
                a.drop_last(),
                b.drop_last(),
                s0,
            ),
            Edit::Substitute(c) => a.len() > 0 && b.len() > 0 && b.last() == c && transforms(
                a.drop_last(),
                b.drop_last(),
                s0,
            ),
            Edit::Insert(c) => b.len() > 0 && b.last() == c && transforms(a, b.drop_last(), s0),
            Edit::Delete => a.len() > 0 && transforms(a.drop_last(), b, s0),
        },
    ensures
        r == s0.push(op),
        transforms(a, b, r),
        edit_count(r) == edit_count(s0) + if op is Keep {
            0nat
        } else {
            1nat
        },
{
    let r = s0.push(op);
    assert(r.drop_last() =~= s0);
    assert(r.last() == op);
    r
}

/// Some script turns `a` into `b` with exactly as many edits as the distance
pub proof fn lemma_edit_distance_attained(a: Seq<char>, b: Seq<char>) -> (s: Seq<Edit>)
    ensures
        transforms(a, b, s),
        edit_count(s) == edit_distance(a, b),
    decreases a.len() + b.len(),
{
    if a.len() == 0 && b.len() == 0 {
        seq![]
    } else if a.len() == 0 {
        let s0 = lemma_edit_distance_attained(a, b.drop_last());
        let c = b[b.len() - 1];
        let op = Edit::Insert(c);
        lemma_extend(a, b, s0, op)
    } else if b.len() == 0 {
        let s0 = lemma_edit_distance_attained(a.drop_last(), b);
        lemma_extend(a, b, s0, Edit::Delete)
    } else if edit_distance(a, b) == edit_distance(a.drop_last(), b.drop_last()) && a.last()
        == b.last() {
        let s0 = lemma_edit_distance_attained(a.drop_last(), b.drop_last());
        lemma_extend(a, b, s0, Edit::Keep)
    } else if edit_distance(a, b) == edit_distance(a.drop_last(), b.drop_last()) + 1 && a.last()
        != b.last() {
        let s0 = lemma_edit_distance_attained(a.drop_last(), b.drop_last());
        let c = b[b.len() - 1];
        let op = Edit::Substitute(c);
        lemma_extend(a, b, s0, op)
    } else if edit_distance(a, b) == edit_distance(a.drop_last(), b) + 1 {
        let s0 = lemma_edit_distance_attained(a.drop_last(), b);
        lemma_extend(a, b, s0, Edit::Delete)
    } else {
        let s0 = lemma_edit_distance_attained(a, b.drop_last());
        let c = b[b.len() - 1];
        let op = Edit::Insert(c);
        lemma_extend(a, b, s0, op)
    }
}

/// The distance is the fewest edits of any script that turns `a` into `b`
pub proof fn lemma_edit_distance_is_minimum(a: Seq<char>, b: Seq<char>)
    ensures
        forall|s: Seq<Edit>| #[trigger] transforms(a, b, s) ==> edit_distance(a, b) <= edit_count(s),
        exists|s: Seq<Edit>| #[trigger] transforms(a, b, s) && edit_count(s) == edit_distance(a, b),
{
    assert forall|s: Seq<Edit>| #[trigger] transforms(a, b, s) implies edit_distance(a, b) <= edit_count(
        s,
    ) by {
        lemma_edit_distance_lower_bound(a, b, s);
    }
    let s = lemma_edit_distance_attained(a, b);
    assert(transforms(a, b, s));
}

fn min_u128(x: u128, y: u128) -> (r: u128)
    ensures
        r == min_nat(x as nat, y as nat),
{
    if x <= y {
        x
    } else {
        y
    }
}

/// The Levenshtein distance between `a` and `b`, counted in characters
pub fn levenshtein_distance(a: &str, b: &str) -> (d: usize)
    ensures
        d == edit_distance(a@, b@),
{
    let ac = chars_of(a);
    let bc = chars_of(b);
    let al = ac.len();
    let bl = bc.len();
    if al == 0 {
        return bl;
    }
    if bl == 0 {
        return al;
    }
    let ghost av = ac@;
    let ghost bv = bc@;
    let mut prev: Vec<u128> = Vec::new();
    let mut j: usize = 0;
    while j < bl
        invariant
            j <= bl == bv.len(),
            prev@.len() == j,
            forall|k: int| 0 <= k < j ==> prev@[k] == edit_distance(av.take(0), bv.take(k)),
        decreases bl - j,
    {
        assert(edit_distance(av.take(0), bv.take(j as int)) == j);
        prev.push(j as u128);
        j += 1;
    }
    assert(edit_distance(av.take(0), bv.take(bl as int)) == bl);
    prev.push(bl as u128);
    let mut i: usize = 0;
    while i < al
        invariant
            i <= al == av.len(),
            bl == bv.len(),
            ac@ == av,
            bc@ == bv,
            prev@.len() == bl + 1,
            forall|k: int| 0 <= k <= bl ==> prev@[k] == edit_distance(av.take(i as int), bv.take(k)),
        decreases al - i,
    {
        let ghost ai = av.take(i as int);
        let ghost ai1 = av.take(i + 1);
        proof {
            assert(ai1.drop_last() =~= ai);
            assert(ai1.last() == av[i as int]);
            assert(bv.take(0) =~= Seq::<char>::empty());
        }
        let mut cur: Vec<u128> = Vec::new();
        cur.push((i + 1) as u128);
        let mut j: usize = 0;
        while j < bl
            invariant
                i < al == av.len(),
                bl == bv.len(),
                ac@ == av,
                bc@ == bv,
                ai == av.take(i as int),
                ai1 == av.take(i + 1),
                ai1.drop_last() == ai,
                ai1.last() == av[i as int],
                prev@.len() == bl + 1,
                forall|k: int| 0 <= k <= bl ==> prev@[k] == edit_distance(ai, bv.take(k)),
                j <= bl,
                cur@.len() == j + 1,
                forall|k: int| 0 <= k <= j ==> cur@[k] == edit_distance(ai1, bv.take(k)),
            decreases bl - j,
        {
            let ghost bj1 = bv.take(j + 1);
            proof {
                assert(bj1.drop_last() =~= bv.take(j as int));
                assert(bj1.last() == bv[j as int]);
                lemma_edit_distance_bound(ai, bj1);
                lemma_edit_distance_bound(ai1, bv.take(j as int));
                lemma_edit_distance_bound(ai, bv.take(j as int));
            }
            let cost: u128 = if ac[i] == bc[j] {
                0
            } else {
                1
            };
            let v = min_u128(min_u128(prev[j + 1] + 1, cur[j] + 1), prev[j] + cost);
            cur.push(v);
            j += 1;
        }
        prev = cur;
        i += 1;
    }
    proof {
        assert(av.take(al as int) =~= av);
        assert(bv.take(bl as int) =~= bv);
        lemma_edit_distance_bound(av, bv);
    }
    prev[bl] as usize
}

// ---------------------------------------------------------------------------
// Settings
// ---------------------------------------------------------------------------

/// Colors for output
#[derive(Debug, Clone, Copy, PartialEq, Eq, Structural)]
pub enum Color {
    Black,
    Red,
    Green,
    Yellow,
    Blue,
    Magenta,
    Cyan,
    White,
    BrightBlack,
    BrightRed,
    BrightGreen,
    BrightYellow,
    BrightBlue,
    BrightMagenta,
    BrightCyan,
    BrightWhite,
}

impl Default for Color {
    fn default() -> (c: Self)
        ensures
            c == Color::White,
    {
        Color::White
    }
}

/// When output is colored
#[derive(Debug, Clone, Copy, PartialEq, Eq, Structural)]
pub enum ColorMode {
    /// When the terminal supports it and `NO_COLOR` is unset
    Auto,
    /// Always
    Always,
    /// Never
    Never,
}

impl Default for ColorMode {
    fn default() -> (m: Self)
        ensures
            m == ColorMode::Auto,
    {
        ColorMode::Auto
    }
}

/// Colors of output
#[derive(Debug, Clone, Copy, PartialEq, Eq, Structural)]
pub struct ColorConfig {
    /// When output is colored
    pub ui: ColorMode,
    /// Color of errors
    pub error: Color,
    /// Color of warnings
    pub warning: Color,
    /// Color of information
    pub info: Color,
}

impl Default for ColorConfig {
    fn default() -> (c: Self)
        ensures
            c == (ColorConfig {
                ui: ColorMode::Auto,
                error: Color::Red,
                warning: Color::Yellow,
                info: Color::Blue,
            }),
    {
        ColorConfig { ui: ColorMode::Auto, error: Color::Red, warning: Color::Yellow, info: Color::Blue }
    }
}

/// Settings of one rule
#[derive(Debug, Clone)]
pub struct RuleConfig {
    /// The rule runs
    pub enabled: bool,
    /// For the indentation rule
    pub indent_size: Option<usize>,
    /// For `deprecated-ssl-protocol`: the protocols allowed
    pub allowed_protocols: Option<Vec<String>>,
    /// For `weak-ssl-ciphers`: the cipher patterns reported
    pub weak_ciphers: Option<Vec<String>>,
    /// For `weak-ssl-ciphers`: the exclusions a cipher list must hold
    pub required_exclusions: Option<Vec<String>>,
}

impl Default for RuleConfig {
    fn default() -> (c: Self)
        ensures
            !c.enabled,
            c.indent_size is None,
            c.allowed_protocols is None,
            c.weak_ciphers is None,
            c.required_exclusions is None,
    {
        RuleConfig {
            enabled: false,
            indent_size: None,
            allowed_protocols: None,
            weak_ciphers: None,
            required_exclusions: None,
        }
    }
}

/// The settings of the linter
#[derive(Debug)]
pub struct LintConfig {
    /// Settings per rule, by rule name (see [`rules_unique`])
    pub rules: Vec<(String, RuleConfig)>,
    /// Colors of output
    pub color: ColorConfig,
}

impl Default for LintConfig {
    fn default() -> (c: Self)
        ensures
            c.rules@.len() == 0,
            rules_unique(c.rules@),
            c.color == (ColorConfig {
                ui: ColorMode::Auto,
                error: Color::Red,
                warning: Color::Yellow,
                info: Color::Blue,
            }),
    {
        LintConfig { rules: Vec::new(), color: ColorConfig::default() }
    }
}

/// `k` is the first entry of `rules` for the rule `name`
pub open spec fn is_first_rule(rules: Seq<(String, RuleConfig)>, name: Seq<char>, k: int) -> bool {
    &&& 0 <= k < rules.len()
    &&& rules[k].0@ == name
    &&& forall|j: int| 0 <= j < k ==> rules[j].0@ != name
}

/// The entry of `rules` for the rule `name`, if any
pub open spec fn find_rule(rules: Seq<(String, RuleConfig)>, name: Seq<char>) -> Option<int> {
    if exists|k: int| is_first_rule(rules, name, k) {
        Some(choose|k: int| is_first_rule(rules, name, k))
    } else {
        None
    }
}

/// No rule name occurs twice in `rules`: they map each name to its settings
pub open spec fn rules_unique(rules: Seq<(String, RuleConfig)>) -> bool {
    forall|i: int, j: int| 0 <= i < j < rules.len() ==> rules[i].0@ != rules[j].0@
}

/// The settings of the rule `name` in `rules`, if any
pub open spec fn rule_settings(rules: Seq<(String, RuleConfig)>, name: Seq<char>) -> Option<RuleConfig> {
    match find_rule(rules, name) {
        Some(k) => Some(rules[k].1),
        None => None,
    }
}

/// Where the names are unique, the entry for `name` is the one that bears it,
/// and there is none where no entry bears it
pub proof fn lemma_unique_rule_lookup(rules: Seq<(String, RuleConfig)>, name: Seq<char>)
    requires
        rules_unique(rules),
    ensures
        forall|k: int| 0 <= k < rules.len() && rules[k].0@ == name ==> find_rule(rules, name) == Some(k),
        (forall|k: int| 0 <= k < rules.len() ==> rules[k].0@ != name) ==> find_rule(rules, name) is None,
{
    assert forall|k: int| 0 <= k < rules.len() && rules[k].0@ == name implies find_rule(rules, name)
        == Some(k) by {
        assert(is_first_rule(rules, name, k));
        let c = choose|c: int| is_first_rule(rules, name, c);
        assert(c == k);
    }
    if exists|c: int| is_first_rule(rules, name, c) {
        let c = choose|c: int| is_first_rule(rules, name, c);
        assert(rules[c].0@ == name);
    }
}

/// The rule `name` runs unless its settings disable it
pub open spec fn rule_enabled(rules: Seq<(String, RuleConfig)>, name: Seq<char>) -> bool {
    match find_rule(rules, name) {
        Some(k) => rules[k].1.enabled,
        None => true,
    }
}

impl LintConfig {
    /// Where the settings of rule `name` are
    fn rule_position(&self, name: &str) -> (r: Option<usize>)
        ensures
            match r {
                Some(k) => find_rule(self.rules@, name@) == Some(k as int),
                None => find_rule(self.rules@, name@) is None,
            },
    {
        let n = self.rules.len();
        let mut k: usize = 0;
        while k < n
            invariant
                n == self.rules@.len(),
                k <= n,
                forall|j: int| 0 <= j < k ==> self.rules@[j].0@ != name@,
            decreases n - k,
        {
            if str_eq(self.rules[k].0.as_str(), name) {
                proof {
                    assert(is_first_rule(self.rules@, name@, k as int));
                    let c = choose|c: int| is_first_rule(self.rules@, name@, c);
                    if c < k {
                        assert(self.rules@[c].0@ != name@);
                    }
                    if c > k {
                        assert(self.rules@[k as int].0@ != name@);
                    }
                }
                return Some(k);
            }
            k += 1;
        }
        proof {
            if exists|c: int| is_first_rule(self.rules@, name@, c) {
                let c = choose|c: int| is_first_rule(self.rules@, name@, c);
                assert(self.rules@[c].0@ != name@);
            }
        }
        None
    }

    /// Sets the settings of the rule `name` to `config`, in place of any it
    /// had; the settings of the other rules stay
    pub fn set_rule(&mut self, name: String, config: RuleConfig)
        requires
            rules_unique(old(self).rules@),
        ensures
            rules_unique(final(self).rules@),
            final(self).color == old(self).color,
            rule_settings(final(self).rules@, name@) == Some(config),
            forall|other: Seq<char>|
                other != name@ ==> #[trigger] rule_settings(final(self).rules@, other) == rule_settings(
                    old(self).rules@,
                    other,
                ),
    {
        let ghost before = self.rules@;
        let ghost nv = name@;
        let ghost entry = (name, config);
        match self.rule_position(name.as_str()) {
            Some(k) => {
                self.rules.set(k, (name, config));
                proof {
                    let after = self.rules@;
                    assert(before[k as int].0@ == nv) by {
                        assert(is_first_rule(before, nv, k as int));
                    }
                    assert forall|i: int| 0 <= i < after.len() implies #[trigger] after[i].0@
                        == before[i].0@ by {}
                    lemma_unique_rule_lookup(before, nv);
                    lemma_unique_rule_lookup(after, nv);
                    assert(after[k as int] == entry);
                    assert(find_rule(after, nv) == Some(k as int));
                    assert forall|other: Seq<char>| other != nv implies #[trigger] rule_settings(
                        after,
                        other,
                    ) == rule_settings(before, other) by {
                        lemma_unique_rule_lookup(before, other);
                        lemma_unique_rule_lookup(after, other);
                        if exists|c: int| 0 <= c < before.len() && before[c].0@ == other {
                            let c = choose|c: int| 0 <= c < before.len() && before[c].0@ == other;
                            assert(after[c].0@ == other);
                        }
                    }
                }
            },
            None => {
                self.rules.push((name, config));
                proof {
                    let after = self.rules@;
                    let n = before.len();
                    lemma_unique_rule_lookup(before, nv);
                    assert forall|c: int| 0 <= c < n implies before[c].0@ != nv by {
                        if before[c].0@ == nv {
                            assert(find_rule(before, nv) == Some(c));
                        }
                    }
                    assert(after[n as int] == entry);
                    lemma_unique_rule_lookup(after, nv);
                    assert(find_rule(after, nv) == Some(n as int));
                    assert forall|other: Seq<char>| other != nv implies #[trigger] rule_settings(
                        after,
                        other,
                    ) == rule_settings(before, other) by {
                        lemma_unique_rule_lookup(before, other);
                        lemma_unique_rule_lookup(after, other);
                        if exists|c: int| 0 <= c < before.len() && before[c].0@ == other {
                            let c = choose|c: int| 0 <= c < before.len() && before[c].0@ == other;
                            assert(after[c] == before[c]);
                        }
                    }
                }
            },
        }
    }

    /// The rule `name` runs: it does unless its settings disable it
    pub fn is_rule_enabled(&self, name: &str) -> (r: bool)
        ensures
            r == rule_enabled(self.rules@, name@),
    {
        match self.rule_position(name) {
            Some(k) => self.rules[k].1.enabled,
            None => true,
        }
    }

    /// The settings of rule `name`, if it has any
    pub fn get_rule_config(&self, name: &str) -> (r: Option<&RuleConfig>)
        ensures
            match find_rule(self.rules@, name@) {
                Some(k) => r == Some(&self.rules@[k].1),
                None => r is None,
            },
    {
        match self.rule_position(name) {
            Some(k) => Some(&self.rules[k].1),
            None => None,
        }
    }

    /// When output is colored
    pub fn color_mode(&self) -> (m: ColorMode)
        ensures
            m == self.color.ui,
    {
        self.color.ui
    }
}

/// The color that `name` names, in any case; the bright colors are written
/// with or without `_`
pub open spec fn color_named(name: Seq<char>) -> Option<Color> {
    let l = lowercase(name);
    if l == "black"@ {
        Some(Color::Black)
    } else if l == "red"@ {
        Some(Color::Red)
    } else if l == "green"@ {
        Some(Color::Green)
    } else if l == "yellow"@ {
        Some(Color::Yellow)
    } else if l == "blue"@ {
        Some(Color::Blue)
    } else if l == "magenta"@ {
        Some(Color::Magenta)
    } else if l == "cyan"@ {
        Some(Color::Cyan)
    } else if l == "white"@ {
        Some(Color::White)
    } else if l == "bright_black"@ || l == "brightblack"@ {
        Some(Color::BrightBlack)
    } else if l == "bright_red"@ || l == "brightred"@ {
        Some(Color::BrightRed)
    } else if l == "bright_green"@ || l == "brightgreen"@ {
        Some(Color::BrightGreen)
    } else if l == "bright_yellow"@ || l == "brightyellow"@ {
        Some(Color::BrightYellow)
    } else if l == "bright_blue"@ || l == "brightblue"@ {
        Some(Color::BrightBlue)
    } else if l == "bright_magenta"@ || l == "brightmagenta"@ {
        Some(Color::BrightMagenta)
    } else if l == "bright_cyan"@ || l == "brightcyan"@ {
        Some(Color::BrightCyan)
    } else if l == "bright_white"@ || l == "brightwhite"@ {
        Some(Color::BrightWhite)
    } else {
        None
    }
}

/// The message for a color name nobody knows
pub open spec fn invalid_color_message(name: Seq<char>) -> Seq<char> {
    "invalid color '"@ + name
        + "', expected one of: black, red, green, yellow, blue, magenta, cyan, white, bright_black, bright_red, bright_green, bright_yellow, bright_blue, bright_magenta, bright_cyan, bright_white"@
}

impl Color {
    /// The color that `name` names, or the message that it names none
    pub fn from_name(name: &str) -> (r: Result<Color, String>)
        ensures
            match r {
                Ok(c) => color_named(name@) == Some(c),
                Err(m) => color_named(name@) is None && m@ == invalid_color_message(name@),
            },
    {
        let l = to_lowercase(name);
        let l = l.as_str();
        if str_eq(l, "black") {
            Ok(Color::Black)
        } else if str_eq(l, "red") {
            Ok(Color::Red)
        } else if str_eq(l, "green") {
            Ok(Color::Green)
        } else if str_eq(l, "yellow") {
            Ok(Color::Yellow)
        } else if str_eq(l, "blue") {
            Ok(Color::Blue)
        } else if str_eq(l, "magenta") {
            Ok(Color::Magenta)
        } else if str_eq(l, "cyan") {
            Ok(Color::Cyan)
        } else if str_eq(l, "white") {
            Ok(Color::White)
        } else if str_eq(l, "bright_black") || str_eq(l, "brightblack") {
            Ok(Color::BrightBlack)
        } else if str_eq(l, "bright_red") || str_eq(l, "brightred") {
            Ok(Color::BrightRed)
        } else if str_eq(l, "bright_green") || str_eq(l, "brightgreen") {
            Ok(Color::BrightGreen)
        } else if str_eq(l, "bright_yellow") || str_eq(l, "brightyellow") {
            Ok(Color::BrightYellow)
        } else if str_eq(l, "bright_blue") || str_eq(l, "brightblue") {
            Ok(Color::BrightBlue)
        } else if str_eq(l, "bright_magenta") || str_eq(l, "brightmagenta") {
            Ok(Color::BrightMagenta)
        } else if str_eq(l, "bright_cyan") || str_eq(l, "brightcyan") {
            Ok(Color::BrightCyan)
        } else if str_eq(l, "bright_white") || str_eq(l, "brightwhite") {
            Ok(Color::BrightWhite)
        } else {
            let mut m = "invalid color '".to_owned();
            m.append(name);
            m.append(
                "', expected one of: black, red, green, yellow, blue, magenta, cyan, white, bright_black, bright_red, bright_green, bright_yellow, bright_blue, bright_magenta, bright_cyan, bright_white",
            );
            Err(m)
        }
    }
}

/// The color mode that `name` names: `auto`, `always` or `never`, in lower case
pub open spec fn color_mode_named(name: Seq<char>) -> Option<ColorMode> {
    if name == "auto"@ {
        Some(ColorMode::Auto)
    } else if name == "always"@ {
        Some(ColorMode::Always)
    } else if name == "never"@ {
        Some(ColorMode::Never)
    } else {
        None
    }
}

impl ColorMode {
    /// The color mode that `name` names, or the message that it names none
    pub fn from_name(name: &str) -> (r: Result<ColorMode, String>)
        ensures
            match r {
                Ok(m) => color_mode_named(name@) == Some(m),
                Err(m) => color_mode_named(name@) is None && m@ == "invalid color mode '"@ + name@
                    + "', expected 'auto', 'always', or 'never'"@,
            },
    {
        if str_eq(name, "auto") {
            Ok(ColorMode::Auto)
        } else if str_eq(name, "always") {
            Ok(ColorMode::Always)
        } else if str_eq(name, "never") {
            Ok(ColorMode::Never)
        } else {
            let mut m = "invalid color mode '".to_owned();
            m.append(name);
            m.append("', expected 'auto', 'always', or 'never'");
            Err(m)
        }
    }
}

// ---------------------------------------------------------------------------
// Suggestions of close names
// ---------------------------------------------------------------------------

/// `needle` occurs in `hay` (`str::contains`)
pub open spec fn contains_seq(hay: Seq<char>, needle: Seq<char>) -> bool {
    exists|i: int|
        0 <= i && i + needle.len() <= hay.len() && #[trigger] hay.subrange(i, i + needle.len())
            == needle
}

/// `needle` occurs in `hay`
pub fn contains_chars(hay: &[char], needle: &[char]) -> (r: bool)
    ensures
        r == contains_seq(hay@, needle@),
{
    let hl = hay.len();
    let nl = needle.len();
    if nl > hl {
        return false;
    }
    let mut i: usize = 0;
    while i <= hl - nl
        invariant
            nl <= hl,
            hl == hay@.len(),
            nl == needle@.len(),
            i <= hl - nl + 1,
            forall|p: int| 0 <= p < i ==> #[trigger] hay@.subrange(p, p + nl) != needle@,
        decreases hl - nl + 1 - i,
    {
        let mut k: usize = 0;
        while k < nl && hay[i + k] == needle[k]
            invariant
                i + nl <= hl == hay@.len(),
                nl == needle@.len(),
                k <= nl,
                forall|q: int| 0 <= q < k ==> hay@[i + q] == needle@[q],
            decreases nl - k,
        {
            k += 1;
        }
        if k == nl {
            assert(hay@.subrange(i as int, i + nl) =~= needle@);
            return true;
        }
        assert(hay@.subrange(i as int, i + nl)[k as int] != needle@[k as int]);
        i += 1;
    }
    false
}

/// `known` is close enough to `input` to be suggested for it: one holds the
/// other, ignoring case, or they are at most two edits apart
pub open spec fn is_similar(input: Seq<char>, known: Seq<char>) -> bool {
    let il = lowercase(input);
    let kl = lowercase(known);
    contains_seq(kl, il) || contains_seq(il, kl) || edit_distance(il, kl) <= 2
}

/// How far `known` is from `input`, ignoring case
pub open spec fn closeness(input: Seq<char>, known: Seq<char>) -> nat {
    edit_distance(lowercase(input), lowercase(known))
}

/// The name of `known` to suggest for `input`: of the similar ones, the
/// closest, the first of them on a tie
pub open spec fn suggestion(input: Seq<char>, known: Seq<Seq<char>>) -> Option<Seq<char>>
    decreases known.len(),
{
    if known.len() == 0 {
        None
    } else {
        let best = suggestion(input, known.drop_last());
        let k = known.last();
        if !is_similar(input, k) {
            best
        } else {
            match best {
                None => Some(k),
                Some(b) => if closeness(input, k) < closeness(input, b) {
                    Some(k)
                } else {
                    best
                },
            }
        }
    }
}

pub open spec fn strs_view(v: Seq<&str>) -> Seq<Seq<char>> {
    v.map_values(|s: &str| s@)
}

/// The name of `known` to suggest for `input`, if one is similar to it
pub fn suggest_field(input: &str, known: &[&str]) -> (r: Option<String>)
    ensures
        match r {
            Some(s) => suggestion(input@, strs_view(known@)) == Some(s@),
            None => suggestion(input@, strs_view(known@)) is None,
        },
{
    let ghost ks = strs_view(known@);
    let input_lower = to_lowercase(input);
    let il = chars_of(input_lower.as_str());
    let n = known.len();
    let mut best: Option<(usize, usize)> = None;
    let mut k: usize = 0;
    while k < n
        invariant
            n == known@.len() == ks.len(),
            ks == strs_view(known@),
            input_lower@ == lowercase(input@),
            il@ == input_lower@,
            k <= n,
            match best {
                None => suggestion(input@, ks.take(k as int)) is None,
                Some((b, d)) => {
                    &&& b < k
                    &&& suggestion(input@, ks.take(k as int)) == Some(ks[b as int])
                    &&& d == closeness(input@, ks[b as int])
                },
            },
        decreases n - k,
    {
        proof {
            assert(ks.take(k + 1).drop_last() =~= ks.take(k as int));
            assert(ks.take(k + 1).last() == ks[k as int]);
            assert(ks[k as int] == known@[k as int]@);
        }
        let kl_string = to_lowercase(known[k]);
        let kl = chars_of(kl_string.as_str());
        let similar = contains_chars(kl.as_slice(), il.as_slice()) || contains_chars(
            il.as_slice(),
            kl.as_slice(),
        ) || levenshtein_distance(input_lower.as_str(), kl_string.as_str()) <= 2;
        if similar {
            let d = levenshtein_distance(input_lower.as_str(), kl_string.as_str());
            match best {
                None => {
                    best = Some((k, d));
                },
                Some((b, bd)) => {
                    if d < bd {
                        best = Some((k, d));
                    }
                },
            }
        }
        k += 1;
    }
    assert(ks.take(n as int) =~= ks);
    match best {
        Some((b, _)) => Some(known[b].to_owned()),
        None => None,
    }
}

/// The options that the settings of rule `rule` may hold
pub open spec fn rule_options(rule: Seq<char>) -> Seq<Seq<char>> {
    if rule == "inconsistent-indentation"@ {
        seq!["enabled"@, "indent_size"@]
    } else if rule == "deprecated-ssl-protocol"@ {
        seq!["enabled"@, "allowed_protocols"@]
    } else if rule == "weak-ssl-ciphers"@ {
        seq!["enabled"@, "weak_ciphers"@, "required_exclusions"@]
    } else {
        seq!["enabled"@]
    }
}

/// The options that the settings of rule `rule` may hold
pub fn get_known_rule_options(rule: &str) -> (r: Vec<&'static str>)
    ensures
        strs_view(r@) == rule_options(rule@),
{
    let r: Vec<&'static str> = if str_eq(rule, "inconsistent-indentation") {
        vec!["enabled", "indent_size"]
    } else if str_eq(rule, "deprecated-ssl-protocol") {
        vec!["enabled", "allowed_protocols"]
    } else if str_eq(rule, "weak-ssl-ciphers") {
        vec!["enabled", "weak_ciphers", "required_exclusions"]
    } else {
        vec!["enabled"]
    };
    assert(strs_view(r@) =~= rule_options(rule@));
    r
}

// ---------------------------------------------------------------------------
// Checking a settings file
// ---------------------------------------------------------------------------

/// A name in a settings file that nobody knows
#[derive(Debug, Clone)]
pub enum ValidationError {
    /// A key that is no setting, with its path from the top (`color.uii`)
    UnknownField { path: String, suggestion: Option<String> },
    /// A rule section for a rule nobody knows
    UnknownRule { name: String, suggestion: Option<String> },
    /// An option that the rule does not have
    UnknownRuleOption { rule: String, option: String, suggestion: Option<String> },
}

/// Model of a [`ValidationError`]
pub ghost enum ValidationErrorV {
    UnknownField { path: Seq<char>, suggestion: Option<Seq<char>> },
    UnknownRule { name: Seq<char>, suggestion: Option<Seq<char>> },
    UnknownRuleOption { rule: Seq<char>, option: Seq<char>, suggestion: Option<Seq<char>> },
}

pub open spec fn opt_text(s: Option<String>) -> Option<Seq<char>> {
    match s {
        Some(s) => Some(s@),
        None => None,
    }
}

impl View for ValidationError {
    type V = ValidationErrorV;

    open spec fn view(&self) -> ValidationErrorV {
        match self {
            ValidationError::UnknownField { path, suggestion } => ValidationErrorV::UnknownField {
                path: path@,
                suggestion: opt_text(*suggestion),
            },
            ValidationError::UnknownRule { name, suggestion } => ValidationErrorV::UnknownRule {
                name: name@,
                suggestion: opt_text(*suggestion),
            },
            ValidationError::UnknownRuleOption { rule, option, suggestion } => {
                ValidationErrorV::UnknownRuleOption {
                    rule: rule@,
                    option: option@,
                    suggestion: opt_text(*suggestion),
                }
            },
        }
    }
}

pub open spec fn validation_errors_view(v: Seq<ValidationError>) -> Seq<ValidationErrorV> {
    v.map_values(|e: ValidationError| e@)
}

/// The hint that ends the message of a name with a suggestion
pub open spec fn did_you_mean(s: Option<Seq<char>>) -> Seq<char> {
    match s {
        Some(s) => ", did you mean '"@ + s + "'?"@,
        None => seq![],
    }
}

/// The text that reports `e`
pub open spec fn validation_text(e: ValidationErrorV) -> Seq<char> {
    match e {
        ValidationErrorV::UnknownField { path, suggestion } => "unknown field '"@ + path + "'"@
            + did_you_mean(suggestion),
        ValidationErrorV::UnknownRule { name, suggestion } => "unknown rule '"@ + name + "'"@
            + did_you_mean(suggestion),
        ValidationErrorV::UnknownRuleOption { rule, option, suggestion } => "unknown option '"@
            + option + "' for rule '"@ + rule + "'"@ + did_you_mean(suggestion),
    }
}

fn append_did_you_mean(out: &mut String, suggestion: &Option<String>)
    ensures
        final(out)@ == old(out)@ + did_you_mean(opt_text(*suggestion)),
{
    match suggestion {
        Some(s) => {
            out.append(", did you mean '");
            out.append(s.as_str());
            out.append("'?");
        },
        None => {
            assert(old(out)@ + seq![] =~= old(out)@);
        },
    }
}

impl ValidationError {
    /// The text that reports this error
    pub fn message(&self) -> (s: String)
        ensures
            s@ == validation_text(self@),
    {
        match self {
            ValidationError::UnknownField { path, suggestion } => {
                let mut s = "unknown field '".to_owned();
                s.append(path.as_str());
                s.append("'");
                append_did_you_mean(&mut s, suggestion);
                s
            },
            ValidationError::UnknownRule { name, suggestion } => {
                let mut s = "unknown rule '".to_owned();
                s.append(name.as_str());
                s.append("'");
                append_did_you_mean(&mut s, suggestion);
                s
            },
            ValidationError::UnknownRuleOption { rule, option, suggestion } => {
                let mut s = "unknown option '".to_owned();
                s.append(option.as_str());
                s.append("' for rule '");
                s.append(rule.as_str());
                s.append("'");
                append_did_you_mean(&mut s, suggestion);
                s
            },
        }
    }
}

/// A settings file that could not be read or parsed
#[derive(Debug, Clone)]
pub enum ConfigError {
    IoError { path: String, message: String },
    ParseError { path: String, message: String },
}

impl ConfigError {
    /// The text that reports this error
    pub fn message(&self) -> (s: String)
        ensures
            s@ == match *self {
                ConfigError::IoError { path, message } => "Failed to read config file '"@ + path@
                    + "': "@ + message@,
                ConfigError::ParseError { path, message } => "Failed to parse config file '"@
                    + path@ + "': "@ + message@,
            },
    {
        let (head, path, message) = match self {
            ConfigError::IoError { path, message } => ("Failed to read config file '", path, message),
            ConfigError::ParseError { path, message } => (
                "Failed to parse config file '",
                path,
                message,
            ),
        };
        let mut s = head.to_owned();
        s.append(path.as_str());
        s.append("': ");
        s.append(message.as_str());
        s
    }
}

/// A TOML value, as far as the check of a settings file reads it: a table
/// with its entries in the table's order, or some other value
#[derive(Debug)]
pub enum TomlValue {
    Table(Vec<(String, TomlValue)>),
    Other,
}

/// Model of a [`TomlValue`]
pub ghost enum TomlValueV {
    Table(Seq<(Seq<char>, TomlValueV)>),
    Other,
}

pub open spec fn toml_view(v: TomlValue) -> TomlValueV
    decreases v,
{
    match v {
        TomlValue::Table(es) => TomlValueV::Table(entries_view(es@)),
        TomlValue::Other => TomlValueV::Other,
    }
}

pub open spec fn entries_view(es: Seq<(String, TomlValue)>) -> Seq<(Seq<char>, TomlValueV)>
    decreases es,
{
    if es.len() == 0 {
        seq![]
    } else {
        entries_view(es.subrange(0, es.len() - 1)).push(
            (es[es.len() - 1].0@, toml_view(es[es.len() - 1].1)),
        )
    }
}

proof fn lemma_entries_view_index(es: Seq<(String, TomlValue)>, i: int)
    requires
        0 <= i < es.len(),
    ensures
        entries_view(es).len() == es.len(),
        entries_view(es)[i] == (es[i].0@, toml_view(es[i].1)),
    decreases es.len(),
{
    lemma_entries_view_len(es);
    if i < es.len() - 1 {
        let pre = es.subrange(0, es.len() - 1);
        lemma_entries_view_index(pre, i);
        assert(pre[i] == es[i]);
    }
}

proof fn lemma_entries_view_len(es: Seq<(String, TomlValue)>)
    ensures
        entries_view(es).len() == es.len(),
    decreases es.len(),
{
    if es.len() > 0 {
        lemma_entries_view_len(es.subrange(0, es.len() - 1));
    }
}

/// What the TOML parser gives for the text `content`: its value, or the
/// text of its error
pub uninterp spec fn toml_parse(content: Seq<char>) -> Result<TomlValueV, Seq<char>>;

#[verifier::external_type_specification]
#[verifier::external_body]
pub struct ExTomlValue(toml::Value);

/// `toml::from_str::<toml::Value>`, with the value read as a [`TomlValue`]
#[verifier::external_body]
fn parse_toml(content: &str) -> (r: Result<TomlValue, String>)
    ensures
        match r {
            Ok(v) => toml_parse(content@) == Ok::<TomlValueV, Seq<char>>(toml_view(v)),
            Err(e) => toml_parse(content@) == Err::<TomlValueV, Seq<char>>(e@),
        },
{
    match toml::from_str::<toml::Value>(content) {
        Ok(v) => Ok(toml_value_of(&v)),
        Err(e) => Err(e.to_string()),
    }
}

/// A `toml::Value` read as a [`TomlValue`]
#[verifier::external_body]
fn toml_value_of(v: &toml::Value) -> TomlValue {
    match v.as_table() {
        Some(t) => TomlValue::Table(t.iter().map(|(k, x)| (k.clone(), toml_value_of(x))).collect()),
        None => TomlValue::Other,
    }
}

/// The value of the first entry with key `key`
pub open spec fn entry_lookup(es: Seq<(Seq<char>, TomlValueV)>, key: Seq<char>) -> Option<TomlValueV>
    decreases es.len(),
{
    if es.len() == 0 {
        None
    } else if es[0].0 == key {
        Some(es[0].1)
    } else {
        entry_lookup(es.drop_first(), key)
    }
}

pub open spec fn keys_of(es: Seq<(Seq<char>, TomlValueV)>) -> Seq<Seq<char>> {
    es.map_values(|e: (Seq<char>, TomlValueV)| e.0)
}

/// The top-level keys of a settings file
pub open spec fn known_top_level() -> Seq<Seq<char>> {
    seq!["rules"@, "color"@]
}

/// The keys of `[color]`
pub open spec fn known_color_keys() -> Seq<Seq<char>> {
    seq!["ui"@, "error"@, "warning"@, "info"@]
}

/// The rules that a settings file may configure
pub open spec fn configurable_rules() -> Seq<Seq<char>> {
    seq![
        "duplicate-directive"@,
        "unmatched-braces"@,
        "unclosed-quote"@,
        "missing-semicolon"@,
        "deprecated-ssl-protocol"@,
        "server-tokens-enabled"@,
        "autoindex-enabled"@,
        "weak-ssl-ciphers"@,
        "inconsistent-indentation"@,
        "gzip-not-enabled"@,
        "missing-error-log"@,
    ]
}

/// The errors for the keys of a table: each key not in `known`, as the
/// field `prefix` followed by the key
pub open spec fn field_errors(keys: Seq<Seq<char>>, known: Seq<Seq<char>>, prefix: Seq<char>) -> Seq<
    ValidationErrorV,
>
    decreases keys.len(),
{
    if keys.len() == 0 {
        seq![]
    } else {
        let k = keys.last();
        field_errors(keys.drop_last(), known, prefix) + if known.contains(k) {
            seq![]
        } else {
            seq![ValidationErrorV::UnknownField { path: prefix + k, suggestion: suggestion(k, known) }]
        }
    }
}

/// The errors for the options of rule `rule`
pub open spec fn option_errors(rule: Seq<char>, keys: Seq<Seq<char>>) -> Seq<ValidationErrorV>
    decreases keys.len(),
{
    if keys.len() == 0 {
        seq![]
    } else {
        let k = keys.last();
        option_errors(rule, keys.drop_last()) + if rule_options(rule).contains(k) {
            seq![]
        } else {
            seq![
                ValidationErrorV::UnknownRuleOption {
                    rule,
                    option: k,
                    suggestion: suggestion(k, rule_options(rule)),
                },
            ]
        }
    }
}

/// `key` is an option documented for the rule `rule`: `enabled` for every
/// rule, `indent_size` for `inconsistent-indentation`, `allowed_protocols`
/// for `deprecated-ssl-protocol`, and `weak_ciphers` and
/// `required_exclusions` for `weak-ssl-ciphers`
pub open spec fn documented_option(rule: Seq<char>, key: Seq<char>) -> bool {
    ||| key == "enabled"@
    ||| rule == "inconsistent-indentation"@ && key == "indent_size"@
    ||| rule == "deprecated-ssl-protocol"@ && key == "allowed_protocols"@
    ||| rule == "weak-ssl-ciphers"@ && (key == "weak_ciphers"@ || key == "required_exclusions"@)
}

/// Options documented for a rule are accepted: a rule's settings that hold
/// only such options give no error
pub proof fn lemma_documented_options_accepted(rule: Seq<char>, keys: Seq<Seq<char>>)
    requires
        forall|i: int| 0 <= i < keys.len() ==> documented_option(rule, #[trigger] keys[i]),
    ensures
        option_errors(rule, keys) == Seq::<ValidationErrorV>::empty(),
    decreases keys.len(),
{
    reveal_strlit("inconsistent-indentation");
    reveal_strlit("deprecated-ssl-protocol");
    reveal_strlit("weak-ssl-ciphers");
    assert("inconsistent-indentation"@[0] == 'i');
    assert("deprecated-ssl-protocol"@[0] == 'd');
    assert("weak-ssl-ciphers"@[0] == 'w');
    if keys.len() > 0 {
        lemma_documented_options_accepted(rule, keys.drop_last());
        let k = keys.last();
        assert(documented_option(rule, keys[keys.len() - 1]));
        let o = rule_options(rule);
        if k == "enabled"@ {
            assert(o[0] == k);
        } else if rule == "inconsistent-indentation"@ {
            assert(o == seq!["enabled"@, "indent_size"@]);
            assert(k == "indent_size"@);
            assert(o[1] == k);
        } else if rule == "deprecated-ssl-protocol"@ {
            assert(o == seq!["enabled"@, "allowed_protocols"@]);
            assert(k == "allowed_protocols"@);
            assert(o[1] == k);
        } else {
            if k == "weak_ciphers"@ {
                assert(o[1] == k);
            } else {
                assert(o[2] == k);
            }
        }
        assert(o.contains(k));
        assert(option_errors(rule, keys) =~= Seq::<ValidationErrorV>::empty());
    }
}

/// Any other option is reported, once, as an unknown option of that rule
pub proof fn lemma_undocumented_option_reported(rule: Seq<char>, keys: Seq<Seq<char>>, key: Seq<char>)
    requires
        !documented_option(rule, key),
    ensures
        option_errors(rule, keys.push(key)) == option_errors(rule, keys).push(
            ValidationErrorV::UnknownRuleOption {
                rule,
                option: key,
                suggestion: suggestion(key, rule_options(rule)),
            },
        ),
{
    let o = rule_options(rule);
    assert(keys.push(key).drop_last() =~= keys);
    assert(!o.contains(key)) by {
        if o.contains(key) {
            let i = choose|i: int| 0 <= i < o.len() && o[i] == key;
            assert(o[i] == key);
        }
    }
    assert(option_errors(rule, keys.push(key)) =~= option_errors(rule, keys).push(
        ValidationErrorV::UnknownRuleOption {
            rule,
            option: key,
            suggestion: suggestion(key, rule_options(rule)),
        },
    ));
}

/// The rules a settings file may configure, as the documentation lists them
pub open spec fn documented_rule(name: Seq<char>) -> bool {
    seq![
        "duplicate-directive"@, "unmatched-braces"@, "unclosed-quote"@, "missing-semicolon"@,
        "deprecated-ssl-protocol"@, "server-tokens-enabled"@, "autoindex-enabled"@,
        "weak-ssl-ciphers"@, "inconsistent-indentation"@, "gzip-not-enabled"@, "missing-error-log"@,
    ].contains(name)
}

/// The settings of a documented rule that hold only its documented options
/// are valid; the settings of any other rule are one error, naming it
pub proof fn lemma_rule_settings(name: Seq<char>, opts: Seq<(Seq<char>, TomlValueV)>)
    ensures
        documented_rule(name) && (forall|i: int|
            0 <= i < opts.len() ==> documented_option(name, (#[trigger] opts[i]).0)) ==> rule_entry_errors(
            (name, TomlValueV::Table(opts)),
        ) == Seq::<ValidationErrorV>::empty(),
        !documented_rule(name) ==> rule_entry_errors((name, TomlValueV::Table(opts))) == seq![
            ValidationErrorV::UnknownRule { name, suggestion: suggestion(name, configurable_rules()) },
        ],
{
    assert(configurable_rules() == seq![
        "duplicate-directive"@, "unmatched-braces"@, "unclosed-quote"@, "missing-semicolon"@,
        "deprecated-ssl-protocol"@, "server-tokens-enabled"@, "autoindex-enabled"@,
        "weak-ssl-ciphers"@, "inconsistent-indentation"@, "gzip-not-enabled"@, "missing-error-log"@,
    ]);
    if documented_rule(name) && (forall|i: int|
        0 <= i < opts.len() ==> documented_option(name, (#[trigger] opts[i]).0)) {
        let keys = keys_of(opts);
        assert forall|i: int| 0 <= i < keys.len() implies documented_option(name, #[trigger] keys[i]) by {
            assert(keys[i] == opts[i].0);
        }
        lemma_documented_options_accepted(name, keys);
    }
}

/// The top-level keys `rules` and `color` are accepted, and any other key
/// is one error naming it
pub proof fn lemma_top_level_keys(keys: Seq<Seq<char>>, key: Seq<char>)
    requires
        forall|i: int| 0 <= i < keys.len() ==> #[trigger] keys[i] == "rules"@ || keys[i] == "color"@,
    ensures
        field_errors(keys, known_top_level(), seq![]) == Seq::<ValidationErrorV>::empty(),
        key != "rules"@ && key != "color"@ ==> field_errors(keys.push(key), known_top_level(), seq![])
            == seq![
            ValidationErrorV::UnknownField { path: key, suggestion: suggestion(key, known_top_level()) },
        ],
    decreases keys.len(),
{
    let kn = known_top_level();
    assert(kn[0] == "rules"@ && kn[1] == "color"@);
    if keys.len() > 0 {
        lemma_top_level_keys(keys.drop_last(), key);
        assert(kn.contains(keys.last())) by {
            assert(keys[keys.len() - 1] == "rules"@ || keys[keys.len() - 1] == "color"@);
        }
        assert(field_errors(keys, kn, seq![]) =~= Seq::<ValidationErrorV>::empty());
    }
    if key != "rules"@ && key != "color"@ {
        assert(keys.push(key).drop_last() =~= keys);
        assert(!kn.contains(key)) by {
            if kn.contains(key) {
                let i = choose|i: int| 0 <= i < kn.len() && kn[i] == key;
                assert(kn[i] == key);
            }
        }
        assert(Seq::<char>::empty() + key =~= key);
        assert(field_errors(keys, kn, seq![]) =~= Seq::<ValidationErrorV>::empty());
        assert(field_errors(keys.push(key), kn, seq![]) =~= seq![
            ValidationErrorV::UnknownField { path: key, suggestion: suggestion(key, kn) },
        ]);
    }
}

/// The keys `ui`, `error`, `warning` and `info` of `[color]` are accepted,
/// and any other key is one error naming it under `color.`
pub proof fn lemma_color_keys(keys: Seq<Seq<char>>, key: Seq<char>)
    requires
        forall|i: int|
            0 <= i < keys.len() ==> #[trigger] keys[i] == "ui"@ || keys[i] == "error"@ || keys[i]
                == "warning"@ || keys[i] == "info"@,
    ensures
        field_errors(keys, known_color_keys(), "color."@) == Seq::<ValidationErrorV>::empty(),
        key != "ui"@ && key != "error"@ && key != "warning"@ && key != "info"@ ==> field_errors(
            keys.push(key),
            known_color_keys(),
            "color."@,
        ) == seq![
            ValidationErrorV::UnknownField {
                path: "color."@ + key,
                suggestion: suggestion(key, known_color_keys()),
            },
        ],
    decreases keys.len(),
{
    let kn = known_color_keys();
    assert(kn[0] == "ui"@ && kn[1] == "error"@ && kn[2] == "warning"@ && kn[3] == "info"@);
    if keys.len() > 0 {
        lemma_color_keys(keys.drop_last(), key);
        let k = keys[keys.len() - 1];
        assert(kn.contains(k)) by {
            if k == "ui"@ {
                assert(kn[0] == k);
            } else if k == "error"@ {
                assert(kn[1] == k);
            } else if k == "warning"@ {
                assert(kn[2] == k);
            } else {
                assert(kn[3] == k);
            }
        }
        assert(field_errors(keys, kn, "color."@) =~= Seq::<ValidationErrorV>::empty());
    }
    if key != "ui"@ && key != "error"@ && key != "warning"@ && key != "info"@ {
        assert(keys.push(key).drop_last() =~= keys);
        assert(!kn.contains(key)) by {
            if kn.contains(key) {
                let i = choose|i: int| 0 <= i < kn.len() && kn[i] == key;
                assert(kn[i] == key);
            }
        }
        assert(field_errors(keys, kn, "color."@) =~= Seq::<ValidationErrorV>::empty());
        assert(keys.push(key).last() == key);
        assert(field_errors(keys.push(key), kn, "color."@) =~= seq![
            ValidationErrorV::UnknownField { path: "color."@ + key, suggestion: suggestion(key, kn) },
        ]);
    }
}

/// A settings file whose only section is `[rules.inconsistent-indentation]`,
/// holding no key but `enabled` and `indent_size`, is valid
pub proof fn lemma_indentation_settings_valid(opts: Seq<(Seq<char>, TomlValueV)>)
    requires
        forall|i: int|
            0 <= i < opts.len() ==> (#[trigger] opts[i]).0 == "enabled"@ || opts[i].0 == "indent_size"@,
    ensures
        document_errors(
            TomlValueV::Table(
                seq![
                    ("rules"@, TomlValueV::Table(seq![("inconsistent-indentation"@, TomlValueV::Table(opts))])),
                ],
            ),
        ) == Seq::<ValidationErrorV>::empty(),
{
    reveal_strlit("rules");
    reveal_strlit("color");
    let rule = "inconsistent-indentation"@;
    let es = seq![("rules"@, TomlValueV::Table(seq![(rule, TomlValueV::Table(opts))]))];
    let keys = keys_of(opts);
    assert forall|i: int| 0 <= i < keys.len() implies documented_option(rule, #[trigger] keys[i]) by {
        assert(keys[i] == opts[i].0);
    }
    lemma_documented_options_accepted(rule, keys);
    assert(configurable_rules()[8] == rule);
    assert(configurable_rules().contains(rule));
    let r = seq![(rule, TomlValueV::Table(opts))];
    assert(r.last() == (rule, TomlValueV::Table(opts)));
    assert(rule_entry_errors(r.last()) =~= Seq::<ValidationErrorV>::empty());
    assert(rules_errors(r.drop_last()) =~= Seq::<ValidationErrorV>::empty());
    assert(rules_errors(r) == rules_errors(r.drop_last()) + rule_entry_errors(r.last()));
    assert(r.drop_last() =~= Seq::<(Seq<char>, TomlValueV)>::empty());
    assert(rules_errors(r) =~= Seq::<ValidationErrorV>::empty());
    assert(keys_of(es) =~= seq!["rules"@]);
    assert(keys_of(es).drop_last() =~= Seq::<Seq<char>>::empty());
    assert(known_top_level()[0] == "rules"@);
    assert(known_top_level().contains("rules"@));
    assert(keys_of(es).last() == "rules"@);
    assert(field_errors(keys_of(es).drop_last(), known_top_level(), seq![]) =~= Seq::<ValidationErrorV>::empty());
    assert(field_errors(keys_of(es), known_top_level(), seq![]) =~= Seq::<ValidationErrorV>::empty());
    assert("rules"@[0] != "color"@[0]);
    assert(es.drop_first() =~= Seq::<(Seq<char>, TomlValueV)>::empty());
    assert(entry_lookup(es.drop_first(), "color"@) is None);
    assert(es[0].0 != "color"@);
    assert(entry_lookup(es, "color"@) is None);
    assert(entry_lookup(es, "rules"@) == Some(TomlValueV::Table(r)));
}

/// The errors for one entry of `[rules]`: an unknown rule, or the unknown
/// options of a known one
pub open spec fn rule_entry_errors(e: (Seq<char>, TomlValueV)) -> Seq<ValidationErrorV> {
    if !configurable_rules().contains(e.0) {
        seq![
            ValidationErrorV::UnknownRule { name: e.0, suggestion: suggestion(e.0, configurable_rules()) },
        ]
    } else {
        match e.1 {
            TomlValueV::Table(opts) => option_errors(e.0, keys_of(opts)),
            TomlValueV::Other => seq![],
        }
    }
}

/// The errors for the entries of `[rules]`, in order
pub open spec fn rules_errors(es: Seq<(Seq<char>, TomlValueV)>) -> Seq<ValidationErrorV>
    decreases es.len(),
{
    if es.len() == 0 {
        seq![]
    } else {
        rules_errors(es.drop_last()) + rule_entry_errors(es.last())
    }
}

/// The errors of a settings document: unknown top-level keys, then unknown
/// keys of `[color]`, then unknown rules and rule options of `[rules]`
pub open spec fn document_errors(root: TomlValueV) -> Seq<ValidationErrorV> {
    match root {
        TomlValueV::Table(es) => field_errors(keys_of(es), known_top_level(), seq![]) + (match entry_lookup(
            es,
            "color"@,
        ) {
            Some(TomlValueV::Table(c)) => field_errors(keys_of(c), known_color_keys(), "color."@),
            _ => seq![],
        }) + (match entry_lookup(es, "rules"@) {
            Some(TomlValueV::Table(r)) => rules_errors(r),
            _ => seq![],
        }),
        TomlValueV::Other => seq![],
    }
}

/// The value of the first entry with key `key`
fn lookup_entry<'a>(es: &'a Vec<(String, TomlValue)>, key: &str) -> (r: Option<&'a TomlValue>)
    ensures
        match entry_lookup(entries_view(es@), key@) {
            Some(v) => r is Some && toml_view(*r.unwrap()) == v,
            None => r is None,
        },
{
    let ghost ev = entries_view(es@);
    let n = es.len();
    let mut k: usize = 0;
    proof {
        lemma_entries_view_len(es@);
        assert(ev.skip(0) =~= ev);
    }
    while k < n
        invariant
            n == es@.len() == ev.len(),
            ev == entries_view(es@),
            k <= n,
            entry_lookup(ev, key@) == entry_lookup(ev.skip(k as int), key@),
        decreases n - k,
    {
        proof {
            lemma_entries_view_index(es@, k as int);
            assert(ev.skip(k as int)[0] == ev[k as int]);
            assert(ev.skip(k as int).drop_first() =~= ev.skip(k + 1));
        }
        if str_eq(es[k].0.as_str(), key) {
            return Some(&es[k].1);
        }
        k += 1;
    }
    assert(ev.skip(n as int) =~= Seq::<(Seq<char>, TomlValueV)>::empty());
    None
}

/// `s` is one of `known`
fn is_known(known: &[&str], s: &str) -> (r: bool)
    ensures
        r == strs_view(known@).contains(s@),
{
    let n = known.len();
    let mut k: usize = 0;
    while k < n
        invariant
            n == known@.len(),
            k <= n,
            forall|j: int| 0 <= j < k ==> known@[j]@ != s@,
        decreases n - k,
    {
        if str_eq(known[k], s) {
            assert(strs_view(known@)[k as int] == s@);
            return true;
        }
        k += 1;
    }
    proof {
        if strs_view(known@).contains(s@) {
            let j = choose|j: int| 0 <= j < strs_view(known@).len() && strs_view(known@)[j] == s@;
            assert(known@[j]@ == s@);
        }
    }
    false
}

/// Pushes the errors for the keys of `es`
fn push_field_errors(
    es: &Vec<(String, TomlValue)>,
    known: &[&str],
    prefix: &str,
    out: &mut Vec<ValidationError>,
)
    ensures
        validation_errors_view(final(out)@) == validation_errors_view(old(out)@) + field_errors(
            keys_of(entries_view(es@)),
            strs_view(known@),
            prefix@,
        ),
{
    let ghost keys = keys_of(entries_view(es@));
    let ghost start = validation_errors_view(out@);
    let n = es.len();
    proof {
        lemma_entries_view_len(es@);
        assert(keys.take(0) =~= Seq::<Seq<char>>::empty());
    }
    let mut k: usize = 0;
    while k < n
        invariant
            n == es@.len() == keys.len(),
            keys == keys_of(entries_view(es@)),
            k <= n,
            validation_errors_view(out@) == start + field_errors(
                keys.take(k as int),
                strs_view(known@),
                prefix@,
            ),
        decreases n - k,
    {
        proof {
            lemma_entries_view_index(es@, k as int);
            assert(keys[k as int] == es@[k as int].0@);
            assert(keys.take(k + 1).drop_last() =~= keys.take(k as int));
        }
        let key = es[k].0.as_str();
        if !is_known(known, key) {
            let mut path = prefix.to_owned();
            path.append(key);
            let e = ValidationError::UnknownField { path, suggestion: suggest_field(key, known) };
            let ghost before = out@;
            out.push(e);
            proof {
                assert(validation_errors_view(out@) =~= validation_errors_view(before).push(e@));
            }
        }
        k += 1;
    }
    assert(keys.take(n as int) =~= keys);
}

/// Pushes the errors for the options `es` of the known rule `rule`
fn push_option_errors(es: &Vec<(String, TomlValue)>, rule: &str, out: &mut Vec<ValidationError>)
    ensures
        validation_errors_view(final(out)@) == validation_errors_view(old(out)@) + option_errors(
            rule@,
            keys_of(entries_view(es@)),
        ),
{
    let ghost keys = keys_of(entries_view(es@));
    let ghost start = validation_errors_view(out@);
    let known = get_known_rule_options(rule);
    let n = es.len();
    proof {
        lemma_entries_view_len(es@);
        assert(keys.take(0) =~= Seq::<Seq<char>>::empty());
    }
    let mut k: usize = 0;
    while k < n
        invariant
            n == es@.len() == keys.len(),
            keys == keys_of(entries_view(es@)),
            strs_view(known@) == rule_options(rule@),
            k <= n,
            validation_errors_view(out@) == start + option_errors(rule@, keys.take(k as int)),
        decreases n - k,
    {
        proof {
            lemma_entries_view_index(es@, k as int);
            assert(keys[k as int] == es@[k as int].0@);
            assert(keys.take(k + 1).drop_last() =~= keys.take(k as int));
        }
        let key = es[k].0.as_str();
        if !is_known(known.as_slice(), key) {
            let e = ValidationError::UnknownRuleOption {
                rule: rule.to_owned(),
                option: key.to_owned(),
                suggestion: suggest_field(key, known.as_slice()),
            };
            let ghost before = out@;
            out.push(e);
            proof {
                assert(validation_errors_view(out@) =~= validation_errors_view(before).push(e@));
            }
        }
        k += 1;
    }
    assert(keys.take(n as int) =~= keys);
}

/// The rules that a settings file may configure
fn configurable_rule_list() -> (r: Vec<&'static str>)
    ensures
        strs_view(r@) == configurable_rules(),
{
    let r = vec![
        "duplicate-directive",
        "unmatched-braces",
        "unclosed-quote",
        "missing-semicolon",
        "deprecated-ssl-protocol",
        "server-tokens-enabled",
        "autoindex-enabled",
        "weak-ssl-ciphers",
        "inconsistent-indentation",
        "gzip-not-enabled",
        "missing-error-log",
    ];
    assert(strs_view(r@) =~= configurable_rules());
    r
}

/// Pushes the errors for the entries `es` of `[rules]`
fn push_rules_errors(es: &Vec<(String, TomlValue)>, out: &mut Vec<ValidationError>)
    ensures
        validation_errors_view(final(out)@) == validation_errors_view(old(out)@) + rules_errors(
            entries_view(es@),
        ),
{
    let ghost ev = entries_view(es@);
    let ghost start = validation_errors_view(out@);
    let known = configurable_rule_list();
    let n = es.len();
    proof {
        lemma_entries_view_len(es@);
        assert(ev.take(0) =~= Seq::<(Seq<char>, TomlValueV)>::empty());
    }
    let mut k: usize = 0;
    while k < n
        invariant
            n == es@.len() == ev.len(),
            ev == entries_view(es@),
            strs_view(known@) == configurable_rules(),
            k <= n,
            validation_errors_view(out@) == start + rules_errors(ev.take(k as int)),
        decreases n - k,
    {
        proof {
            lemma_entries_view_index(es@, k as int);
            assert(ev.take(k + 1).drop_last() =~= ev.take(k as int));
            assert(ev.take(k + 1).last() == ev[k as int]);
        }
        let ghost before = validation_errors_view(out@);
        let name = es[k].0.as_str();
        if !is_known(known.as_slice(), name) {
            let e = ValidationError::UnknownRule {
                name: name.to_owned(),
                suggestion: suggest_field(name, known.as_slice()),
            };
            let ghost b = out@;
            out.push(e);
            proof {
                assert(validation_errors_view(out@) =~= validation_errors_view(b).push(e@));
            }
        } else {
            match &es[k].1 {
                TomlValue::Table(opts) => {
                    push_option_errors(opts, name, out);
                },
                TomlValue::Other => {
                    assert(validation_errors_view(out@) =~= before + seq![]);
                },
            }
        }
        k += 1;
    }
    assert(ev.take(n as int) =~= ev);
}

/// The errors of a settings document
pub fn validate_document(root: &TomlValue) -> (r: Vec<ValidationError>)
    ensures
        validation_errors_view(r@) == document_errors(toml_view(*root)),
{
    let mut out: Vec<ValidationError> = Vec::new();
    match root {
        TomlValue::Table(es) => {
            let top = vec!["rules", "color"];
            assert(strs_view(top@) =~= known_top_level());
            push_field_errors(es, top.as_slice(), "", &mut out);
            proof {
                reveal_strlit("");
                assert(""@ =~= Seq::<char>::empty());
            }
            let ghost after_top = validation_errors_view(out@);
            match lookup_entry(es, "color") {
                Some(TomlValue::Table(c)) => {
                    let color_keys = vec!["ui", "error", "warning", "info"];
                    assert(strs_view(color_keys@) =~= known_color_keys());
                    push_field_errors(c, color_keys.as_slice(), "color.", &mut out);
                },
                _ => {
                    assert(validation_errors_view(out@) =~= after_top + seq![]);
                },
            }
            let ghost after_color = validation_errors_view(out@);
            match lookup_entry(es, "rules") {
                Some(TomlValue::Table(r)) => {
                    push_rules_errors(r, &mut out);
                },
                _ => {
                    assert(validation_errors_view(out@) =~= after_color + seq![]);
                },
            }
        },
        TomlValue::Other => {
            assert(validation_errors_view(out@) =~= Seq::<ValidationErrorV>::empty());
        },
    }
    out
}

/// The errors of the settings file `path`, whose text is `content`
pub fn validate_content(content: &str, path: &str) -> (r: Result<Vec<ValidationError>, ConfigError>)
    ensures
        match toml_parse(content@) {
            Ok(v) => r is Ok && validation_errors_view(r->Ok_0@) == document_errors(v),
            Err(m) => {
                &&& r is Err
                &&& r->Err_0 is ParseError
                &&& r->Err_0->ParseError_path@ == path@
                &&& r->Err_0->ParseError_message@ == m
            },
        },
{
    match parse_toml(content) {
        Ok(v) => Ok(validate_document(&v)),
        Err(message) => Err(ConfigError::ParseError { path: path.to_owned(), message }),
    }
}

} // verus!
