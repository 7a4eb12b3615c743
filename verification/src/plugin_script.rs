//! What a Lua plugin script must return to be built into a plugin.
//!
//! A script returns one rule table, or a list of them with distinct names.
//! A rule table has a `spec` (a table, or a function returning one) and a
//! `check` function. The `spec` must name the rule, its category and a
//! description with non-empty strings; its other fields, where present, are
//! strings, its severity is `error` or `warning`, and its references are a
//! list of strings. Every string is UTF-8.
//!
//! Running the script is Lua's work; what the checks read of its result is
//! held here as plain values: a string's bytes, or another value by the name
//! of its Lua type.
use vstd::prelude::*;
use vstd::utf8::{decode_utf8, valid_utf8};
use crate::text::{decimal, push_decimal, str_eq};

verus! {

// ---------------------------------------------------------------------------
// What the script returned
// ---------------------------------------------------------------------------

/// A field of `spec`: absent, a string (its bytes), or another value (the
/// name of its Lua type)
#[derive(Debug)]
pub enum SpecField {
    Nil,
    Str(Vec<u8>),
    Other(String),
}

/// The `references` field of `spec`: absent, a list (its entries; the
/// checks read them up to the first absent one, as Lua does), or another value
#[derive(Debug)]
pub enum References {
    Nil,
    List(Vec<SpecField>),
    Other(String),
}

/// The fields of a `spec` table that the checks read
#[derive(Debug)]
pub struct SpecTable {
    pub name: SpecField,
    pub category: SpecField,
    pub description: SpecField,
    pub severity: SpecField,
    pub why: SpecField,
    pub bad_example: SpecField,
    pub good_example: SpecField,
    pub min_nginx_version: SpecField,
    pub max_nginx_version: SpecField,
    pub references: References,
}

/// The `spec` of a rule: a table (given as is, or returned by a function),
/// a function that returned another value, or another value
#[derive(Debug)]
pub enum SpecValue {
    Table(SpecTable),
    ReturnedOther(String),
    Other(String),
}

/// The `check` of a rule
#[derive(Debug)]
pub enum CheckValue {
    Function,
    Nil,
    Other(String),
}

/// A rule table
#[derive(Debug)]
pub struct RuleTable {
    pub spec: SpecValue,
    pub check: CheckValue,
}

/// An entry of a list of rules
#[derive(Debug)]
pub enum ListEntry {
    Table(RuleTable),
    Other(String),
}

/// What the script returned: a table with `spec` or `check` (one rule), a
/// table without them (a list of rules, its entries up to the first absent
/// one), or another value
#[derive(Debug)]
pub enum ScriptValue {
    Rule(RuleTable),
    List(Vec<ListEntry>),
    Other(String),
}

// ---------------------------------------------------------------------------
// Models
// ---------------------------------------------------------------------------

pub ghost enum SpecFieldV {
    Nil,
    Str(Seq<u8>),
    Other(Seq<char>),
}

pub ghost enum ReferencesV {
    Nil,
    List(Seq<SpecFieldV>),
    Other(Seq<char>),
}

pub ghost struct SpecTableV {
    pub name: SpecFieldV,
    pub category: SpecFieldV,
    pub description: SpecFieldV,
    pub severity: SpecFieldV,
    pub why: SpecFieldV,
    pub bad_example: SpecFieldV,
    pub good_example: SpecFieldV,
    pub min_nginx_version: SpecFieldV,
    pub max_nginx_version: SpecFieldV,
    pub references: ReferencesV,
}

pub ghost enum SpecValueV {
    Table(SpecTableV),
    ReturnedOther(Seq<char>),
    Other(Seq<char>),
}

pub ghost enum CheckValueV {
    Function,
    Nil,
    Other(Seq<char>),
}

pub ghost struct RuleTableV {
    pub spec: SpecValueV,
    pub check: CheckValueV,
}

pub ghost enum ListEntryV {
    Table(RuleTableV),
    Other(Seq<char>),
}

pub ghost enum ScriptValueV {
    Rule(RuleTableV),
    List(Seq<ListEntryV>),
    Other(Seq<char>),
}

impl View for SpecField {
    type V = SpecFieldV;

    open spec fn view(&self) -> SpecFieldV {
        match self {
            SpecField::Nil => SpecFieldV::Nil,
            SpecField::Str(b) => SpecFieldV::Str(b@),
            SpecField::Other(t) => SpecFieldV::Other(t@),
        }
    }
}

pub open spec fn fields_view(v: Seq<SpecField>) -> Seq<SpecFieldV> {
    v.map_values(|f: SpecField| f@)
}

impl View for References {
    type V = ReferencesV;

    open spec fn view(&self) -> ReferencesV {
        match self {
            References::Nil => ReferencesV::Nil,
            References::List(v) => ReferencesV::List(fields_view(v@)),
            References::Other(t) => ReferencesV::Other(t@),
        }
    }
}

impl View for SpecTable {
    type V = SpecTableV;

    open spec fn view(&self) -> SpecTableV {
        SpecTableV {
            name: self.name@,
            category: self.category@,
            description: self.description@,
            severity: self.severity@,
            why: self.why@,
            bad_example: self.bad_example@,
            good_example: self.good_example@,
            min_nginx_version: self.min_nginx_version@,
            max_nginx_version: self.max_nginx_version@,
            references: self.references@,
        }
    }
}

impl View for SpecValue {
    type V = SpecValueV;

    open spec fn view(&self) -> SpecValueV {
        match self {
            SpecValue::Table(t) => SpecValueV::Table(t@),
            SpecValue::ReturnedOther(t) => SpecValueV::ReturnedOther(t@),
            SpecValue::Other(t) => SpecValueV::Other(t@),
        }
    }
}

impl View for CheckValue {
    type V = CheckValueV;

    open spec fn view(&self) -> CheckValueV {
        match self {
            CheckValue::Function => CheckValueV::Function,
            CheckValue::Nil => CheckValueV::Nil,
            CheckValue::Other(t) => CheckValueV::Other(t@),
        }
    }
}

impl View for RuleTable {
    type V = RuleTableV;

    open spec fn view(&self) -> RuleTableV {
        RuleTableV { spec: self.spec@, check: self.check@ }
    }
}

impl View for ListEntry {
    type V = ListEntryV;

    open spec fn view(&self) -> ListEntryV {
        match self {
            ListEntry::Table(r) => ListEntryV::Table(r@),
            ListEntry::Other(t) => ListEntryV::Other(t@),
        }
    }
}

pub open spec fn entries_view(v: Seq<ListEntry>) -> Seq<ListEntryV> {
    v.map_values(|e: ListEntry| e@)
}

impl View for ScriptValue {
    type V = ScriptValueV;

    open spec fn view(&self) -> ScriptValueV {
        match self {
            ScriptValue::Rule(r) => ScriptValueV::Rule(r@),
            ScriptValue::List(v) => ScriptValueV::List(entries_view(v@)),
            ScriptValue::Other(t) => ScriptValueV::Other(t@),
        }
    }
}

// ---------------------------------------------------------------------------
// The checks
// ---------------------------------------------------------------------------

/// What `format!("{s:?}")` gives for `s`: the text quoted, with its special
/// characters escaped
pub uninterp spec fn debug_text(s: Seq<char>) -> Seq<char>;

/// `format!("{s:?}")`
#[verifier::external_body]
pub(crate) fn debug_string(s: &str) -> (r: String)
    ensures
        r@ == debug_text(s@),
{
    format!("{s:?}")
}

/// `str::from_utf8`: the text the bytes encode, when they are UTF-8
#[verifier::external_body]
fn utf8_text(bytes: &[u8]) -> (r: Option<String>)
    ensures
        r is Some <==> valid_utf8(bytes@),
        r matches Some(s) ==> s@ == decode_utf8(bytes@),
{
    match std::str::from_utf8(bytes) {
        Ok(s) => Some(s.to_owned()),
        Err(_) => None,
    }
}

/// The message `script: text`
pub open spec fn msg(script: Seq<char>, text: Seq<char>) -> Seq<char> {
    script + ": "@ + text
}

/// What is wrong with the required string field `field`, if anything
pub open spec fn required_error(script: Seq<char>, field: Seq<char>, v: SpecFieldV) -> Option<
    Seq<char>,
> {
    match v {
        SpecFieldV::Str(b) => if b.len() == 0 {
            Some(msg(script, "spec."@ + field + " is empty"@))
        } else if !valid_utf8(b) {
            Some(msg(script, "spec."@ + field + " is not valid UTF-8"@))
        } else {
            None
        },
        SpecFieldV::Nil => Some(msg(script, "spec."@ + field + " is missing"@)),
        SpecFieldV::Other(t) => Some(msg(script, "spec."@ + field + " must be a string, not a "@ + t)),
    }
}

/// What is wrong with the optional string field `field`, if anything
pub open spec fn optional_error(script: Seq<char>, field: Seq<char>, v: SpecFieldV) -> Option<
    Seq<char>,
> {
    match v {
        SpecFieldV::Str(b) => if !valid_utf8(b) {
            Some(msg(script, "spec."@ + field + " is not valid UTF-8"@))
        } else {
            None
        },
        SpecFieldV::Nil => None,
        SpecFieldV::Other(t) => Some(msg(script, "spec."@ + field + " must be a string, not a "@ + t)),
    }
}

/// What is wrong with the severity, a UTF-8 string or absent by now
pub open spec fn severity_error(script: Seq<char>, v: SpecFieldV) -> Option<Seq<char>> {
    match v {
        SpecFieldV::Str(b) => {
            let s = decode_utf8(b);
            if s == "error"@ || s == "warning"@ {
                None
            } else {
                Some(msg(script, "spec.severity must be \"error\" or \"warning\", not \""@ + s + "\""@))
            }
        },
        _ => None,
    }
}

/// What is wrong with the first bad entry of the references `es`, if any.
/// The list is read as Lua reads a sequence: it ends at its first absent
/// (`nil`) entry, and what follows is not looked at.
pub open spec fn reference_entries_error(script: Seq<char>, es: Seq<SpecFieldV>) -> Option<Seq<char>>
    decreases es.len(),
{
    if es.len() == 0 || es[0] is Nil {
        None
    } else {
        let e = match es[0] {
            SpecFieldV::Str(b) => if valid_utf8(b) {
                None
            } else {
                Some(msg(script, "spec.references is not valid UTF-8"@))
            },
            SpecFieldV::Nil => None,
            SpecFieldV::Other(t) => Some(msg(script, "spec.references must hold strings, not a "@ + t)),
        };
        if e is Some {
            e
        } else {
            reference_entries_error(script, es.drop_first())
        }
    }
}

/// What is wrong with the references, if anything
pub open spec fn references_error(script: Seq<char>, r: ReferencesV) -> Option<Seq<char>> {
    match r {
        ReferencesV::Nil => None,
        ReferencesV::List(es) => reference_entries_error(script, es),
        ReferencesV::Other(t) => Some(msg(script, "spec.references must be a list of strings, not a "@ + t)),
    }
}

/// `a` where it is an error, else `b`
pub open spec fn or_else(a: Option<Seq<char>>, b: Option<Seq<char>>) -> Option<Seq<char>> {
    if a is Some {
        a
    } else {
        b
    }
}

/// What is wrong with the fields of `spec`, in the order they are checked
pub open spec fn spec_fields_error(script: Seq<char>, s: SpecTableV) -> Option<Seq<char>> {
    or_else(
        required_error(script, "name"@, s.name),
        or_else(
            required_error(script, "category"@, s.category),
            or_else(
                required_error(script, "description"@, s.description),
                or_else(
                    optional_error(script, "severity"@, s.severity),
                    or_else(
                        optional_error(script, "why"@, s.why),
                        or_else(
                            optional_error(script, "bad_example"@, s.bad_example),
                            or_else(
                                optional_error(script, "good_example"@, s.good_example),
                                or_else(
                                    optional_error(script, "min_nginx_version"@, s.min_nginx_version),
                                    or_else(
                                        optional_error(script, "max_nginx_version"@, s.max_nginx_version),
                                        or_else(
                                            severity_error(script, s.severity),
                                            references_error(script, s.references),
                                        ),
                                    ),
                                ),
                            ),
                        ),
                    ),
                ),
            ),
        ),
    )
}

/// What is wrong with `check`, if anything
pub open spec fn check_error(script: Seq<char>, c: CheckValueV) -> Option<Seq<char>> {
    match c {
        CheckValueV::Function => None,
        CheckValueV::Nil => Some(msg(script, "`check` is missing"@)),
        CheckValueV::Other(t) => Some(msg(script, "`check` must be a function, not a "@ + t)),
    }
}

/// The name of the rule `r`, or what is wrong with it
pub open spec fn rule_check(script: Seq<char>, r: RuleTableV) -> Result<Seq<char>, Seq<char>> {
    match r.spec {
        SpecValueV::Table(s) => match spec_fields_error(script, s) {
            Some(e) => Err(e),
            None => match check_error(script, r.check) {
                Some(e) => Err(e),
                None => match s.name {
                    SpecFieldV::Str(b) => Ok(decode_utf8(b)),
                    _ => Err(seq![]),
                },
            },
        },
        SpecValueV::ReturnedOther(t) => Err(msg(script, "`spec` returned a "@ + t + ", not a table"@)),
        SpecValueV::Other(t) => Err(
            msg(script, "`spec` must be a table or a function returning one, not a "@ + t),
        ),
    }
}

/// The names of the rules `rules`, checked in order, or the first thing
/// wrong with them: a rule that fails its checks, or a name given twice
pub open spec fn rules_check(script: Seq<char>, rules: Seq<RuleTableV>) -> Result<
    Seq<Seq<char>>,
    Seq<char>,
>
    decreases rules.len(),
{
    if rules.len() == 0 {
        Ok(seq![])
    } else {
        match rules_check(script, rules.drop_last()) {
            Err(e) => Err(e),
            Ok(names) => match rule_check(script, rules.last()) {
                Err(e) => Err(e),
                Ok(n) => if names.contains(n) {
                    Err(msg(script, "two rules are named "@ + debug_text(n)))
                } else {
                    Ok(names.push(n))
                },
            },
        }
    }
}

/// `"n"` before a Lua type name that starts with `i`, so that the article reads "an"
pub open spec fn article_suffix(t: Seq<char>) -> Seq<char> {
    if t.len() > 0 && t[0] == 'i' {
        "n"@
    } else {
        seq![]
    }
}

/// The first entry of `es`, from index `from` on, that is not a table
pub open spec fn first_non_table(es: Seq<ListEntryV>, from: int) -> Option<(int, Seq<char>)>
    decreases es.len() - from,
{
    if from < 0 || from >= es.len() {
        None
    } else {
        match es[from] {
            ListEntryV::Other(t) => Some((from, t)),
            ListEntryV::Table(_) => first_non_table(es, from + 1),
        }
    }
}

/// The rule tables of `es`
pub open spec fn entry_tables(es: Seq<ListEntryV>) -> Seq<RuleTableV> {
    es.map_values(
        |e: ListEntryV|
            match e {
                ListEntryV::Table(r) => r,
                ListEntryV::Other(_) => RuleTableV { spec: SpecValueV::Other(seq![]), check: CheckValueV::Nil },
            },
    )
}

/// Whether the value a script returned makes a plugin, and if not, why
pub open spec fn script_check(script: Seq<char>, v: ScriptValueV) -> Result<(), Seq<char>> {
    match v {
        ScriptValueV::Other(t) => Err(
            msg(
                script,
                "the script must return a rule table (`spec` and `check`) or a list of them, not a "@
                    + t,
            ),
        ),
        ScriptValueV::Rule(r) => match rules_check(script, seq![r]) {
            Ok(_) => Ok(()),
            Err(e) => Err(e),
        },
        ScriptValueV::List(es) => if es.len() == 0 {
            Err(
                msg(
                    script,
                    "the script returned neither a rule table (`spec` and `check`) nor a list of them"@,
                ),
            )
        } else {
            match first_non_table(es, 0) {
                Some((i, t)) => Err(
                    msg(
                        script,
                        "rule "@ + decimal((i + 1) as nat) + " is a"@ + article_suffix(t) + " "@ + t
                            + ", not a table"@,
                    ),
                ),
                None => match rules_check(script, entry_tables(es)) {
                    Ok(_) => Ok(()),
                    Err(e) => Err(e),
                },
            }
        },
    }
}

// ---------------------------------------------------------------------------
// Running the checks
// ---------------------------------------------------------------------------

pub open spec fn opt_text_view(o: Option<String>) -> Option<Seq<char>> {
    match o {
        Some(s) => Some(s@),
        None => None,
    }
}

/// The message `script: text`
fn message(script: &str, text: &str) -> (s: String)
    ensures
        s@ == msg(script@, text@),
{
    let mut s = script.to_owned();
    s.append(": ");
    s.append(text);
    s
}

/// The message `script: a` followed by `b`
fn message2(script: &str, a: &str, b: &str) -> (s: String)
    ensures
        s@ == msg(script@, a@ + b@),
{
    let mut s = message(script, a);
    s.append(b);
    assert(s@ =~= msg(script@, a@ + b@));
    s
}

/// The message `script: a` followed by `b`, `c` and `d`
fn message4(script: &str, a: &str, b: &str, c: &str, d: &str) -> (s: String)
    ensures
        s@ == msg(script@, a@ + b@ + c@ + d@),
{
    let mut s = message3(script, a, b, c);
    s.append(d);
    assert(s@ =~= msg(script@, a@ + b@ + c@ + d@));
    s
}

/// The message `script: a` followed by `b` and `c`
fn message3(script: &str, a: &str, b: &str, c: &str) -> (s: String)
    ensures
        s@ == msg(script@, a@ + b@ + c@),
{
    let mut s = message(script, a);
    s.append(b);
    s.append(c);
    assert(s@ =~= msg(script@, a@ + b@ + c@));
    s
}

/// [`required_error`]
fn required_check(script: &str, field: &str, v: &SpecField) -> (r: Option<String>)
    ensures
        opt_text_view(r) == required_error(script@, field@, v@),
{
    match v {
        SpecField::Str(b) => {
            if b.len() == 0 {
                Some(message3(script, "spec.", field, " is empty"))
            } else if utf8_text(b.as_slice()).is_none() {
                Some(message3(script, "spec.", field, " is not valid UTF-8"))
            } else {
                None
            }
        },
        SpecField::Nil => {
            Some(message3(script, "spec.", field, " is missing"))
        },
        SpecField::Other(t) => {
            Some(message4(script, "spec.", field, " must be a string, not a ", t.as_str()))
        },
    }
}

/// [`optional_error`]
fn optional_check(script: &str, field: &str, v: &SpecField) -> (r: Option<String>)
    ensures
        opt_text_view(r) == optional_error(script@, field@, v@),
{
    match v {
        SpecField::Str(b) => {
            if utf8_text(b.as_slice()).is_none() {
                Some(message3(script, "spec.", field, " is not valid UTF-8"))
            } else {
                None
            }
        },
        SpecField::Nil => None,
        SpecField::Other(t) => {
            Some(message4(script, "spec.", field, " must be a string, not a ", t.as_str()))
        },
    }
}

/// [`severity_error`], for a severity already found to be UTF-8 or absent
fn severity_check(script: &str, v: &SpecField) -> (r: Option<String>)
    requires
        v@ matches SpecFieldV::Str(b) ==> valid_utf8(b),
    ensures
        opt_text_view(r) == severity_error(script@, v@),
{
    match v {
        SpecField::Str(b) => match utf8_text(b.as_slice()) {
            Some(sev) => {
                if str_eq(sev.as_str(), "error") || str_eq(sev.as_str(), "warning") {
                    None
                } else {
                    Some(message3(script, "spec.severity must be \"error\" or \"warning\", not \"", sev.as_str(), "\""))
                }
            },
            None => None,
        },
        _ => None,
    }
}

/// [`references_error`]
fn references_check(script: &str, r: &References) -> (e: Option<String>)
    ensures
        opt_text_view(e) == references_error(script@, r@),
{
    match r {
        References::Nil => None,
        References::Other(t) => {
            Some(message2(script, "spec.references must be a list of strings, not a ", t.as_str()))
        },
        References::List(es) => {
            let ghost ev = fields_view(es@);
            assert(ev.skip(0) =~= ev);
            for k in 0..es.len()
                invariant
                    ev == fields_view(es@),
                    ev.len() == es@.len(),
                    r@ == ReferencesV::List(ev),
                    reference_entries_error(script@, ev) == reference_entries_error(script@, ev.skip(k as int)),
            {
                let ghost rest = ev.skip(k as int);
                assert(rest.len() > 0);
                assert(rest[0] == es@[k as int]@);
                assert(rest.drop_first() =~= ev.skip(k + 1));
                match &es[k] {
                    SpecField::Str(b) => {
                        if utf8_text(b.as_slice()).is_none() {
                            return Some(message(script, "spec.references is not valid UTF-8"));
                        }
                    },
                    SpecField::Nil => {
                        return None;
                    },
                    SpecField::Other(t) => {
                        return Some(message2(script, "spec.references must hold strings, not a ", t.as_str()));
                    },
                }
            }
            assert(ev.skip(es@.len() as int) =~= Seq::<SpecFieldV>::empty());
            None
        },
    }
}

/// [`spec_fields_error`]
fn spec_fields_check(script: &str, s: &SpecTable) -> (r: Option<String>)
    ensures
        opt_text_view(r) == spec_fields_error(script@, s@),
{
    let e = required_check(script, "name", &s.name);
    if e.is_some() {
        return e;
    }
    let e = required_check(script, "category", &s.category);
    if e.is_some() {
        return e;
    }
    let e = required_check(script, "description", &s.description);
    if e.is_some() {
        return e;
    }
    let e = optional_check(script, "severity", &s.severity);
    if e.is_some() {
        return e;
    }
    let e = optional_check(script, "why", &s.why);
    if e.is_some() {
        return e;
    }
    let e = optional_check(script, "bad_example", &s.bad_example);
    if e.is_some() {
        return e;
    }
    let e = optional_check(script, "good_example", &s.good_example);
    if e.is_some() {
        return e;
    }
    let e = optional_check(script, "min_nginx_version", &s.min_nginx_version);
    if e.is_some() {
        return e;
    }
    let e = optional_check(script, "max_nginx_version", &s.max_nginx_version);
    if e.is_some() {
        return e;
    }
    let e = severity_check(script, &s.severity);
    if e.is_some() {
        return e;
    }
    references_check(script, &s.references)
}

/// [`check_error`]
fn check_check(script: &str, c: &CheckValue) -> (r: Option<String>)
    ensures
        opt_text_view(r) == check_error(script@, c@),
{
    match c {
        CheckValue::Function => {
            assert(check_error(script@, c@) is None);
            None
        },
        CheckValue::Nil => {
            let m = message(script, "`check` is missing");
            proof {
                assert(m@ == msg(script@, "`check` is missing"@));
            }
            Some(m)
        },
        CheckValue::Other(t) => {
            Some(message2(script, "`check` must be a function, not a ", t.as_str()))
        },
    }
}

/// The name of the rule `r`, or what is wrong with it
pub fn validate_rule(script: &str, r: &RuleTable) -> (res: Result<String, String>)
    ensures
        match res {
            Ok(n) => rule_check(script@, r@) == Ok::<Seq<char>, Seq<char>>(n@),
            Err(e) => rule_check(script@, r@) == Err::<Seq<char>, Seq<char>>(e@),
        },
{
    match &r.spec {
        SpecValue::Table(s) => {
            match spec_fields_check(script, s) {
                Some(e) => return Err(e),
                None => {},
            }
            match check_check(script, &r.check) {
                Some(e) => return Err(e),
                None => {},
            }
            match &s.name {
                SpecField::Str(b) => match utf8_text(b.as_slice()) {
                    Some(n) => Ok(n),
                    None => Err(String::new()),
                },
                _ => Err(String::new()),
            }
        },
        SpecValue::ReturnedOther(t) => {
            Err(message3(script, "`spec` returned a ", t.as_str(), ", not a table"))
        },
        SpecValue::Other(t) => {
            Err(message2(script, "`spec` must be a table or a function returning one, not a ", t.as_str()))
        },
    }
}

/// A failed check of a prefix of the rules fails the whole list the same way
proof fn lemma_rules_check_err(script: Seq<char>, rules: Seq<RuleTableV>, k: int)
    requires
        0 <= k <= rules.len(),
        rules_check(script, rules.take(k)) is Err,
    ensures
        rules_check(script, rules) == rules_check(script, rules.take(k)),
    decreases rules.len() - k,
{
    if k < rules.len() {
        assert(rules.take(k + 1).drop_last() =~= rules.take(k));
        lemma_rules_check_err(script, rules, k + 1);
    } else {
        assert(rules.take(k) =~= rules);
    }
}

/// [`rules_check`]: the names of the rules, or the first thing wrong with them
fn check_rules(script: &str, rules: &Vec<&RuleTable>) -> (res: Result<Vec<String>, String>)
    ensures
        match res {
            Ok(names) => rules_check(script@, rules@.map_values(|r: &RuleTable| r@)) == Ok::<
                Seq<Seq<char>>,
                Seq<char>,
            >(crate::ignore::strings_view(names@)),
            Err(e) => rules_check(script@, rules@.map_values(|r: &RuleTable| r@)) == Err::<
                Seq<Seq<char>>,
                Seq<char>,
            >(e@),
        },
{
    let ghost rv = rules@.map_values(|r: &RuleTable| r@);
    let mut names: Vec<String> = Vec::new();
    proof {
        assert(rv.take(0) =~= Seq::<RuleTableV>::empty());
        assert(crate::ignore::strings_view(names@) =~= Seq::<Seq<char>>::empty());
    }
    for k in 0..rules.len()
        invariant
            rv == rules@.map_values(|r: &RuleTable| r@),
            rules_check(script@, rv.take(k as int)) == Ok::<Seq<Seq<char>>, Seq<char>>(
                crate::ignore::strings_view(names@),
            ),
    {
        assert(rv.take(k + 1).drop_last() =~= rv.take(k as int));
        assert(rv.take(k + 1).last() == rules@[k as int]@);
        match validate_rule(script, rules[k]) {
            Err(e) => {
                proof {
                    lemma_rules_check_err(script@, rv, k + 1);
                }
                return Err(e);
            },
            Ok(n) => {
                if crate::ignore::contains_string(&names, n.as_str()) {
                    let d = debug_string(n.as_str());
                    let m = message2(script, "two rules are named ", d.as_str());
                    proof {
                        lemma_rules_check_err(script@, rv, k + 1);
                    }
                    return Err(m);
                }
                let ghost before = names@;
                names.push(n);
                assert(crate::ignore::strings_view(names@) =~= crate::ignore::strings_view(before).push(
                    names@.last()@,
                ));
            },
        }
    }
    assert(rv.take(rules@.len() as int) =~= rv);
    Ok(names)
}

/// Whether the value a script returned makes a plugin: `Err` says why not
pub fn validate_script_value(script: &str, v: &ScriptValue) -> (r: Result<(), String>)
    ensures
        match r {
            Ok(()) => script_check(script@, v@) == Ok::<(), Seq<char>>(()),
            Err(e) => script_check(script@, v@) == Err::<(), Seq<char>>(e@),
        },
{
    match v {
        ScriptValue::Other(t) => {
            Err(message2(script, "the script must return a rule table (`spec` and `check`) or a list of them, not a ", t.as_str()))
        },
        ScriptValue::Rule(rule) => {
            let rules: Vec<&RuleTable> = vec![rule];
            assert(rules@.map_values(|r: &RuleTable| r@) =~= seq![rule@]);
            match check_rules(script, &rules) {
                Ok(_) => Ok(()),
                Err(e) => Err(e),
            }
        },
        ScriptValue::List(es) => {
            let ghost ev = entries_view(es@);
            if es.len() == 0 {
                return Err(
                    message(script, "the script returned neither a rule table (`spec` and `check`) nor a list of them"),
                );
            }
            let mut tables: Vec<&RuleTable> = Vec::new();
            for k in 0..es.len()
                invariant
                    ev == entries_view(es@),
                    ev.len() == es@.len(),
                    ev.len() > 0,
                    v@ == ScriptValueV::List(ev),
                    first_non_table(ev, 0) == first_non_table(ev, k as int),
                    tables@.map_values(|r: &RuleTable| r@) == entry_tables(ev).take(k as int),
            {
                assert(ev[k as int] == es@[k as int]@);
                match &es[k] {
                    ListEntry::Other(t) => {
                        let mut text = "rule ".to_owned();
                        push_decimal(&mut text, k + 1);
                        text.append(" is a");
                        let tc = crate::text::chars_of(t.as_str());
                        if tc.len() > 0 && tc[0] == 'i' {
                            text.append("n");
                        }
                        text.append(" ");
                        text.append(t.as_str());
                        text.append(", not a table");
                        proof {
                            assert(first_non_table(ev, k as int) == Some((k as int, t@)));
                            assert(text@ =~= "rule "@ + decimal((k + 1) as nat) + " is a"@ + article_suffix(t@) + " "@ + t@
                                + ", not a table"@);
                        }
                        return Err(message(script, text.as_str()));
                    },
                    ListEntry::Table(rule) => {
                        let ghost before = tables@;
                        assert(entry_tables(ev)[k as int] == rule@);
                        tables.push(rule);
                        assert(tables@.map_values(|r: &RuleTable| r@) =~= before.map_values(|r: &RuleTable| r@).push(rule@));
                        assert(entry_tables(ev).take(k + 1) =~= entry_tables(ev).take(k as int).push(rule@));
                        assert(tables@.map_values(|r: &RuleTable| r@) =~= entry_tables(ev).take(k + 1));
                    },
                }
            }
            assert(first_non_table(ev, es@.len() as int) is None);
            assert(entry_tables(ev).take(es@.len() as int) =~= entry_tables(ev));
            match check_rules(script, &tables) {
                Ok(_) => Ok(()),
                Err(e) => Err(e),
            }
        },
    }
}

} // verus!
