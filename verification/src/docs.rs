//! Documentation of the rules: what each one checks and why it exists.
//!
//! The rules of the linter itself are documented in a table; the builtin
//! plugins document themselves through their [`PluginSpec`].
use vstd::prelude::*;
use crate::rules::{PluginSpec, PluginSpecV};
use crate::rules::block_lines::{BlockLinesPlugin, block_lines_spec};
use crate::rules::duplicate_directive::{DuplicateDirectivePlugin, duplicate_directive_spec};
use crate::rules::invalid_directive_context::{InvalidDirectiveContextPlugin, invalid_directive_context_spec};
use crate::rules::space_before_semicolon::{SpaceBeforeSemicolonPlugin, space_before_semicolon_spec};
use crate::rules::trailing_whitespace::{TrailingWhitespacePlugin, trailing_whitespace_spec};
use crate::text::str_eq;

verus! {

/// Documentation of a rule of the linter itself
#[derive(Debug, Clone)]
pub struct RuleDoc {
    /// Rule name, such as `include-path-exists`
    pub name: &'static str,
    pub category: &'static str,
    /// One-line description
    pub description: &'static str,
    pub severity: &'static str,
    /// Why the rule exists
    pub why: &'static str,
    pub bad_example: &'static str,
    pub good_example: &'static str,
    /// Links to further reading
    pub references: Vec<&'static str>,
}

/// Documentation of a rule, of the linter or of a plugin
#[derive(Debug, Clone)]
pub struct RuleDocOwned {
    pub name: String,
    pub category: String,
    pub description: String,
    pub severity: String,
    pub why: String,
    pub bad_example: String,
    pub good_example: String,
    pub references: Vec<String>,
    /// It documents a plugin
    pub is_plugin: bool,
}

/// Model of the documentation of a rule
pub ghost struct RuleDocV {
    pub name: Seq<char>,
    pub category: Seq<char>,
    pub description: Seq<char>,
    pub severity: Seq<char>,
    pub why: Seq<char>,
    pub bad_example: Seq<char>,
    pub good_example: Seq<char>,
    pub references: Seq<Seq<char>>,
    pub is_plugin: bool,
}

impl View for RuleDoc {
    type V = RuleDocV;

    open spec fn view(&self) -> RuleDocV {
        RuleDocV {
            name: self.name@,
            category: self.category@,
            description: self.description@,
            severity: self.severity@,
            why: self.why@,
            bad_example: self.bad_example@,
            good_example: self.good_example@,
            references: self.references@.map_values(|r: &'static str| r@),
            is_plugin: false,
        }
    }
}

impl View for RuleDocOwned {
    type V = RuleDocV;

    open spec fn view(&self) -> RuleDocV {
        RuleDocV {
            name: self.name@,
            category: self.category@,
            description: self.description@,
            severity: self.severity@,
            why: self.why@,
            bad_example: self.bad_example@,
            good_example: self.good_example@,
            references: self.references@.map_values(|r: String| r@),
            is_plugin: self.is_plugin,
        }
    }
}

pub open spec fn docs_view(v: Seq<RuleDoc>) -> Seq<RuleDocV> {
    v.map_values(|d: RuleDoc| d@)
}

pub open spec fn owned_docs_view(v: Seq<RuleDocOwned>) -> Seq<RuleDocV> {
    v.map_values(|d: RuleDocOwned| d@)
}

/// The documentation of a rule of the linter itself, which gives no examples
pub open spec fn native_doc(
    name: Seq<char>,
    category: Seq<char>,
    description: Seq<char>,
    severity: Seq<char>,
    why: Seq<char>,
    references: Seq<Seq<char>>,
) -> RuleDocV {
    RuleDocV {
        name,
        category,
        description,
        severity,
        why,
        bad_example: seq![],
        good_example: seq![],
        references,
        is_plugin: false,
    }
}

/// The documentation of the rule `include-path-exists`
pub open spec fn include_path_exists_doc() -> RuleDocV {
    native_doc(
        "include-path-exists"@,
        "syntax"@,
        "Detects include directives that reference non-existent files"@,
        "error"@,
        "When an include directive references a file that does not exist,\nnginx will fail to start. Glob patterns that match no files are\naccepted by nginx but may indicate a misconfiguration."@,
        seq!["https://nginx.org/en/docs/ngx_core_module.html#include"@],
    )
}

/// The documentation of the rules of the linter itself: the syntax rules,
/// then the style rule `indent`
pub open spec fn native_docs() -> Seq<RuleDocV> {
    let idc = invalid_directive_context_spec();
    seq![
        native_doc(
            "unmatched-braces"@,
            "syntax"@,
            "Detects unmatched opening or closing braces"@,
            "error"@,
            "Every block opened with '{' must be closed with '}'. A brace without its partner makes the whole configuration invalid, and nginx will refuse to start."@,
            seq![],
        ),
        native_doc(
            "unclosed-quote"@,
            "syntax"@,
            "Detects quoted strings that are never closed"@,
            "error"@,
            "A string opened with a quote must be closed by the same quote. An unclosed quote swallows the rest of the file into one argument, and nginx cannot parse the configuration."@,
            seq![],
        ),
        native_doc(
            "missing-semicolon"@,
            "syntax"@,
            "Detects directives that are not terminated by a semicolon"@,
            "error"@,
            "Every simple directive must end with ';'. Without it nginx reads the following line as more arguments of the same directive, which either fails to start nginx or silently changes the meaning of the configuration."@,
            seq![],
        ),
        native_doc(idc.name, idc.category, idc.description, idc.severity, idc.why, idc.references),
        include_path_exists_doc(),
        native_doc(
            "indent"@,
            "style"@,
            "Detects inconsistent indentation"@,
            "warning"@,
            "Consistent indentation makes the nesting of blocks visible at a glance and keeps configuration files easy to read and review."@,
            seq![],
        ),
    ]
}

/// The documentation of a rule of the linter itself
fn native_rule_doc(
    name: &'static str,
    category: &'static str,
    description: &'static str,
    severity: &'static str,
    why: &'static str,
    references: Vec<&'static str>,
) -> (r: RuleDoc)
    ensures
        r@ == native_doc(
            name@,
            category@,
            description@,
            severity@,
            why@,
            references@.map_values(|s: &'static str| s@),
        ),
{
    proof {
        reveal_strlit("");
    }
    assert(""@ =~= Seq::<char>::empty());
    RuleDoc { name, category, description, severity, why, bad_example: "", good_example: "", references }
}

/// The documentation of the rules of the linter itself
pub fn all_rule_docs() -> (r: Vec<RuleDoc>)
    ensures
        docs_view(r@) == native_docs(),
{
    let braces = native_rule_doc(
        "unmatched-braces",
        "syntax",
        "Detects unmatched opening or closing braces",
        "error",
        "Every block opened with '{' must be closed with '}'. A brace without its partner makes the whole configuration invalid, and nginx will refuse to start.",
        vec![],
    );
    let quote = native_rule_doc(
        "unclosed-quote",
        "syntax",
        "Detects quoted strings that are never closed",
        "error",
        "A string opened with a quote must be closed by the same quote. An unclosed quote swallows the rest of the file into one argument, and nginx cannot parse the configuration.",
        vec![],
    );
    let semicolon = native_rule_doc(
        "missing-semicolon",
        "syntax",
        "Detects directives that are not terminated by a semicolon",
        "error",
        "Every simple directive must end with ';'. Without it nginx reads the following line as more arguments of the same directive, which either fails to start nginx or silently changes the meaning of the configuration.",
        vec![],
    );
    let context = native_rule_doc(
        "invalid-directive-context",
        "syntax",
        "Detects directives placed in invalid parent contexts",
        "error",
        "nginx directives must be placed in the correct context (parent block). For example, 'server' can only be inside 'http', 'stream', or 'mail' blocks, and 'location' can only be inside 'server' or another 'location' block. When directives are placed in the wrong context, nginx will fail to start with a configuration error.",
        vec!["https://nginx.org/en/docs/beginners_guide.html"],
    );
    let path_exists = native_rule_doc(
        "include-path-exists",
        "syntax",
        "Detects include directives that reference non-existent files",
        "error",
        "When an include directive references a file that does not exist,\nnginx will fail to start. Glob patterns that match no files are\naccepted by nginx but may indicate a misconfiguration.",
        vec!["https://nginx.org/en/docs/ngx_core_module.html#include"],
    );
    let indent = native_rule_doc(
        "indent",
        "style",
        "Detects inconsistent indentation",
        "warning",
        "Consistent indentation makes the nesting of blocks visible at a glance and keeps configuration files easy to read and review.",
        vec![],
    );
    let r = vec![braces, quote, semicolon, context, path_exists, indent];
    proof {
        let f = |s: &'static str| s@;
        assert(Seq::<&'static str>::empty().map_values(f) =~= Seq::<Seq<char>>::empty());
        assert(context.references@.map_values(f) =~= invalid_directive_context_spec().references);
        assert(path_exists.references@.map_values(f) =~= seq![
            "https://nginx.org/en/docs/ngx_core_module.html#include"@,
        ]);
        assert(docs_view(r@) =~= native_docs());
    }
    r
}

/// The names of the rules of the linter itself
pub fn all_rule_names() -> (r: Vec<&'static str>)
    ensures
        r@.map_values(|s: &'static str| s@) == native_docs().map_values(|d: RuleDocV| d.name),
{
    let docs = all_rule_docs();
    let mut names: Vec<&'static str> = Vec::new();
    let n = docs.len();
    let mut k: usize = 0;
    while k < n
        invariant
            n == docs@.len(),
            docs_view(docs@) == native_docs(),
            k <= n,
            names@.map_values(|s: &'static str| s@) == native_docs().map_values(
                |d: RuleDocV| d.name,
            ).take(k as int),
        decreases n - k,
    {
        assert(docs_view(docs@)[k as int] == docs@[k as int]@);
        let ghost before = names@;
        names.push(docs[k].name);
        proof {
            let f = |s: &'static str| s@;
            let g = |d: RuleDocV| d.name;
            assert(names@.map_values(f) =~= before.map_values(f).push(docs@[k as int].name@));
            assert(native_docs().map_values(g).take(k + 1) =~= native_docs().map_values(g).take(
                k as int,
            ).push(native_docs()[k as int].name));
        }
        k += 1;
    }
    assert(native_docs().map_values(|d: RuleDocV| d.name).take(n as int) =~= native_docs().map_values(
        |d: RuleDocV| d.name,
    ));
    names
}

/// The first documentation in `docs` of the rule `name`
pub open spec fn find_doc(docs: Seq<RuleDocV>, name: Seq<char>) -> Option<RuleDocV>
    decreases docs.len(),
{
    if docs.len() == 0 {
        None
    } else if docs[0].name == name {
        Some(docs[0])
    } else {
        find_doc(docs.drop_first(), name)
    }
}

/// The documentation of the linter's own rule `name`
pub fn get_rule_doc(name: &str) -> (r: Option<RuleDoc>)
    ensures
        match r {
            Some(d) => find_doc(native_docs(), name@) == Some(d@),
            None => find_doc(native_docs(), name@) is None,
        },
{
    let docs = all_rule_docs();
    let ghost dv = docs_view(docs@);
    let n = docs.len();
    let mut docs = docs;
    let mut k: usize = 0;
    assert(dv.skip(0) =~= dv);
    while k < n
        invariant
            n == docs@.len() == dv.len(),
            dv == docs_view(docs@),
            dv == native_docs(),
            k <= n,
            find_doc(dv, name@) == find_doc(dv.skip(k as int), name@),
        decreases n - k,
    {
        assert(dv.skip(k as int)[0] == docs@[k as int]@);
        assert(dv.skip(k as int).drop_first() =~= dv.skip(k + 1));
        if str_eq(docs[k].name, name) {
            let d = docs.swap_remove(k);
            return Some(d);
        }
        k += 1;
    }
    assert(dv.skip(n as int) =~= Seq::<RuleDocV>::empty());
    None
}

/// The documentation `d` as an owned value
pub open spec fn owned_of(d: RuleDocV) -> RuleDocV {
    RuleDocV { is_plugin: false, ..d }
}

impl RuleDocOwned {
    /// The owned copy of `doc`
    pub fn from_doc(doc: &RuleDoc) -> (r: RuleDocOwned)
        ensures
            r@ == owned_of(doc@),
    {
        let mut references: Vec<String> = Vec::new();
        let n = doc.references.len();
        let mut k: usize = 0;
        while k < n
            invariant
                n == doc.references@.len(),
                k <= n,
                references@.map_values(|r: String| r@) == doc.references@.map_values(
                    |r: &'static str| r@,
                ).take(k as int),
            decreases n - k,
        {
            let ghost before = references@;
            references.push(doc.references[k].to_owned());
            proof {
                let f = |r: String| r@;
                let g = |r: &'static str| r@;
                assert(references@.map_values(f) =~= before.map_values(f).push(doc.references@[k as int]@));
                assert(doc.references@.map_values(g).take(k + 1) =~= doc.references@.map_values(
                    g,
                ).take(k as int).push(doc.references@[k as int]@));
            }
            k += 1;
        }
        assert(doc.references@.map_values(|r: &'static str| r@).take(n as int)
            =~= doc.references@.map_values(|r: &'static str| r@));
        RuleDocOwned {
            name: doc.name.to_owned(),
            category: doc.category.to_owned(),
            description: doc.description.to_owned(),
            severity: doc.severity.to_owned(),
            why: doc.why.to_owned(),
            bad_example: doc.bad_example.to_owned(),
            good_example: doc.good_example.to_owned(),
            references,
            is_plugin: false,
        }
    }
}

/// The documentation of a plugin described by `s`, which gives no examples
pub open spec fn plugin_doc(s: PluginSpecV) -> RuleDocV {
    RuleDocV {
        name: s.name,
        category: s.category,
        description: s.description,
        severity: s.severity,
        why: s.why,
        bad_example: seq![],
        good_example: seq![],
        references: s.references,
        is_plugin: true,
    }
}

fn doc_of_plugin(s: PluginSpec) -> (r: RuleDocOwned)
    ensures
        r@ == plugin_doc(s@),
{
    let r = RuleDocOwned {
        name: s.name,
        category: s.category,
        description: s.description,
        severity: s.severity,
        why: s.why,
        bad_example: String::new(),
        good_example: String::new(),
        references: s.references,
        is_plugin: true,
    };
    r
}

/// The documentation of the builtin plugins, in the order they are loaded
pub open spec fn builtin_docs() -> Seq<RuleDocV> {
    seq![
        plugin_doc(duplicate_directive_spec()),
        plugin_doc(invalid_directive_context_spec()),
        plugin_doc(space_before_semicolon_spec()),
        plugin_doc(trailing_whitespace_spec()),
        plugin_doc(block_lines_spec()),
    ]
}

/// The documentation of the builtin plugins, in the order they are loaded
pub fn get_builtin_plugin_docs() -> (r: Vec<RuleDocOwned>)
    ensures
        owned_docs_view(r@) == builtin_docs(),
{
    let a = doc_of_plugin(DuplicateDirectivePlugin.spec());
    let b = doc_of_plugin(InvalidDirectiveContextPlugin.spec());
    let c = doc_of_plugin(SpaceBeforeSemicolonPlugin.spec());
    let d = doc_of_plugin(TrailingWhitespacePlugin.spec());
    let e = doc_of_plugin(BlockLinesPlugin::new().spec());
    let r = vec![a, b, c, d, e];
    assert(owned_docs_view(r@) =~= seq![a@, b@, c@, d@, e@]);
    r
}

/// The documentation of all rules: the linter's own, then the builtin plugins'
pub open spec fn all_docs() -> Seq<RuleDocV> {
    native_docs().map_values(|d: RuleDocV| owned_of(d)) + builtin_docs()
}

/// The documentation of all rules: the linter's own, then the builtin plugins'
pub fn all_rule_docs_with_plugins() -> (r: Vec<RuleDocOwned>)
    ensures
        owned_docs_view(r@) == all_docs(),
{
    let natives = all_rule_docs();
    let mut out: Vec<RuleDocOwned> = Vec::new();
    let n = natives.len();
    let ghost f = |d: RuleDocV| owned_of(d);
    let mut k: usize = 0;
    while k < n
        invariant
            n == natives@.len(),
            docs_view(natives@) == native_docs(),
            f == (|d: RuleDocV| owned_of(d)),
            k <= n,
            owned_docs_view(out@) == native_docs().map_values(f).take(k as int),
        decreases n - k,
    {
        assert(docs_view(natives@)[k as int] == natives@[k as int]@);
        let d = RuleDocOwned::from_doc(&natives[k]);
        let ghost before = out@;
        out.push(d);
        proof {
            assert(owned_docs_view(out@) =~= owned_docs_view(before).push(d@));
            assert(native_docs().map_values(f).take(k + 1) =~= native_docs().map_values(f).take(
                k as int,
            ).push(owned_of(native_docs()[k as int])));
        }
        k += 1;
    }
    let ghost first = owned_docs_view(out@);
    assert(native_docs().map_values(f).take(n as int) =~= native_docs().map_values(f));
    let mut plugins = get_builtin_plugin_docs();
    out.append(&mut plugins);
    assert(owned_docs_view(out@) =~= first + builtin_docs());
    out
}

/// The documentation of rule `name`: the linter's own rule of that name,
/// else the builtin plugin of that name
pub fn get_rule_doc_with_plugins(name: &str) -> (r: Option<RuleDocOwned>)
    ensures
        match find_doc(native_docs(), name@) {
            Some(d) => r is Some && r->Some_0@ == owned_of(d),
            None => match find_doc(builtin_docs(), name@) {
                Some(d) => r is Some && r->Some_0@ == d,
                None => r is None,
            },
        },
{
    if let Some(doc) = get_rule_doc(name) {
        return Some(RuleDocOwned::from_doc(&doc));
    }
    let mut docs = get_builtin_plugin_docs();
    let ghost dv = owned_docs_view(docs@);
    let n = docs.len();
    let mut k: usize = 0;
    assert(dv.skip(0) =~= dv);
    while k < n
        invariant
            n == docs@.len() == dv.len(),
            dv == owned_docs_view(docs@),
            dv == builtin_docs(),
            find_doc(native_docs(), name@) is None,
            k <= n,
            find_doc(dv, name@) == find_doc(dv.skip(k as int), name@),
        decreases n - k,
    {
        assert(dv.skip(k as int)[0] == docs@[k as int]@);
        assert(dv.skip(k as int).drop_first() =~= dv.skip(k + 1));
        if str_eq(docs[k].name.as_str(), name) {
            assert(find_doc(dv.skip(k as int), name@) == Some(dv[k as int]));
            let ghost old_docs = docs@;
            let d = docs.swap_remove(k);
            assert(d == old_docs[k as int]);
            assert(d@ == dv[k as int]);
            return Some(d);
        }
        k += 1;
    }
    assert(dv.skip(n as int) =~= Seq::<RuleDocV>::empty());
    None
}

} // verus!
