//! The built-in rules, each a check over the syntax tree.
//!
//! A rule is described by a [`PluginSpec`] (its name, category, description,
//! severity and the reason it exists) and checks a parsed configuration,
//! returning its findings in document order.
use vstd::prelude::*;

pub mod block_lines;
pub mod duplicate_directive;
pub mod invalid_directive_context;
pub mod security;
pub mod space_before_semicolon;
pub mod trailing_whitespace;

verus! {

/// What a rule is and why it exists
#[derive(Debug, Clone)]
pub struct PluginSpec {
    /// Rule name, such as `block-lines`
    pub name: String,
    /// Category, such as `style`
    pub category: String,
    /// One-line description
    pub description: String,
    /// Severity of its findings
    pub severity: String,
    /// Why the rule exists
    pub why: String,
    /// Links to further reading
    pub references: Vec<String>,
}

/// Model of a [`PluginSpec`]
pub ghost struct PluginSpecV {
    pub name: Seq<char>,
    pub category: Seq<char>,
    pub description: Seq<char>,
    pub severity: Seq<char>,
    pub why: Seq<char>,
    pub references: Seq<Seq<char>>,
}

impl View for PluginSpec {
    type V = PluginSpecV;

    open spec fn view(&self) -> PluginSpecV {
        PluginSpecV {
            name: self.name@,
            category: self.category@,
            description: self.description@,
            severity: self.severity@,
            why: self.why@,
            references: self.references@.map_values(|r: String| r@),
        }
    }
}

impl PluginSpec {
    /// A description of the warning rule `name` in `category`
    pub fn new(name: &str, category: &str, description: &str, why: &str) -> (s: PluginSpec)
        ensures
            s@ == (PluginSpecV {
                name: name@,
                category: category@,
                description: description@,
                severity: "warning"@,
                why: why@,
                references: seq![],
            }),
    {
        let s = PluginSpec {
            name: name.to_owned(),
            category: category.to_owned(),
            description: description.to_owned(),
            severity: "warning".to_owned(),
            why: why.to_owned(),
            references: Vec::new(),
        };
        assert(s.references@.map_values(|r: String| r@) =~= Seq::<Seq<char>>::empty());
        s
    }

    /// The same description with findings of severity `severity`
    pub fn with_severity(self, severity: &str) -> (s: PluginSpec)
        ensures
            s@ == (PluginSpecV { severity: severity@, ..self@ }),
    {
        PluginSpec { severity: severity.to_owned(), ..self }
    }

    /// The same description with the links `references` to further reading
    pub fn with_references(self, references: Vec<String>) -> (s: PluginSpec)
        ensures
            s@ == (PluginSpecV {
                references: references@.map_values(|r: String| r@),
                ..self@
            }),
    {
        PluginSpec { references, ..self }
    }
}

} // verus!
