//! The rule tree of a grammar.

use vstd::prelude::*;

verus! {

/// What a grammar attaches to a rule without changing what it matches.
#[derive(Debug, PartialEq, Eq)]
pub struct MetadataParams {
    /// The precedence given to the rule, if any.
    pub precedence: Option<i32>,
    /// Whether the rule is to be matched as one token.
    pub is_token: bool,
    /// The name under which the rule shows in a syntax tree, if it has one.
    pub alias: Option<String>,
    /// The field of its parent that the rule fills, if any.
    pub field_name: Option<String>,
}

/// How a grammar symbol is built from literals, patterns, sequences,
/// alternatives, repetition and references to other symbols.
#[derive(Debug, PartialEq, Eq)]
pub enum Rule {
    /// The empty string.
    Blank,
    /// A literal text.
    String(String),
    /// A pattern, known only by its text.
    Pattern(String),
    /// Another variable of the grammar, by name.
    NamedSymbol(String),
    /// Another variable of the grammar, by position.
    Symbol(usize),
    /// Exactly one of the alternatives.
    Choice(Vec<Rule>),
    /// The wrapped rule, with what the grammar attached to it.
    Metadata { params: MetadataParams, rule: Box<Rule> },
    /// The wrapped rule, once or more.
    Repeat(Box<Rule>),
    /// The elements one after another.
    Sequence(Vec<Rule>),
}

impl Rule {
    /// Whether the rule is built without alternatives and without references
    /// to other variables.
    pub open spec fn is_plain(self) -> bool
        decreases self,
    {
        match self {
            Rule::Blank => true,
            Rule::String(_) => true,
            Rule::Pattern(_) => true,
            Rule::NamedSymbol(_) => false,
            Rule::Symbol(_) => false,
            Rule::Choice(_) => false,
            Rule::Metadata { rule, .. } => rule.is_plain(),
            Rule::Repeat(rule) => rule.is_plain(),
            Rule::Sequence(rules) => forall|i: int|
                0 <= i < rules.len() ==> (#[trigger] rules[i]).is_plain(),
        }
    }
}

} // verus!
