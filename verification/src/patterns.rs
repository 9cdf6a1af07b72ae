//! The table that stands in for pattern matching.

use vstd::hash_map::StringHashMap;
use vstd::prelude::*;

verus! {

/// For each pattern that the caller knows, one text that matches it.
///
/// A pattern is found by its exact text; nothing interprets it.
pub struct PatternTable {
    substitutions: StringHashMap<String>,
}

impl View for PatternTable {
    type V = Map<Seq<char>, Seq<char>>;

    closed spec fn view(&self) -> Map<Seq<char>, Seq<char>> {
        Map::new(
            |pattern: Seq<char>| self.substitutions@.contains_key(pattern),
            |pattern: Seq<char>| self.substitutions@[pattern]@,
        )
    }
}

/// The text that `table` gives for `pattern`, if it knows the pattern.
pub open spec fn substitution(table: Map<Seq<char>, Seq<char>>, pattern: Seq<char>) -> Option<
    Seq<char>,
> {
    if table.contains_key(pattern) {
        Some(table[pattern])
    } else {
        None
    }
}

impl PatternTable {
    /// A table that knows no pattern.
    pub fn new() -> (table: Self)
        ensures
            table@ == Map::<Seq<char>, Seq<char>>::empty(),
    {
        let table = PatternTable { substitutions: StringHashMap::new() };
        assert(table@ =~= Map::<Seq<char>, Seq<char>>::empty());
        table
    }

    /// Makes `substitution` the text for `pattern`, in place of any earlier
    /// one.
    pub fn insert(&mut self, pattern: String, substitution: String)
        ensures
            final(self)@ == old(self)@.insert(pattern@, substitution@),
    {
        self.substitutions.insert(pattern, substitution);
        assert(self@ =~= old(self)@.insert(pattern@, substitution@));
    }

    /// A copy of the text for `pattern`, or `None` where the table does not
    /// know the pattern.
    pub fn get(&self, pattern: &str) -> (text: Option<String>)
        ensures
            text.deep_view() == substitution(self@, pattern@),
    {
        match self.substitutions.get(pattern) {
            Some(text) => Some(text.clone()),
            None => None,
        }
    }
}

} // verus!
