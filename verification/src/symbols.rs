//! The cells of a run, by symbol name.

use crate::eventually::Eventually;
use std::sync::Arc;
use tokio::sync::Notify;
use vstd::hash_map::StringHashMap;
use vstd::prelude::*;

verus! {

/// What the cells of a run hold, by name: `None` for a cell that nothing has
/// been committed to, else the committed resolution.
pub type Cells = Map<Seq<char>, Option<Option<Seq<char>>>>;

/// The committed resolutions among `cells`.
pub open spec fn committed(cells: Cells) -> Map<Seq<char>, Option<Seq<char>>> {
    Map::new(
        |name: Seq<char>| cells.contains_key(name) && cells[name] is Some,
        |name: Seq<char>| cells[name]->0,
    )
}

/// `cells` with an empty cell for `name`, unless it has a cell already.
pub open spec fn registered(cells: Cells, name: Seq<char>) -> Cells {
    if cells.contains_key(name) {
        cells
    } else {
        cells.insert(name, None)
    }
}

/// `cells` with an empty cell for each of `names` that has none yet.
pub open spec fn registered_all(cells: Cells, names: Set<Seq<char>>) -> Cells {
    Map::new(
        |name: Seq<char>| cells.contains_key(name) || names.contains(name),
        |name: Seq<char>|
            if cells.contains_key(name) {
                cells[name]
            } else {
                None
            },
    )
}

/// The committed resolutions do not depend on which names have an empty cell.
pub proof fn lemma_registering_commits_nothing(cells: Cells, names: Set<Seq<char>>)
    ensures
        committed(registered_all(cells, names)) == committed(cells),
{
    assert(committed(registered_all(cells, names)) =~= committed(cells));
}

/// Registering names in two steps is registering them all at once.
pub proof fn lemma_registering_in_steps(cells: Cells, first: Set<Seq<char>>, second: Set<Seq<char>>)
    ensures
        registered_all(registered_all(cells, first), second) == registered_all(
            cells,
            first + second,
        ),
{
    assert(registered_all(registered_all(cells, first), second) =~= registered_all(
        cells,
        first + second,
    ));
}

/// Registering no name changes nothing.
pub proof fn lemma_registering_nothing(cells: Cells)
    ensures
        registered_all(cells, Set::empty()) == cells,
{
    assert(registered_all(cells, Set::empty()) =~= cells);
}

/// One cell per symbol name.
///
/// A name gets its cell when it is first referred to or committed to. The
/// cell then stays: no name ever loses its cell, and none ever has two.
pub struct SymbolTable {
    index: StringHashMap<usize>,
    cells: Vec<Eventually<Option<String>>>,
}

impl View for SymbolTable {
    type V = Cells;

    closed spec fn view(&self) -> Cells {
        Map::new(
            |name: Seq<char>| self.index@.contains_key(name),
            |name: Seq<char>| self.cells@[self.index@[name] as int]@.deep_view(),
        )
    }
}

impl SymbolTable {
    /// Each name has a cell of its own.
    #[verifier::type_invariant]
    spec fn well_formed(self) -> bool {
        &&& forall|name: Seq<char>| #[trigger]
            self.index@.contains_key(name) ==> self.index@[name] < self.cells.len()
        &&& forall|a: Seq<char>, b: Seq<char>|
            self.index@.contains_key(a) && self.index@.contains_key(b) && a != b
                ==> #[trigger] self.index@[a] != #[trigger] self.index@[b]
    }

    /// The signal of the cell of `name`.
    pub closed spec fn signal(&self, name: Seq<char>) -> Arc<Notify> {
        self.cells@[self.index@[name] as int].signal()
    }

    /// Whether `self` has each cell of `before`, with the signal it had.
    pub open spec fn keeps_cells_of(&self, before: &SymbolTable) -> bool {
        forall|name: Seq<char>| #[trigger]
            before@.contains_key(name) ==> self@.contains_key(name) && self.signal(name)
                == before.signal(name)
    }

    /// A table without cells.
    pub fn new() -> (table: Self)
        ensures
            table@ == Map::<Seq<char>, Option<Option<Seq<char>>>>::empty(),
    {
        let table = SymbolTable { index: StringHashMap::new(), cells: Vec::new() };
        assert(table@ =~= Map::<Seq<char>, Option<Option<Seq<char>>>>::empty());
        table
    }

    /// Takes the index and the cells out of the table, which is left without
    /// cells until both are put back.
    fn take_apart(&mut self) -> (parts: (StringHashMap<usize>, Vec<Eventually<Option<String>>>))
        ensures
            parts.0 == old(self).index,
            parts.1 == old(self).cells,
            final(self).index@ == Map::<Seq<char>, usize>::empty(),
            final(self).cells@ == Seq::<Eventually<Option<String>>>::empty(),
    {
        let mut index = StringHashMap::new();
        let mut cells = Vec::new();
        std::mem::swap(&mut index, &mut self.index);
        std::mem::swap(&mut cells, &mut self.cells);
        (index, cells)
    }

    /// Gives `name` an empty cell, unless it has a cell already.
    pub fn register(&mut self, name: &str)
        ensures
            final(self)@ == registered(old(self)@, name@),
            final(self).keeps_cells_of(old(self)),
    {
        proof {
            use_type_invariant(&*self);
        }
        if !self.index.contains_key(name) {
            let (mut index, mut cells) = self.take_apart();
            index.insert(name.to_owned(), cells.len());
            cells.push(Eventually::new());
            self.cells = cells;
            self.index = index;
            assert(self@ =~= registered(old(self)@, name@));
        }
    }

    /// The resolution committed for `name`, or `None` where `name` has no
    /// cell or nothing has been committed to it.
    pub fn read(&self, name: &str) -> (value: Option<Option<String>>)
        ensures
            value.deep_view() == if self@.contains_key(name@) {
                self@[name@]
            } else {
                None
            },
    {
        proof {
            use_type_invariant(self);
        }
        match self.index.get(name) {
            Some(position) => self.cells[*position].read(),
            None => None,
        }
    }

    /// Commits `value` to the cell of `name`, which is made first where
    /// `name` has none, and wakes the readers that wait on the cell.
    pub fn commit(&mut self, name: String, value: Option<String>)
        ensures
            final(self)@ == old(self)@.insert(name@, Some(value.deep_view())),
            final(self).keeps_cells_of(old(self)),
    {
        proof {
            use_type_invariant(&*self);
        }
        let (mut index, mut cells) = self.take_apart();
        match index.get(name.as_str()) {
            Some(position) => {
                let position = *position;
                cells[position].write(value);
            },
            None => {
                let mut cell = Eventually::new();
                cell.write(value);
                index.insert(name, cells.len());
                cells.push(cell);
            },
        }
        self.cells = cells;
        self.index = index;
        assert(self@ =~= old(self)@.insert(name@, Some(value.deep_view())));
    }

    /// A handle on the signal of the cell of `name`, or `None` where `name`
    /// has no cell.
    pub fn notifier(&self, name: &str) -> (handle: Option<Arc<Notify>>)
        ensures
            handle is Some <==> self@.contains_key(name@),
            handle is Some ==> handle->0 == self.signal(name@),
    {
        proof {
            use_type_invariant(self);
        }
        match self.index.get(name) {
            Some(position) => Some(self.cells[*position].notifier()),
            None => None,
        }
    }
}

} // verus!
