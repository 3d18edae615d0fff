//! A table of cache cells, one per key, created on first use and never replaced or removed.
//!
//! The table only maps keys to cells: callers lock it for a lookup and release it before
//! they refresh a cell, each cell under its own lock, so that cells of different keys are
//! refreshed independently.
use vstd::prelude::*;

verus! {

/// The keys of the table, in the order they were first asked for, and the cell of each.
pub ghost struct CacheMapView<V> {
    pub keys: Seq<Seq<char>>,
    pub cells: Seq<V>,
}

impl<V> CacheMapView<V> {
    /// One cell per key, and no key twice.
    pub open spec fn wf(self) -> bool {
        &&& self.keys.len() == self.cells.len()
        &&& forall|i: int, j: int|
            0 <= i < j < self.keys.len() ==> #[trigger] self.keys[i] != #[trigger] self.keys[j]
    }

    pub open spec fn has(self, key: Seq<char>) -> bool {
        exists|i: int| 0 <= i < self.keys.len() && self.keys[i] == key
    }

    /// The table after asking for `key`: unchanged where the key is there, else with a new
    /// cell for it at the end.
    pub open spec fn with_key(self, key: Seq<char>, fresh: V) -> CacheMapView<V> {
        if self.has(key) {
            self
        } else {
            CacheMapView { keys: self.keys.push(key), cells: self.cells.push(fresh) }
        }
    }
}

/// A table of cells of type `V`, keyed by text.
pub struct CacheMap<V> {
    keys: Vec<String>,
    cells: Vec<V>,
}

impl<V> View for CacheMap<V> {
    type V = CacheMapView<V>;

    closed spec fn view(&self) -> CacheMapView<V> {
        CacheMapView { keys: self.keys@.map_values(|k: String| k@), cells: self.cells@ }
    }
}

impl<V> CacheMap<V> {
    /// An empty table.
    pub fn new() -> (r: CacheMap<V>)
        ensures
            r@.wf(),
            r@.keys.len() == 0,
    {
        let r = CacheMap { keys: Vec::new(), cells: Vec::new() };
        assert(r@.keys =~= Seq::<Seq<char>>::empty());
        r
    }

    /// The slot of `key`, if the table has it.
    pub fn find(&self, key: &str) -> (r: Option<usize>)
        requires
            self@.wf(),
        ensures
            match r {
                Some(i) => i < self@.keys.len() && self@.keys[i as int] == key@,
                None => !self@.has(key@),
            },
    {
        let wanted = key.to_owned();
        let mut i: usize = 0;
        while i < self.keys.len()
            invariant
                i <= self.keys@.len(),
                wanted@ == key@,
                self@.keys == self.keys@.map_values(|k: String| k@),
                forall|j: int| 0 <= j < i ==> self@.keys[j] != key@,
            decreases self.keys@.len() - i,
        {
            if self.keys[i] == wanted {
                return Some(i);
            }
            i = i + 1;
        }
        None
    }

    /// The slot of `key`'s cell, creating the cell with `fresh` where the key is new. Slots
    /// of other keys, and their cells, are left as they were.
    pub fn get<F: FnOnce() -> V>(&mut self, key: &str, fresh: F) -> (slot: usize)
        requires
            old(self)@.wf(),
            !old(self)@.has(key@) ==> fresh.requires(()),
        ensures
            final(self)@.wf(),
            slot < final(self)@.keys.len(),
            final(self)@.keys[slot as int] == key@,
            old(self)@.has(key@) ==> final(self)@ == old(self)@,
            !old(self)@.has(key@) ==> slot == old(self)@.keys.len() && fresh.ensures(
                (),
                final(self)@.cells[slot as int],
            ) && final(self)@ == old(self)@.with_key(key@, final(self)@.cells[slot as int]),
    {
        match self.find(key) {
            Some(i) => i,
            None => {
                let cell = fresh();
                let ghost before = self@;
                self.keys.push(key.to_owned());
                self.cells.push(cell);
                assert(self@.keys =~= before.keys.push(key@));
                assert(self@.cells =~= before.cells.push(cell));
                self.keys.len() - 1
            },
        }
    }

    /// The cell in `slot`.
    pub fn cell(&self, slot: usize) -> (r: &V)
        requires
            self@.wf(),
            slot < self@.keys.len(),
        ensures
            *r == self@.cells[slot as int],
    {
        &self.cells[slot]
    }

    /// The number of keys in the table.
    pub fn len(&self) -> (r: usize)
        requires
            self@.wf(),
        ensures
            r == self@.keys.len(),
    {
        self.cells.len()
    }
}

/// Asking a table for one key never disturbs another: every entry that was there keeps its
/// slot, its key and its cell, and a key already there gets no new cell.
pub proof fn lemma_entries_kept<V>(t: CacheMapView<V>, key: Seq<char>, fresh: V)
    requires
        t.wf(),
    ensures
        t.with_key(key, fresh).wf(),
        t.with_key(key, fresh).keys.len() >= t.keys.len(),
        forall|i: int|
            0 <= i < t.keys.len() ==> #[trigger] t.with_key(key, fresh).keys[i] == t.keys[i]
                && t.with_key(key, fresh).cells[i] == t.cells[i],
        t.has(key) ==> t.with_key(key, fresh) == t,
{
    if !t.has(key) {
        let n = t.with_key(key, fresh);
        assert forall|i: int, j: int| 0 <= i < j < n.keys.len() implies #[trigger] n.keys[i]
            != #[trigger] n.keys[j] by {
            if j == t.keys.len() {
                assert(n.keys[j] == key);
                assert(n.keys[i] == t.keys[i]);
            }
        }
    }
}

} // verus!
