use vstd::prelude::*;

verus! {

/// What identifies an item of a pool.
pub type Identifier = u32;

/// A pool slot: which identifier holds it, and the frame it was last used in.
#[derive(Debug, Clone, Copy, PartialEq, Eq, Structural, Default)]
pub struct PoolEntry {
    pub identifier: Identifier,
    pub update: u32,
}

impl PoolEntry {
    /// The entry of an unused slot.
    pub open spec fn vacant() -> PoolEntry {
        PoolEntry { identifier: 0, update: 0 }
    }

    /// The entry of a slot that `identifier` used in `frame`.
    pub open spec fn stamped(identifier: Identifier, frame: u32) -> PoolEntry {
        PoolEntry { identifier, update: frame }
    }
}

/// `i` is the first slot whose entry holds `identifier`.
pub open spec fn is_first(entries: Seq<PoolEntry>, identifier: Identifier, i: int) -> bool {
    &&& 0 <= i < entries.len()
    &&& entries[i].identifier == identifier
    &&& forall|j: int| 0 <= j < i ==> entries[j].identifier != identifier
}

/// The first slot whose entry holds `identifier`, if any.
pub open spec fn first_index(entries: Seq<PoolEntry>, identifier: Identifier) -> Option<int> {
    if exists|i: int| is_first(entries, identifier, i) {
        Some(choose|i: int| is_first(entries, identifier, i))
    } else {
        None
    }
}

/// `slot` is the first of the slots whose entries were used least recently.
pub open spec fn is_oldest(entries: Seq<PoolEntry>, slot: int) -> bool {
    &&& 0 <= slot < entries.len()
    &&& forall|j: int| 0 <= j < entries.len() ==> entries[slot].update <= #[trigger] entries[j].update
    &&& forall|j: int| 0 <= j < slot ==> entries[slot].update < #[trigger] entries[j].update
}

/// The first slot that holds `identifier` is found by a left-to-right search.
pub proof fn lemma_first_index(entries: Seq<PoolEntry>, identifier: Identifier, i: int)
    requires
        is_first(entries, identifier, i),
    ensures
        first_index(entries, identifier) == Some(i),
{
    let k = choose|k: int| is_first(entries, identifier, k);
    assert(is_first(entries, identifier, k));
}

/// No slot holds `identifier`.
pub proof fn lemma_no_index(entries: Seq<PoolEntry>, identifier: Identifier)
    requires
        forall|j: int| 0 <= j < entries.len() ==> entries[j].identifier != identifier,
    ensures
        first_index(entries, identifier) is None,
{
}

/// A fixed number of items, each held by an identifier; a new identifier takes the slot that
/// was used least recently.
pub struct Pool<T, const N: usize> {
    pub entries: Vec<PoolEntry>,
    pub items: Vec<T>,
}

impl<T: Default + Copy, const N: usize> Pool<T, N> {
    /// The pool has `N` entries and `N` items.
    pub open spec fn wf(&self) -> bool {
        self.entries@.len() == N && self.items@.len() == N
    }

    /// The slot of `identifier`, if the pool holds it.
    pub open spec fn spec_index_of(&self, identifier: Identifier) -> Option<int> {
        first_index(self.entries@, identifier)
    }

    pub fn new(default_item: T) -> (p: Self)
        ensures
            p.wf(),
            forall|i: int| 0 <= i < N ==> #[trigger] p.entries@[i] == PoolEntry::vacant(),
            forall|i: int| 0 <= i < N ==> #[trigger] p.items@[i] == default_item,
    {
        let mut entries: Vec<PoolEntry> = Vec::new();
        let mut items: Vec<T> = Vec::new();
        let mut i: usize = 0;
        while i < N
            invariant
                i <= N,
                entries@.len() == i,
                items@.len() == i,
                forall|j: int| 0 <= j < i ==> #[trigger] entries@[j] == PoolEntry::vacant(),
                forall|j: int| 0 <= j < i ==> #[trigger] items@[j] == default_item,
            decreases N - i,
        {
            entries.push(PoolEntry { identifier: 0, update: 0 });
            items.push(default_item);
            i = i + 1;
        }
        Pool { entries, items }
    }

    pub fn get_index(&self, identifier: Identifier) -> (r: Option<usize>)
        requires
            self.wf(),
        ensures
            r matches Some(i) ==> i < N && is_first(self.entries@, identifier, i as int),
            r is None ==> forall|j: int|
                0 <= j < N ==> #[trigger] self.entries@[j].identifier != identifier,
            r == (match self.spec_index_of(identifier) {
                Some(i) => Some(i as usize),
                None => None,
            }),
    {
        let mut i: usize = 0;
        while i < self.entries.len()
            invariant
                i <= self.entries@.len(),
                self.entries@.len() == N,
                forall|j: int| 0 <= j < i ==> self.entries@[j].identifier != identifier,
            decreases self.entries@.len() - i,
        {
            if self.entries[i].identifier == identifier {
                proof {
                    lemma_first_index(self.entries@, identifier, i as int);
                }
                return Some(i);
            }
            i = i + 1;
        }
        proof {
            lemma_no_index(self.entries@, identifier);
        }
        None
    }

    pub fn get(&self, identifier: Identifier) -> (r: Option<&T>)
        requires
            self.wf(),
        ensures
            r == (match self.spec_index_of(identifier) {
                Some(i) => Some(&self.items@[i]),
                None => None,
            }),
    {
        match self.get_index(identifier) {
            Some(idx) => Some(&self.items[idx]),
            None => None,
        }
    }

    /// The first slot among those used least recently.
    fn oldest_slot(&self) -> (slot: usize)
        requires
            self.wf(),
            N > 0,
        ensures
            is_oldest(self.entries@, slot as int),
    {
        let mut best: usize = 0;
        let mut i: usize = 1;
        while i < self.entries.len()
            invariant
                self.entries@.len() == N,
                1 <= i <= N,
                best < i,
                forall|j: int|
                    0 <= j < i ==> self.entries@[best as int].update <= #[trigger] self.entries@[j].update,
                forall|j: int|
                    0 <= j < best ==> self.entries@[best as int].update < #[trigger] self.entries@[j].update,
            decreases N - i,
        {
            if self.entries[i].update < self.entries[best].update {
                best = i;
            }
            i = i + 1;
        }
        best
    }

    /// The slot of `identifier` and its item, stamped with `frame`; an identifier that the pool
    /// does not hold takes over the slot used least recently, with the item it had.
    pub fn get_or_insert(&mut self, identifier: Identifier, frame: u32) -> (r: (usize, &mut T))
        requires
            old(self).wf(),
            N > 0,
        ensures
            final(self).wf(),
            r.0 < N,
            *r.1 == old(self).items@[r.0 as int],
            final(self).items@ == old(self).items@.update(r.0 as int, *final(r.1)),
            old(self).spec_index_of(identifier) matches Some(i) ==> r.0 == i
                && final(self).entries@ == old(self).entries@.update(
                i,
                PoolEntry::stamped(identifier, frame),
            ),
            old(self).spec_index_of(identifier) is None ==> is_oldest(old(self).entries@, r.0 as int)
                && final(self).entries@ == old(self).entries@.update(
                r.0 as int,
                PoolEntry::stamped(identifier, frame),
            ),
            final(self).spec_index_of(identifier) == Some(r.0 as int),
    {
        match self.get_index(identifier) {
            Some(idx) => {
                self.entries.set(idx, PoolEntry { identifier, update: frame });
                proof {
                    lemma_first_index(self.entries@, identifier, idx as int);
                }
                (idx, &mut self.items[idx])
            },
            None => {
                let slot = self.oldest_slot();
                self.entries.set(slot, PoolEntry { identifier, update: frame });
                proof {
                    lemma_first_index(self.entries@, identifier, slot as int);
                }
                (slot, &mut self.items[slot])
            },
        }
    }

    /// Stamps the slot of `identifier` with `frame`; false when the pool does not hold it.
    pub fn update(&mut self, identifier: Identifier, frame: u32) -> (found: bool)
        requires
            old(self).wf(),
        ensures
            final(self).wf(),
            final(self).items@ == old(self).items@,
            found == old(self).spec_index_of(identifier) is Some,
            old(self).spec_index_of(identifier) matches Some(i) ==> final(self).entries@
                == old(self).entries@.update(i, PoolEntry::stamped(identifier, frame)),
            old(self).spec_index_of(identifier) is None ==> final(self).entries@ == old(self).entries@,
    {
        match self.get_index(identifier) {
            Some(idx) => {
                self.entries.set(idx, PoolEntry { identifier, update: frame });
                true
            },
            None => false,
        }
    }
}

} // verus!
