//! The storage of the transposition table: a fixed number of slots, each
//! holding at most one keyed item, with the slot chosen by the key.

use vstd::prelude::*;

use crate::movegen::ChessMove;
use crate::score::Score;

verus! {

/// A [transposition].
///
/// Designed to be stored in the [transposition table].
///
/// [transposition table]: https://www.chessprogramming.org/Transposition_Table
/// [transposition]: https://www.chessprogramming.org/Transposition
#[derive(Debug, Clone, Copy)]
pub struct Transposition {
    /// Best move on the basis of the past search.
    pub best_move: ChessMove,
    /// The [`Score`] of the position on the basis of the past search.
    pub score: Score,
    /// The depth of the past search.
    pub depth: u64,
}

/// The underlying type for the transposition table.
#[derive(Debug, Clone)]
pub struct TranspositionTableBase<T>(Vec<Option<(u64, T)>>);

/// Immutable reference to a table's item.
#[derive(Debug, Clone)]
pub struct Ref<'a, T> {
    key: u64,
    item: &'a (u64, T),
}

impl<'a, T> Ref<'a, T> {
    /// The key the item was searched with.
    pub closed spec fn skey(self) -> u64 {
        self.key
    }

    /// The item found.
    pub closed spec fn sitem(self) -> (u64, T) {
        *self.item
    }

    /// Returns the currently used key of the item.
    pub fn key(&self) -> (r: u64)
        ensures
            r == self.sitem().0,
    {
        self.item.0
    }

    /// Returns the key that was used to find the item.
    pub fn search_key(&self) -> (r: u64)
        ensures
            r == self.skey(),
    {
        self.key
    }

    /// Returns `true` if the key and the search key are the same.
    pub fn is_exact(&self) -> (r: bool)
        ensures
            r == (self.sitem().0 == self.skey()),
    {
        self.key() == self.search_key()
    }

    /// Returns the reference to the item's value.
    pub fn get(&self) -> (r: &T)
        ensures
            *r == self.sitem().1,
    {
        &self.item.1
    }
}

/// The slot of a key in a table with `capacity` slots.
pub open spec fn slot_of(key: u64, capacity: nat) -> int {
    (key % (capacity as u64)) as int
}

impl<T> TranspositionTableBase<T> {
    /// The slots of the table.
    pub closed spec fn slots(self) -> Seq<Option<(u64, T)>> {
        self.0@
    }

    /// Create a table that can hold a specified number of items, all slots empty.
    pub fn new(capacity: usize) -> (r: Self)
        requires
            capacity > 0,
        ensures
            r.slots().len() == capacity,
            forall|i: int| 0 <= i < capacity ==> #[trigger] r.slots()[i] is None,
    {
        let mut v: Vec<Option<(u64, T)>> = Vec::new();
        while v.len() < capacity
            invariant
                v@.len() <= capacity,
                forall|i: int| 0 <= i < v@.len() ==> #[trigger] v@[i] is None,
            decreases capacity - v@.len(),
        {
            v.push(None);
        }
        TranspositionTableBase(v)
    }

    /// Returns the maximum number of items this table can hold at the same time.
    pub fn capacity(&self) -> (r: usize)
        ensures
            r == self.slots().len(),
    {
        self.0.len()
    }

    /// Returns the item in the key's slot, if any, with the key it was searched with.
    pub fn get(&self, key: u64) -> (r: Option<Ref<'_, T>>)
        requires
            self.slots().len() > 0,
        ensures
            0 <= slot_of(key, self.slots().len()) < self.slots().len(),
            r is Some <==> self.slots()[slot_of(key, self.slots().len())] is Some,
            r matches Some(rf) ==> rf.skey() == key && rf.sitem() == self.slots()[slot_of(
                key,
                self.slots().len(),
            )].unwrap(),
    {
        let i = self.key_index(key);
        match &self.0[i] {
            Some(item) => Some(Ref { key, item }),
            None => None,
        }
    }

    /// Inserts the item into the key's slot and returns the value that was there, if any.
    pub fn insert(&mut self, key: u64, value: T) -> (r: Option<T>)
        requires
            old(self).slots().len() > 0,
        ensures
            0 <= slot_of(key, old(self).slots().len()) < old(self).slots().len(),
            final(self).slots() == old(self).slots().update(slot_of(key, old(self).slots().len()), Some((key, value))),
            r == (match old(self).slots()[slot_of(key, old(self).slots().len())] {
                Some(item) => Some(item.1),
                None => None,
            }),
    {
        let i = self.key_index(key);
        let mut old_item = Some((key, value));
        std::mem::swap(&mut self.0[i], &mut old_item);
        match old_item {
            Some(item) => Some(item.1),
            None => None,
        }
    }

    /// Removes all items from the table.
    pub fn clear(&mut self)
        ensures
            final(self).slots().len() == old(self).slots().len(),
            forall|i: int| 0 <= i < final(self).slots().len() ==> #[trigger] final(self).slots()[i] is None,
    {
        let n = self.0.len();
        let mut i: usize = 0;
        while i < n
            invariant
                i <= n,
                n == self.0@.len(),
                forall|j: int| 0 <= j < i ==> #[trigger] self.0@[j] is None,
            decreases n - i,
        {
            self.0.set(i, None);
            i = i + 1;
        }
    }

    /// Returns the array index for the specified key.
    fn key_index(&self, key: u64) -> (r: usize)
        requires
            self.slots().len() > 0,
        ensures
            r == slot_of(key, self.slots().len()),
            r < self.slots().len(),
    {
        (key % self.capacity() as u64) as usize
    }
}

/// A read after a write of a key gives the written value back, with the key
/// it was written with; the other slots keep their items.
pub proof fn lemma_insert_then_get<T>(slots: Seq<Option<(u64, T)>>, key: u64, value: T, other: u64)
    requires
        slots.len() > 0,
        slots.len() <= u64::MAX,
    ensures
        ({
            let s2 = slots.update(slot_of(key, slots.len()), Some((key, value)));
            &&& s2[slot_of(key, s2.len())] == Some((key, value))
            &&& slot_of(other, slots.len()) != slot_of(key, slots.len()) ==> s2[slot_of(other, s2.len())]
                == slots[slot_of(other, slots.len())]
        }),
{
    let n = slots.len() as u64;
    assert(key % n < n);
    assert(other % n < n);
}

} // verus!
