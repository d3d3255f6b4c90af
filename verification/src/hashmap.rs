//! A fixed size map whose keys pick a slot and may clash.

use vstd::prelude::*;

use crate::transposition::slot_of;

verus! {

/// A fixed size collection similar to a hash map that does not enforce
/// uniqueness of its keys: every key picks one slot, which holds at most one
/// item.
///
/// This collection is primarily useful when designing a [transposition table].
///
/// [transposition table]: https://www.chessprogramming.org/Transposition_Table
pub struct WeakHashMap<V>(Vec<Option<(u64, V)>>);

/// An entry into the [`WeakHashMap`]: the slot a key picked and what it holds.
#[derive(Debug, Clone, Copy, PartialEq, Eq, Structural)]
pub enum Entry {
    /// Entry's key matched exactly.
    Exact(ExactEntry),
    /// Entry's key clashed.
    Clash(ClashEntry),
    /// Entry's key was not found.
    Empty(EmptyEntry),
}

/// Entry whose key matched exactly.
#[derive(Debug, Clone, Copy, PartialEq, Eq, Structural)]
pub struct ExactEntry {
    index: usize,
}

/// Entry whose key clashed.
#[derive(Debug, Clone, Copy, PartialEq, Eq, Structural)]
pub struct ClashEntry {
    key: u64,
    index: usize,
}

/// Entry whose key was not found.
#[derive(Debug, Clone, Copy, PartialEq, Eq, Structural)]
pub struct EmptyEntry {
    key: u64,
    index: usize,
}

/// Possible outcomes of looking up a key in the [`WeakHashMap`].
#[derive(Debug, Clone, Copy, PartialEq, Eq, Hash)]
pub enum KeyLookup<'a, V> {
    /// There is an item that exactly matches this key.
    Exact(u64, &'a V),
    /// There is an item that conflicts with the key.
    Clash(u64, &'a V),
    /// No items match the key.
    Empty,
}

impl<V> WeakHashMap<V> {
    /// The slots of the map.
    pub closed spec fn slots(self) -> Seq<Option<(u64, V)>> {
        self.0@
    }

    /// Whether the slot holds an item.
    pub open spec fn full(self, index: int) -> bool {
        0 <= index < self.slots().len() && self.slots()[index] is Some
    }

    /// Create a [`WeakHashMap`] that can hold a specified number of items.
    pub fn new(capacity: usize) -> (r: Self)
        requires
            capacity > 0,
        ensures
            r.slots().len() == capacity,
            forall|i: int| 0 <= i < capacity ==> #[trigger] r.slots()[i] is None,
    {
        let mut v: Vec<Option<(u64, V)>> = Vec::new();
        while v.len() < capacity
            invariant
                v@.len() <= capacity,
                forall|i: int| 0 <= i < v@.len() ==> #[trigger] v@[i] is None,
            decreases capacity - v@.len(),
        {
            v.push(None);
        }
        WeakHashMap(v)
    }

    /// Returns the maximum number of items this [`WeakHashMap`] can hold at the same time.
    pub fn capacity(&self) -> (r: usize)
        ensures
            r == self.slots().len(),
    {
        self.0.len()
    }

    /// Looks up the slot of a key and returns an entry for it.
    pub fn entry(&self, key: u64) -> (r: Entry)
        requires
            self.slots().len() > 0,
        ensures
            ({
                let i = slot_of(key, self.slots().len());
                &&& r.index() == i
                &&& match self.slots()[i] {
                    Some(item) => if item.0 == key {
                        r is Exact
                    } else {
                        r matches Entry::Clash(e) && e.skey() == key
                    },
                    None => r matches Entry::Empty(e) && e.skey() == key,
                }
            }),
    {
        let index = self.key_index(key);
        match &self.0[index] {
            Some(item) => {
                if key == item.0 {
                    Entry::Exact(ExactEntry { index })
                } else {
                    Entry::Clash(ClashEntry { key, index })
                }
            },
            None => Entry::Empty(EmptyEntry { key, index }),
        }
    }

    /// Looks up an item and returns a reference to it.
    pub fn get(&self, key: u64) -> (r: KeyLookup<'_, V>)
        requires
            self.slots().len() > 0,
        ensures
            ({
                let i = slot_of(key, self.slots().len());
                match self.slots()[i] {
                    Some(item) => if item.0 == key {
                        r matches KeyLookup::Exact(k, v) && k == key && *v == item.1
                    } else {
                        r matches KeyLookup::Clash(k, v) && k == item.0 && *v == item.1
                    },
                    None => r is Empty,
                }
            }),
    {
        let index = self.key_index(key);
        match &self.0[index] {
            Some(item) => {
                if key == item.0 {
                    KeyLookup::Exact(item.0, &item.1)
                } else {
                    KeyLookup::Clash(item.0, &item.1)
                }
            },
            None => KeyLookup::Empty,
        }
    }

    /// Removes all items from the [`WeakHashMap`].
    pub fn clear(&mut self)
        ensures
            final(self).slots().len() == old(self).slots().len(),
            forall|i: int| 0 <= i < final(self).slots().len() ==> #[trigger] final(self).slots()[i] is None,
    {
        let n = self.0.len();
        let mut i: usize = 0;
        while i < n
            invariant
                i <= n,
                n == self.0@.len(),
                forall|j: int| 0 <= j < i ==> #[trigger] self.0@[j] is None,
            decreases n - i,
        {
            self.0.set(i, None);
            i = i + 1;
        }
    }

    /// Returns the array index for the specified key.
    fn key_index(&self, key: u64) -> (r: usize)
        requires
            self.slots().len() > 0,
        ensures
            r == slot_of(key, self.slots().len()),
            r < self.slots().len(),
    {
        (key % self.capacity() as u64) as usize
    }

    /// Puts an item into a slot and returns what the slot held.
    fn replace_slot(&mut self, index: usize, item: Option<(u64, V)>) -> (r: Option<(u64, V)>)
        requires
            index < old(self).slots().len(),
        ensures
            r == old(self).slots()[index as int],
            final(self).slots() == old(self).slots().update(index as int, item),
    {
        let mut swapped = item;
        std::mem::swap(&mut self.0[index], &mut swapped);
        swapped
    }
}

impl Entry {
    /// Inserts the new value with the new key regardless of the entry's state.
    pub fn insert<V>(self, map: &mut WeakHashMap<V>, value: V) -> (r: ExactEntry)
        requires
            self.valid_in(*old(map)),
        ensures
            final(map).slots() == old(map).slots().update(r.sindex(), Some((self.key_in(*old(map)), value))),
            r.sindex() == self.index(),
    {
        match self {
            Entry::Exact(mut exact_entry) => {
                let old_value = exact_entry.insert(map, value);
                exact_entry
            },
            Entry::Clash(clash_entry) => {
                let mut exact_entry = clash_entry.with_new_key(map);
                let old_value = exact_entry.insert(map, value);
                exact_entry
            },
            Entry::Empty(empty_entry) => empty_entry.insert(map, value),
        }
    }

    /// The slot of the entry.
    pub open spec fn index(self) -> int {
        match self {
            Entry::Exact(e) => e.sindex(),
            Entry::Clash(e) => e.sindex(),
            Entry::Empty(e) => e.sindex(),
        }
    }

    /// The key that the item of the entry's slot ends up with on insertion.
    pub open spec fn key_in<V>(self, map: WeakHashMap<V>) -> u64 {
        match self {
            Entry::Exact(e) => map.slots()[e.sindex()].unwrap().0,
            Entry::Clash(e) => e.skey(),
            Entry::Empty(e) => e.skey(),
        }
    }

    /// The entry describes its slot of the map.
    pub open spec fn valid_in<V>(self, map: WeakHashMap<V>) -> bool {
        match self {
            Entry::Exact(e) => map.full(e.sindex()),
            Entry::Clash(e) => map.full(e.sindex()),
            Entry::Empty(e) => 0 <= e.sindex() < map.slots().len() && map.slots()[e.sindex()] is None,
        }
    }
}

impl ExactEntry {
    /// The slot of the entry.
    pub closed spec fn sindex(self) -> int {
        self.index as int
    }

    /// Returns the entry's currently used key.
    pub fn key<V>(&self, map: &WeakHashMap<V>) -> (r: u64)
        requires
            map.full(self.sindex()),
        ensures
            r == map.slots()[self.sindex()].unwrap().0,
    {
        map.0[self.index].as_ref().unwrap().0
    }

    /// Returns a reference to the entry's value.
    pub fn get<'b, V>(&self, map: &'b WeakHashMap<V>) -> (r: &'b V)
        requires
            map.full(self.sindex()),
        ensures
            *r == map.slots()[self.sindex()].unwrap().1,
    {
        &map.0[self.index].as_ref().unwrap().1
    }

    /// Returns a mutable reference to the entry's value.
    pub fn get_mut<'b, V>(&self, map: &'b mut WeakHashMap<V>) -> (r: &'b mut V)
        requires
            old(map).full(self.sindex()),
        ensures
            *r == old(map).slots()[self.sindex()].unwrap().1,
            final(map).slots() == old(map).slots().update(
                self.sindex(),
                Some((old(map).slots()[self.sindex()].unwrap().0, *final(r))),
            ),
    {
        &mut map.0[self.index].as_mut().unwrap().1
    }

    /// Converts the entry into a mutable reference to its value.
    pub fn into_mut<'b, V>(self, map: &'b mut WeakHashMap<V>) -> (r: &'b mut V)
        requires
            old(map).full(self.sindex()),
        ensures
            *r == old(map).slots()[self.sindex()].unwrap().1,
            final(map).slots() == old(map).slots().update(
                self.sindex(),
                Some((old(map).slots()[self.sindex()].unwrap().0, *final(r))),
            ),
    {
        &mut map.0[self.index].as_mut().unwrap().1
    }

    /// Inserts a new value into the entry and returns the old one.
    pub fn insert<V>(&mut self, map: &mut WeakHashMap<V>, value: V) -> (r: V)
        requires
            old(map).full(old(self).sindex()),
        ensures
            *final(self) == *old(self),
            r == old(map).slots()[old(self).sindex()].unwrap().1,
            final(map).slots() == old(map).slots().update(
                old(self).sindex(),
                Some((old(map).slots()[old(self).sindex()].unwrap().0, value)),
            ),
    {
        let key = self.key(map);
        let old_item = map.replace_slot(self.index, Some((key, value)));
        old_item.unwrap().1
    }

    /// Removes the entry and returns its value.
    pub fn remove<V>(self, map: &mut WeakHashMap<V>) -> (r: V)
        requires
            old(map).full(self.sindex()),
        ensures
            r == old(map).slots()[self.sindex()].unwrap().1,
            final(map).slots() == old(map).slots().update(self.sindex(), None),
    {
        map.replace_slot(self.index, None).unwrap().1
    }
}

impl ClashEntry {
    /// The slot of the entry.
    pub closed spec fn sindex(self) -> int {
        self.index as int
    }

    /// The key the entry was looked up with.
    pub closed spec fn skey(self) -> u64 {
        self.key
    }

    /// Returns the entry's currently used key.
    pub fn old_key<V>(&self, map: &WeakHashMap<V>) -> (r: u64)
        requires
            map.full(self.sindex()),
        ensures
            r == map.slots()[self.sindex()].unwrap().0,
    {
        map.0[self.index].as_ref().unwrap().0
    }

    /// Returns the key that was used to find the entry.
    pub fn new_key(&self) -> (r: u64)
        ensures
            r == self.skey(),
    {
        self.key
    }

    /// Keeps the old key and returns the entry.
    pub fn with_old_key(self) -> (r: ExactEntry)
        ensures
            r.sindex() == self.sindex(),
    {
        ExactEntry { index: self.index }
    }

    /// Puts the new key on the slot's item and returns the entry.
    pub fn with_new_key<V>(self, map: &mut WeakHashMap<V>) -> (r: ExactEntry)
        requires
            old(map).full(self.sindex()),
        ensures
            r.sindex() == self.sindex(),
            final(map).slots() == old(map).slots().update(
                self.sindex(),
                Some((self.skey(), old(map).slots()[self.sindex()].unwrap().1)),
            ),
    {
        let item = map.replace_slot(self.index, None).unwrap();
        let _ = map.replace_slot(self.index, Some((self.key, item.1)));
        ExactEntry { index: self.index }
    }

    /// Returns a reference to the entry's value.
    pub fn get<'b, V>(&self, map: &'b WeakHashMap<V>) -> (r: &'b V)
        requires
            map.full(self.sindex()),
        ensures
            *r == map.slots()[self.sindex()].unwrap().1,
    {
        &map.0[self.index].as_ref().unwrap().1
    }

    /// Removes the entry and returns its value.
    pub fn remove<V>(self, map: &mut WeakHashMap<V>) -> (r: V)
        requires
            old(map).full(self.sindex()),
        ensures
            r == old(map).slots()[self.sindex()].unwrap().1,
            final(map).slots() == old(map).slots().update(self.sindex(), None),
    {
        map.replace_slot(self.index, None).unwrap().1
    }
}

impl EmptyEntry {
    /// The slot of the entry.
    pub closed spec fn sindex(self) -> int {
        self.index as int
    }

    /// The key the entry was looked up with.
    pub closed spec fn skey(self) -> u64 {
        self.key
    }

    /// Returns the key that was used to find the entry.
    pub fn key(&self) -> (r: u64)
        ensures
            r == self.skey(),
    {
        self.key
    }

    /// Inserts the value and returns the filled entry.
    pub fn insert<V>(self, map: &mut WeakHashMap<V>, value: V) -> (r: ExactEntry)
        requires
            0 <= self.sindex() < old(map).slots().len(),
        ensures
            r.sindex() == self.sindex(),
            final(map).slots() == old(map).slots().update(self.sindex(), Some((self.skey(), value))),
    {
        let _ = map.replace_slot(self.index, Some((self.key, value)));
        ExactEntry { index: self.index }
    }
}

impl<'a, V> KeyLookup<'a, V> {
    /// Returns a key value pair in case of an exact key match, otherwise returns `None`.
    pub fn exact(self) -> (r: Option<(u64, &'a V)>)
        ensures
            r == (match self {
                KeyLookup::Exact(k, v) => Some((k, v)),
                _ => None,
            }),
    {
        match self {
            KeyLookup::Exact(k, v) => Some((k, v)),
            _ => None,
        }
    }

    /// Returns a key value pair in case of a key clash, otherwise returns `None`.
    pub fn clash(self) -> (r: Option<(u64, &'a V)>)
        ensures
            r == (match self {
                KeyLookup::Clash(k, v) => Some((k, v)),
                _ => None,
            }),
    {
        match self {
            KeyLookup::Clash(k, v) => Some((k, v)),
            _ => None,
        }
    }

    /// Returns whether the key matched exactly.
    pub fn is_exact(&self) -> (r: bool)
        ensures
            r == (*self is Exact),
    {
        matches!(self, KeyLookup::Exact(_, _))
    }

    /// Returns whether the key caused a conflict.
    pub fn is_clash(&self) -> (r: bool)
        ensures
            r == (*self is Clash),
    {
        matches!(self, KeyLookup::Clash(_, _))
    }

    /// Returns whether the key was not present.
    pub fn is_empty(&self) -> (r: bool)
        ensures
            r == (*self is Empty),
    {
        matches!(self, KeyLookup::Empty)
    }
}

/// Inserting through the entry that the lookup of a key gave stores the
/// value under that key: reading the key's slot afterwards finds the key and
/// the value, and the other slots keep their items.
pub proof fn lemma_entry_insert_then_get<V>(map: WeakHashMap<V>, key: u64, e: Entry, value: V, other: int)
    requires
        0 < map.slots().len() <= u64::MAX,
        0 <= other < map.slots().len(),
        e.index() == slot_of(key, map.slots().len()),
        match map.slots()[e.index()] {
            Some(item) => if item.0 == key {
                e is Exact
            } else {
                e matches Entry::Clash(c) && c.skey() == key
            },
            None => e matches Entry::Empty(c) && c.skey() == key,
        },
    ensures
        ({
            let s2 = map.slots().update(e.index(), Some((e.key_in(map), value)));
            &&& s2[slot_of(key, s2.len())] == Some((key, value))
            &&& other != e.index() ==> s2[other] == map.slots()[other]
        }),
{
    let n = map.slots().len() as u64;
    assert(key % n < n);
}

} // verus!
