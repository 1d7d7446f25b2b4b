//! The type map: at most one value per type, found again by the type alone.
use super::erased::{
    faithful, holds, image, key_of, kind, lemma_recover_image, open, open_mut, open_ref, payload,
    recover, same_key, seal, type_key, Erased, Image,
};
use std::any::TypeId;
use vstd::prelude::*;

verus! {

/// One stored value with the identifier of its type.
struct Entry {
    key: TypeId,
    cell: Erased,
}

/// A map from types to one value of each: inserting a value of a type that is
/// already present replaces the earlier one. Nothing but the type finds a
/// value again, and the contents cannot be enumerated.
///
/// The contracts say which image the map has for a type. Which value that is
/// they say for a [`faithful`] type, by [`lemma_given_is_held`].
pub struct Extensions {
    /// The entries, in the order of their first insertion, found by a search
    /// from the front: a report carries few of them. Verus proves nothing of
    /// a hash map keyed by `TypeId`.
    entries: Vec<Entry>,
}

/// The entry is filed under the identifier of the type of its own value.
spec fn filed(entry: Entry) -> bool {
    entry.key == kind(payload(entry.cell))
}

/// The position of the entry stored under `key`, where there is one.
spec fn slot_of(entries: Seq<Entry>, key: TypeId) -> int {
    choose|i: int| 0 <= i < entries.len() && entries[i].key == key
}

/// `after` is `before` but for the cell at position `i`.
spec fn recelled(before: Seq<Entry>, after: Seq<Entry>, i: int) -> bool {
    &&& 0 <= i < before.len()
    &&& after.len() == before.len()
    &&& after[i].key == before[i].key
    &&& forall|j: int| 0 <= j < before.len() && j != i ==> after[j] == before[j]
}

impl View for Extensions {
    type V = Map<TypeId, Image>;

    /// The contents: the identifier of each type present, mapped to the value
    /// stored for it, with its static type forgotten.
    closed spec fn view(&self) -> Map<TypeId, Image> {
        Map::new(
            |key: TypeId|
                exists|i: int| 0 <= i < self.entries@.len() && self.entries@[i].key == key,
            |key: TypeId| payload(self.entries@[slot_of(self.entries@, key)].cell),
        )
    }
}

impl Extensions {
    /// Every entry is filed under the identifier of the type of its own value,
    /// and no identifier occurs twice.
    pub closed spec fn wf(&self) -> bool {
        &&& forall|i: int| 0 <= i < self.entries@.len() ==> filed(#[trigger] self.entries@[i])
        &&& forall|i: int, j: int|
            0 <= i < j < self.entries@.len() ==> (#[trigger] self.entries@[i]).key != (
            #[trigger] self.entries@[j]).key
    }

    /// What the map has for `T` is `got`: the image stored for `T` is the
    /// image of the value in `got`, or nothing is stored for `T` and `got` is
    /// nothing.
    pub open spec fn gives<T: Send + Sync + 'static>(&self, got: Option<T>) -> bool {
        match got {
            Some(v) => self@.contains_key(key_of::<T>()) && self@[key_of::<T>()] == image(v),
            None => !self@.contains_key(key_of::<T>()),
        }
    }

    /// The value stored for `T`, if there is one. For a faithful `T` it is
    /// the one value that the map gives; for another it is one of those with
    /// the stored image.
    pub open spec fn held<T: Send + Sync + 'static>(&self) -> Option<T> {
        if self@.contains_key(key_of::<T>()) {
            Some(recover::<T>(self@[key_of::<T>()]))
        } else {
            None
        }
    }

    /// `after` is this map with `value` stored for `T`: whatever was stored
    /// for `T` before is gone, and every other type has what it had.
    pub open spec fn with_value<T: Send + Sync + 'static>(&self, value: T, after: Self) -> bool {
        &&& after.wf()
        &&& after@ == self@.insert(key_of::<T>(), image(value))
    }

    /// `after` is this map without a value for `T`: every other type has what
    /// it had.
    pub open spec fn without<T: Send + Sync + 'static>(&self, after: Self) -> bool {
        &&& after.wf()
        &&& after@ == self@.remove(key_of::<T>())
    }

    /// Under a well-formed map, each entry is what the view shows at its key.
    proof fn lemma_entry_shown(&self, i: int)
        requires
            self.wf(),
            0 <= i < self.entries@.len(),
        ensures
            self@.contains_key(self.entries@[i].key),
            self@[self.entries@[i].key] == payload(self.entries@[i].cell),
    {
        let key = self.entries@[i].key;
        let j = slot_of(self.entries@, key);
        assert(0 <= j < self.entries@.len() && self.entries@[j].key == key);
        if j != i {
            assert(self.entries@[i].key != self.entries@[j].key);
        }
    }

    /// Putting a cell that holds `value` in place of the one filed under `T`
    /// stores `value` for `T` and changes nothing else.
    proof fn lemma_recelled<T: Send + Sync + 'static>(&self, after: Self, i: int, value: T)
        requires
            self.wf(),
            recelled(self.entries@, after.entries@, i),
            self.entries@[i].key == key_of::<T>(),
            holds(payload(after.entries@[i].cell), value),
        ensures
            self.with_value(value, after),
    {
        let key = key_of::<T>();
        let old_entries = self.entries@;
        let new_entries = after.entries@;
        assert forall|j: int| 0 <= j < new_entries.len() implies new_entries[j].key
            == old_entries[j].key by {}
        assert forall|j: int| 0 <= j < new_entries.len() implies filed(
            #[trigger] new_entries[j],
        ) by {
            if j != i {
                assert(filed(old_entries[j]));
            }
        }
        assert forall|j: int, l: int| 0 <= j < l < new_entries.len() implies (
        #[trigger] new_entries[j]).key != (#[trigger] new_entries[l]).key by {
            assert(old_entries[j].key != old_entries[l].key);
        }
        assert(after.wf());
        assert forall|k: TypeId| #[trigger]
            after@.contains_key(k) == self@.insert(key, image(value)).contains_key(k) by {
            if after@.contains_key(k) {
                let j = slot_of(new_entries, k);
                assert(old_entries[j].key == k);
            }
            if self@.contains_key(k) {
                let j = slot_of(old_entries, k);
                assert(new_entries[j].key == k);
            }
            assert(new_entries[i].key == key);
        }
        assert forall|k: TypeId| #[trigger] after@.contains_key(k) implies after@[k]
            == self@.insert(key, image(value))[k] by {
            let j = slot_of(new_entries, k);
            after.lemma_entry_shown(j);
            if k != key {
                assert(j != i);
                self.lemma_entry_shown(j);
            }
        }
        assert(after@ =~= self@.insert(key, image(value)));
    }

    /// Adding an entry for a type that has none stores its value for that type
    /// and changes nothing else.
    proof fn lemma_pushed<T: Send + Sync + 'static>(&self, after: Self, value: T)
        requires
            self.wf(),
            forall|i: int| 0 <= i < self.entries@.len() ==> self.entries@[i].key != key_of::<T>(),
            after.entries@.len() == self.entries@.len() + 1,
            forall|i: int| 0 <= i < self.entries@.len() ==> after.entries@[i] == self.entries@[i],
            after.entries@[self.entries@.len() as int].key == key_of::<T>(),
            holds(payload(after.entries@[self.entries@.len() as int].cell), value),
        ensures
            self.with_value(value, after),
    {
        let key = key_of::<T>();
        let old_entries = self.entries@;
        let new_entries = after.entries@;
        let n = old_entries.len() as int;
        assert forall|j: int| 0 <= j < new_entries.len() implies filed(
            #[trigger] new_entries[j],
        ) by {
            if j != n {
                assert(filed(old_entries[j]));
            }
        }
        assert forall|j: int, l: int| 0 <= j < l < new_entries.len() implies (
        #[trigger] new_entries[j]).key != (#[trigger] new_entries[l]).key by {
            if l != n {
                assert(old_entries[j].key != old_entries[l].key);
            }
        }
        assert(after.wf());
        assert forall|k: TypeId| #[trigger]
            after@.contains_key(k) == self@.insert(key, image(value)).contains_key(k) by {
            if after@.contains_key(k) {
                let j = slot_of(new_entries, k);
                if j < n {
                    assert(old_entries[j].key == k);
                }
            }
            if self@.contains_key(k) {
                let j = slot_of(old_entries, k);
                assert(new_entries[j].key == k);
            }
            assert(new_entries[n].key == key);
        }
        assert forall|k: TypeId| #[trigger] after@.contains_key(k) implies after@[k]
            == self@.insert(key, image(value))[k] by {
            let j = slot_of(new_entries, k);
            after.lemma_entry_shown(j);
            if k != key {
                assert(j != n);
                self.lemma_entry_shown(j);
            }
        }
        assert(after@ =~= self@.insert(key, image(value)));
    }

    /// Taking out the entry at position `i` removes its key from the view and
    /// changes nothing else.
    proof fn lemma_taken(&self, after: Self, i: int)
        requires
            self.wf(),
            0 <= i < self.entries@.len(),
            after.entries@ == self.entries@.remove(i),
        ensures
            after.wf(),
            after@ == self@.remove(self.entries@[i].key),
    {
        let key = self.entries@[i].key;
        let old_entries = self.entries@;
        let new_entries = after.entries@;
        let back = |j: int| if j < i { j } else { j + 1 };
        assert forall|j: int| 0 <= j < new_entries.len() implies new_entries[j]
            == old_entries[back(j)] by {}
        assert forall|j: int| 0 <= j < new_entries.len() implies filed(
            #[trigger] new_entries[j],
        ) by {
            assert(filed(old_entries[back(j)]));
        }
        assert forall|j: int, l: int| 0 <= j < l < new_entries.len() implies (
        #[trigger] new_entries[j]).key != (#[trigger] new_entries[l]).key by {
            assert(old_entries[back(j)].key != old_entries[back(l)].key);
        }
        assert(after.wf());
        assert forall|k: TypeId| #[trigger]
            after@.contains_key(k) == self@.remove(key).contains_key(k) by {
            if after@.contains_key(k) {
                let j = slot_of(new_entries, k);
                assert(old_entries[back(j)].key == k);
                if back(j) < i {
                    assert(old_entries[back(j)].key != old_entries[i].key);
                } else {
                    assert(old_entries[i].key != old_entries[back(j)].key);
                }
            }
            if self@.contains_key(k) && k != key {
                let j = slot_of(old_entries, k);
                if j < i {
                    assert(new_entries[j].key == k);
                } else {
                    assert(new_entries[j - 1].key == k);
                }
            }
        }
        assert forall|k: TypeId| #[trigger] after@.contains_key(k) implies after@[k]
            == self@.remove(key)[k] by {
            let j = slot_of(new_entries, k);
            after.lemma_entry_shown(j);
            self.lemma_entry_shown(back(j));
        }
        assert(after@ =~= self@.remove(key));
    }

    /// An empty map.
    pub fn new() -> (map: Self)
        ensures
            map.wf(),
            map@ == Map::<TypeId, Image>::empty(),
    {
        let map = Extensions { entries: Vec::new() };
        assert(map@ =~= Map::<TypeId, Image>::empty());
        map
    }

    /// The index of the entry filed under `key`.
    fn position(&self, key: &TypeId) -> (at: Option<usize>)
        ensures
            match at {
                Some(i) => i < self.entries@.len() && self.entries@[i as int].key == *key,
                None => forall|i: int|
                    0 <= i < self.entries@.len() ==> self.entries@[i].key != *key,
            },
    {
        let mut i: usize = 0;
        while i < self.entries.len()
            invariant
                i <= self.entries@.len(),
                forall|j: int| 0 <= j < i ==> self.entries@[j].key != *key,
            decreases self.entries@.len() - i,
        {
            if same_key(&self.entries[i].key, key) {
                return Some(i);
            }
            i += 1;
        }
        None
    }

    /// Stores `value` as the value of type `T`. A value of that type that was
    /// there before is dropped; values of other types stay as they are.
    pub fn insert<T: Send + Sync + 'static>(&mut self, value: T)
        requires
            old(self).wf(),
        ensures
            final(self).wf(),
            final(self)@ == old(self)@.insert(key_of::<T>(), image(value)),
            final(self).gives(Some(value)),
    {
        let key = type_key::<T>();
        let cell = seal(value);
        match self.position(&key) {
            Some(i) => {
                self.entries[i].cell = cell;
                proof {
                    old(self).lemma_recelled(*self, i as int, value);
                }
            },
            None => {
                self.entries.push(Entry { key, cell });
                proof {
                    old(self).lemma_pushed(*self, value);
                }
            },
        }
    }

    /// The value of type `T`, if one is stored.
    pub fn get<T: Send + Sync + 'static>(&self) -> (found: Option<&T>)
        requires
            self.wf(),
        ensures
            match found {
                Some(v) => self.gives(Some(*v)),
                None => self.gives(None::<T>),
            },
    {
        let key = type_key::<T>();
        match self.position(&key) {
            Some(i) => {
                proof {
                    self.lemma_entry_shown(i as int);
                    assert(filed(self.entries@[i as int]));
                }
                open_ref::<T>(&self.entries[i].cell)
            },
            None => None,
        }
    }

    /// Mutable access to the value of type `T`, if one is stored. What the
    /// caller leaves behind the reference is the value of type `T` from then
    /// on; values of other types stay as they are.
    pub fn get_mut<T: Send + Sync + 'static>(&mut self) -> (found: Option<&mut T>)
        requires
            old(self).wf(),
        ensures
            match found {
                Some(v) => old(self).gives(Some(*v)) && old(self).with_value(
                    *final(v),
                    *final(self),
                ),
                None => old(self).gives(None::<T>) && *final(self) == *old(self),
            },
    {
        let key = type_key::<T>();
        match self.position(&key) {
            Some(i) => {
                proof {
                    self.lemma_entry_shown(i as int);
                    assert(filed(self.entries@[i as int]));
                    assert forall|after: Self, value: T|
                        recelled(self.entries@, after.entries@, i as int) && holds(
                            payload(after.entries@[i as int].cell),
                            value,
                        ) implies #[trigger] self.with_value(value, after) by {
                        self.lemma_recelled(after, i as int, value);
                    }
                }
                open_mut::<T>(&mut self.entries[i].cell)
            },
            None => None,
        }
    }

    /// Takes the value of type `T` out of the map, if one is stored. Values of
    /// other types stay as they are.
    pub fn remove<T: Send + Sync + 'static>(&mut self) -> (taken: Option<T>)
        requires
            old(self).wf(),
        ensures
            final(self).wf(),
            old(self).gives(taken),
            final(self)@ == old(self)@.remove(key_of::<T>()),
    {
        let key = type_key::<T>();
        match self.position(&key) {
            Some(i) => {
                proof {
                    self.lemma_entry_shown(i as int);
                    assert(filed(self.entries@[i as int]));
                }
                let entry = self.entries.remove(i);
                proof {
                    old(self).lemma_taken(*self, i as int);
                }
                match open::<T>(entry.cell) {
                    Ok(value) => Some(value),
                    Err(_) => None,
                }
            },
            None => {
                assert(final(self)@ =~= old(self)@.remove(key_of::<T>()));
                None
            },
        }
    }

}

impl Default for Extensions {
    /// An empty map.
    fn default() -> (map: Self)
        ensures
            map.wf(),
            map@ == Map::<TypeId, Image>::empty(),
    {
        Extensions::new()
    }
}

/// Whether `T` and `U` are one type.
pub fn same_type<T: Send + Sync + 'static, U: Send + Sync + 'static>() -> (same: bool)
    ensures
        same == (key_of::<T>() == key_of::<U>()),
{
    same_key(&type_key::<T>(), &type_key::<U>())
}

/// For a faithful type, what a map gives is the value that it holds: a read
/// says which value came back, not only which image.
pub proof fn lemma_given_is_held<T: Send + Sync + 'static>(map: Extensions, got: Option<T>)
    requires
        faithful::<T>(),
        map.gives(got),
    ensures
        got == map.held::<T>(),
{
    if let Some(v) = got {
        lemma_recover_image(v);
    }
}

/// A map with nothing in it gives nothing, of any type.
pub proof fn lemma_empty_gives_nothing<T: Send + Sync + 'static>(map: Extensions, got: Option<T>)
    requires
        map@ == Map::<TypeId, Image>::empty(),
        map.gives(got),
    ensures
        got is None,
        map.held::<T>() is None,
{
}

/// What was inserted is what is found: a read after the insertion gives a
/// value with the image of the inserted one, and for a faithful type the
/// inserted value itself.
pub proof fn lemma_insert_then_get<T: Send + Sync + 'static>(
    before: Extensions,
    value: T,
    after: Extensions,
    got: Option<T>,
)
    requires
        before.with_value(value, after),
        after.gives(got),
    ensures
        got matches Some(found) && image(found) == image(value),
        after@.dom() == before@.dom().insert(key_of::<T>()),
        faithful::<T>() ==> got == Some(value) && after.held::<T>() == Some(value),
{
    assert(after@.dom() =~= before@.dom().insert(key_of::<T>()));
    if faithful::<T>() {
        lemma_given_is_held(after, got);
        lemma_given_is_held(after, Some(value));
    }
}

/// Of two values of one type inserted one after the other, the second is
/// found, and the map is what it would be had the first never been inserted.
pub proof fn lemma_last_insert_wins<T: Send + Sync + 'static>(
    start: Extensions,
    first: T,
    between: Extensions,
    second: T,
    end: Extensions,
    got: Option<T>,
)
    requires
        start.with_value(first, between),
        between.with_value(second, end),
        end.gives(got),
    ensures
        start.with_value(second, end),
        got matches Some(found) && image(found) == image(second),
        faithful::<T>() ==> got == Some(second),
{
    assert(end@ =~= start@.insert(key_of::<T>(), image(second)));
    if faithful::<T>() {
        lemma_given_is_held(end, got);
        lemma_given_is_held(end, Some(second));
    }
}

/// A removal hands over what a read would have found, and after it nothing
/// is found for the type.
pub proof fn lemma_remove_then_get<T: Send + Sync + 'static>(
    before: Extensions,
    read: Option<T>,
    taken: Option<T>,
    after: Extensions,
    got: Option<T>,
)
    requires
        before.gives(read),
        before.gives(taken),
        before.without::<T>(after),
        after.gives(got),
    ensures
        got is None,
        after.held::<T>() is None,
        after@.dom() == before@.dom().remove(key_of::<T>()),
        taken is Some <==> read is Some,
        taken matches Some(moved) ==> read matches Some(seen) && image(moved) == image(seen),
        faithful::<T>() ==> taken == read,
{
    assert(after@.dom() =~= before@.dom().remove(key_of::<T>()));
    if faithful::<T>() {
        lemma_given_is_held(before, taken);
        lemma_given_is_held(before, read);
    }
}

/// Removing what was inserted hands the inserted value back, and where the
/// map had nothing for the type it is then the map that it was.
pub proof fn lemma_insert_then_remove<T: Send + Sync + 'static>(
    start: Extensions,
    value: T,
    between: Extensions,
    taken: Option<T>,
    end: Extensions,
)
    requires
        start.with_value(value, between),
        between.gives(taken),
        between.without::<T>(end),
    ensures
        taken matches Some(moved) && image(moved) == image(value),
        faithful::<T>() ==> taken == Some(value),
        start.gives(None::<T>) ==> end@ == start@,
{
    if start.gives(None::<T>) {
        assert(end@ =~= start@);
    }
    if faithful::<T>() {
        lemma_given_is_held(between, taken);
        lemma_given_is_held(between, Some(value));
    }
}

/// Inserting a value of one type leaves what the map gives of every other
/// type alone.
pub proof fn lemma_insert_keeps_others<T: Send + Sync + 'static, U: Send + Sync + 'static>(
    before: Extensions,
    value: T,
    after: Extensions,
    other: Option<U>,
)
    requires
        before.with_value(value, after),
        key_of::<T>() != key_of::<U>(),
    ensures
        after.gives(other) == before.gives(other),
        after.held::<U>() == before.held::<U>(),
{
}

/// Removing the value of one type leaves what the map gives of every other
/// type alone.
pub proof fn lemma_remove_keeps_others<T: Send + Sync + 'static, U: Send + Sync + 'static>(
    before: Extensions,
    after: Extensions,
    other: Option<U>,
)
    requires
        before.without::<T>(after),
        key_of::<T>() != key_of::<U>(),
    ensures
        after.gives(other) == before.gives(other),
        after.held::<U>() == before.held::<U>(),
{
}

} // verus!
