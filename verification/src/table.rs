//! A small map whose keys are texts.
//!
//! The caches of the library hold a few hundred entries at most, so a list that is
//! searched from the front does.

use vstd::prelude::*;

use crate::text;

verus! {

/// One entry.
pub struct Slot<V> {
    pub key: String,
    pub value: V,
}

/// No key stands twice.
pub open spec fn distinct<V>(slots: Seq<Slot<V>>) -> bool {
    forall|i: int, j: int|
        0 <= i < j < slots.len() ==> #[trigger] slots[i].key@ != #[trigger] slots[j].key@
}

/// What a list of entries holds.
pub open spec fn contents<V>(slots: Seq<Slot<V>>) -> Map<Seq<char>, V>
    decreases slots.len(),
{
    if slots.len() == 0 {
        Map::empty()
    } else {
        contents(slots.drop_last()).insert(slots.last().key@, slots.last().value)
    }
}

/// A list of entries without repeated keys holds just what stands in it.
pub proof fn lemma_contents<V>(slots: Seq<Slot<V>>)
    requires
        distinct(slots),
    ensures
        contents(slots).dom().finite(),
        contents(slots).dom().len() == slots.len(),
        forall|i: int|
            0 <= i < slots.len() ==> contents(slots).contains_key(#[trigger] slots[i].key@)
                && contents(slots)[slots[i].key@] == slots[i].value,
        forall|key: Seq<char>| #[trigger]
            contents(slots).contains_key(key) ==> exists|i: int|
                0 <= i < slots.len() && #[trigger] slots[i].key@ == key,
    decreases slots.len(),
{
    if slots.len() > 0 {
        let rest = slots.drop_last();
        let last = slots.last();
        assert forall|i: int, j: int| 0 <= i < j < rest.len() implies #[trigger] rest[i].key@
            != #[trigger] rest[j].key@ by {
            assert(rest[i] == slots[i] && rest[j] == slots[j]);
        }
        lemma_contents(rest);
        if contents(rest).contains_key(last.key@) {
            let i = choose|i: int| 0 <= i < rest.len() && #[trigger] rest[i].key@ == last.key@;
            assert(slots[i].key@ == slots[slots.len() - 1].key@);
        }
        assert forall|i: int| 0 <= i < slots.len() implies contents(slots).contains_key(
            #[trigger] slots[i].key@,
        ) && contents(slots)[slots[i].key@] == slots[i].value by {
            if i < rest.len() {
                assert(rest[i] == slots[i]);
                assert(slots[i].key@ != slots[slots.len() - 1].key@);
            }
        }
        assert forall|key: Seq<char>| #[trigger] contents(slots).contains_key(key) implies exists|
            i: int,
        | 0 <= i < slots.len() && #[trigger] slots[i].key@ == key by {
            if key == last.key@ {
                assert(slots[slots.len() - 1].key@ == key);
            } else {
                assert(contents(rest).contains_key(key));
                let i = choose|i: int| 0 <= i < rest.len() && #[trigger] rest[i].key@ == key;
                assert(slots[i].key@ == key);
            }
        }
    }
}

/// What a part of a map holds, the whole holds too.
pub proof fn lemma_part<V>(part: Map<Seq<char>, V>, whole: Map<Seq<char>, V>, key: Seq<char>)
    requires
        part.submap_of(whole),
        part.contains_key(key),
    ensures
        whole.contains_key(key),
        part[key] == whole[key],
{
    assert(part.dom().contains(key));
    assert(whole.dom().contains(key));
}

/// A map whose keys are texts.
pub struct Table<V> {
    slots: Vec<Slot<V>>,
}

impl<V> View for Table<V> {
    type V = Map<Seq<char>, V>;

    closed spec fn view(&self) -> Map<Seq<char>, V> {
        contents(self.slots@)
    }
}

impl<V> Table<V> {
    /// No key stands twice.
    pub closed spec fn wf(&self) -> bool {
        distinct(self.slots@)
    }

    /// The key of the entry at `index`.
    pub closed spec fn key(&self, index: int) -> Seq<char> {
        self.slots@[index].key@
    }

    /// What the table holds, entry by entry.
    pub proof fn lemma_entries(&self)
        requires
            self.wf(),
        ensures
            self@.dom().finite(),
            forall|i: int| 0 <= i < self@.len() ==> self@.contains_key(#[trigger] self.key(i)),
            forall|i: int, j: int|
                0 <= i < j < self@.len() ==> #[trigger] self.key(i) != #[trigger] self.key(j),
            forall|key: Seq<char>| #[trigger]
                self@.contains_key(key) ==> exists|i: int|
                    0 <= i < self@.len() && #[trigger] self.key(i) == key,
    {
        lemma_contents(self.slots@);
        assert forall|key: Seq<char>| #[trigger] self@.contains_key(key) implies exists|i: int|
            0 <= i < self@.len() && #[trigger] self.key(i) == key by {
            let i = choose|i: int|
                0 <= i < self.slots@.len() && #[trigger] self.slots@[i].key@ == key;
            assert(self.key(i) == key);
        }
    }

    /// A table with nothing in it.
    pub fn new() -> (table: Self)
        ensures
            table.wf(),
            table@ == Map::<Seq<char>, V>::empty(),
    {
        Table { slots: Vec::new() }
    }

    /// The number of entries.
    pub fn len(&self) -> (count: usize)
        requires
            self.wf(),
        ensures
            count == self@.len(),
            self@.dom().finite(),
    {
        proof {
            lemma_contents(self.slots@);
        }
        self.slots.len()
    }

    /// The key of the entry at `index`.
    pub fn key_at(&self, index: usize) -> (key: &str)
        requires
            self.wf(),
            index < self@.len(),
        ensures
            key@ == self.key(index as int),
            self@.contains_key(key@),
    {
        proof {
            lemma_contents(self.slots@);
        }
        self.slots[index].key.as_str()
    }

    /// The value of the entry at `index`.
    pub fn value_at(&self, index: usize) -> (value: &V)
        requires
            self.wf(),
            index < self@.len(),
        ensures
            self@.contains_key(self.key(index as int)),
            *value == self@[self.key(index as int)],
    {
        proof {
            lemma_contents(self.slots@);
        }
        &self.slots[index].value
    }

    fn find(&self, key: &str) -> (found: Option<usize>)
        requires
            self.wf(),
        ensures
            found matches Some(index) ==> index < self.slots@.len()
                && self.slots@[index as int].key@ == key@,
            found is Some <==> self@.contains_key(key@),
    {
        proof {
            lemma_contents(self.slots@);
        }
        for index in 0..self.slots.len()
            invariant
                forall|i: int| 0 <= i < index ==> (#[trigger] self.slots@[i]).key@ != key@,
                self.wf(),
        {
            if text::same(&self.slots[index].key, key) {
                proof {
                    lemma_contents(self.slots@);
                }
                return Some(index);
            }
        }
        None
    }

    /// Whether there is an entry for `key`.
    pub fn contains_key(&self, key: &str) -> (known: bool)
        requires
            self.wf(),
        ensures
            known == self@.contains_key(key@),
    {
        self.find(key).is_some()
    }

    /// The value for `key`, where there is one.
    pub fn get(&self, key: &str) -> (value: Option<&V>)
        requires
            self.wf(),
        ensures
            value is Some <==> self@.contains_key(key@),
            value matches Some(value) ==> *value == self@[key@],
    {
        match self.find(key) {
            Some(index) => {
                proof {
                    lemma_contents(self.slots@);
                }
                Some(&self.slots[index].value)
            },
            None => None,
        }
    }

    /// Take the entry at `index` out.
    fn remove_at(&mut self, index: usize) -> (slot: Slot<V>)
        requires
            old(self).wf(),
            index < old(self).slots@.len(),
        ensures
            final(self).wf(),
            slot == old(self).slots@[index as int],
            old(self)@.contains_key(slot.key@),
            slot.value == old(self)@[slot.key@],
            final(self)@ == old(self)@.remove(slot.key@),
    {
        let ghost before = self.slots@;
        let slot = self.slots.swap_remove(index);
        proof {
            lemma_contents(before);
            let after = self.slots@;
            let last = before.len() - 1;
            assert forall|i: int, j: int| 0 <= i < j < after.len() implies #[trigger] after[i].key@
                != #[trigger] after[j].key@ by {
                let old_i = if i == index {
                    last
                } else {
                    i
                };
                let old_j = if j == index {
                    last
                } else {
                    j
                };
                assert(after[i] == before[old_i] && after[j] == before[old_j]);
                if old_i < old_j {
                    assert(before[old_i].key@ != before[old_j].key@);
                } else {
                    assert(before[old_j].key@ != before[old_i].key@);
                }
            }
            lemma_contents(after);
            assert(self@ =~= old(self)@.remove(slot.key@)) by {
                assert forall|key: Seq<char>| #[trigger] self@.contains_key(key) implies old(
                    self,
                )@.remove(slot.key@).contains_key(key) && old(self)@[key] == self@[key] by {
                    let i = choose|i: int| 0 <= i < after.len() && #[trigger] after[i].key@ == key;
                    let old_i = if i == index {
                        last
                    } else {
                        i
                    };
                    assert(after[i] == before[old_i]);
                    assert(before[old_i].key@ == key);
                    if old_i < index {
                        assert(before[old_i].key@ != before[index as int].key@);
                    } else {
                        assert(before[index as int].key@ != before[old_i].key@);
                    }
                }
                assert forall|key: Seq<char>| #[trigger] old(self)@.remove(slot.key@).contains_key(
                    key,
                ) implies self@.contains_key(key) by {
                    let i = choose|i: int|
                        0 <= i < before.len() && #[trigger] before[i].key@ == key;
                    let new_i = if i == last {
                        index as int
                    } else {
                        i
                    };
                    assert(after[new_i] == before[i]);
                    assert(after[new_i].key@ == key);
                }
            }
        }
        slot
    }

    /// Take the entry for `key` out, where there is one.
    pub fn remove(&mut self, key: &str) -> (value: Option<V>)
        requires
            old(self).wf(),
        ensures
            final(self).wf(),
            final(self)@ == old(self)@.remove(key@),
            value is Some <==> old(self)@.contains_key(key@),
            value matches Some(value) ==> value == old(self)@[key@],
    {
        match self.find(key) {
            Some(index) => {
                let slot = self.remove_at(index);
                Some(slot.value)
            },
            None => {
                assert(self@ =~= old(self)@.remove(key@));
                None
            },
        }
    }

    /// Put a value in for `key`, in place of the one that is there.
    pub fn insert(&mut self, key: String, value: V)
        requires
            old(self).wf(),
        ensures
            final(self).wf(),
            final(self)@ == old(self)@.insert(key@, value),
    {
        let ghost whole = self@;
        let _ = self.remove(&key);
        let ghost before = self.slots@;
        proof {
            lemma_contents(before);
            assert(!contents(before).contains_key(key@));
        }
        self.slots.push(Slot { key, value });
        proof {
            let after = self.slots@;
            assert(after.drop_last() =~= before);
            assert forall|i: int, j: int| 0 <= i < j < after.len() implies #[trigger] after[i].key@
                != #[trigger] after[j].key@ by {
                assert(after[i] == before[i]);
                if j < before.len() {
                    assert(after[j] == before[j]);
                    assert(before[i].key@ != before[j].key@);
                } else {
                    assert(contents(before).contains_key(before[i].key@));
                }
            }
            assert(self@ =~= whole.insert(key@, value));
        }
    }
}

} // verus!
