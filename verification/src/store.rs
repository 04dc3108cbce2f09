//! Storage keyed by address: what the host keeps between operations.
//!
//! An address holds at most one value. Creating at a taken address is the
//! caller's error to report; nothing is ever overwritten in place.

use crate::identity::Identity;
use vstd::prelude::*;

verus! {

/// One occupied address and what it holds.
struct Entry<T> {
    key: Identity,
    value: T,
}

/// Values in storage, each at its own address.
pub struct Store<T> {
    entries: Vec<Entry<T>>,
}

/// Whether `i` is the place of the entry at address `key`.
spec fn holds_key<T>(entries: Seq<Entry<T>>, key: Seq<u8>, i: int) -> bool {
    0 <= i < entries.len() && entries[i].key@ == key
}

/// What the entries hold, by address.
spec fn entries_map<T>(entries: Seq<Entry<T>>) -> Map<Seq<u8>, T> {
    Map::new(
        |key: Seq<u8>| exists|i: int| holds_key(entries, key, i),
        |key: Seq<u8>| entries[choose|i: int| holds_key(entries, key, i)].value,
    )
}

/// Whether no address occurs twice among the entries.
spec fn distinct_keys<T>(entries: Seq<Entry<T>>) -> bool {
    forall|i: int, j: int|
        0 <= i < j < entries.len() ==> (#[trigger] entries[i]).key@ != (#[trigger] entries[j]).key@
}

/// With distinct addresses, the entry at place `i` is what the map holds at
/// its address.
proof fn lemma_entry_in_map<T>(entries: Seq<Entry<T>>, i: int)
    requires
        distinct_keys(entries),
        0 <= i < entries.len(),
    ensures
        entries_map(entries).dom().contains(entries[i].key@),
        entries_map(entries)[entries[i].key@] == entries[i].value,
{
    let key = entries[i].key@;
    assert(holds_key(entries, key, i));
    let k = choose|k: int| holds_key(entries, key, k);
    assert(holds_key(entries, key, k));
    if k < i {
        assert(entries[k].key@ != entries[i].key@);
    } else if i < k {
        assert(entries[i].key@ != entries[k].key@);
    }
}

/// Appending an entry at a free address inserts it into the map.
proof fn lemma_push_inserts<T>(entries: Seq<Entry<T>>, entry: Entry<T>)
    requires
        distinct_keys(entries),
        !entries_map(entries).dom().contains(entry.key@),
    ensures
        distinct_keys(entries.push(entry)),
        entries_map(entries.push(entry)) == entries_map(entries).insert(entry.key@, entry.value),
{
    let after = entries.push(entry);
    assert forall|i: int, j: int| 0 <= i < j < after.len() implies (#[trigger] after[i]).key@ != (
    #[trigger] after[j]).key@ by {
        if j == entries.len() {
            assert(holds_key(entries, entries[i].key@, i));
        } else {
            assert(entries[i].key@ != entries[j].key@);
        }
    }
    assert forall|key: Seq<u8>|
        entries_map(after).dom().contains(key) == entries_map(entries).insert(
            entry.key@,
            entry.value,
        ).dom().contains(key) by {
        if entries_map(after).dom().contains(key) {
            let i = choose|i: int| holds_key(after, key, i);
            if i < entries.len() {
                assert(holds_key(entries, key, i));
            }
        }
        if entries_map(entries).dom().contains(key) {
            let i = choose|i: int| holds_key(entries, key, i);
            assert(holds_key(after, key, i));
        }
        if key == entry.key@ {
            assert(holds_key(after, key, entries.len() as int));
        }
    }
    assert forall|key: Seq<u8>| entries_map(after).dom().contains(key) implies entries_map(
        after,
    )[key] == entries_map(entries).insert(entry.key@, entry.value)[key] by {
        let i = choose|i: int| holds_key(after, key, i);
        lemma_entry_in_map(after, i);
        if i < entries.len() {
            lemma_entry_in_map(entries, i);
        }
    }
    assert(entries_map(after) =~= entries_map(entries).insert(entry.key@, entry.value));
}

/// Taking the entry at place `i` out removes its address from the map.
proof fn lemma_remove_removes<T>(entries: Seq<Entry<T>>, i: int)
    requires
        distinct_keys(entries),
        0 <= i < entries.len(),
    ensures
        distinct_keys(entries.remove(i)),
        entries_map(entries.remove(i)) == entries_map(entries).remove(entries[i].key@),
{
    let after = entries.remove(i);
    let gone = entries[i].key@;
    assert forall|a: int, b: int| 0 <= a < b < after.len() implies (#[trigger] after[a]).key@ != (
    #[trigger] after[b]).key@ by {
        let a0 = if a < i { a } else { a + 1 };
        let b0 = if b < i { b } else { b + 1 };
        assert(after[a] == entries[a0]);
        assert(after[b] == entries[b0]);
        assert(entries[a0].key@ != entries[b0].key@);
    }
    assert forall|key: Seq<u8>|
        entries_map(after).dom().contains(key) == entries_map(entries).remove(gone).dom().contains(
            key,
        ) by {
        if entries_map(after).dom().contains(key) {
            let a = choose|a: int| holds_key(after, key, a);
            let a0 = if a < i { a } else { a + 1 };
            assert(after[a] == entries[a0]);
            assert(holds_key(entries, key, a0));
            if a0 < i {
                assert(entries[a0].key@ != entries[i].key@);
            } else {
                assert(entries[i].key@ != entries[a0].key@);
            }
        }
        if entries_map(entries).dom().contains(key) && key != gone {
            let k = choose|k: int| holds_key(entries, key, k);
            let k1 = if k < i { k } else { k - 1 };
            assert(after[k1] == entries[k]);
            assert(holds_key(after, key, k1));
        }
    }
    assert forall|key: Seq<u8>| entries_map(after).dom().contains(key) implies entries_map(
        after,
    )[key] == entries_map(entries).remove(gone)[key] by {
        let a = choose|a: int| holds_key(after, key, a);
        let a0 = if a < i { a } else { a + 1 };
        assert(after[a] == entries[a0]);
        lemma_entry_in_map(after, a);
        lemma_entry_in_map(entries, a0);
    }
    assert(entries_map(after) =~= entries_map(entries).remove(gone));
}

impl<T> View for Store<T> {
    type V = Map<Seq<u8>, T>;

    closed spec fn view(&self) -> Map<Seq<u8>, T> {
        entries_map(self.entries@)
    }
}

impl<T> Store<T> {
    #[verifier::type_invariant]
    spec fn distinct(self) -> bool {
        distinct_keys(self.entries@)
    }

    /// Storage that holds nothing.
    pub fn new() -> (store: Store<T>)
        ensures
            store@ == Map::<Seq<u8>, T>::empty(),
    {
        let store = Store { entries: Vec::new() };
        assert(store@ =~= Map::<Seq<u8>, T>::empty());
        store
    }

    /// The place of the entry at `key`.
    fn position(&self, key: &Identity) -> (found: Option<usize>)
        ensures
            found is Some == self@.dom().contains(key@),
            found matches Some(i) ==> holds_key(self.entries@, key@, i as int),
    {
        let mut i: usize = 0;
        while i < self.entries.len()
            invariant
                i <= self.entries.len(),
                forall|j: int| 0 <= j < i ==> !holds_key(self.entries@, key@, j),
            decreases self.entries.len() - i,
        {
            if self.entries[i].key.same(key) {
                assert(holds_key(self.entries@, key@, i as int));
                return Some(i);
            }
            i += 1;
        }
        None
    }

    /// Whether `key` is taken.
    pub fn contains(&self, key: &Identity) -> (taken: bool)
        ensures
            taken == self@.dom().contains(key@),
    {
        self.position(key).is_some()
    }

    /// What `key` holds, if it is taken.
    pub fn get(&self, key: &Identity) -> (found: Option<&T>)
        ensures
            found is Some == self@.dom().contains(key@),
            found matches Some(value) ==> *value == self@[key@],
    {
        match self.position(key) {
            Some(i) => {
                proof {
                    use_type_invariant(self);
                    lemma_entry_in_map(self.entries@, i as int);
                }
                Some(&self.entries[i].value)
            },
            None => None,
        }
    }

    /// Puts `value` at `key`, where `key` is free; where it is taken, hands
    /// `value` back and changes nothing.
    pub fn put(&mut self, key: Identity, value: T) -> (refused: Option<T>)
        ensures
            refused is Some == old(self)@.dom().contains(key@),
            refused matches Some(back) ==> back == value && final(self)@ == old(self)@,
            refused is None ==> final(self)@ == old(self)@.insert(key@, value),
    {
        if self.position(&key).is_some() {
            return Some(value);
        }
        proof {
            use_type_invariant(&*self);
            lemma_push_inserts(self.entries@, Entry { key, value });
        }
        let mut entries: Vec<Entry<T>> = Vec::new();
        core::mem::swap(&mut self.entries, &mut entries);
        entries.push(Entry { key, value });
        self.entries = entries;
        None
    }

    /// Takes out what `key` holds and frees `key`.
    pub fn take(&mut self, key: &Identity) -> (found: Option<T>)
        ensures
            found is Some == old(self)@.dom().contains(key@),
            found matches Some(value) ==> value == old(self)@[key@],
            found is Some ==> final(self)@ == old(self)@.remove(key@),
            found is None ==> final(self)@ == old(self)@,
    {
        match self.position(key) {
            Some(i) => {
                proof {
                    use_type_invariant(&*self);
                    lemma_entry_in_map(self.entries@, i as int);
                    lemma_remove_removes(self.entries@, i as int);
                }
                let mut entries: Vec<Entry<T>> = Vec::new();
                core::mem::swap(&mut self.entries, &mut entries);
                let entry = entries.remove(i);
                self.entries = entries;
                Some(entry.value)
            },
            None => None,
        }
    }
}

} // verus!
