//! A store of records under 32-byte keys, in which a record is created only
//! where its key is free.

use vstd::prelude::*;
use crate::key::Key;

verus! {

/// A record could not be created: its key is taken.
#[derive(Clone, Copy, Debug, PartialEq, Eq)]
pub struct AlreadyExists;

/// A record and the key it is stored under.
struct Entry<R> {
    key: Key,
    value: R,
}

/// Records under keys, no key twice. Its view is the map from each key to its record.
pub struct RecordStore<R> {
    entries: Vec<Entry<R>>,
}

/// Whether no key stands at two places.
spec fn distinct_keys<R>(entries: Seq<Entry<R>>) -> bool {
    forall|i: int, j: int|
        0 <= i < j < entries.len() ==> (#[trigger] entries[i]).key@ != (#[trigger] entries[j]).key@
}

/// Whether some entry has the key.
spec fn holds<R>(entries: Seq<Entry<R>>, key: Seq<u8>) -> bool {
    exists|i: int| 0 <= i < entries.len() && (#[trigger] entries[i]).key@ == key
}

/// A place at which the key stands, where there is one.
spec fn position<R>(entries: Seq<Entry<R>>, key: Seq<u8>) -> int {
    choose|i: int| 0 <= i < entries.len() && (#[trigger] entries[i]).key@ == key
}

/// The map from each key among the entries to its record.
spec fn records<R>(entries: Seq<Entry<R>>) -> Map<Seq<u8>, R> {
    Map::new(|key: Seq<u8>| holds(entries, key), |key: Seq<u8>| entries[position(entries, key)].value)
}

/// With no key twice, the map gives for the key at a place the record at that place.
proof fn lemma_lookup<R>(entries: Seq<Entry<R>>, i: int)
    requires
        distinct_keys(entries),
        0 <= i < entries.len(),
    ensures
        records(entries).dom().contains(entries[i].key@),
        records(entries)[entries[i].key@] == entries[i].value,
{
    let key = entries[i].key@;
    assert(holds(entries, key));
    let p = position(entries, key);
    assert(0 <= p < entries.len() && entries[p].key@ == key);
    assert(p == i);
}

/// Adding an entry with a new key inserts it into the map.
proof fn lemma_push<R>(entries: Seq<Entry<R>>, entry: Entry<R>)
    requires
        distinct_keys(entries),
        !holds(entries, entry.key@),
    ensures
        distinct_keys(entries.push(entry)),
        records(entries.push(entry)) == records(entries).insert(entry.key@, entry.value),
{
    let more = entries.push(entry);
    assert forall|i: int, j: int| 0 <= i < j < more.len() implies (#[trigger] more[i]).key@ != (
    #[trigger] more[j]).key@ by {
        if j == entries.len() {
            assert(more[i] == entries[i]);
        } else {
            assert(more[i] == entries[i] && more[j] == entries[j]);
        }
    }
    assert forall|key: Seq<u8>| #[trigger]
        records(more).dom().contains(key) == records(entries).insert(
            entry.key@,
            entry.value,
        ).dom().contains(key) by {
        if holds(entries, key) {
            let p = position(entries, key);
            assert(more[p] == entries[p]);
        }
        if holds(more, key) {
            let p = position(more, key);
            if p < entries.len() {
                assert(more[p] == entries[p]);
            }
        }
        assert(more[entries.len() as int] == entry);
    }
    assert forall|key: Seq<u8>| #[trigger] records(more).dom().contains(key) implies records(
        more,
    )[key] == records(entries).insert(entry.key@, entry.value)[key] by {
        let p = position(more, key);
        lemma_lookup(more, p);
        if p < entries.len() {
            assert(more[p] == entries[p]);
            lemma_lookup(entries, p);
        }
    }
    assert(records(more) =~= records(entries).insert(entry.key@, entry.value));
}

/// Changing the record at a place changes the map at that place's key alone.
proof fn lemma_update<R>(entries: Seq<Entry<R>>, i: int, value: R)
    requires
        distinct_keys(entries),
        0 <= i < entries.len(),
    ensures
        distinct_keys(entries.update(i, Entry { key: entries[i].key, value })),
        records(entries.update(i, Entry { key: entries[i].key, value })) == records(entries).insert(
            entries[i].key@,
            value,
        ),
{
    let changed = entries.update(i, Entry { key: entries[i].key, value });
    assert forall|a: int| 0 <= a < entries.len() implies (#[trigger] changed[a]).key@
        == entries[a].key@ by {}
    assert forall|a: int, b: int| 0 <= a < b < changed.len() implies (#[trigger] changed[a]).key@
        != (#[trigger] changed[b]).key@ by {
        assert(entries[a].key@ != entries[b].key@);
    }
    assert forall|key: Seq<u8>| #[trigger]
        records(changed).dom().contains(key) == records(entries).insert(
            entries[i].key@,
            value,
        ).dom().contains(key) by {
        if holds(entries, key) {
            let p = position(entries, key);
            assert(changed[p].key@ == key);
        }
        if holds(changed, key) {
            let p = position(changed, key);
            assert(entries[p].key@ == key);
        }
        assert(changed[i].key@ == entries[i].key@);
    }
    assert forall|key: Seq<u8>| #[trigger] records(changed).dom().contains(key) implies records(
        changed,
    )[key] == records(entries).insert(entries[i].key@, value)[key] by {
        let p = position(changed, key);
        lemma_lookup(changed, p);
        if p != i {
            assert(changed[p] == entries[p]);
            lemma_lookup(entries, p);
        }
    }
    assert(records(changed) =~= records(entries).insert(entries[i].key@, value));
}

/// Taking out the entry at a place removes its key from the map.
proof fn lemma_remove<R>(entries: Seq<Entry<R>>, i: int)
    requires
        distinct_keys(entries),
        0 <= i < entries.len(),
    ensures
        distinct_keys(entries.remove(i)),
        records(entries.remove(i)) == records(entries).remove(entries[i].key@),
{
    let fewer = entries.remove(i);
    assert forall|a: int| 0 <= a < fewer.len() implies #[trigger] fewer[a] == entries[if a < i {
        a
    } else {
        a + 1
    }] by {}
    assert forall|a: int, b: int| 0 <= a < b < fewer.len() implies (#[trigger] fewer[a]).key@ != (
    #[trigger] fewer[b]).key@ by {
        let a1 = if a < i { a } else { a + 1 };
        let b1 = if b < i { b } else { b + 1 };
        assert(entries[a1].key@ != entries[b1].key@);
    }
    assert forall|key: Seq<u8>| #[trigger]
        records(fewer).dom().contains(key) == records(entries).remove(
            entries[i].key@,
        ).dom().contains(key) by {
        if holds(entries, key) && key != entries[i].key@ {
            let p = position(entries, key);
            let q = if p < i { p } else { p - 1 };
            assert(fewer[q] == entries[p]);
        }
        if holds(fewer, key) {
            let p = position(fewer, key);
            let q = if p < i { p } else { p + 1 };
            assert(entries[q].key@ == key);
            assert(entries[q].key@ != entries[i].key@) by {
                if q < i {
                    assert(entries[q].key@ != entries[i].key@);
                } else {
                    assert(entries[i].key@ != entries[q].key@);
                }
            }
        }
    }
    assert forall|key: Seq<u8>| #[trigger] records(fewer).dom().contains(key) implies records(
        fewer,
    )[key] == records(entries).remove(entries[i].key@)[key] by {
        let p = position(fewer, key);
        let q = if p < i { p } else { p + 1 };
        lemma_lookup(fewer, p);
        assert(fewer[p] == entries[q]);
        lemma_lookup(entries, q);
    }
    assert(records(fewer) =~= records(entries).remove(entries[i].key@));
}

/// With no key twice, the map has as many keys as there are entries.
proof fn lemma_count<R>(entries: Seq<Entry<R>>)
    requires
        distinct_keys(entries),
    ensures
        records(entries).dom().finite(),
        records(entries).dom().len() == entries.len(),
    decreases entries.len(),
{
    if entries.len() == 0 {
        assert(records(entries).dom() =~= Set::<Seq<u8>>::empty());
    } else {
        let front = entries.drop_last();
        let last = entries.last();
        assert(front.push(last) =~= entries);
        assert forall|i: int, j: int| 0 <= i < j < front.len() implies (#[trigger] front[i]).key@ != (
        #[trigger] front[j]).key@ by {
            assert(entries[i].key@ != entries[j].key@);
        }
        if holds(front, last.key@) {
            let p = position(front, last.key@);
            assert(entries[p].key@ != entries[entries.len() - 1].key@);
        }
        lemma_count(front);
        lemma_push(front, last);
        assert(!records(front).dom().contains(last.key@));
    }
}

impl<R> View for RecordStore<R> {
    type V = Map<Seq<u8>, R>;

    closed spec fn view(&self) -> Map<Seq<u8>, R> {
        records(self.entries@)
    }
}

impl<R> RecordStore<R> {
    /// No key is stored twice.
    #[verifier::type_invariant]
    spec fn inv(self) -> bool {
        distinct_keys(self.entries@)
    }

    /// A store without records.
    pub fn new() -> (store: Self)
        ensures
            store@ == Map::<Seq<u8>, R>::empty(),
    {
        let store = RecordStore { entries: Vec::new() };
        assert(store@ =~= Map::<Seq<u8>, R>::empty());
        store
    }

    /// The number of records.
    pub fn len(&self) -> (count: usize)
        ensures
            self@.dom().finite(),
            count == self@.dom().len(),
    {
        proof {
            use_type_invariant(self);
            lemma_count(self.entries@);
        }
        self.entries.len()
    }

    /// Hands out the entries to be changed and leaves the store empty meanwhile,
    /// so that it never holds a key twice.
    fn take_entries(&mut self) -> (entries: Vec<Entry<R>>)
        ensures
            entries@ == old(self).entries@,
            final(self).entries@.len() == 0,
    {
        let mut entries: Vec<Entry<R>> = Vec::new();
        core::mem::swap(&mut self.entries, &mut entries);
        entries
    }

    /// The place of the entry with the key, if there is one.
    fn find(&self, key: &Key) -> (at: Option<usize>)
        ensures
            at matches Some(i) ==> i < self.entries@.len() && self.entries@[i as int].key@ == key@,
            at is None ==> !holds(self.entries@, key@),
    {
        let mut i: usize = 0;
        while i < self.entries.len()
            invariant
                i <= self.entries@.len(),
                forall|j: int| 0 <= j < i ==> (#[trigger] self.entries@[j]).key@ != key@,
            decreases self.entries@.len() - i,
        {
            if self.entries[i].key.same(key) {
                return Some(i);
            }
            i += 1;
        }
        None
    }

    /// Whether a record is stored under `key`.
    pub fn contains(&self, key: &Key) -> (found: bool)
        ensures
            found == self@.dom().contains(key@),
    {
        proof {
            use_type_invariant(self);
        }
        match self.find(key) {
            Some(i) => {
                proof {
                    lemma_lookup(self.entries@, i as int);
                }
                true
            },
            None => false,
        }
    }

    /// The record stored under `key`, if there is one.
    pub fn get(&self, key: &Key) -> (found: Option<&R>)
        ensures
            found is Some <==> self@.dom().contains(key@),
            found matches Some(record) ==> *record == self@[key@],
    {
        proof {
            use_type_invariant(self);
        }
        match self.find(key) {
            Some(i) => {
                proof {
                    lemma_lookup(self.entries@, i as int);
                }
                Some(&self.entries[i].value)
            },
            None => None,
        }
    }

    /// Stores `value` under `key` if the key is free, and refuses otherwise.
    pub fn create_if_absent(&mut self, key: Key, value: R) -> (r: Result<(), AlreadyExists>)
        ensures
            r is Ok <==> !old(self)@.dom().contains(key@),
            r is Ok ==> final(self)@ == old(self)@.insert(key@, value),
            r is Err ==> final(self)@ == old(self)@,
    {
        proof {
            use_type_invariant(&*self);
        }
        match self.find(&key) {
            Some(i) => {
                proof {
                    lemma_lookup(self.entries@, i as int);
                }
                Err(AlreadyExists)
            },
            None => {
                proof {
                    lemma_push(self.entries@, Entry { key, value });
                }
                let mut entries = self.take_entries();
                entries.push(Entry { key, value });
                self.entries = entries;
                Ok(())
            },
        }
    }

    /// Puts `value` in place of the record stored under `key`, and reports whether
    /// there was one; where there was none, nothing is stored.
    pub fn replace(&mut self, key: &Key, value: R) -> (found: bool)
        ensures
            found == old(self)@.dom().contains(key@),
            found ==> final(self)@ == old(self)@.insert(key@, value),
            !found ==> final(self)@ == old(self)@,
    {
        proof {
            use_type_invariant(&*self);
        }
        match self.find(key) {
            Some(i) => {
                let stored: Key = self.entries[i].key;
                proof {
                    lemma_lookup(self.entries@, i as int);
                    lemma_update(self.entries@, i as int, value);
                }
                let mut entries = self.take_entries();
                entries.set(i, Entry { key: stored, value });
                self.entries = entries;
                true
            },
            None => false,
        }
    }

    /// Takes out the record stored under `key`, if there is one.
    pub fn remove(&mut self, key: &Key) -> (taken: Option<R>)
        ensures
            taken is Some <==> old(self)@.dom().contains(key@),
            taken matches Some(record) ==> record == old(self)@[key@],
            final(self)@ == old(self)@.remove(key@),
    {
        proof {
            use_type_invariant(&*self);
        }
        match self.find(key) {
            Some(i) => {
                proof {
                    lemma_lookup(self.entries@, i as int);
                    lemma_remove(self.entries@, i as int);
                }
                let mut entries = self.take_entries();
                let entry = entries.remove(i);
                self.entries = entries;
                Some(entry.value)
            },
            None => {
                assert(self@.remove(key@) =~= self@);
                None
            },
        }
    }
}

} // verus!
