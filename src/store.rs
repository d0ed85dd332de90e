//! The record store: at most one binding per alias, with atomic
//! create-if-absent and delete-if-owner.

use crate::alias::AliasId;
use vstd::prelude::*;

verus! {

/// What a binding holds, as plain values.
pub struct BindingView {
    pub room: Seq<char>,
    pub owner: Seq<char>,
    pub servers: Seq<Seq<char>>,
}

/// A bound alias: the room it names, who bound it, and the servers that can
/// resolve it, in the order they were added.
pub struct AliasRecord {
    pub alias: AliasId,
    pub room_id: String,
    pub owner: String,
    pub servers: Vec<String>,
}

impl AliasRecord {
    pub open spec fn key(&self) -> Seq<char> {
        self.alias.key()
    }

    pub open spec fn binding(&self) -> BindingView {
        BindingView { room: self.room_id@, owner: self.owner@, servers: self.servers.deep_view() }
    }
}

/// Whether `requester` may remove `record`: only the one who bound it may.
pub fn can_delete(record: &AliasRecord, requester: &str) -> (r: bool)
    ensures
        r == (record.owner@ == requester@),
{
    record.owner == String::from_str(requester)
}

/// The bindings of a homeserver, keyed by the canonical text of each alias.
pub struct AliasStore {
    records: Vec<AliasRecord>,
    bindings: Ghost<Map<Seq<char>, BindingView>>,
}

impl View for AliasStore {
    type V = Map<Seq<char>, BindingView>;

    closed spec fn view(&self) -> Map<Seq<char>, BindingView> {
        self.bindings@
    }
}

impl AliasStore {
    /// Every record holds a valid alias, no two records share an alias, and the
    /// bindings are exactly what the records hold.
    pub closed spec fn wf(&self) -> bool {
        &&& forall|i: int| 0 <= i < self.records.len() ==> #[trigger] self.records@[i].alias.wf()
        &&& forall|i: int, j: int|
            0 <= i < self.records.len() && 0 <= j < self.records.len() && i != j
                ==> #[trigger] self.records@[i].key() != #[trigger] self.records@[j].key()
        &&& forall|i: int|
            0 <= i < self.records.len() ==> self.bindings@.contains_key(
                #[trigger] self.records@[i].key(),
            ) && self.bindings@[self.records@[i].key()] == self.records@[i].binding()
        &&& forall|k: Seq<char>|
            #[trigger] self.bindings@.contains_key(k) ==> exists|i: int|
                0 <= i < self.records.len() && #[trigger] self.records@[i].key() == k
    }

    /// A store with no bindings.
    pub fn new() -> (r: AliasStore)
        ensures
            r.wf(),
            r@ == Map::<Seq<char>, BindingView>::empty(),
    {
        AliasStore { records: Vec::new(), bindings: Ghost(Map::empty()) }
    }

    /// The number of bindings.
    pub fn len(&self) -> (r: usize)
        requires
            self.wf(),
        ensures
            r == self@.len(),
    {
        proof {
            self.lemma_dom_is_keys();
        }
        self.records.len()
    }

    proof fn lemma_dom_is_keys(&self)
        requires
            self.wf(),
        ensures
            self@.dom() == self.records@.map_values(|r: AliasRecord| r.key()).to_set(),
            self@.dom().len() == self.records.len(),
    {
        let keys = self.records@.map_values(|r: AliasRecord| r.key());
        assert forall|k: Seq<char>| self@.dom().contains(k) <==> keys.contains(k) by {
            if self@.dom().contains(k) {
                let i = choose|i: int| 0 <= i < self.records.len() && #[trigger] self.records@[i].key() == k;
                assert(keys[i] == k);
            }
            if keys.contains(k) {
                let i = choose|i: int| 0 <= i < keys.len() && keys[i] == k;
                assert(self.records@[i].key() == k);
            }
        }
        assert(self@.dom() =~= keys.to_set());
        assert(keys.no_duplicates()) by {
            assert forall|i: int, j: int| 0 <= i < keys.len() && 0 <= j < keys.len() && i != j
                implies keys[i] != keys[j] by {
                assert(self.records@[i].key() != self.records@[j].key());
            }
        }
        keys.unique_seq_to_set();
    }

    /// The position of the record for `key`, if there is one.
    fn find(&self, key: &String) -> (r: Option<usize>)
        requires
            self.wf(),
        ensures
            r matches Some(i) ==> i < self.records.len() && self.records@[i as int].key() == key@,
            r is None ==> !self@.contains_key(key@),
    {
        let mut i: usize = 0;
        while i < self.records.len()
            invariant
                self.wf(),
                i <= self.records.len(),
                forall|j: int| 0 <= j < i ==> #[trigger] self.records@[j].key() != key@,
            decreases self.records.len() - i,
        {
            if self.records[i].alias.to_canonical() == *key {
                return Some(i);
            }
            i = i + 1;
        }
        None
    }

    /// The record bound to `alias`, if there is one.
    pub fn lookup(&self, alias: &AliasId) -> (r: Option<&AliasRecord>)
        requires
            self.wf(),
        ensures
            r.is_some() == self@.contains_key(alias.key()),
            r matches Some(rec) ==> rec.key() == alias.key() && rec.binding() == self@[alias.key()],
    {
        match self.find(&alias.to_canonical()) {
            Some(i) => Some(&self.records[i]),
            None => None,
        }
    }

    /// Stores `record` unless its alias is already bound; returns whether it
    /// was stored. Nothing changes when the alias is taken.
    pub fn create_if_absent(&mut self, record: AliasRecord) -> (r: bool)
        requires
            old(self).wf(),
            record.alias.wf(),
        ensures
            final(self).wf(),
            r == !old(self)@.contains_key(record.key()),
            r ==> final(self)@ == old(self)@.insert(record.key(), record.binding()),
            !r ==> final(self)@ == old(self)@,
    {
        match self.find(&record.alias.to_canonical()) {
            Some(_) => false,
            None => {
                let ghost k = record.key();
                let ghost b = record.binding();
                let ghost old_records = self.records@;
                self.records.push(record);
                self.bindings = Ghost(self.bindings@.insert(k, b));
                proof {
                    let n = old_records.len() as int;
                    assert(self.records@[n].key() == k);
                    assert forall|i: int| 0 <= i < n implies #[trigger] self.records@[i].key() != k by {
                        assert(self.records@[i] == old_records[i]);
                        assert(old(self)@.contains_key(old_records[i].key()));
                    }
                    assert forall|kk: Seq<char>| #[trigger] self.bindings@.contains_key(kk) implies exists|i: int|
                        0 <= i < self.records.len() && #[trigger] self.records@[i].key() == kk by {
                        if kk != k {
                            let i = choose|i: int| 0 <= i < old_records.len() && #[trigger] old_records[i].key() == kk;
                            assert(self.records@[i] == old_records[i]);
                        }
                    }
                }
                true
            },
        }
    }

    /// Removes the binding of `alias` when `owner` is the one who made it, and
    /// returns the number of bindings removed: 1, or 0 when the alias is not
    /// bound or is bound by someone else.
    pub fn delete_if_owner(&mut self, alias: &AliasId, owner: &str) -> (r: usize)
        requires
            old(self).wf(),
        ensures
            final(self).wf(),
            r == 0 || r == 1,
            (r == 1) == (old(self)@.contains_key(alias.key()) && old(self)@[alias.key()].owner
                == owner@),
            r == 1 ==> final(self)@ == old(self)@.remove(alias.key()),
            r == 0 ==> final(self)@ == old(self)@,
    {
        match self.find(&alias.to_canonical()) {
            None => 0,
            Some(i) => {
                if !can_delete(&self.records[i], owner) {
                    return 0;
                }
                let ghost k = alias.key();
                let ghost old_records = self.records@;
                let _ = self.records.remove(i);
                self.bindings = Ghost(self.bindings@.remove(k));
                proof {
                    let n = old_records.len() as int;
                    assert forall|j: int| 0 <= j < n - 1 implies #[trigger] self.records@[j]
                        == old_records[if j < i { j } else { j + 1 }] by {}
                    assert forall|j: int| 0 <= j < n - 1 implies #[trigger] self.records@[j].key() != k by {
                        let jj = if j < i { j } else { j + 1 };
                        assert(self.records@[j] == old_records[jj]);
                        assert(old_records[jj].key() != old_records[i as int].key());
                    }
                    assert forall|a: int, b: int|
                        0 <= a < n - 1 && 0 <= b < n - 1 && a != b
                        implies #[trigger] self.records@[a].key() != #[trigger] self.records@[b].key() by {
                        let aa = if a < i { a } else { a + 1 };
                        let bb = if b < i { b } else { b + 1 };
                        assert(self.records@[a] == old_records[aa]);
                        assert(self.records@[b] == old_records[bb]);
                    }
                    assert forall|j: int| 0 <= j < n - 1 implies #[trigger] self.records@[j].alias.wf() by {
                        let jj = if j < i { j } else { j + 1 };
                        assert(self.records@[j] == old_records[jj]);
                    }
                    assert forall|j: int| 0 <= j < n - 1 implies self.bindings@.contains_key(
                        #[trigger] self.records@[j].key(),
                    ) && self.bindings@[self.records@[j].key()] == self.records@[j].binding() by {
                        let jj = if j < i { j } else { j + 1 };
                        assert(self.records@[j] == old_records[jj]);
                    }
                    assert forall|kk: Seq<char>| #[trigger] self.bindings@.contains_key(kk) implies exists|j: int|
                        0 <= j < self.records.len() && #[trigger] self.records@[j].key() == kk by {
                        let i0 = choose|i0: int| 0 <= i0 < n && #[trigger] old_records[i0].key() == kk;
                        if i0 < i {
                            assert(self.records@[i0] == old_records[i0]);
                        } else {
                            assert(i0 != i);
                            assert(self.records@[i0 - 1] == old_records[i0]);
                        }
                    }
                }
                1
            },
        }
    }
}

} // verus!
