//! The table of which shard owns which job identifiers.
use vstd::prelude::*;
use crate::membership::Librarian;

verus! {

/// The identifiers that one shard owns.
pub struct OwnedIdentifiers {
    owner: Librarian,
    identifiers: Vec<u128>,
}

/// An ordered mapping from shard to the job identifiers it owns; each shard
/// has at most one entry.
pub struct OwnershipTable {
    entries: Vec<OwnedIdentifiers>,
}

/// The index of the entry for an address, where there is one.
spec fn entry_index(entries: Seq<OwnedIdentifiers>, a: Seq<char>) -> int {
    choose|i: int| 0 <= i < entries.len() && entries[i].owner.address_spec() == a
}

impl OwnedIdentifiers {
    pub closed spec fn owner_spec(&self) -> Librarian {
        self.owner
    }

    pub closed spec fn identifiers_spec(&self) -> Seq<u128> {
        self.identifiers@
    }
}

impl OwnershipTable {
    /// Each shard has at most one entry.
    pub closed spec fn wf(&self) -> bool {
        forall|i: int, j: int|
            0 <= i < self.entries@.len() && 0 <= j < self.entries@.len() && i != j
                ==> self.entries@[i].owner.address_spec() != self.entries@[j].owner.address_spec()
    }

    /// Address of each owner to the identifiers it owns.
    pub closed spec fn view(&self) -> Map<Seq<char>, Seq<u128>> {
        Map::new(
            |a: Seq<char>|
                exists|i: int|
                    0 <= i < self.entries@.len() && self.entries@[i].owner.address_spec() == a,
            |a: Seq<char>| self.entries@[entry_index(self.entries@, a)].identifiers@,
        )
    }

    pub fn new() -> (r: OwnershipTable)
        ensures
            r.wf(),
            r@ == Map::<Seq<char>, Seq<u128>>::empty(),
    {
        let r = OwnershipTable { entries: Vec::new() };
        assert(r@ =~= Map::<Seq<char>, Seq<u128>>::empty());
        r
    }

    proof fn lemma_index(&self, i: int)
        requires
            self.wf(),
            0 <= i < self.entries@.len(),
        ensures
            entry_index(self.entries@, self.entries@[i].owner.address_spec()) == i,
            self@.contains_key(self.entries@[i].owner.address_spec()),
            self@[self.entries@[i].owner.address_spec()] == self.entries@[i].identifiers@,
    {
        let a = self.entries@[i].owner.address_spec();
        assert(exists|k: int| 0 <= k < self.entries@.len() && self.entries@[k].owner.address_spec() == a);
    }

    /// The position of the entry for an owner, if there is one.
    fn find(&self, owner: &Librarian) -> (r: Option<usize>)
        requires
            self.wf(),
        ensures
            match r {
                Some(i) => i < self.entries@.len() && self.entries@[i as int].owner.address_spec()
                    == owner.address_spec(),
                None => !self@.contains_key(owner.address_spec()),
            },
    {
        let mut i: usize = 0;
        while i < self.entries.len()
            invariant
                i <= self.entries@.len(),
                forall|k: int| 0 <= k < i ==> self.entries@[k].owner.address_spec() != owner.address_spec(),
            decreases self.entries@.len() - i,
        {
            if self.entries[i].owner == *owner {
                return Some(i);
            }
            i = i + 1;
        }
        None
    }

    /// The identifiers that an owner has, if it has an entry.
    pub fn get(&self, owner: &Librarian) -> (r: Option<&Vec<u128>>)
        requires
            self.wf(),
        ensures
            match r {
                Some(v) => self@.contains_key(owner.address_spec()) && v@ == self@[owner.address_spec()],
                None => !self@.contains_key(owner.address_spec()),
            },
    {
        match self.find(owner) {
            Some(i) => {
                proof {
                    self.lemma_index(i as int);
                }
                Some(&self.entries[i].identifiers)
            },
            None => None,
        }
    }

    /// Appends an identifier to an owner's entry, creating the entry where
    /// there is none.
    pub fn append(&mut self, owner: &Librarian, id: u128)
        requires
            old(self).wf(),
        ensures
            final(self).wf(),
            final(self)@ == old(self)@.insert(
                owner.address_spec(),
                owned_or_empty(old(self)@, owner.address_spec()).push(id),
            ),
    {
        let ghost a = owner.address_spec();
        let ghost before = self.entries@;
        let ghost old_view = self@;
        match self.find(owner) {
            Some(i) => {
                proof {
                    self.lemma_index(i as int);
                }
                let mut entry = self.entries.remove(i);
                entry.identifiers.push(id);
                self.entries.insert(i, entry);
                proof {
                    assert(self.entries@ == before.update(i as int, entry));
                    assert forall|k: int| 0 <= k < before.len() && k != i implies self.entries@[k] == before[k] by {}
                    assert(self.wf());
                    assert forall|x: Seq<char>| #[trigger] self@.contains_key(x) <==> old_view.insert(a, owned_or_empty(old_view, a).push(id)).contains_key(x) by {
                        if old_view.contains_key(x) {
                            let k = choose|k: int| 0 <= k < before.len() && before[k].owner.address_spec() == x;
                            assert(self.entries@[k].owner.address_spec() == x);
                        }
                        if self@.contains_key(x) {
                            let k = choose|k: int| 0 <= k < self.entries@.len() && self.entries@[k].owner.address_spec() == x;
                            assert(before[k].owner.address_spec() == x);
                        }
                    }
                    assert forall|x: Seq<char>| #[trigger] self@.contains_key(x) implies self@[x] == old_view.insert(a, owned_or_empty(old_view, a).push(id))[x] by {
                        let k = choose|k: int| 0 <= k < self.entries@.len() && self.entries@[k].owner.address_spec() == x;
                        self.lemma_index(k);
                        if k != i {
                            assert(before[k] == self.entries@[k]);
                            assert(entry_index(before, x) == k);
                        }
                    }
                    assert(self@ =~= old_view.insert(a, owned_or_empty(old_view, a).push(id)));
                }
            },
            None => {
                let mut identifiers: Vec<u128> = Vec::new();
                identifiers.push(id);
                self.entries.push(OwnedIdentifiers { owner: owner.clone(), identifiers });
                proof {
                    let n = before.len() as int;
                    assert forall|k: int| 0 <= k < n implies self.entries@[k] == before[k] by {}
                    assert(self.wf());
                    assert forall|x: Seq<char>| #[trigger] self@.contains_key(x) <==> old_view.insert(a, owned_or_empty(old_view, a).push(id)).contains_key(x) by {
                        if old_view.contains_key(x) {
                            let k = choose|k: int| 0 <= k < before.len() && before[k].owner.address_spec() == x;
                            assert(self.entries@[k].owner.address_spec() == x);
                        }
                        if x == a {
                            assert(self.entries@[n].owner.address_spec() == x);
                        }
                        if self@.contains_key(x) {
                            let k = choose|k: int| 0 <= k < self.entries@.len() && self.entries@[k].owner.address_spec() == x;
                            if k < n {
                                assert(before[k].owner.address_spec() == x);
                            }
                        }
                    }
                    assert forall|x: Seq<char>| #[trigger] self@.contains_key(x) implies self@[x] == old_view.insert(a, owned_or_empty(old_view, a).push(id))[x] by {
                        let k = choose|k: int| 0 <= k < self.entries@.len() && self.entries@[k].owner.address_spec() == x;
                        self.lemma_index(k);
                        if k != n {
                            assert(before[k] == self.entries@[k]);
                            assert(entry_index(before, x) == k);
                        } else {
                            assert(self.entries@[n].identifiers@ =~= seq![id]);
                        }
                    }
                    assert(self@ =~= old_view.insert(a, owned_or_empty(old_view, a).push(id)));
                }
            },
        }
    }
}

/// What the table lists for an address: nothing where it has no entry.
pub open spec fn owned_or_empty(table: Map<Seq<char>, Seq<u128>>, a: Seq<char>) -> Seq<u128> {
    if table.contains_key(a) {
        table[a]
    } else {
        Seq::empty()
    }
}

} // verus!
