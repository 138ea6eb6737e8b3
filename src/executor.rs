//! The executor: membership changes, checked against their checksum, and
//! the rebalancing of identifiers that they drive.
use vstd::prelude::*;
use vstd::string::StringExecFns;
use crate::checksum::{
    be_u64, concat_canonical, decode_checksum, wyhash_digest, Checksummable, NeuromancerError,
};
use crate::membership::{
    addresses, decimal, distinct_addresses, keys_distinct, KnownLibrarians, Librarian,
    ToLibrarian,
};
use crate::ownership::{owned_or_empty, OwnershipTable};

verus! {

/// The identifiers that the table lists for the deleted shards, shard by
/// shard in the order given, repeats included.
pub open spec fn listed_for(table: Map<Seq<char>, Seq<u128>>, deleted: Seq<Librarian>) -> Seq<
    u128,
>
    decreases deleted.len(),
{
    if deleted.len() == 0 {
        Seq::empty()
    } else {
        listed_for(table, deleted.drop_last()) + owned_or_empty(
            table,
            deleted.last().address_spec(),
        )
    }
}

/// The sequence with each value kept at its first occurrence only.
pub open spec fn first_occurrences(s: Seq<u128>) -> Seq<u128>
    decreases s.len(),
{
    if s.len() == 0 {
        Seq::empty()
    } else {
        let p = first_occurrences(s.drop_last());
        if p.contains(s.last()) {
            p
        } else {
            p.push(s.last())
        }
    }
}

/// Each value occurs once in the first occurrences, and they hold exactly
/// the values of the sequence.
pub proof fn lemma_first_occurrences(s: Seq<u128>)
    ensures
        first_occurrences(s).no_duplicates(),
        forall|x: u128| first_occurrences(s).contains(x) <==> s.contains(x),
    decreases s.len(),
{
    if s.len() > 0 {
        let t = s.drop_last();
        lemma_first_occurrences(t);
        let p = first_occurrences(t);
        let l = s.last();
        assert(s =~= t.push(l));
        assert forall|x: u128| #[trigger] s.contains(x) <==> (t.contains(x) || x == l) by {
            if s.contains(x) {
                let k = choose|k: int| 0 <= k < s.len() && s[k] == x;
                if k < t.len() {
                    assert(t[k] == x);
                }
            }
            if t.contains(x) {
                let k = choose|k: int| 0 <= k < t.len() && t[k] == x;
                assert(s[k] == x);
            }
            if x == l {
                assert(s[s.len() - 1] == x);
            }
        }
        if !p.contains(l) {
            let q = p.push(l);
            assert forall|x: u128| #[trigger] q.contains(x) <==> (p.contains(x) || x == l) by {
                if q.contains(x) {
                    let k = choose|k: int| 0 <= k < q.len() && q[k] == x;
                    if k < p.len() {
                        assert(p[k] == x);
                    }
                }
                if p.contains(x) {
                    let k = choose|k: int| 0 <= k < p.len() && p[k] == x;
                    assert(q[k] == x);
                }
                if x == l {
                    assert(q[p.len() as int] == x);
                }
            }
            assert forall|i: int, j: int| 0 <= i < q.len() && 0 <= j < q.len() && i != j implies q[i] != q[j] by {
                if i == p.len() {
                    assert(p.contains(q[j]) ==> true);
                    assert(q[j] == p[j]);
                } else if j == p.len() {
                    assert(q[i] == p[i]);
                }
            }
        }
    }
}

/// The union of the identifiers that the table lists for the deleted
/// shards, each once, in order of first listing.
pub open spec fn pending(table: Map<Seq<char>, Seq<u128>>, deleted: Seq<Librarian>) -> Seq<u128> {
    first_occurrences(listed_for(table, deleted))
}

/// Whether the list holds the identifier.
fn contains_id(v: &Vec<u128>, id: u128) -> (r: bool)
    ensures
        r == v@.contains(id),
{
    let mut i: usize = 0;
    while i < v.len()
        invariant
            i <= v@.len(),
            forall|k: int| 0 <= k < i ==> v@[k] != id,
        decreases v@.len() - i,
    {
        if v[i] == id {
            return true;
        }
        i = i + 1;
    }
    false
}

/// The table once each identifier, in order, has been appended to the entry
/// of the shard that the ring designates for it.
pub open spec fn reassign(
    table: Map<Seq<char>, Seq<u128>>,
    ids: Seq<u128>,
    ring: KnownLibrarians,
) -> Map<Seq<char>, Seq<u128>>
    decreases ids.len(),
{
    if ids.len() == 0 {
        table
    } else {
        let t = reassign(table, ids.drop_last(), ring);
        match ring.owner_of(ids.last()) {
            Some(a) => t.insert(a, owned_or_empty(t, a).push(ids.last())),
            None => t,
        }
    }
}

/// The entries of every shard outside `members` are the same in both tables.
pub open spec fn unchanged_outside(
    before: Map<Seq<char>, Seq<u128>>,
    after: Map<Seq<char>, Seq<u128>>,
    members: Set<Seq<char>>,
) -> bool {
    forall|a: Seq<char>|
        !members.contains(a) ==> (#[trigger] after.contains_key(a) == before.contains_key(a)) && (
        before.contains_key(a) ==> after[a] == before[a])
}

/// Some member of `known` lists the identifier in the table.
pub open spec fn owned_by_member(
    table: Map<Seq<char>, Seq<u128>>,
    known: KnownLibrarians,
    id: u128,
) -> bool {
    exists|a: Seq<char>|
        known.members().contains(a) && table.contains_key(a) && #[trigger] table[a].contains(id)
}

/// The addresses of a list of address strings.
pub open spec fn string_addresses(s: Seq<String>) -> Set<Seq<char>> {
    Set::new(|a: Seq<char>| exists|i: int| 0 <= i < s.len() && s[i]@ == a)
}

/// Why a membership change was refused.
#[derive(PartialEq, Eq, Structural, Clone, Copy, Debug)]
pub enum MembershipChangeError {
    /// The checksum field is not eight bytes long.
    OutOfRange,
    /// The checksum computed over the membership list differs from the one
    /// supplied.
    InvalidArgument { computed: u64, request: u64 },
    /// The checksum could not be computed.
    Aborted(NeuromancerError),
}

/// Relies on `u64`'s `to_string` (its `Display`): decimal digits, most
/// significant first, with no sign and no leading zero.
#[verifier::external_body]
fn decimal_text(n: u64) -> (r: String)
    ensures
        r@ == decimal(n as nat),
{
    n.to_string()
}

impl MembershipChangeError {
    pub open spec fn message_spec(&self) -> Seq<char> {
        match self {
            MembershipChangeError::OutOfRange => "length mismatch for checksum"@,
            MembershipChangeError::InvalidArgument { computed, request } =>
                "checksum mismatch for payload, computed: "@ + decimal(*computed as nat) + " got: "@
                + decimal(*request as nat),
            MembershipChangeError::Aborted(e) => e.message_spec(),
        }
    }

    /// A description of the error for the caller.
    pub fn message(&self) -> (r: String)
        ensures
            r@ == self.message_spec(),
    {
        match self {
            MembershipChangeError::OutOfRange => String::from_str("length mismatch for checksum"),
            MembershipChangeError::InvalidArgument { computed, request } => {
                let mut m = String::from_str("checksum mismatch for payload, computed: ");
                let c = decimal_text(*computed);
                m.append(c.as_str());
                m.append(" got: ");
                let g = decimal_text(*request);
                m.append(g.as_str());
                m
            },
            MembershipChangeError::Aborted(e) => e.message(),
        }
    }
}

/// The coordinating state of an executor: the ownership table, the known
/// shards, and the seed of its checksums.
pub struct Executor {
    identifier_mappings: OwnershipTable,
    librarians: KnownLibrarians,
    seed: u64,
}

impl Executor {
    pub closed spec fn mappings(&self) -> Map<Seq<char>, Seq<u128>> {
        self.identifier_mappings@
    }

    pub closed spec fn known(&self) -> KnownLibrarians {
        self.librarians
    }

    pub closed spec fn seed_spec(&self) -> u64 {
        self.seed
    }

    pub closed spec fn wf(&self) -> bool {
        self.identifier_mappings.wf() && self.librarians.wf()
    }

    /// An executor with no shard and no identifier, whose checksums use `seed`.
    pub fn new(seed: u64) -> (r: Executor)
        ensures
            r.wf(),
            r.mappings() == Map::<Seq<char>, Seq<u128>>::empty(),
            r.known().members().is_empty(),
            r.known().ring_consistent(),
            r.seed_spec() == seed,
    {
        Executor {
            identifier_mappings: OwnershipTable::new(),
            librarians: KnownLibrarians::new(),
            seed,
        }
    }

    /// The seed of this executor's checksums.
    pub fn seed(&self) -> (r: u64)
        ensures
            r == self.seed_spec(),
    {
        self.seed
    }

    /// The known shards.
    pub fn known_librarians(&self) -> (r: &KnownLibrarians)
        requires
            self.wf(),
        ensures
            *r == self.known(),
            r.wf(),
    {
        &self.librarians
    }

    /// The identifiers that the table lists for a shard.
    pub fn identifiers_of(&self, owner: &Librarian) -> (r: Vec<u128>)
        requires
            self.wf(),
        ensures
            r@ == owned_or_empty(self.mappings(), owner.address_spec()),
    {
        match self.identifier_mappings.get(owner) {
            Some(ids) => {
                let mut r: Vec<u128> = Vec::new();
                let mut k: usize = 0;
                while k < ids.len()
                    invariant
                        k <= ids@.len(),
                        r@ == ids@.subrange(0, k as int),
                    decreases ids@.len() - k,
                {
                    r.push(ids[k]);
                    proof {
                        assert(r@ =~= ids@.subrange(0, k + 1));
                    }
                    k = k + 1;
                }
                proof {
                    assert(ids@.subrange(0, ids@.len() as int) == ids@);
                }
                r
            },
            None => Vec::new(),
        }
    }

    /// Records that a shard owns an identifier.
    pub fn assign_identifier(&mut self, owner: &Librarian, id: u128)
        requires
            old(self).wf(),
        ensures
            final(self).wf(),
            final(self).known() == old(self).known(),
            final(self).seed_spec() == old(self).seed_spec(),
            final(self).mappings() == old(self).mappings().insert(
                owner.address_spec(),
                owned_or_empty(old(self).mappings(), owner.address_spec()).push(id),
            ),
    {
        self.identifier_mappings.append(owner, id);
    }

    /// The identifiers currently mapped to the deleted shards.
    fn unbalanced_identifiers(&self, deleted: Vec<Librarian>) -> (r: Vec<u128>)
        requires
            self.wf(),
        ensures
            r@ == pending(self.mappings(), deleted@),
    {
        let mut result: Vec<u128> = Vec::new();
        let mut i: usize = 0;
        while i < deleted.len()
            invariant
                i <= deleted@.len(),
                self.wf(),
                result@ == first_occurrences(listed_for(self.mappings(), deleted@.subrange(0, i as int))),
            decreases deleted@.len() - i,
        {
            proof {
                assert(deleted@.subrange(0, i + 1).drop_last() == deleted@.subrange(0, i as int));
            }
            match self.identifier_mappings.get(&deleted[i]) {
                Some(uuids) => {
                    let ghost listed = listed_for(self.mappings(), deleted@.subrange(0, i as int));
                    let mut k: usize = 0;
                    while k < uuids.len()
                        invariant
                            k <= uuids@.len(),
                            result@ == first_occurrences(listed + uuids@.subrange(0, k as int)),
                        decreases uuids@.len() - k,
                    {
                        proof {
                            assert((listed + uuids@.subrange(0, k + 1)).drop_last() =~= listed
                                + uuids@.subrange(0, k as int));
                        }
                        if !contains_id(&result, uuids[k]) {
                            result.push(uuids[k]);
                        }
                        k = k + 1;
                    }
                    proof {
                        assert(uuids@.subrange(0, uuids@.len() as int) == uuids@);
                    }
                },
                None => {
                    proof {
                        let listed = listed_for(self.mappings(), deleted@.subrange(0, i as int));
                        assert(listed =~= listed + Seq::<u128>::empty());
                    }
                },
            }
            i = i + 1;
        }
        proof {
            assert(deleted@.subrange(0, deleted@.len() as int) == deleted@);
        }
        result
    }

    /// Reassigns every identifier that the deleted shards owned to the shard
    /// that the current ring designates for it. The deleted shards' own
    /// entries are left as they are.
    pub fn rebalance(&mut self, deleted: Vec<Librarian>)
        requires
            old(self).wf(),
        ensures
            final(self).wf(),
            final(self).known() == old(self).known(),
            final(self).seed_spec() == old(self).seed_spec(),
            final(self).mappings() == reassign(
                old(self).mappings(),
                pending(old(self).mappings(), deleted@),
                old(self).known(),
            ),
            old(self).known().ring_consistent() && !old(self).known().members().is_empty()
                ==> forall|id: u128|
                pending(old(self).mappings(), deleted@).contains(id) ==> #[trigger] owned_by_member(
                    final(self).mappings(),
                    final(self).known(),
                    id,
                ),
            unchanged_outside(old(self).mappings(), final(self).mappings(), old(self).known().members()),
    {
        let ghost ids = pending(self.mappings(), deleted@);
        let ghost start = self.mappings();
        let unbalanced = self.unbalanced_identifiers(deleted);
        if unbalanced.len() == 0 {
            return;
        }
        let ghost live = self.librarians.ring_consistent() && !self.librarians.members().is_empty();
        let mut i: usize = 0;
        while i < unbalanced.len()
            invariant
                i <= unbalanced@.len(),
                unbalanced@ == ids,
                self.wf(),
                self.librarians == old(self).librarians,
                self.seed == old(self).seed,
                live == (self.librarians.ring_consistent() && !self.librarians.members().is_empty()),
                self.mappings() == reassign(start, ids.subrange(0, i as int), self.librarians),
                live ==> forall|j: int|
                    0 <= j < i ==> #[trigger] owned_by_member(self.mappings(), self.librarians, ids[j]),
                unchanged_outside(start, self.mappings(), self.librarians.members()),
            decreases unbalanced@.len() - i,
        {
            let uuid = unbalanced[i];
            let ghost before = self.mappings();
            proof {
                assert(ids.subrange(0, i + 1).drop_last() == ids.subrange(0, i as int));
            }
            match self.librarians.mapping_for(uuid) {
                Some(librarian) => {
                    self.identifier_mappings.append(&librarian, uuid);
                    proof {
                        let a = librarian.address_spec();
                        assert(self.mappings()[a] == owned_or_empty(before, a).push(uuid));
                        assert(self.mappings()[a][owned_or_empty(before, a).len() as int] == uuid);
                        assert forall|j: int| live && 0 <= j < i + 1 implies #[trigger] owned_by_member(
                            self.mappings(),
                            self.librarians,
                            ids[j],
                        ) by {
                            if j < i {
                                assert(owned_by_member(before, self.librarians, ids[j]));
                                let b = choose|b: Seq<char>|
                                    self.librarians.members().contains(b) && before.contains_key(b)
                                        && #[trigger] before[b].contains(ids[j]);
                                let k = choose|k: int| 0 <= k < before[b].len() && before[b][k] == ids[j];
                                if b == a {
                                    assert(self.mappings()[b][k] == ids[j]);
                                } else {
                                    assert(self.mappings()[b] == before[b]);
                                }
                                assert(self.mappings()[b].contains(ids[j]));
                            } else {
                                assert(self.librarians.members().contains(a));
                                assert(self.mappings()[a].contains(ids[j]));
                            }
                        }
                    }
                },
                None => {},
            }
            i = i + 1;
        }
        proof {
            assert(ids.subrange(0, ids.len() as int) == ids);
            assert forall|id: u128| live && ids.contains(id) implies #[trigger] owned_by_member(
                self.mappings(),
                self.librarians,
                id,
            ) by {
                let j = choose|j: int| 0 <= j < ids.len() && ids[j] == id;
                assert(owned_by_member(self.mappings(), self.librarians, ids[j]));
            }
        }
    }

    /// A membership change whose checksum has been validated: the membership
    /// becomes exactly the listed addresses, and what the removed shards
    /// owned is reassigned over the new ring.
    pub open spec fn change_applied(before: Executor, after: Executor, librarians: Seq<String>) -> bool {
        &&& after.wf()
        &&& after.seed_spec() == before.seed_spec()
        &&& after.known().members() == string_addresses(librarians)
        &&& unchanged_outside(before.mappings(), after.mappings(), after.known().members())
        &&& before.known().ring_consistent() && keys_distinct(
            before.known().members().union(string_addresses(librarians)),
        ) ==> after.known().ring_consistent()
        &&& exists|removed: Seq<Librarian>|
            {
                &&& distinct_addresses(removed)
                &&& #[trigger] addresses(removed) == before.known().members().difference(
                    string_addresses(librarians),
                )
                &&& after.mappings() == reassign(
                    before.mappings(),
                    pending(before.mappings(), removed),
                    after.known(),
                )
                &&& after.known().ring_consistent() && !after.known().members().is_empty()
                    ==> forall|id: u128|
                    pending(before.mappings(), removed).contains(id) ==> #[trigger] owned_by_member(
                        after.mappings(),
                        after.known(),
                        id,
                    )
            }
    }

    /// The outcome of a membership change request, given the checksum that
    /// was computed over its list.
    pub open spec fn change_outcome(
        before: Executor,
        after: Executor,
        librarians: Seq<String>,
        checksum: Seq<u8>,
        computed: Result<u64, NeuromancerError>,
        r: Result<(), MembershipChangeError>,
    ) -> bool {
        if checksum.len() != 8 {
            r == Err::<(), MembershipChangeError>(MembershipChangeError::OutOfRange) && after == before
        } else {
            match computed {
                Err(e) => r == Err::<(), MembershipChangeError>(MembershipChangeError::Aborted(e))
                    && after == before,
                Ok(c) => if c != be_u64(checksum) {
                    r == Err::<(), MembershipChangeError>(
                        MembershipChangeError::InvalidArgument { computed: c, request: be_u64(checksum) },
                    ) && after == before
                } else {
                    r is Ok && Executor::change_applied(before, after, librarians)
                },
            }
        }
    }

    /// Validates a membership change against the checksum computed over its
    /// list, then applies it and rebalances, in one critical section.
    pub fn apply_membership_change(
        &mut self,
        librarians: &Vec<String>,
        checksum: &[u8],
        computed: Result<u64, NeuromancerError>,
    ) -> (r: Result<(), MembershipChangeError>)
        requires
            old(self).wf(),
        ensures
            Executor::change_outcome(*old(self), *final(self), librarians@, checksum@, computed, r),
    {
        if checksum.len() != 8 {
            return Err(MembershipChangeError::OutOfRange);
        }
        let supplied = decode_checksum(checksum);
        match computed {
            Err(e) => {
                return Err(MembershipChangeError::Aborted(e));
            },
            Ok(c) => {
                if c != supplied {
                    return Err(MembershipChangeError::InvalidArgument { computed: c, request: supplied });
                }
            },
        }
        let ghost before = *self;
        let mut new_librarians: Vec<Librarian> = Vec::new();
        let mut i: usize = 0;
        while i < librarians.len()
            invariant
                i <= librarians@.len(),
                new_librarians@.len() == i,
                forall|k: int| 0 <= k < i ==> #[trigger] new_librarians@[k].address_spec() == librarians@[k]@,
            decreases librarians@.len() - i,
        {
            new_librarians.push(librarians[i].to_librarian());
            i = i + 1;
        }
        proof {
            assert forall|a: Seq<char>| addresses(new_librarians@).contains(a) <==> string_addresses(librarians@).contains(a) by {
                if addresses(new_librarians@).contains(a) {
                    let k = choose|k: int| 0 <= k < new_librarians@.len() && new_librarians@[k].address_spec() == a;
                }
                if string_addresses(librarians@).contains(a) {
                    let k = choose|k: int| 0 <= k < librarians@.len() && librarians@[k]@ == a;
                    assert(new_librarians@[k].address_spec() == a);
                }
            }
            assert(addresses(new_librarians@) =~= string_addresses(librarians@));
        }
        let removed = self.librarians.modify_membership(new_librarians.as_slice());
        let ghost removed_seq = removed@;
        let ghost applied = *self;
        self.rebalance(removed);
        proof {
            assert(pending(applied.mappings(), removed_seq) == pending(before.mappings(), removed_seq));
        }
        Ok(())
    }

    /// Handles a membership change request: the full desired list of shard
    /// addresses and an eight-byte checksum over it.
    pub fn librarian_membership_change(
        &mut self,
        librarians: Vec<String>,
        checksum: Vec<u8>,
    ) -> (r: Result<(), MembershipChangeError>)
        requires
            old(self).wf(),
        ensures
            Executor::change_outcome(
                *old(self),
                *final(self),
                librarians@,
                checksum@,
                Ok(wyhash_digest(old(self).seed_spec(), concat_canonical(librarians@))),
                r,
            ),
    {
        if checksum.len() != 8 {
            return Err(MembershipChangeError::OutOfRange);
        }
        proof {
            crate::checksum::lemma_strings_never_fail(librarians@);
        }
        let computed = librarians.checksum(self.seed);
        self.apply_membership_change(&librarians, checksum.as_slice(), computed)
    }
}

} // verus!
