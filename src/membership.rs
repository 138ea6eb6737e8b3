//! Worker-shard identities and the membership ring that tracks them.
use conhash::ConsistentHash;
use vstd::prelude::*;
use vstd::utf8::encode_utf8;

verus! {

/// The identity of a worker shard: its network address. Equality and
/// ordering are those of the address.
#[derive(Eq, PartialOrd, Ord, Hash, Debug)]
pub struct Librarian {
    address: String,
}

impl Librarian {
    pub closed spec fn address_spec(&self) -> Seq<char> {
        self.address@
    }

    pub fn new(s: &str) -> (r: Librarian)
        ensures
            r.address_spec() == s@,
    {
        Librarian { address: s.to_owned() }
    }

    /// The address that identifies this shard.
    pub fn name(&self) -> (r: String)
        ensures
            r@ == self.address_spec(),
    {
        self.address.clone()
    }
}

impl PartialEq for Librarian {
    fn eq(&self, other: &Librarian) -> (r: bool) {
        self.address == other.address
    }
}

impl vstd::std_specs::cmp::PartialEqSpecImpl for Librarian {
    open spec fn obeys_eq_spec() -> bool {
        true
    }

    open spec fn eq_spec(&self, other: &Librarian) -> bool {
        self.address_spec() == other.address_spec()
    }
}

impl Clone for Librarian {
    fn clone(&self) -> (r: Librarian)
        ensures
            r == *self,
    {
        Librarian { address: self.address.clone() }
    }
}

impl conhash::Node for Librarian {
    fn name(&self) -> String {
        self.address.clone()
    }
}

/// Conversion of an address into a shard identity.
pub trait ToLibrarian {
    spec fn address_of(&self) -> Seq<char>;

    fn to_librarian(&self) -> (r: Librarian)
        ensures
            r.address_spec() == self.address_of(),
    ;
}

impl<'a> ToLibrarian for &'a str {
    open spec fn address_of(&self) -> Seq<char> {
        (*self)@
    }

    fn to_librarian(&self) -> (r: Librarian) {
        Librarian::new(*self)
    }
}

impl ToLibrarian for String {
    open spec fn address_of(&self) -> Seq<char> {
        self@
    }

    fn to_librarian(&self) -> (r: Librarian) {
        Librarian::new(self.as_str())
    }
}

/// A consistent-hash ring over shard identities, one virtual node per
/// replica.
#[verifier::external_body]
pub struct Ring {
    inner: ConsistentHash<Librarian>,
}

/// The virtual nodes of a ring: hashed key to the address of the shard
/// that the key designates.
pub uninterp spec fn ring_nodes(r: Ring) -> Map<Seq<u8>, Seq<char>>;

/// The replica count that a ring holds for each shard address.
pub uninterp spec fn ring_replicas(r: Ring) -> Map<Seq<char>, nat>;

/// The order of byte strings as keys of the ring: lexicographic, a proper
/// prefix before its extensions.
pub open spec fn bytes_lt(a: Seq<u8>, b: Seq<u8>) -> bool
    decreases a.len(),
{
    if a.len() == 0 {
        b.len() > 0
    } else if b.len() == 0 {
        false
    } else if a[0] != b[0] {
        a[0] < b[0]
    } else {
        bytes_lt(a.drop_first(), b.drop_first())
    }
}

/// The key at which a lookup whose hashed key is `h` lands: the least key
/// not below `h`, or, where every key is below `h`, the least key.
pub open spec fn designates(nodes: Map<Seq<u8>, Seq<char>>, h: Seq<u8>, k: Seq<u8>) -> bool {
    &&& nodes.contains_key(k)
    &&& {
        ||| !bytes_lt(k, h) && forall|x: Seq<u8>|
            #[trigger] nodes.contains_key(x) && !bytes_lt(x, h) ==> !bytes_lt(x, k)
        ||| (forall|x: Seq<u8>| #[trigger] nodes.contains_key(x) ==> bytes_lt(x, h)) && forall|
            x: Seq<u8>,
        | #[trigger] nodes.contains_key(x) ==> !bytes_lt(x, k)
    }
}

/// Two distinct byte strings are ordered one way or the other.
pub proof fn lemma_bytes_lt_total(a: Seq<u8>, b: Seq<u8>)
    requires
        a != b,
    ensures
        bytes_lt(a, b) || bytes_lt(b, a),
    decreases a.len(),
{
    if a.len() == 0 {
        if b.len() == 0 {
            assert(a =~= b);
        }
    } else if b.len() == 0 {
    } else if a[0] != b[0] {
    } else {
        if a.drop_first() == b.drop_first() {
            assert(a =~= seq![a[0]] + a.drop_first());
            assert(b =~= seq![b[0]] + b.drop_first());
        } else {
            lemma_bytes_lt_total(a.drop_first(), b.drop_first());
        }
    }
}

/// A lookup lands on one key only.
pub proof fn lemma_designates_unique(
    nodes: Map<Seq<u8>, Seq<char>>,
    h: Seq<u8>,
    k1: Seq<u8>,
    k2: Seq<u8>,
)
    requires
        designates(nodes, h, k1),
        designates(nodes, h, k2),
    ensures
        k1 == k2,
{
    if k1 != k2 {
        lemma_bytes_lt_total(k1, k2);
        assert(nodes.contains_key(k1) && nodes.contains_key(k2));
    }
}

/// The MD5 digest of a byte sequence.
pub uninterp spec fn md5_digest(bytes: Seq<u8>) -> Seq<u8>;

/// Decimal digits of a natural number.
pub open spec fn decimal(n: nat) -> Seq<char>
    decreases n,
{
    if n < 10 {
        seq![(n + 48) as char]
    } else {
        decimal(n / 10).push(((n % 10) + 48) as char)
    }
}

/// The text that a ring hashes for one replica of a shard: `name:replica`.
pub open spec fn replica_ident(name: Seq<char>, replica: nat) -> Seq<u8> {
    encode_utf8(name + seq![':'] + decimal(replica))
}

/// The hashed keys of the first `count` replicas of a shard.
pub open spec fn replica_keys(name: Seq<char>, count: nat) -> Set<Seq<u8>> {
    Set::new(|k: Seq<u8>| exists|i: nat| i < count && k == md5_digest(replica_ident(name, i)))
}

/// The virtual nodes left once a shard is taken off a ring.
pub open spec fn nodes_without(
    nodes: Map<Seq<u8>, Seq<char>>,
    replicas: Map<Seq<char>, nat>,
    name: Seq<char>,
) -> Map<Seq<u8>, Seq<char>> {
    if replicas.contains_key(name) {
        nodes.remove_keys(replica_keys(name, replicas[name]))
    } else {
        nodes
    }
}

/// Relies on `ConsistentHash::new`: a ring with no virtual node and no replica count.
#[verifier::external_body]
fn ring_new() -> (r: Ring)
    ensures
        ring_nodes(r).is_empty(),
        ring_replicas(r).is_empty(),
{
    Ring { inner: ConsistentHash::new() }
}

/// Relies on `ConsistentHash::add` with one replica: the shard is first
/// taken off, then its replica count is set to one and the MD5 digest of
/// `name:0` designates it.
#[verifier::external_body]
fn ring_add(ring: &mut Ring, node: &Librarian)
    ensures
        ring_replicas(*final(ring)) == ring_replicas(*old(ring)).insert(node.address_spec(), 1),
        ring_nodes(*final(ring)) == nodes_without(
            ring_nodes(*old(ring)),
            ring_replicas(*old(ring)),
            node.address_spec(),
        ).insert(md5_digest(replica_ident(node.address_spec(), 0)), node.address_spec()),
{
    ring.inner.add(node, 1)
}

/// Relies on `ConsistentHash::remove`: the replica count of the shard is
/// dropped, and so are the keys of its replicas.
#[verifier::external_body]
fn ring_remove(ring: &mut Ring, node: &Librarian)
    ensures
        ring_replicas(*final(ring)) == ring_replicas(*old(ring)).remove(node.address_spec()),
        ring_nodes(*final(ring)) == nodes_without(
            ring_nodes(*old(ring)),
            ring_replicas(*old(ring)),
            node.address_spec(),
        ),
{
    ring.inner.remove(node)
}

/// Relies on `ConsistentHash::get`: nothing on an empty ring, else the
/// shard at the first key, in the order of `Vec<u8>`, not below the MD5
/// digest of the lookup key, wrapping round to the first key.
#[verifier::external_body]
fn ring_get(ring: &Ring, key: &[u8]) -> (r: Option<Librarian>)
    ensures
        r is None <==> ring_nodes(*ring).is_empty(),
        r matches Some(l) ==> exists|k: Seq<u8>|
            designates(ring_nodes(*ring), md5_digest(key@), k) && #[trigger] ring_nodes(*ring)[k]
                == l.address_spec(),
{
    ring.inner.get(key).cloned()
}

/// Relies on `ConsistentHash::len`: the number of virtual nodes.
#[verifier::external_body]
fn ring_len(ring: &Ring) -> (r: usize)
    ensures
        r == ring_nodes(*ring).len(),
{
    ring.inner.len()
}

/// The addresses of a list of shards.
pub open spec fn addresses(s: Seq<Librarian>) -> Set<Seq<char>> {
    Set::new(|a: Seq<char>| exists|i: int| 0 <= i < s.len() && s[i].address_spec() == a)
}

/// No address occurs twice in the list.
pub open spec fn distinct_addresses(s: Seq<Librarian>) -> bool {
    forall|i: int, j: int|
        0 <= i < s.len() && 0 <= j < s.len() && i != j ==> s[i].address_spec()
            != s[j].address_spec()
}

/// The key of the single virtual node of a shard.
pub open spec fn ring_key(name: Seq<char>) -> Seq<u8> {
    md5_digest(replica_ident(name, 0))
}

/// No two of the addresses share a ring key.
pub open spec fn keys_distinct(names: Set<Seq<char>>) -> bool {
    forall|a: Seq<char>, b: Seq<char>|
        names.contains(a) && names.contains(b) && a != b ==> #[trigger] ring_key(a)
            != #[trigger] ring_key(b)
}

/// The membership that a full membership list asks for.
pub open spec fn membership_after(list: Seq<Librarian>) -> Set<Seq<char>> {
    addresses(list)
}

/// The members that a full membership list takes out of `current`.
pub open spec fn removed_by(current: Set<Seq<char>>, list: Seq<Librarian>) -> Set<Seq<char>> {
    current.difference(addresses(list))
}

/// The sixteen bytes of a 128-bit identifier, most significant first.
pub open spec fn identifier_bytes_spec(id: u128) -> Seq<u8> {
    seq![
        #[verifier::truncate] ((id >> 120u128) as u8),
        #[verifier::truncate] ((id >> 112u128) as u8),
        #[verifier::truncate] ((id >> 104u128) as u8),
        #[verifier::truncate] ((id >> 96u128) as u8),
        #[verifier::truncate] ((id >> 88u128) as u8),
        #[verifier::truncate] ((id >> 80u128) as u8),
        #[verifier::truncate] ((id >> 72u128) as u8),
        #[verifier::truncate] ((id >> 64u128) as u8),
        #[verifier::truncate] ((id >> 56u128) as u8),
        #[verifier::truncate] ((id >> 48u128) as u8),
        #[verifier::truncate] ((id >> 40u128) as u8),
        #[verifier::truncate] ((id >> 32u128) as u8),
        #[verifier::truncate] ((id >> 24u128) as u8),
        #[verifier::truncate] ((id >> 16u128) as u8),
        #[verifier::truncate] ((id >> 8u128) as u8),
        #[verifier::truncate] ((id >> 0u128) as u8),
    ]
}

/// The key under which an identifier is looked up on the ring.
fn identifier_bytes(id: u128) -> (r: Vec<u8>)
    ensures
        r@ == identifier_bytes_spec(id),
{
    let mut r: Vec<u8> = Vec::new();
    r.push(#[verifier::truncate] ((id >> 120u128) as u8));
    r.push(#[verifier::truncate] ((id >> 112u128) as u8));
    r.push(#[verifier::truncate] ((id >> 104u128) as u8));
    r.push(#[verifier::truncate] ((id >> 96u128) as u8));
    r.push(#[verifier::truncate] ((id >> 88u128) as u8));
    r.push(#[verifier::truncate] ((id >> 80u128) as u8));
    r.push(#[verifier::truncate] ((id >> 72u128) as u8));
    r.push(#[verifier::truncate] ((id >> 64u128) as u8));
    r.push(#[verifier::truncate] ((id >> 56u128) as u8));
    r.push(#[verifier::truncate] ((id >> 48u128) as u8));
    r.push(#[verifier::truncate] ((id >> 40u128) as u8));
    r.push(#[verifier::truncate] ((id >> 32u128) as u8));
    r.push(#[verifier::truncate] ((id >> 24u128) as u8));
    r.push(#[verifier::truncate] ((id >> 16u128) as u8));
    r.push(#[verifier::truncate] ((id >> 8u128) as u8));
    r.push(#[verifier::truncate] ((id >> 0u128) as u8));
    proof {
        assert(r@ =~= identifier_bytes_spec(id));
    }
    r
}

/// The index of the shard with the address of `l`, if the list holds one.
fn position(v: &Vec<Librarian>, l: &Librarian) -> (r: Option<usize>)
    ensures
        match r {
            Some(i) => i < v@.len() && v@[i as int].address_spec() == l.address_spec(),
            None => !addresses(v@).contains(l.address_spec()),
        },
{
    let mut i: usize = 0;
    while i < v.len()
        invariant
            i <= v@.len(),
            forall|j: int| 0 <= j < i ==> v@[j].address_spec() != l.address_spec(),
        decreases v@.len() - i,
    {
        if v[i] == *l {
            return Some(i);
        }
        i = i + 1;
    }
    None
}

/// The list with each address kept once, at its first occurrence.
fn dedup(list: &[Librarian]) -> (r: Vec<Librarian>)
    ensures
        distinct_addresses(r@),
        addresses(r@) == addresses(list@),
{
    let mut r: Vec<Librarian> = Vec::new();
    let mut i: usize = 0;
    while i < list.len()
        invariant
            i <= list@.len(),
            distinct_addresses(r@),
            forall|k: int|
                #![trigger r@[k]]
                0 <= k < r@.len() ==> exists|j: int|
                    #![trigger list@[j]]
                    0 <= j < i && list@[j].address_spec() == r@[k].address_spec(),
            forall|j: int|
                #![trigger list@[j]]
                0 <= j < i ==> exists|k: int|
                    #![trigger r@[k]]
                    0 <= k < r@.len() && list@[j].address_spec() == r@[k].address_spec(),
        decreases list@.len() - i,
    {
        let item = &list[i];
        let ghost before = r@;
        match position(&r, item) {
            None => {
                r.push(item.clone());
                proof {
                    assert(r@[before.len() as int] == list@[i as int]);
                    assert forall|k: int| 0 <= k < before.len() implies r@[k] == before[k] by {}
                }
            },
            Some(_) => {},
        }
        i = i + 1;
    }
    proof {
        assert forall|a: Seq<char>| addresses(r@).contains(a) <==> addresses(list@).contains(a) by {
            if addresses(r@).contains(a) {
                let k = choose|k: int| 0 <= k < r@.len() && r@[k].address_spec() == a;
                let j = choose|j: int| 0 <= j < i && list@[j].address_spec() == r@[k].address_spec();
            }
            if addresses(list@).contains(a) {
                let j = choose|j: int| 0 <= j < list@.len() && list@[j].address_spec() == a;
                let k = choose|k: int| 0 <= k < r@.len() && list@[j].address_spec() == r@[k].address_spec();
            }
        }
        assert(addresses(r@) =~= addresses(list@));
    }
    r
}

/// The addresses of a prefix one longer are those of the prefix and the
/// address of the next item.
proof fn lemma_addresses_prefix(s: Seq<Librarian>, j: int)
    requires
        0 <= j < s.len(),
    ensures
        addresses(s.subrange(0, j + 1)) == addresses(s.subrange(0, j)).insert(s[j].address_spec()),
{
    let p = s.subrange(0, j);
    let q = s.subrange(0, j + 1);
    assert forall|a: Seq<char>| addresses(q).contains(a) <==> addresses(p).insert(s[j].address_spec()).contains(a) by {
        if addresses(q).contains(a) {
            let k = choose|k: int| 0 <= k < q.len() && q[k].address_spec() == a;
            if k < j {
                assert(p[k] == q[k]);
            }
        }
        if addresses(p).contains(a) {
            let k = choose|k: int| 0 <= k < p.len() && p[k].address_spec() == a;
            assert(p[k] == q[k]);
        }
        if a == s[j].address_spec() {
            assert(q[j] == s[j]);
        }
    }
    assert(addresses(q) =~= addresses(p).insert(s[j].address_spec()));
}

/// Distinct ring keys hold of every part of a set that has them.
proof fn lemma_keys_distinct_subset(small: Set<Seq<char>>, large: Set<Seq<char>>)
    requires
        small.subset_of(large),
        keys_distinct(large),
    ensures
        keys_distinct(small),
{
}

/// Whether every address of `a` is an address of `b`.
fn all_contained(a: &Vec<Librarian>, b: &Vec<Librarian>) -> (r: bool)
    ensures
        r == addresses(a@).subset_of(addresses(b@)),
{
    let mut i: usize = 0;
    while i < a.len()
        invariant
            i <= a@.len(),
            forall|k: int| 0 <= k < i ==> addresses(b@).contains(#[trigger] a@[k].address_spec()),
        decreases a@.len() - i,
    {
        if position(b, &a[i]).is_none() {
            assert(addresses(a@).contains(a@[i as int].address_spec()));
            return false;
        }
        i = i + 1;
    }
    assert forall|x: Seq<char>| addresses(a@).contains(x) implies addresses(b@).contains(x) by {
        let k = choose|k: int| 0 <= k < a@.len() && a@[k].address_spec() == x;
    }
    true
}

/// The items of `a` whose address is not one of `b`, in order.
fn missing_from(a: &Vec<Librarian>, b: &Vec<Librarian>) -> (r: Vec<Librarian>)
    requires
        distinct_addresses(a@),
    ensures
        distinct_addresses(r@),
        addresses(r@) == addresses(a@).difference(addresses(b@)),
{
    let mut r: Vec<Librarian> = Vec::new();
    let mut i: usize = 0;
    while i < a.len()
        invariant
            i <= a@.len(),
            distinct_addresses(a@),
            distinct_addresses(r@),
            addresses(r@) == addresses(a@.subrange(0, i as int)).difference(addresses(b@)),
        decreases a@.len() - i,
    {
        let ghost before = r@;
        proof {
            lemma_addresses_prefix(a@, i as int);
        }
        if position(b, &a[i]).is_none() {
            r.push(a[i].clone());
            proof {
                assert forall|k: int| 0 <= k < before.len() implies r@[k] == before[k] by {}
                assert(r@[before.len() as int] == a@[i as int]);
                assert forall|k: int| 0 <= k < before.len() implies #[trigger] r@[k].address_spec()
                    != a@[i as int].address_spec() by {
                    assert(addresses(before).contains(r@[k].address_spec()));
                    let m = choose|m: int| 0 <= m < i && a@.subrange(0, i as int)[m].address_spec()
                        == r@[k].address_spec();
                    assert(a@.subrange(0, i as int)[m] == a@[m]);
                }
                assert forall|x: Seq<char>| addresses(r@).contains(x) <==> addresses(before).insert(
                    a@[i as int].address_spec(),
                ).contains(x) by {
                    if addresses(r@).contains(x) {
                        let k = choose|k: int| 0 <= k < r@.len() && r@[k].address_spec() == x;
                        if k < before.len() {
                            assert(before[k] == r@[k]);
                        }
                    }
                    if addresses(before).contains(x) {
                        let k = choose|k: int| 0 <= k < before.len() && before[k].address_spec() == x;
                        assert(before[k] == r@[k]);
                    }
                }
                assert(addresses(r@) =~= addresses(a@.subrange(0, i + 1)).difference(addresses(b@)));
            }
        } else {
            proof {
                assert(addresses(r@) =~= addresses(a@.subrange(0, i + 1)).difference(addresses(b@)));
            }
        }
        i = i + 1;
    }
    proof {
        assert(a@.subrange(0, a@.len() as int) == a@);
    }
    r
}

/// The known shards: a membership set and the ring built over it.
pub struct KnownLibrarians {
    set: Vec<Librarian>,
    ring: Ring,
}

impl KnownLibrarians {
    /// The addresses of the members.
    pub closed spec fn members(&self) -> Set<Seq<char>> {
        addresses(self.set@)
    }

    /// The addresses that the ring's virtual nodes designate.
    pub closed spec fn ring_members(&self) -> Set<Seq<char>> {
        ring_nodes(self.ring).values()
    }

    /// The hashed key under which the ring looks an identifier up.
    pub open spec fn lookup_key(id: u128) -> Seq<u8> {
        md5_digest(identifier_bytes_spec(id))
    }

    /// The ring lands the lookup of the identifier on a virtual node of
    /// the shard `a`.
    pub closed spec fn resolves_to(&self, id: u128, a: Seq<char>) -> bool {
        exists|k: Seq<u8>|
            designates(ring_nodes(self.ring), Self::lookup_key(id), k) && #[trigger] ring_nodes(
                self.ring,
            )[k] == a
    }

    /// The address that a ring lookup of the identifier resolves to.
    pub closed spec fn owner_of(&self, id: u128) -> Option<Seq<char>> {
        if ring_nodes(self.ring).is_empty() {
            None
        } else {
            Some(
                ring_nodes(self.ring)[choose|k: Seq<u8>|
                    designates(ring_nodes(self.ring), Self::lookup_key(id), k)],
            )
        }
    }

    /// Each member once; one replica in the ring for each member; each
    /// virtual node of the ring at the key of the member it designates.
    pub closed spec fn wf(&self) -> bool {
        &&& distinct_addresses(self.set@)
        &&& ring_replicas(self.ring) == Map::new(
            |a: Seq<char>| self.members().contains(a),
            |a: Seq<char>| 1nat,
        )
        &&& forall|k: Seq<u8>|
            #[trigger] ring_nodes(self.ring).contains_key(k) ==> self.members().contains(
                ring_nodes(self.ring)[k],
            ) && k == ring_key(ring_nodes(self.ring)[k])
    }

    /// The members have pairwise distinct ring keys, and the ring holds the
    /// key of each.
    pub closed spec fn ring_consistent(&self) -> bool {
        &&& keys_distinct(self.members())
        &&& forall|a: Seq<char>|
            #[trigger] self.members().contains(a) ==> ring_nodes(self.ring).contains_key(
                ring_key(a),
            )
    }

    pub fn new() -> (r: KnownLibrarians)
        ensures
            r.wf(),
            r.ring_consistent(),
            r.members().is_empty(),
            r.ring_members_count() == 0,
    {
        let r = KnownLibrarians { set: Vec::new(), ring: ring_new() };
        proof {
            assert(r.members() =~= Set::empty());
            assert(ring_replicas(r.ring) =~= Map::new(
                |a: Seq<char>| r.members().contains(a),
                |a: Seq<char>| 1nat,
            ));
        }
        r
    }

    /// The members, in the order in which they joined.
    pub fn members_list(&self) -> (r: Vec<Librarian>)
        requires
            self.wf(),
        ensures
            addresses(r@) == self.members(),
            distinct_addresses(r@),
    {
        let mut r: Vec<Librarian> = Vec::new();
        let mut i: usize = 0;
        while i < self.set.len()
            invariant
                i <= self.set@.len(),
                r@ == self.set@.subrange(0, i as int),
            decreases self.set@.len() - i,
        {
            r.push(self.set[i].clone());
            proof {
                assert(r@ =~= self.set@.subrange(0, i + 1));
            }
            i = i + 1;
        }
        proof {
            assert(r@ =~= self.set@);
        }
        r
    }

    /// The number of virtual nodes in the ring.
    pub fn ring_len(&self) -> (r: usize)
        requires
            self.wf(),
        ensures
            r == self.ring_members_count(),
            self.ring_consistent() ==> r == self.members().len(),
    {
        proof {
            if self.ring_consistent() {
                lemma_ring_count(self);
            }
        }
        ring_len(&self.ring)
    }

    /// The number of virtual nodes in the ring.
    pub closed spec fn ring_members_count(&self) -> nat {
        ring_nodes(self.ring).len()
    }

    /// The shard that the ring designates for an identifier.
    pub fn mapping_for(&self, id: u128) -> (r: Option<Librarian>)
        requires
            self.wf(),
        ensures
            match r {
                Some(l) => self.owner_of(id) == Some(l.address_spec()) && self.resolves_to(
                    id,
                    l.address_spec(),
                ) && self.members().contains(l.address_spec()),
                None => self.owner_of(id) is None && (self.ring_consistent()
                    ==> self.members().is_empty()),
            },
    {
        let key = identifier_bytes(id);
        let r = ring_get(&self.ring, key.as_slice());
        proof {
            match r {
                Some(ref l) => {
                    let nodes = ring_nodes(self.ring);
                    let h = Self::lookup_key(id);
                    let k = choose|k: Seq<u8>| designates(nodes, h, k) && #[trigger] nodes[k] == l.address_spec();
                    let c = choose|c: Seq<u8>| designates(nodes, h, c);
                    lemma_designates_unique(nodes, h, k, c);
                    assert(self.resolves_to(id, l.address_spec()));
                },
                None => {
                    if self.ring_consistent() && !self.members().is_empty() {
                        let a = self.members().choose();
                        assert(self.members().contains(a));
                        assert(ring_nodes(self.ring).contains_key(ring_key(a)));
                        assert(ring_nodes(self.ring).dom().contains(ring_key(a)));
                    }
                },
            }
        }
        r
    }

    /// Takes a member off the ring and out of the membership set.
    fn remove_member(&mut self, d: &Librarian)
        requires
            old(self).wf(),
            old(self).members().contains(d.address_spec()),
        ensures
            final(self).wf(),
            final(self).members() == old(self).members().remove(d.address_spec()),
            old(self).ring_consistent() ==> final(self).ring_consistent(),
    {
        let ghost name = d.address_spec();
        let ghost old_nodes = ring_nodes(self.ring);
        ring_remove(&mut self.ring, d);
        let p = position(&self.set, d);
        match p {
            Some(p) => {
                let ghost before = self.set@;
                self.set.remove(p);
                proof {
                    assert forall|a: Seq<char>|
                        addresses(self.set@).contains(a) <==> addresses(before).remove(
                            name,
                        ).contains(a) by {
                        if addresses(self.set@).contains(a) {
                            let k = choose|k: int|
                                0 <= k < self.set@.len() && self.set@[k].address_spec() == a;
                            if k < p {
                                assert(before[k] == self.set@[k]);
                            } else {
                                assert(before[k + 1] == self.set@[k]);
                            }
                        }
                        if addresses(before).remove(name).contains(a) {
                            let k = choose|k: int|
                                0 <= k < before.len() && before[k].address_spec() == a;
                            if k < p {
                                assert(before[k] == self.set@[k]);
                            } else {
                                assert(before[k] == self.set@[k - 1]);
                            }
                        }
                    }
                    assert(addresses(self.set@) =~= addresses(before).remove(name));
                }
            },
            None => {},
        }
        proof {
            let keys = replica_keys(name, 1);
            assert forall|k: Seq<u8>| keys.contains(k) implies k == ring_key(name) by {
                let i = choose|i: nat| i < 1 && k == md5_digest(replica_ident(name, i));
                assert(i == 0);
            }
            assert(keys.contains(ring_key(name))) by {
                assert(0nat < 1 && ring_key(name) == md5_digest(replica_ident(name, 0)));
            }
            assert(ring_replicas(self.ring) =~= Map::new(
                |a: Seq<char>| self.members().contains(a),
                |a: Seq<char>| 1nat,
            ));
            assert forall|k: Seq<u8>| #[trigger]
                ring_nodes(self.ring).contains_key(k) implies self.members().contains(
                ring_nodes(self.ring)[k],
            ) && k == ring_key(ring_nodes(self.ring)[k]) by {
                assert(old_nodes.contains_key(k));
                assert(ring_nodes(self.ring)[k] == old_nodes[k]);
            }
        }
    }

    /// Puts a new member on the ring and into the membership set.
    fn add_member(&mut self, n: Librarian)
        requires
            old(self).wf(),
            !old(self).members().contains(n.address_spec()),
        ensures
            final(self).wf(),
            final(self).members() == old(self).members().insert(n.address_spec()),
            old(self).ring_consistent() && keys_distinct(final(self).members())
                ==> final(self).ring_consistent(),
    {
        let ghost name = n.address_spec();
        let ghost old_nodes = ring_nodes(self.ring);
        let ghost before = self.set@;
        ring_add(&mut self.ring, &n);
        self.set.push(n);
        proof {
            assert forall|a: Seq<char>|
                addresses(self.set@).contains(a) <==> addresses(before).insert(name).contains(
                    a,
                ) by {
                if addresses(self.set@).contains(a) {
                    let k = choose|k: int|
                        0 <= k < self.set@.len() && self.set@[k].address_spec() == a;
                    if k < before.len() {
                        assert(before[k] == self.set@[k]);
                    }
                }
                if addresses(before).contains(a) {
                    let k = choose|k: int| 0 <= k < before.len() && before[k].address_spec() == a;
                    assert(before[k] == self.set@[k]);
                }
                if a == name {
                    assert(self.set@[before.len() as int].address_spec() == name);
                }
            }
            assert(addresses(self.set@) =~= addresses(before).insert(name));
            assert(ring_replicas(self.ring) =~= Map::new(
                |a: Seq<char>| self.members().contains(a),
                |a: Seq<char>| 1nat,
            ));
            assert forall|k: Seq<u8>| #[trigger]
                ring_nodes(self.ring).contains_key(k) implies self.members().contains(
                ring_nodes(self.ring)[k],
            ) && k == ring_key(ring_nodes(self.ring)[k]) by {
                if k != ring_key(name) {
                    assert(old_nodes.contains_key(k));
                }
            }
        }
    }

    /// Takes the full desired membership list, brings the membership set
    /// and the ring to exactly its addresses, and returns the members that
    /// were removed. Rebalancing what they owned is left to the caller.
    pub fn modify_membership(&mut self, librarians: &[Librarian]) -> (removed: Vec<Librarian>)
        requires
            old(self).wf(),
        ensures
            final(self).wf(),
            final(self).members() == membership_after(librarians@),
            addresses(removed@) == removed_by(old(self).members(), librarians@),
            distinct_addresses(removed@),
            old(self).ring_consistent() && keys_distinct(
                old(self).members().union(membership_after(librarians@)),
            ) ==> final(self).ring_consistent(),
            final(self).ring_consistent() ==> final(self).ring_members_count()
                == final(self).members().len(),
            old(self).members() == membership_after(librarians@) ==> *final(self) == *old(self),
    {
        let ghost start = self.members();
        let ghost target = membership_after(librarians@);
        let new_membership_list = dedup(librarians);
        let removed: Vec<Librarian>;
        let added: Vec<Librarian>;
        if all_contained(&self.set, &new_membership_list) {
            removed = Vec::new();
            added = missing_from(&new_membership_list, &self.set);
            proof {
                assert(addresses(removed@) =~= start.difference(target));
            }
        } else {
            removed = missing_from(&self.set, &new_membership_list);
            added = missing_from(&new_membership_list, &self.set);
        }
        let ghost consistent_at_start = self.ring_consistent();
        let ghost original = *self;
        proof {
            if removed@.len() > 0 {
                assert(addresses(removed@).contains(removed@[0].address_spec()));
            }
            if added@.len() > 0 {
                assert(addresses(added@).contains(added@[0].address_spec()));
            }
        }
        let mut j: usize = 0;
        while j < removed.len()
            invariant
                j <= removed@.len(),
                removed@.len() == 0 ==> *self == original,
                self.wf(),
                distinct_addresses(removed@),
                addresses(removed@) == start.difference(target),
                self.members() == start.difference(addresses(removed@.subrange(0, j as int))),
                consistent_at_start ==> self.ring_consistent(),
            decreases removed@.len() - j,
        {
            proof {
                lemma_addresses_prefix(removed@, j as int);
                assert(addresses(removed@).contains(removed@[j as int].address_spec()));
                assert(!addresses(removed@.subrange(0, j as int)).contains(
                    removed@[j as int].address_spec(),
                )) by {
                    if addresses(removed@.subrange(0, j as int)).contains(
                        removed@[j as int].address_spec(),
                    ) {
                        let k = choose|k: int|
                            0 <= k < j && removed@.subrange(0, j as int)[k].address_spec()
                                == removed@[j as int].address_spec();
                        assert(removed@.subrange(0, j as int)[k] == removed@[k]);
                    }
                }
            }
            self.remove_member(&removed[j]);
            proof {
                assert(self.members() =~= start.difference(
                    addresses(removed@.subrange(0, j + 1)),
                ));
            }
            j = j + 1;
        }
        proof {
            assert(removed@.subrange(0, removed@.len() as int) == removed@);
            assert(self.members() =~= start.intersect(target));
        }
        let mut j: usize = 0;
        while j < added.len()
            invariant
                removed@.len() == 0 && added@.len() == 0 ==> *self == original,
                j <= added@.len(),
                self.wf(),
                distinct_addresses(added@),
                addresses(added@) == target.difference(start),
                self.members() == start.intersect(target).union(
                    addresses(added@.subrange(0, j as int)),
                ),
                consistent_at_start && keys_distinct(start.union(target))
                    ==> self.ring_consistent(),
            decreases added@.len() - j,
        {
            proof {
                lemma_addresses_prefix(added@, j as int);
                assert(addresses(added@).contains(added@[j as int].address_spec()));
                assert(!addresses(added@.subrange(0, j as int)).contains(
                    added@[j as int].address_spec(),
                )) by {
                    if addresses(added@.subrange(0, j as int)).contains(
                        added@[j as int].address_spec(),
                    ) {
                        let k = choose|k: int|
                            0 <= k < j && added@.subrange(0, j as int)[k].address_spec()
                                == added@[j as int].address_spec();
                        assert(added@.subrange(0, j as int)[k] == added@[k]);
                    }
                }
                let next = start.intersect(target).union(addresses(added@.subrange(0, j + 1)));
                assert forall|x: Seq<char>| #[trigger] next.contains(x) implies start.union(
                    target,
                ).contains(x) by {
                    let q = added@.subrange(0, j + 1);
                    if addresses(q).contains(x) {
                        let k = choose|k: int| 0 <= k < q.len() && q[k].address_spec() == x;
                        assert(q[k] == added@[k]);
                        assert(addresses(added@).contains(x));
                    }
                }
                if keys_distinct(start.union(target)) {
                    lemma_keys_distinct_subset(next, start.union(target));
                }
            }
            self.add_member(added[j].clone());
            proof {
                assert(self.members() =~= start.intersect(target).union(
                    addresses(added@.subrange(0, j + 1)),
                ));
            }
            j = j + 1;
        }
        proof {
            assert(added@.subrange(0, added@.len() as int) == added@);
            assert(self.members() =~= target);
            if self.ring_consistent() {
                lemma_ring_count(self);
            }
        }
        removed
    }
}

/// The members are as many as the entries of the membership list.
proof fn lemma_members_count(k: &KnownLibrarians)
    requires
        k.wf(),
    ensures
        k.members().finite(),
        k.members().len() == k.set@.len(),
{
    let names = k.set@.map_values(|l: Librarian| l.address_spec());
    assert forall|a: Seq<char>| k.members().contains(a) <==> names.to_set().contains(a) by {
        if k.members().contains(a) {
            let i = choose|i: int| 0 <= i < k.set@.len() && k.set@[i].address_spec() == a;
            assert(names[i] == a);
        }
        if names.to_set().contains(a) {
            let i = choose|i: int| 0 <= i < names.len() && names[i] == a;
            assert(k.set@[i].address_spec() == a);
        }
    }
    assert(k.members() =~= names.to_set());
    assert(names.no_duplicates()) by {
        assert forall|i: int, j: int| 0 <= i < names.len() && 0 <= j < names.len() && i != j implies names[i] != names[j] by {
            assert(names[i] == k.set@[i].address_spec());
            assert(names[j] == k.set@[j].address_spec());
        }
    }
    names.unique_seq_to_set();
    vstd::seq_lib::seq_to_set_is_finite(names);
}

/// On a consistent ring there are as many virtual nodes as members.
proof fn lemma_ring_count(k: &KnownLibrarians)
    requires
        k.wf(),
        k.ring_consistent(),
    ensures
        k.ring_members_count() == k.members().len(),
{
    lemma_members_count(k);
    let nodes = ring_nodes(k.ring);
    let f = |a: Seq<char>| ring_key(a);
    assert forall|key: Seq<u8>| nodes.dom().contains(key) <==> k.members().map(f).contains(key) by {
        if nodes.dom().contains(key) {
            let a = nodes[key];
            assert(k.members().contains(a) && f(a) == key);
        }
        if k.members().map(f).contains(key) {
            let a = choose|a: Seq<char>| k.members().contains(a) && f(a) == key;
            assert(nodes.contains_key(ring_key(a)));
        }
    }
    assert(nodes.dom() =~= k.members().map(f));
    assert(vstd::relations::injective_on(f, k.members())) by {
        assert forall|x1: Seq<char>, x2: Seq<char>|
            k.members().contains(x1) && k.members().contains(x2) && #[trigger] f(x1) == #[trigger] f(x2) implies x1 == x2 by {
            if x1 != x2 {
                assert(ring_key(x1) != ring_key(x2));
            }
        }
    }
    vstd::set_lib::lemma_map_size(k.members(), nodes.dom(), f);
}

/// Once membership changes have kept the ring consistent (which they do
/// whenever the addresses involved have pairwise distinct ring keys), the
/// shards that ring lookups can reach are exactly the members.
pub proof fn lemma_ring_matches_membership(k: &KnownLibrarians)
    requires
        k.wf(),
        k.ring_consistent(),
    ensures
        k.ring_members() == k.members(),
        k.ring_members_count() == k.members().len(),
{
    lemma_ring_count(k);
    let nodes = ring_nodes(k.ring);
    assert forall|a: Seq<char>| nodes.values().contains(a) <==> k.members().contains(a) by {
        if nodes.values().contains(a) {
            let key = choose|key: Seq<u8>| nodes.contains_key(key) && nodes[key] == a;
        }
        if k.members().contains(a) {
            let key = ring_key(a);
            assert(nodes.contains_key(key));
            let b = nodes[key];
            assert(k.members().contains(b) && key == ring_key(b));
            assert(b == a);
        }
    }
    assert(nodes.values() =~= k.members());
}

/// Minimal disruption: where a change only removes shards, an identifier
/// whose shard stays is still looked up on that shard.
pub proof fn lemma_removal_keeps_owners(
    before: &KnownLibrarians,
    after: &KnownLibrarians,
    id: u128,
    a: Seq<char>,
)
    requires
        before.wf(),
        after.wf(),
        before.ring_consistent(),
        after.ring_consistent(),
        after.members().subset_of(before.members()),
        before.resolves_to(id, a),
        after.members().contains(a),
    ensures
        after.resolves_to(id, a),
        after.owner_of(id) == Some(a),
{
    let nb = ring_nodes(before.ring);
    let na = ring_nodes(after.ring);
    let h = KnownLibrarians::lookup_key(id);
    let k0 = choose|k: Seq<u8>| designates(nb, h, k) && #[trigger] nb[k] == a;
    assert(k0 == ring_key(a));
    assert(na.contains_key(k0));
    let b = na[k0];
    assert(after.members().contains(b) && k0 == ring_key(b));
    if b != a {
        assert(ring_key(a) != ring_key(b));
    }
    assert forall|x: Seq<u8>| #[trigger] na.contains_key(x) implies nb.contains_key(x) by {
        let c = na[x];
        assert(after.members().contains(c) && x == ring_key(c));
        assert(before.members().contains(c));
        assert(nb.contains_key(ring_key(c)));
    }
    assert(designates(na, h, k0));
    assert(after.resolves_to(id, a));
    let c = choose|c: Seq<u8>| designates(na, h, c);
    lemma_designates_unique(na, h, k0, c);
    assert(!na.is_empty()) by {
        assert(na.dom().contains(k0));
    }
}

/// Applying the same membership list a second time removes no member.
pub proof fn lemma_apply_twice_removes_nothing(list: Seq<Librarian>, second_removed: Seq<Librarian>)
    requires
        addresses(second_removed) == removed_by(membership_after(list), list),
    ensures
        second_removed.len() == 0,
{
    if second_removed.len() > 0 {
        assert(addresses(second_removed).contains(second_removed[0].address_spec()));
    }
}

} // verus!
