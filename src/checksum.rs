//! Canonical byte representations of payloads and their seeded 64-bit
//! integrity checksums.
use std::hash::Hasher;
use vstd::prelude::*;
use vstd::slice::slice_to_vec;
use vstd::string::StringExecFns;
use vstd::utf8::encode_utf8;

verus! {

/// What a wyhash hasher seeded with `seed` yields after being fed `bytes`
/// in a single write.
pub uninterp spec fn wyhash_digest(seed: u64, bytes: Seq<u8>) -> u64;

/// Relies on `wyhash::WyHash` (`with_seed`, one `write`, `finish`): the
/// result is a function of the seed and of the bytes alone.
#[verifier::external_body]
fn seeded_digest(seed: u64, bytes: &[u8]) -> (r: u64)
    ensures
        r == wyhash_digest(seed, bytes@),
{
    let mut hasher = wyhash::WyHash::with_seed(seed);
    hasher.write(bytes);
    hasher.finish()
}

/// Error raised while deriving the canonical bytes of a payload.
#[derive(PartialEq, Eq, Structural, Clone, Copy, Debug)]
pub enum NeuromancerError {
    ProtobufDecode,
    ProtobufEncode,
}

impl NeuromancerError {
    pub open spec fn message_spec(&self) -> Seq<char> {
        match self {
            NeuromancerError::ProtobufDecode => "Error decoding protobuf message"@,
            NeuromancerError::ProtobufEncode => "Error encoding protobuf message"@,
        }
    }

    /// A description of the error.
    pub fn message(&self) -> (r: String)
        ensures
            r@ == self.message_spec(),
    {
        match self {
            NeuromancerError::ProtobufDecode => String::from_str("Error decoding protobuf message"),
            NeuromancerError::ProtobufEncode => String::from_str("Error encoding protobuf message"),
        }
    }
}

/// A payload that has a canonical byte representation: its semantically
/// relevant fields, concatenated in a fixed order.
pub trait Hashable {
    /// Whether deriving the canonical bytes fails.
    spec fn encoding_fails(&self) -> bool;

    /// The canonical bytes, where they can be derived.
    spec fn canonical_bytes(&self) -> Seq<u8>;

    /// The error reported where deriving the canonical bytes fails.
    spec fn encoding_error(&self) -> NeuromancerError;

    fn bytes(&self) -> (r: Result<Vec<u8>, NeuromancerError>)
        ensures
            match r {
                Ok(b) => !self.encoding_fails() && b@ == self.canonical_bytes(),
                Err(e) => self.encoding_fails() && e == self.encoding_error(),
            },
    ;
}

/// The checksum of `payload` under `seed`, where its canonical bytes can be derived.
pub open spec fn checksum_spec<T: Hashable>(payload: &T, seed: u64) -> Option<u64> {
    if payload.encoding_fails() {
        None
    } else {
        Some(wyhash_digest(seed, payload.canonical_bytes()))
    }
}

/// A payload whose integrity can be checked with a seeded 64-bit token.
pub trait Checksummable {
    spec fn checksum_of(&self, seed: u64) -> Option<u64>;

    /// The error reported where no checksum can be computed.
    spec fn checksum_error(&self) -> NeuromancerError;

    fn checksum(&self, seed: u64) -> (r: Result<u64, NeuromancerError>)
        ensures
            match self.checksum_of(seed) {
                Some(v) => r == Ok::<u64, NeuromancerError>(v),
                None => r == Err::<u64, NeuromancerError>(self.checksum_error()),
            },
    ;
}

impl<T: Hashable> Checksummable for T {
    open spec fn checksum_of(&self, seed: u64) -> Option<u64> {
        checksum_spec(self, seed)
    }

    open spec fn checksum_error(&self) -> NeuromancerError {
        self.encoding_error()
    }

    fn checksum(&self, seed: u64) -> (r: Result<u64, NeuromancerError>) {
        match self.bytes() {
            Ok(b) => Ok(seeded_digest(seed, b.as_slice())),
            Err(e) => Err(e),
        }
    }
}

impl Hashable for String {
    open spec fn encoding_fails(&self) -> bool {
        false
    }

    open spec fn canonical_bytes(&self) -> Seq<u8> {
        encode_utf8(self@)
    }

    open spec fn encoding_error(&self) -> NeuromancerError {
        NeuromancerError::ProtobufEncode
    }

    fn bytes(&self) -> (r: Result<Vec<u8>, NeuromancerError>) {
        let b = self.as_str().as_bytes();
        Ok(slice_to_vec(b))
    }
}

/// Whether the encoding of some item of a list fails.
pub open spec fn list_fails<T: Hashable>(items: Seq<T>) -> bool
    decreases items.len(),
{
    if items.len() == 0 {
        false
    } else {
        list_fails(items.drop_last()) || items.last().encoding_fails()
    }
}

/// The error of the first item of a list whose encoding fails.
pub open spec fn list_error<T: Hashable>(items: Seq<T>) -> NeuromancerError
    decreases items.len(),
{
    if items.len() == 0 {
        NeuromancerError::ProtobufEncode
    } else if list_fails(items.drop_last()) {
        list_error(items.drop_last())
    } else {
        items.last().encoding_error()
    }
}

/// The canonical bytes of a list: those of its items, in order.
pub open spec fn concat_canonical<T: Hashable>(items: Seq<T>) -> Seq<u8>
    decreases items.len(),
{
    if items.len() == 0 {
        Seq::empty()
    } else {
        concat_canonical(items.drop_last()) + items.last().canonical_bytes()
    }
}

/// Once a prefix of a list fails, the list fails with the prefix's error.
proof fn lemma_list_fails_prefix<T: Hashable>(items: Seq<T>, n: int)
    requires
        0 <= n <= items.len(),
        list_fails(items.subrange(0, n)),
    ensures
        list_fails(items),
        list_error(items) == list_error(items.subrange(0, n)),
    decreases items.len() - n,
{
    if n < items.len() {
        assert(items.subrange(0, n + 1).drop_last() == items.subrange(0, n));
        lemma_list_fails_prefix(items, n + 1);
    } else {
        assert(items.subrange(0, n) == items);
    }
}

/// The encoding of a list of strings never fails.
pub proof fn lemma_strings_never_fail(items: Seq<String>)
    ensures
        !list_fails(items),
    decreases items.len(),
{
    if items.len() > 0 {
        lemma_strings_never_fail(items.drop_last());
    }
}

impl<T: Hashable> Hashable for Vec<T> {
    open spec fn encoding_fails(&self) -> bool {
        list_fails(self@)
    }

    open spec fn canonical_bytes(&self) -> Seq<u8> {
        concat_canonical(self@)
    }

    open spec fn encoding_error(&self) -> NeuromancerError {
        list_error(self@)
    }

    fn bytes(&self) -> (r: Result<Vec<u8>, NeuromancerError>) {
        let mut result: Vec<u8> = Vec::new();
        let mut i: usize = 0;
        while i < self.len()
            invariant
                i <= self@.len(),
                !list_fails(self@.subrange(0, i as int)),
                result@ == concat_canonical(self@.subrange(0, i as int)),
            decreases self@.len() - i,
        {
            proof {
                assert(self@.subrange(0, i + 1).drop_last() == self@.subrange(0, i as int));
            }
            match self[i].bytes() {
                Ok(b) => {
                    let mut b = b;
                    result.append(&mut b);
                },
                Err(e) => {
                    proof {
                        lemma_list_fails_prefix(self@, i + 1);
                    }
                    return Err(e);
                },
            }
            i = i + 1;
        }
        proof {
            assert(self@.subrange(0, self@.len() as int) == self@);
        }
        Ok(result)
    }
}

/// Checksums are a function of the seed and of the canonical bytes: two
/// payloads with the same canonical bytes, or one payload checksummed twice,
/// get the same value under one seed.
pub proof fn lemma_checksum_deterministic<T: Hashable>(x: &T, y: &T, seed: u64)
    requires
        x.encoding_fails() == y.encoding_fails(),
        x.canonical_bytes() == y.canonical_bytes(),
    ensures
        x.checksum_of(seed) == y.checksum_of(seed),
{
}

pub assume_specification<T>[ rand::random::<T> ]() -> (r: T)
    where
        rand::distributions::Standard: rand::distributions::Distribution<T>,
;

/// A fresh random seed for the checksums of one process.
pub fn random_seed() -> u64 {
    rand::random::<u64>()
}

/// The little-endian bytes of a 64-bit value.
pub open spec fn le_u64(v: u64) -> Seq<u8> {
    seq![
        #[verifier::truncate] (v as u8),
        #[verifier::truncate] ((v >> 8u64) as u8),
        #[verifier::truncate] ((v >> 16u64) as u8),
        #[verifier::truncate] ((v >> 24u64) as u8),
        #[verifier::truncate] ((v >> 32u64) as u8),
        #[verifier::truncate] ((v >> 40u64) as u8),
        #[verifier::truncate] ((v >> 48u64) as u8),
        #[verifier::truncate] ((v >> 56u64) as u8),
    ]
}

/// The little-endian bytes of a 32-bit value.
pub open spec fn le_u32(v: u32) -> Seq<u8> {
    seq![
        #[verifier::truncate] (v as u8),
        #[verifier::truncate] ((v >> 8u32) as u8),
        #[verifier::truncate] ((v >> 16u32) as u8),
        #[verifier::truncate] ((v >> 24u32) as u8),
    ]
}

/// Appends the bytes of a string.
fn push_str_bytes(out: &mut Vec<u8>, s: &String)
    ensures
        final(out)@ == old(out)@ + encode_utf8(s@),
{
    let mut b = slice_to_vec(s.as_str().as_bytes());
    out.append(&mut b);
}

/// A key and its value.
pub struct MapEntry {
    pub key: String,
    pub value: String,
}

impl Hashable for MapEntry {
    open spec fn encoding_fails(&self) -> bool {
        false
    }

    open spec fn canonical_bytes(&self) -> Seq<u8> {
        encode_utf8(self.key@) + encode_utf8(self.value@)
    }

    open spec fn encoding_error(&self) -> NeuromancerError {
        NeuromancerError::ProtobufEncode
    }

    fn bytes(&self) -> (r: Result<Vec<u8>, NeuromancerError>) {
        let mut result: Vec<u8> = Vec::new();
        push_str_bytes(&mut result, &self.key);
        push_str_bytes(&mut result, &self.value);
        Ok(result)
    }
}

/// A key and the values reduced under it.
pub struct Reduction {
    pub key: String,
    pub values: Vec<String>,
}

impl Hashable for Reduction {
    open spec fn encoding_fails(&self) -> bool {
        self.values.encoding_fails()
    }

    open spec fn canonical_bytes(&self) -> Seq<u8> {
        encode_utf8(self.key@) + concat_canonical(self.values@)
    }

    open spec fn encoding_error(&self) -> NeuromancerError {
        self.values.encoding_error()
    }

    fn bytes(&self) -> (r: Result<Vec<u8>, NeuromancerError>) {
        let mut result: Vec<u8> = Vec::new();
        push_str_bytes(&mut result, &self.key);
        let mut b = self.values.bytes()?;
        result.append(&mut b);
        Ok(result)
    }
}

/// The progress of a run: its status code and the time it has taken.
pub struct RunProgression {
    pub status: i32,
    pub time_taken: u64,
}

impl Hashable for RunProgression {
    open spec fn encoding_fails(&self) -> bool {
        false
    }

    open spec fn encoding_error(&self) -> NeuromancerError {
        NeuromancerError::ProtobufEncode
    }

    open spec fn canonical_bytes(&self) -> Seq<u8> {
        le_u32(#[verifier::truncate] (self.status as u32)) + le_u64(self.time_taken)
    }

    fn bytes(&self) -> (r: Result<Vec<u8>, NeuromancerError>) {
        let mut result: Vec<u8> = Vec::new();
        let s = #[verifier::truncate] (self.status as u32);
        result.push(#[verifier::truncate] (s as u8));
        result.push(#[verifier::truncate] ((s >> 8u32) as u8));
        result.push(#[verifier::truncate] ((s >> 16u32) as u8));
        result.push(#[verifier::truncate] ((s >> 24u32) as u8));
        let t = self.time_taken;
        result.push(#[verifier::truncate] (t as u8));
        result.push(#[verifier::truncate] ((t >> 8u64) as u8));
        result.push(#[verifier::truncate] ((t >> 16u64) as u8));
        result.push(#[verifier::truncate] ((t >> 24u64) as u8));
        result.push(#[verifier::truncate] ((t >> 32u64) as u8));
        result.push(#[verifier::truncate] ((t >> 40u64) as u8));
        result.push(#[verifier::truncate] ((t >> 48u64) as u8));
        result.push(#[verifier::truncate] ((t >> 56u64) as u8));
        proof {
            assert(result@ =~= le_u32(s) + le_u64(t));
        }
        Ok(result)
    }
}

/// The 64-bit value of eight bytes, most significant first.
pub open spec fn be_u64(b: Seq<u8>) -> u64 {
    ((b[0] as u64) << 56u64) | ((b[1] as u64) << 48u64) | ((b[2] as u64) << 40u64) | ((
    b[3] as u64) << 32u64) | ((b[4] as u64) << 24u64) | ((b[5] as u64) << 16u64) | ((
    b[6] as u64) << 8u64) | (b[7] as u64)
}

/// Reads a checksum field: eight bytes, most significant first.
pub fn decode_checksum(b: &[u8]) -> (r: u64)
    requires
        b@.len() == 8,
    ensures
        r == be_u64(b@),
{
    ((b[0] as u64) << 56u64) | ((b[1] as u64) << 48u64) | ((b[2] as u64) << 40u64) | ((
    b[3] as u64) << 32u64) | ((b[4] as u64) << 24u64) | ((b[5] as u64) << 16u64) | ((
    b[6] as u64) << 8u64) | (b[7] as u64)
}

/// The eight bytes of a 64-bit value, most significant first.
pub open spec fn be_bytes(v: u64) -> Seq<u8> {
    seq![
        #[verifier::truncate] ((v >> 56u64) as u8),
        #[verifier::truncate] ((v >> 48u64) as u8),
        #[verifier::truncate] ((v >> 40u64) as u8),
        #[verifier::truncate] ((v >> 32u64) as u8),
        #[verifier::truncate] ((v >> 24u64) as u8),
        #[verifier::truncate] ((v >> 16u64) as u8),
        #[verifier::truncate] ((v >> 8u64) as u8),
        #[verifier::truncate] (v as u8),
    ]
}

/// Writes a checksum field: eight bytes, most significant first.
pub fn encode_checksum(v: u64) -> (r: Vec<u8>)
    ensures
        r@ == be_bytes(v),
{
    let mut r: Vec<u8> = Vec::new();
    r.push(#[verifier::truncate] ((v >> 56u64) as u8));
    r.push(#[verifier::truncate] ((v >> 48u64) as u8));
    r.push(#[verifier::truncate] ((v >> 40u64) as u8));
    r.push(#[verifier::truncate] ((v >> 32u64) as u8));
    r.push(#[verifier::truncate] ((v >> 24u64) as u8));
    r.push(#[verifier::truncate] ((v >> 16u64) as u8));
    r.push(#[verifier::truncate] ((v >> 8u64) as u8));
    r.push(#[verifier::truncate] (v as u8));
    proof {
        assert(r@ =~= be_bytes(v));
    }
    r
}

/// Reading back a written checksum field gives the value written.
pub proof fn lemma_checksum_field_round_trip(v: u64)
    ensures
        be_u64(be_bytes(v)) == v,
{
    let b = be_bytes(v);
    assert(be_u64(b) == ((((v >> 56u64) as u8) as u64) << 56u64) | ((((v >> 48u64) as u8) as u64)
        << 48u64) | ((((v >> 40u64) as u8) as u64) << 40u64) | ((((v >> 32u64) as u8) as u64)
        << 32u64) | ((((v >> 24u64) as u8) as u64) << 24u64) | ((((v >> 16u64) as u8) as u64)
        << 16u64) | ((((v >> 8u64) as u8) as u64) << 8u64) | ((v as u8) as u64));
    assert(((((v >> 56u64) as u8) as u64) << 56u64) | ((((v >> 48u64) as u8) as u64) << 48u64)
        | ((((v >> 40u64) as u8) as u64) << 40u64) | ((((v >> 32u64) as u8) as u64) << 32u64)
        | ((((v >> 24u64) as u8) as u64) << 24u64) | ((((v >> 16u64) as u8) as u64) << 16u64)
        | ((((v >> 8u64) as u8) as u64) << 8u64) | ((v as u8) as u64) == v) by (bit_vector);
}

} // verus!
