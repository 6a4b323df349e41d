//! The hashing capability: one digest function per supported strategy, the
//! pairwise combination of two digests, and the reduction of an ordered list
//! of digests to a single one.

use vstd::prelude::*;

verus! {

/// The digest that BLAKE3 assigns to a byte sequence.
pub uninterp spec fn blake3_of(bytes: Seq<u8>) -> Seq<u8>;

/// The digest that SHA-256 assigns to a byte sequence.
pub uninterp spec fn sha256_of(bytes: Seq<u8>) -> Seq<u8>;

/// The digest that SHA-512 assigns to a byte sequence.
pub uninterp spec fn sha512_of(bytes: Seq<u8>) -> Seq<u8>;

/// Relies on blake3::hash: a 32-byte digest that depends on the input bytes
/// alone.
#[verifier::external_body]
fn blake3_digest(bytes: &[u8]) -> (r: Vec<u8>)
    ensures
        r@ == blake3_of(bytes@),
        r@.len() == 32,
{
    blake3::hash(bytes).as_bytes().to_vec()
}

/// Relies on blake3::Hasher::{new, update, finalize}: updating with two
/// slices in turn digests their concatenation, exactly as one blake3::hash
/// call over the concatenated bytes would.
#[verifier::external_body]
fn blake3_digest_pair(first: &[u8], second: &[u8]) -> (r: Vec<u8>)
    ensures
        r@ == blake3_of(first@ + second@),
        r@.len() == 32,
{
    let mut hasher = blake3::Hasher::new();
    hasher.update(first);
    hasher.update(second);
    hasher.finalize().as_bytes().to_vec()
}

/// Relies on sha2::Sha256 through the Digest trait: a 32-byte digest that
/// depends on the input bytes alone.
#[verifier::external_body]
fn sha256_digest(bytes: &[u8]) -> (r: Vec<u8>)
    ensures
        r@ == sha256_of(bytes@),
        r@.len() == 32,
{
    let mut hasher = <sha2::Sha256 as sha2::Digest>::new();
    sha2::Digest::update(&mut hasher, bytes);
    sha2::Digest::finalize(hasher).to_vec()
}

/// Relies on sha2::Sha256: feeding two slices in turn digests their
/// concatenation, exactly as one update with the concatenated bytes would.
#[verifier::external_body]
fn sha256_digest_pair(first: &[u8], second: &[u8]) -> (r: Vec<u8>)
    ensures
        r@ == sha256_of(first@ + second@),
        r@.len() == 32,
{
    let mut hasher = <sha2::Sha256 as sha2::Digest>::new();
    sha2::Digest::update(&mut hasher, first);
    sha2::Digest::update(&mut hasher, second);
    sha2::Digest::finalize(hasher).to_vec()
}

/// Relies on sha2::Sha512 through the Digest trait: a 64-byte digest that
/// depends on the input bytes alone.
#[verifier::external_body]
fn sha512_digest(bytes: &[u8]) -> (r: Vec<u8>)
    ensures
        r@ == sha512_of(bytes@),
        r@.len() == 64,
{
    let mut hasher = <sha2::Sha512 as sha2::Digest>::new();
    sha2::Digest::update(&mut hasher, bytes);
    sha2::Digest::finalize(hasher).to_vec()
}

/// Relies on sha2::Sha512: feeding two slices in turn digests their
/// concatenation, exactly as one update with the concatenated bytes would.
#[verifier::external_body]
fn sha512_digest_pair(first: &[u8], second: &[u8]) -> (r: Vec<u8>)
    ensures
        r@ == sha512_of(first@ + second@),
        r@.len() == 64,
{
    let mut hasher = <sha2::Sha512 as sha2::Digest>::new();
    sha2::Digest::update(&mut hasher, first);
    sha2::Digest::update(&mut hasher, second);
    sha2::Digest::finalize(hasher).to_vec()
}

/// The hashing strategies a tree can be built with.  One tree uses exactly
/// one strategy for its whole lifetime.
#[derive(Clone, Copy, Debug, PartialEq, Eq, Structural)]
pub enum Algorithm {
    /// The BLAKE3 hashing algorithm (32-byte digests, the default).
    Blake3,
    /// The SHA-256 hashing algorithm (32-byte digests).
    Sha256,
    /// The SHA-512 hashing algorithm (64-byte digests).
    Sha512,
}

impl Default for Algorithm {
    /// The default strategy is BLAKE3.
    fn default() -> (r: Self)
        ensures
            r == Algorithm::Blake3,
    {
        Algorithm::Blake3
    }
}

/// The digest width of a strategy, in bytes.
pub open spec fn hash_len(alg: Algorithm) -> int {
    match alg {
        Algorithm::Blake3 => 32,
        Algorithm::Sha256 => 32,
        Algorithm::Sha512 => 64,
    }
}

/// The digest a strategy assigns to a byte sequence.
pub open spec fn hash_of(alg: Algorithm, bytes: Seq<u8>) -> Seq<u8> {
    match alg {
        Algorithm::Blake3 => blake3_of(bytes),
        Algorithm::Sha256 => sha256_of(bytes),
        Algorithm::Sha512 => sha512_of(bytes),
    }
}

/// The pairwise combination of two digests: the digest of their
/// concatenation, in the order given.  Not assumed commutative.
pub open spec fn combine_of(alg: Algorithm, a: Seq<u8>, b: Seq<u8>) -> Seq<u8> {
    hash_of(alg, a + b)
}

/// One reduction level of the pairwise combiner: consecutive pairs are
/// combined in original order, and a final unpaired element is paired with
/// itself.
pub open spec fn reduce_pairs(alg: Algorithm, hs: Seq<Seq<u8>>) -> Seq<Seq<u8>>
    decreases hs.len(),
{
    if hs.len() == 0 {
        Seq::empty()
    } else if hs.len() == 1 {
        seq![combine_of(alg, hs[0], hs[0])]
    } else {
        seq![combine_of(alg, hs[0], hs[1])] + reduce_pairs(alg, hs.skip(2))
    }
}

pub proof fn lemma_reduce_pairs_len(alg: Algorithm, hs: Seq<Seq<u8>>)
    ensures
        reduce_pairs(alg, hs).len() == (hs.len() + 1) / 2,
    decreases hs.len(),
{
    if hs.len() >= 2 {
        lemma_reduce_pairs_len(alg, hs.skip(2));
    }
}

/// The reduction of an ordered list of digests to a single digest: nothing
/// for an empty list, the digest itself for a single one, and otherwise
/// repeated pairwise reduction levels until one digest remains.
pub open spec fn combine_all(alg: Algorithm, hs: Seq<Seq<u8>>) -> Option<Seq<u8>>
    decreases hs.len() via combine_all_decreases
{
    if hs.len() == 0 {
        None
    } else if hs.len() == 1 {
        Some(hs[0])
    } else {
        combine_all(alg, reduce_pairs(alg, hs))
    }
}

#[via_fn]
proof fn combine_all_decreases(alg: Algorithm, hs: Seq<Seq<u8>>) {
    if hs.len() >= 2 {
        lemma_reduce_pairs_len(alg, hs);
    }
}

/// The views of a list of digest vectors.
pub open spec fn digests_of(hs: Seq<Vec<u8>>) -> Seq<Seq<u8>> {
    Seq::new(hs.len(), |i: int| hs[i]@)
}

proof fn lemma_reduce_pairs_snoc_pair(alg: Algorithm, s: Seq<Seq<u8>>, i: int)
    requires
        0 <= i,
        i % 2 == 0,
        i + 2 <= s.len(),
    ensures
        reduce_pairs(alg, s.take(i + 2)) =~= reduce_pairs(alg, s.take(i)).push(
            combine_of(alg, s[i], s[i + 1]),
        ),
    decreases i,
{
    if i == 0 {
        assert(s.take(2).skip(2) =~= Seq::<Seq<u8>>::empty());
        assert(s.take(0) =~= Seq::<Seq<u8>>::empty());
    } else {
        assert(s.take(i + 2).skip(2) =~= s.skip(2).take(i));
        assert(s.take(i).skip(2) =~= s.skip(2).take(i - 2));
        lemma_reduce_pairs_snoc_pair(alg, s.skip(2), i - 2);
    }
}

proof fn lemma_reduce_pairs_snoc_single(alg: Algorithm, s: Seq<Seq<u8>>, i: int)
    requires
        0 <= i,
        i % 2 == 0,
        i + 1 == s.len(),
    ensures
        reduce_pairs(alg, s) =~= reduce_pairs(alg, s.take(i)).push(combine_of(alg, s[i], s[i])),
    decreases i,
{
    if i == 0 {
        assert(s.take(0) =~= Seq::<Seq<u8>>::empty());
    } else {
        assert(s.take(i).skip(2) =~= s.skip(2).take(i - 2));
        lemma_reduce_pairs_snoc_single(alg, s.skip(2), i - 2);
    }
}

impl Algorithm {
    /// Computes a digest from a slice of bytes.
    pub fn compute_hash(&self, bytes: &[u8]) -> (r: Vec<u8>)
        ensures
            r@ == hash_of(*self, bytes@),
            r@.len() == hash_len(*self),
    {
        match self {
            Algorithm::Blake3 => blake3_digest(bytes),
            Algorithm::Sha256 => sha256_digest(bytes),
            Algorithm::Sha512 => sha512_digest(bytes),
        }
    }

    /// Computes a single digest from two slices of bytes, combined in the
    /// order given.
    pub fn compute_hash_from_slices(&self, first_slice: &[u8], second_slice: &[u8]) -> (r: Vec<
        u8,
    >)
        ensures
            r@ == combine_of(*self, first_slice@, second_slice@),
            r@.len() == hash_len(*self),
    {
        match self {
            Algorithm::Blake3 => blake3_digest_pair(first_slice, second_slice),
            Algorithm::Sha256 => sha256_digest_pair(first_slice, second_slice),
            Algorithm::Sha512 => sha512_digest_pair(first_slice, second_slice),
        }
    }

    /// Reduces an ordered list of digests to a single digest by repeated
    /// pairwise combination.
    ///
    /// - If the provided list is empty, returns nothing.
    /// - If the list holds a single digest, returns that digest unchanged.
    pub fn compute_merkle_hash(&self, hashes: &Vec<Vec<u8>>) -> (r: Option<Vec<u8>>)
        ensures
            match r {
                None => hashes@.len() == 0,
                Some(h) => combine_all(*self, digests_of(hashes@)) == Some(h@),
            },
        decreases hashes@.len(),
    {
        let ghost dv = digests_of(hashes@);
        let n = hashes.len();
        if n == 0 {
            return None;
        }
        if n == 1 {
            let h = vstd::slice::slice_to_vec(hashes[0].as_slice());
            return Some(h);
        }
        let mut next: Vec<Vec<u8>> = Vec::new();
        let mut i: usize = 0;
        while i + 1 < n
            invariant
                i % 2 == 0,
                i <= n,
                n == hashes@.len(),
                n >= 2,
                dv == digests_of(hashes@),
                digests_of(next@) =~= reduce_pairs(*self, dv.take(i as int)),
            decreases n - i,
        {
            let h = self.compute_hash_from_slices(
                hashes[i].as_slice(),
                hashes[i + 1].as_slice(),
            );
            next.push(h);
            proof {
                lemma_reduce_pairs_snoc_pair(*self, dv, i as int);
                assert(digests_of(next@) =~= reduce_pairs(*self, dv.take(i + 2 as int)));
            }
            i = i + 2;
        }
        if i < n {
            let h = self.compute_hash_from_slices(hashes[i].as_slice(), hashes[i].as_slice());
            next.push(h);
            proof {
                lemma_reduce_pairs_snoc_single(*self, dv, i as int);
                assert(dv.take(n as int) =~= dv);
                assert(digests_of(next@) =~= reduce_pairs(*self, dv));
            }
        } else {
            proof {
                assert(dv.take(n as int) =~= dv);
                assert(digests_of(next@) =~= reduce_pairs(*self, dv));
            }
        }
        proof {
            lemma_reduce_pairs_len(*self, dv);
        }
        self.compute_merkle_hash(&next)
    }
}

/// A single digest is returned unchanged by the combiner: reducing the
/// one-element list yields exactly that digest.
pub proof fn lemma_combine_all_single(alg: Algorithm, x: Seq<u8>)
    ensures
        combine_all(alg, seq![x]) == Some(x),
{
}

/// Reducing three digests combines the first two, pairs the odd last one
/// with itself, and then combines the two results: it never pads with a
/// zero digest and never drops the unpaired element.
pub proof fn lemma_combine_all_three(alg: Algorithm, a: Seq<u8>, b: Seq<u8>, c: Seq<u8>)
    ensures
        combine_all(alg, seq![a, b, c]) == Some(
            combine_of(alg, combine_of(alg, a, b), combine_of(alg, c, c)),
        ),
{
    let s = seq![a, b, c];
    let ab = combine_of(alg, a, b);
    let cc = combine_of(alg, c, c);
    let t = seq![ab, cc];
    assert(s.skip(2) =~= seq![c]);
    assert(reduce_pairs(alg, seq![c]) =~= seq![cc]);
    assert(reduce_pairs(alg, s) =~= t);
    assert(combine_all(alg, s) == combine_all(alg, t));
    assert(t.skip(2) =~= Seq::<Seq<u8>>::empty());
    assert(reduce_pairs(alg, Seq::<Seq<u8>>::empty()) =~= Seq::<Seq<u8>>::empty());
    assert(reduce_pairs(alg, t) =~= seq![combine_of(alg, ab, cc)]);
    assert(combine_all(alg, t) == combine_all(alg, seq![combine_of(alg, ab, cc)]));
    lemma_combine_all_single(alg, combine_of(alg, ab, cc));
}

} // verus!
