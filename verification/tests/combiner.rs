use merkle_hash::Algorithm;

fn b3(bytes: &[u8]) -> Vec<u8> {
    blake3::hash(bytes).as_bytes().to_vec()
}

#[test]
fn empty_digest_list_combines_to_nothing() {
    assert!(Algorithm::Blake3.compute_merkle_hash(&vec![]).is_none());
}

#[test]
fn single_digest_is_returned_unchanged() {
    let a = b3(b"a");
    assert_eq!(Algorithm::Blake3.compute_merkle_hash(&vec![a.clone()]), Some(a));
}

#[test]
fn three_digests_duplicate_the_odd_one() {
    let alg = Algorithm::Blake3;
    let a = b3(b"a");
    let b = b3(b"b");
    let c = b3(b"c");
    let ab = alg.compute_hash_from_slices(&a, &b);
    let cc = alg.compute_hash_from_slices(&c, &c);
    let expect = alg.compute_hash_from_slices(&ab, &cc);
    assert_eq!(alg.compute_merkle_hash(&vec![a, b, c]), Some(expect));
}

#[test]
fn four_digests_reduce_in_two_levels() {
    let alg = Algorithm::Blake3;
    let a = b3(b"a");
    let b = b3(b"b");
    let c = b3(b"c");
    let d = b3(b"d");
    let ab = alg.compute_hash_from_slices(&a, &b);
    let cd = alg.compute_hash_from_slices(&c, &d);
    let expect = alg.compute_hash_from_slices(&ab, &cd);
    assert_eq!(alg.compute_merkle_hash(&vec![a, b, c, d]), Some(expect));
}

#[test]
fn combiner_is_order_sensitive() {
    let alg = Algorithm::Blake3;
    let a = b3(b"a");
    let b = b3(b"b");
    let ab = alg.compute_merkle_hash(&vec![a.clone(), b.clone()]);
    let ba = alg.compute_merkle_hash(&vec![b, a]);
    assert_ne!(ab, ba);
}

#[test]
fn compute_hash_matches_blake3() {
    assert_eq!(
        Algorithm::Blake3.compute_hash(b"hello world"),
        blake3::hash(b"hello world").as_bytes().to_vec()
    );
}

#[test]
fn compute_hash_matches_sha256() {
    let mut h = <sha2::Sha256 as sha2::Digest>::new();
    sha2::Digest::update(&mut h, b"abc");
    let expect = sha2::Digest::finalize(h).to_vec();
    let got = Algorithm::Sha256.compute_hash(b"abc");
    assert_eq!(got, expect);
    assert_eq!(got.len(), 32);
}

#[test]
fn compute_hash_matches_sha512() {
    let mut h = <sha2::Sha512 as sha2::Digest>::new();
    sha2::Digest::update(&mut h, b"abc");
    let expect = sha2::Digest::finalize(h).to_vec();
    let got = Algorithm::Sha512.compute_hash(b"abc");
    assert_eq!(got, expect);
    assert_eq!(got.len(), 64);
}

#[test]
fn pair_digest_is_digest_of_concatenation() {
    for alg in [Algorithm::Blake3, Algorithm::Sha256, Algorithm::Sha512] {
        assert_eq!(
            alg.compute_hash_from_slices(b"foo", b"bar"),
            alg.compute_hash(b"foobar")
        );
    }
}

#[test]
fn pair_digest_is_not_commutative() {
    let alg = Algorithm::Blake3;
    assert_ne!(
        alg.compute_hash_from_slices(b"foo", b"bar"),
        alg.compute_hash_from_slices(b"bar", b"foo")
    );
}

#[test]
fn default_algorithm_is_blake3() {
    assert_eq!(Algorithm::default(), Algorithm::Blake3);
}
