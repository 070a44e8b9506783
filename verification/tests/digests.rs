use std::collections::hash_map::DefaultHasher;
use std::hash::Hasher;

use wsrelay::crypto::{
    derive_keys, generate_digest_from_str, join_sealed, random_u64_string, siphash_1_3,
    split_sealed, u64_text_from_bytes, SealError,
};
use wsrelay::random::get_random_bytes;

fn reference_hash(parts: &[&[u8]]) -> [u8; 8] {
    let mut h = DefaultHasher::new();
    for p in parts {
        h.write(p);
    }
    h.finish().to_be_bytes()
}

#[test]
fn siphash_agrees_with_the_standard_hasher() {
    let data: Vec<u8> = (0..64u8).collect();
    for n in 0..=64 {
        let mut h = DefaultHasher::new();
        h.write(&data[..n]);
        assert_eq!(siphash_1_3(&data[..n], 0, 0), h.finish(), "length {}", n);
    }
}

#[test]
fn siphash_depends_on_its_key() {
    assert_ne!(siphash_1_3(b"relay", 0, 0), siphash_1_3(b"relay", 1, 0));
    assert_ne!(siphash_1_3(b"relay", 0, 0), siphash_1_3(b"relay", 0, 1));
}

#[test]
fn digests_chain_their_shards() {
    let digest = generate_digest_from_str("net", "secret", 24);
    let first = reference_hash(&[b"netsecret"]);
    let second = reference_hash(&[b"netsecret", &first]);
    let mut two = first.to_vec();
    two.extend_from_slice(&second);
    let third = reference_hash(&[b"netsecret", &first, &two]);
    assert_eq!(&digest[..8], &first);
    assert_eq!(&digest[8..16], &second);
    assert_eq!(&digest[16..], &third);
}

#[test]
fn longer_digests_begin_with_shorter_ones() {
    let short = generate_digest_from_str("a", "b", 8);
    let long = generate_digest_from_str("a", "b", 32);
    assert_eq!(long.len(), 32);
    assert_eq!(&long[..8], &short[..]);
}

#[test]
fn keys_are_derived_from_the_secret() {
    let keys = derive_keys("secret");
    assert_eq!(keys.key128, generate_digest_from_str("secret", "", 16));
    let label: &[u8] = b"secreteasytier-256bit-key";
    let c0 = reference_hash(&[label, &[0]]);
    let c1 = reference_hash(&[label, &[0], &c0, &[1]]);
    let mut k01 = c0.to_vec();
    k01.extend_from_slice(&c1);
    let c2 = reference_hash(&[label, &[0], &c0, &[1], &k01, &[2]]);
    let mut k012 = k01.clone();
    k012.extend_from_slice(&c2);
    let c3 = reference_hash(&[label, &[0], &c0, &[1], &k01, &[2], &k012, &[3]]);
    let mut key256 = k012.clone();
    key256.extend_from_slice(&c3);
    assert_eq!(keys.key256, key256);
}

#[test]
fn random_numbers_are_written_in_decimal() {
    assert_eq!(u64_text_from_bytes(&[0, 0, 0, 0, 0, 0, 1, 2]), "258");
    assert_eq!(u64_text_from_bytes(&[255; 8]), "18446744073709551615");
    assert_eq!(u64_text_from_bytes(&[0; 8]), "0");
    let text = random_u64_string().unwrap();
    assert!(text.parse::<u64>().is_ok());
}

#[test]
fn random_bytes_are_drawn() {
    assert_eq!(get_random_bytes(0).unwrap().len(), 0);
    let a = get_random_bytes(32).unwrap();
    let b = get_random_bytes(32).unwrap();
    assert_eq!(a.len(), 32);
    assert_ne!(a, vec![0u8; 32]);
    assert_ne!(a, b);
}

#[test]
fn sealed_payloads_split_into_their_parts() {
    let text: Vec<u8> = (0..20).collect();
    let nonce: Vec<u8> = (100..112).collect();
    let payload = join_sealed(text.clone(), &nonce);
    assert_eq!(payload.len(), 32);
    assert_eq!(split_sealed(&payload), Ok((text, nonce)));
}

#[test]
fn sealed_payloads_can_be_too_short() {
    let r = split_sealed(&[0u8; 27]);
    assert_eq!(r, Err(SealError::TooShort(27)));
    assert_eq!(r.unwrap_err().message(), "encrypted payload too short: 27");
    let (text, nonce) = split_sealed(&[1u8; 28]).unwrap();
    assert_eq!(text.len(), 16);
    assert_eq!(nonce.len(), 12);
}
