//! The library against the Soroban host: address encoding, commitment hashing,
//! the host's coin.
use arena::addr::{from_xdr, same_addr, to_xdr, Addr};
use arena::crypto::{build_preimage, coin_from, commitment_digest};
use arena::types::Choice;
use soroban_sdk::testutils::Address as _;
use soroban_sdk::xdr::ToXdr;
use soroban_sdk::{Address, Bytes, Env};

fn bytes_of(b: &Bytes) -> Vec<u8> {
    let mut v = vec![0u8; b.len() as usize];
    b.copy_into_slice(&mut v);
    v
}

#[test]
fn contract_address_xdr_matches_host() {
    let env = Env::default();
    let a = Address::generate(&env);
    let host = bytes_of(&a.clone().to_xdr(&env));
    assert_eq!(host.len(), 40);
    assert_eq!(&host[..8], &[0, 0, 0, 18, 0, 0, 0, 1]);
    let mut key = [0u8; 32];
    key.copy_from_slice(&host[8..40]);
    assert_eq!(to_xdr(&Addr::Contract(key)), host);
}

#[test]
fn account_address_xdr_matches_host() {
    let env = Env::default();
    let a = Address::from_str(&env, "GA7QYNF7SOWQ3GLR2BGMZEHXAVIRZA4KVWLTJJFC7MGXUA74P7UJVSGZ");
    let host = bytes_of(&a.to_xdr(&env));
    assert_eq!(host.len(), 44);
    assert_eq!(&host[..12], &[0, 0, 0, 18, 0, 0, 0, 0, 0, 0, 0, 0]);
    let mut key = [0u8; 32];
    key.copy_from_slice(&host[12..44]);
    assert_eq!(to_xdr(&Addr::Account(key)), host);
}

#[test]
fn preimage_layout() {
    let p = Addr::Contract([5u8; 32]);
    let v = build_preimage(Choice::Tails, &[9u8; 32], &p);
    assert_eq!(v.len(), 1 + 32 + 40);
    assert_eq!(v[0], 1);
    assert!(v[1..33].iter().all(|b| *b == 9));
    assert_eq!(&v[33..41], &[0, 0, 0, 18, 0, 0, 0, 1]);
    let h = build_preimage(Choice::Heads, &[9u8; 32], &p);
    assert_eq!(h[0], 0);
}

#[test]
fn commitment_digest_is_host_sha256_of_preimage() {
    let env = Env::default();
    let player = Address::generate(&env);
    let xdr = bytes_of(&player.clone().to_xdr(&env));
    let mut key = [0u8; 32];
    key.copy_from_slice(&xdr[8..40]);
    let addr = Addr::Contract(key);
    let nonce = [42u8; 32];
    // What a client computes with the SDK: choice byte, nonce, address XDR.
    let mut b = Bytes::new(&env);
    b.push_back(1u8);
    b.extend_from_array(&nonce);
    b.append(&player.to_xdr(&env));
    let expected = env.crypto().sha256(&b).to_array();
    assert_eq!(commitment_digest(&env, Choice::Tails, &nonce, &addr), expected);
    // A different choice gives a different digest.
    assert_ne!(commitment_digest(&env, Choice::Heads, &nonce, &addr), expected);
}

#[test]
fn sha256_known_value() {
    // SHA-256 of the 73-byte preimage is not its input echoed back.
    let env = Env::default();
    let addr = Addr::Account([1u8; 32]);
    let d = commitment_digest(&env, Choice::Heads, &[7u8; 32], &addr);
    let pre = build_preimage(Choice::Heads, &[7u8; 32], &addr);
    let expected = env.crypto().sha256(&Bytes::from_slice(&env, &pre)).to_array();
    assert_eq!(d, expected);
    assert_ne!(&d[..], &pre[..32]);
}

#[test]
fn same_addr_compares_kind_and_key() {
    assert!(same_addr(&Addr::Account([3u8; 32]), &Addr::Account([3u8; 32])));
    assert!(!same_addr(&Addr::Account([3u8; 32]), &Addr::Contract([3u8; 32])));
    let mut k = [3u8; 32];
    k[31] = 4;
    assert!(!same_addr(&Addr::Account([3u8; 32]), &Addr::Account(k)));
}

#[test]
fn host_address_encodings_read_back() {
    let env = Env::default();
    let c = Address::generate(&env);
    let host = bytes_of(&c.clone().to_xdr(&env));
    let mut key = [0u8; 32];
    key.copy_from_slice(&host[8..40]);
    assert_eq!(from_xdr(&host), Some(Addr::Contract(key)));

    let a = Address::from_str(&env, "GA7QYNF7SOWQ3GLR2BGMZEHXAVIRZA4KVWLTJJFC7MGXUA74P7UJVSGZ");
    let host = bytes_of(&a.to_xdr(&env));
    let mut key = [0u8; 32];
    key.copy_from_slice(&host[12..44]);
    assert_eq!(from_xdr(&host), Some(Addr::Account(key)));
}

#[test]
fn address_encoding_round_trips() {
    let a = Addr::Account([7u8; 32]);
    let c = Addr::Contract([8u8; 32]);
    assert_eq!(from_xdr(&to_xdr(&a)), Some(a));
    assert_eq!(from_xdr(&to_xdr(&c)), Some(c));
}

#[test]
fn malformed_address_encodings_are_refused() {
    let mut v = to_xdr(&Addr::Contract([1u8; 32]));
    v.pop();
    assert_eq!(from_xdr(&v), None);
    let mut w = to_xdr(&Addr::Contract([1u8; 32]));
    w[7] = 2;
    assert_eq!(from_xdr(&w), None);
    let mut x = to_xdr(&Addr::Account([1u8; 32]));
    x[3] = 17;
    assert_eq!(from_xdr(&x), None);
    assert_eq!(from_xdr(&Vec::new()), None);
}

#[test]
fn even_words_are_heads() {
    assert!(coin_from(0));
    assert!(!coin_from(1));
    assert!(coin_from(u64::MAX - 1));
    assert!(!coin_from(u64::MAX));
}
