use airdrop::address::Address;
use airdrop::codec::encode_receiver;
use airdrop::export::{export, ExportError, Recipient};
use airdrop::hash::{leaf_hash, node_hash};
use airdrop::merkle::{MerkleError, MerkleTree};
use airdrop::token::{verify, AirdropToken, ClaimError, Mint};
use sha2::Digest;
use stellar_xdr::curr as xdr;
use stellar_xdr::curr::WriteXdr;

fn account(b: u8) -> String {
    xdr::ScAddress::Account(xdr::AccountId(xdr::PublicKey::PublicKeyTypeEd25519(
        xdr::Uint256([b; 32]),
    )))
    .to_string()
}

fn contract(b: u8) -> String {
    xdr::ScAddress::Contract(xdr::Hash([b; 32])).to_string()
}

fn recipients(list: &[(String, i128)]) -> Vec<Recipient> {
    list.iter()
        .map(|(a, n)| Recipient { address: a.clone(), amount: *n })
        .collect()
}

fn decode_proof(proofs: &[String]) -> Vec<[u8; 32]> {
    proofs
        .iter()
        .map(|s| {
            let v = hex::decode(s).unwrap();
            let mut h = [0u8; 32];
            h.copy_from_slice(&v);
            h
        })
        .collect()
}

fn abc() -> Vec<Recipient> {
    recipients(&[(account(0xA), 10), (account(0xB), 20), (account(0xC), 30)])
}

fn five() -> Vec<Recipient> {
    recipients(&[
        (account(1), 100),
        (contract(2), 200),
        (account(3), -5),
        (account(4), i128::MAX),
        (contract(5), 1),
    ])
}

fn sha(data: &[u8]) -> [u8; 32] {
    sha2::Sha256::digest(data).into()
}

#[test]
fn round_trip_every_recipient_verifies() {
    for list in [abc(), five(), recipients(&[(account(9), 7)])] {
        let e = export(&list).unwrap();
        assert_eq!(e.records.len(), list.len());
        for (i, r) in list.iter().enumerate() {
            assert_eq!(e.records[i].index, i);
            let a = Address::from_strkey(&r.address).unwrap();
            let p = decode_proof(&e.records[i].proofs);
            assert!(verify(i as u32, &a, r.amount, &p, &e.root));
        }
    }
}

#[test]
fn tamper_with_any_field_or_proof_entry_fails() {
    let list = five();
    let e = export(&list).unwrap();
    let i = 2usize;
    let a = Address::from_strkey(&list[i].address).unwrap();
    let amount = list[i].amount;
    let p = decode_proof(&e.records[i].proofs);
    assert!(verify(i as u32, &a, amount, &p, &e.root));
    for byte in [0usize, 17, 31] {
        for bit in [0u8, 7] {
            let mut b = a;
            b.key[byte] ^= 1 << bit;
            assert!(!verify(i as u32, &b, amount, &p, &e.root));
        }
    }
    let mut kind = a;
    kind.is_contract = !kind.is_contract;
    assert!(!verify(i as u32, &kind, amount, &p, &e.root));
    for bit in [0u32, 1, 63, 64, 127] {
        assert!(!verify(i as u32, &a, amount ^ (1i128 << bit), &p, &e.root));
    }
    for bit in [0u32, 1, 2, 31] {
        assert!(!verify((i as u32) ^ (1 << bit), &a, amount, &p, &e.root));
    }
    for k in 0..p.len() {
        for bit in [0u8, 5] {
            let mut q = p.clone();
            q[k][k] ^= 1 << bit;
            assert!(!verify(i as u32, &a, amount, &q, &e.root));
        }
    }
}

#[test]
fn permuting_recipients_changes_root() {
    let list = five();
    let root = export(&list).unwrap().root;
    let mut swapped = five();
    swapped.swap(0, 1);
    assert_ne!(export(&swapped).unwrap().root, root);
    let mut reversed = five();
    reversed.reverse();
    assert_ne!(export(&reversed).unwrap().root, root);
    let two = recipients(&[(account(1), 5), (account(2), 5)]);
    let two_swapped = recipients(&[(account(2), 5), (account(1), 5)]);
    assert_ne!(export(&two).unwrap().root, export(&two_swapped).unwrap().root);
}

#[test]
fn claim_succeeds_at_most_once() {
    let list = abc();
    let e = export(&list).unwrap();
    let mut token = AirdropToken::new(e.root);
    let a = Address::from_strkey(&list[1].address).unwrap();
    let p = decode_proof(&e.records[1].proofs);
    assert!(!token.is_claimed(1));
    assert_eq!(token.verify_and_set_claimed(1, &a, 20, &p), Ok(()));
    assert!(token.is_claimed(1));
    assert_eq!(
        token.verify_and_set_claimed(1, &a, 20, &p),
        Err(ClaimError::AlreadyClaimed)
    );
    assert_eq!(token.claim(1, &a, 20, &p), Err(ClaimError::AlreadyClaimed));
    assert!(token.is_claimed(1));
}

#[test]
fn claims_for_distinct_indices_are_independent() {
    let list = five();
    let e = export(&list).unwrap();
    let mut token = AirdropToken::new(e.root);
    let a3 = Address::from_strkey(&list[3].address).unwrap();
    let p3 = decode_proof(&e.records[3].proofs);
    assert_eq!(
        token.claim(3, &a3, i128::MAX, &p3),
        Ok(Mint { to: a3, amount: i128::MAX })
    );
    for j in 0u32..5 {
        assert_eq!(token.is_claimed(j), j == 3);
    }
    let a0 = Address::from_strkey(&list[0].address).unwrap();
    let p0 = decode_proof(&e.records[0].proofs);
    assert_eq!(token.claim(0, &a0, 100, &p0), Ok(Mint { to: a0, amount: 100 }));
    for j in 0u32..5 {
        assert_eq!(token.is_claimed(j), j == 3 || j == 0);
    }
}

#[test]
fn building_twice_gives_same_root_and_proofs() {
    let list = five();
    let e1 = export(&list).unwrap();
    let e2 = export(&list).unwrap();
    assert_eq!(e1.root, e2.root);
    assert_eq!(e1.root_hex, e2.root_hex);
    for i in 0..list.len() {
        assert_eq!(e1.records[i].proofs, e2.records[i].proofs);
    }
    let leaves: Vec<Vec<u8>> = vec![vec![1], vec![2, 3], vec![], vec![4]];
    let t1 = MerkleTree::new(&leaves).unwrap();
    let t2 = MerkleTree::new(&leaves).unwrap();
    assert_eq!(t1.root(), t2.root());
    for i in 0..4 {
        assert_eq!(t1.get_proof(i), t2.get_proof(i));
    }
}

#[test]
fn three_recipient_scenario() {
    let list = abc();
    let e = export(&list).unwrap();
    let b = Address::from_strkey(&list[1].address).unwrap();
    let p = decode_proof(&e.records[1].proofs);
    assert_eq!(p.len(), 2);
    assert!(verify(1, &b, 20, &p, &e.root));
    assert!(!verify(1, &b, 21, &p, &e.root));
}

#[test]
fn empty_recipient_list_fails() {
    assert!(matches!(export(&Vec::new()), Err(ExportError::EmptyInput)));
    assert!(matches!(MerkleTree::new(&Vec::new()), Err(MerkleError::EmptyInput)));
}

#[test]
fn invalid_address_is_an_encoding_error_at_its_position() {
    let list = recipients(&[
        (account(1), 1),
        ("A".to_string(), 2),
        ("not an address".to_string(), 3),
    ]);
    assert!(matches!(export(&list), Err(ExportError::Encoding(1))));
    assert_eq!(Address::from_strkey("B"), None);
    let mut bad_checksum = account(1);
    bad_checksum.pop();
    bad_checksum.push('A');
    if bad_checksum != account(1) {
        assert_eq!(Address::from_strkey(&bad_checksum), None);
    }
}

#[test]
fn strkey_decodes_to_key_and_kind() {
    assert_eq!(
        Address::from_strkey(&account(7)),
        Some(Address { is_contract: false, key: [7; 32] })
    );
    assert_eq!(
        Address::from_strkey(&contract(8)),
        Some(Address { is_contract: true, key: [8; 32] })
    );
}

fn xdr_leaf(index: u32, address: &str, amount: i128) -> Vec<u8> {
    let sym = |s: &str| xdr::ScVal::Symbol(xdr::ScSymbol(s.try_into().unwrap()));
    let entries = vec![
        xdr::ScMapEntry { key: sym("index"), val: xdr::ScVal::U32(index) },
        xdr::ScMapEntry {
            key: sym("address"),
            val: xdr::ScVal::Address(address.parse().unwrap()),
        },
        xdr::ScMapEntry {
            key: sym("amount"),
            val: xdr::ScVal::I128(xdr::Int128Parts { hi: (amount >> 64) as i64, lo: amount as u64 }),
        },
    ];
    let map = xdr::ScMap::sorted_from_entries(entries.into_iter()).unwrap();
    xdr::ScVal::Map(Some(map)).to_xdr(xdr::Limits::none()).unwrap()
}

#[test]
fn leaf_encoding_is_the_soroban_xdr_of_the_receiver_map() {
    let cases = [
        (0u32, account(1), 10i128),
        (7, contract(0xEE), -1),
        (u32::MAX, account(0x80), i128::MIN),
        (65536, contract(3), 1_000_000_000),
    ];
    for (index, addr, amount) in cases {
        let a = Address::from_strkey(&addr).unwrap();
        assert_eq!(encode_receiver(index, &a, amount), xdr_leaf(index, &addr, amount));
    }
}

#[test]
fn leaf_encoding_exact_bytes() {
    let a = Address { is_contract: true, key: [0x11; 32] };
    let enc = encode_receiver(0x01020304, &a, -2);
    assert_eq!(enc.len(), 128);
    assert_eq!(&enc[0..12], &[0, 0, 0, 17, 0, 0, 0, 1, 0, 0, 0, 3]);
    assert_eq!(&enc[32..36], &[0, 0, 0, 1]);
    assert_eq!(&enc[36..68], &[0x11; 32]);
    assert_eq!(&enc[88..104], &[0xFF; 15].iter().copied().chain([0xFE]).collect::<Vec<u8>>()[..]);
    assert_eq!(&enc[124..128], &[1, 2, 3, 4]);
    let acc = Address { is_contract: false, key: [0x22; 32] };
    assert_eq!(encode_receiver(0, &acc, 0).len(), 132);
}

#[test]
fn hashes_are_domain_separated_sha256() {
    let leaf = vec![1u8, 2, 3];
    assert_eq!(leaf_hash(&leaf), sha(&[0, 1, 2, 3]));
    assert_eq!(leaf_hash(&Vec::new()), sha(&[0]));
    let l = [0xAAu8; 32];
    let r = [0x55u8; 32];
    let mut buf = vec![1u8];
    buf.extend_from_slice(&l);
    buf.extend_from_slice(&r);
    assert_eq!(node_hash(&l, &r), sha(&buf));
    assert_ne!(node_hash(&l, &r), node_hash(&r, &l));
}

#[test]
fn tree_shape_and_odd_node_duplication() {
    let leaves: Vec<Vec<u8>> = vec![vec![1], vec![2], vec![3]];
    let t = MerkleTree::new(&leaves).unwrap();
    let h: Vec<[u8; 32]> = leaves.iter().map(leaf_hash).collect();
    let n01 = node_hash(&h[0], &h[1]);
    let n22 = node_hash(&h[2], &h[2]);
    assert_eq!(t.root(), node_hash(&n01, &n22));
    assert_eq!(t.leaf_count(), 3);
    assert_eq!(t.get_proof(0), Ok(vec![h[1], n22]));
    assert_eq!(t.get_proof(1), Ok(vec![h[0], n22]));
    assert_eq!(t.get_proof(2), Ok(vec![h[2], n01]));
    assert_eq!(t.get_proof(3), Err(MerkleError::IndexOutOfRange));
    let single = MerkleTree::new(&vec![vec![9u8]]).unwrap();
    assert_eq!(single.root(), leaf_hash(&vec![9u8]));
    assert_eq!(single.get_proof(0), Ok(vec![]));
}

#[test]
fn root_hex_is_lowercase_hex_of_root() {
    let e = export(&abc()).unwrap();
    assert_eq!(e.root_hex, hex::encode(e.root));
    assert_eq!(e.root_hex.len(), 64);
    assert_ne!(e.root_hex.as_bytes(), &e.root[..]);
    assert_eq!(e.records[0].proofs[0].len(), 64);
    assert!(e.root_hex.chars().all(|c| c.is_ascii_digit() || ('a'..='f').contains(&c)));
}

#[test]
fn invalid_proof_is_refused_and_leaves_state_unchanged() {
    let list = abc();
    let e = export(&list).unwrap();
    let mut token = AirdropToken::new(e.root);
    assert_eq!(token.merkle_root(), e.root);
    let a = Address::from_strkey(&list[0].address).unwrap();
    let p = decode_proof(&e.records[0].proofs);
    assert_eq!(token.claim(0, &a, 11, &p), Err(ClaimError::InvalidProof));
    assert_eq!(token.claim(1, &a, 10, &p), Err(ClaimError::InvalidProof));
    assert!(!token.is_claimed(0));
    assert!(!token.is_claimed(1));
    assert_eq!(token.claim(0, &a, 10, &p), Ok(Mint { to: a, amount: 10 }));
}
