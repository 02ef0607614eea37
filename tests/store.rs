use std::collections::HashMap;

use optics_db::codec::{decode_h256, decode_message, decode_update};
use optics_db::keys::{
    build_latest_leaf_key, build_latest_root_key, build_leaf_hash_key, build_leaf_index_key,
    build_new_root_key, build_nonce_key, build_prev_root_key, build_proof_key, leaf_index_tag_bytes,
};
use optics_db::scan::{has_prefix, scan_leaf_entry, wait_step, WaitStep, POLL_INTERVAL_MS};
use optics_db::store::{
    destination_and_nonce, latest_leaf_index_for_update, leaf_hash, leaf_puts,
    message_key_after_hash, message_puts, parse_destination_and_nonce, update_key_after_previous_root, proof_puts, raw_committed_message_puts, update_puts, Put,
};
use optics_db::types::{DecodeError, Proof, RawCommittedMessage, Signature, SignedUpdate, Update, H256};

type Engine = HashMap<Vec<u8>, Vec<u8>>;

fn write(engine: &mut Engine, puts: Vec<Put>) {
    for p in puts {
        engine.insert(p.key, p.value);
    }
}

fn latest_leaf_index(engine: &Engine, home: &[u8]) -> Option<u32> {
    latest_leaf_index_for_update(engine.get(&build_latest_leaf_key(home)).cloned()).unwrap()
}

fn record_leaf(engine: &mut Engine, home: &[u8], index: u32, dn: u64, hash: H256) {
    let current = latest_leaf_index(engine, home);
    write(engine, leaf_puts(home, index, dn, &hash, current));
}

fn leaf_by_index(engine: &Engine, home: &[u8], index: u32) -> Option<H256> {
    engine.get(&build_leaf_index_key(home, index)).map(|b| decode_h256(b).unwrap())
}

fn leaf_by_nonce(engine: &Engine, home: &[u8], destination: u32, nonce: u32) -> Option<H256> {
    let key = build_nonce_key(home, destination_and_nonce(destination, nonce));
    engine.get(&key).map(|b| decode_h256(b).unwrap())
}

fn message_by_hash(engine: &Engine, home: &[u8], hash: &H256) -> Option<RawCommittedMessage> {
    engine.get(&build_leaf_hash_key(home, hash)).map(|b| decode_message(b).unwrap())
}

fn latest_root(engine: &Engine, home: &[u8]) -> Option<H256> {
    engine.get(&build_latest_root_key(home)).map(|b| decode_h256(b).unwrap())
}

fn record_update(engine: &mut Engine, home: &[u8], u: &SignedUpdate) {
    let current = latest_root(engine, home);
    write(engine, update_puts(home, u, &current));
}

fn update_by_previous_root(engine: &Engine, home: &[u8], root: &H256) -> Option<SignedUpdate> {
    engine.get(&build_prev_root_key(home, root)).map(|b| decode_update(b).unwrap())
}

fn update_by_new_root(engine: &Engine, home: &[u8], root: &H256) -> Option<SignedUpdate> {
    let prev = engine.get(&build_new_root_key(home, root)).map(|b| decode_h256(b).unwrap())?;
    update_by_previous_root(engine, home, &prev)
}

fn optics_message(destination: u32, nonce: u32, body: &[u8]) -> Vec<u8> {
    let mut m = Vec::new();
    m.extend_from_slice(&1u32.to_be_bytes());
    m.extend_from_slice(&[0x11; 32]);
    m.extend_from_slice(&nonce.to_be_bytes());
    m.extend_from_slice(&destination.to_be_bytes());
    m.extend_from_slice(&[0x22; 32]);
    m.extend_from_slice(body);
    m
}

fn update(prev: u8, new: u8) -> SignedUpdate {
    SignedUpdate {
        update: Update { home_domain: 1, previous_root: [prev; 32], new_root: [new; 32] },
        signature: Signature { r: [prev; 32], s: [new; 32], v: 28 },
    }
}

#[test]
fn latest_leaf_index_in_order() {
    let mut e = Engine::new();
    record_leaf(&mut e, b"H", 3, 1, [1; 32]);
    record_leaf(&mut e, b"H", 8, 2, [2; 32]);
    assert_eq!(latest_leaf_index(&e, b"H"), Some(8));
}

#[test]
fn latest_leaf_index_out_of_order() {
    let mut e = Engine::new();
    record_leaf(&mut e, b"H", 8, 2, [2; 32]);
    record_leaf(&mut e, b"H", 3, 1, [1; 32]);
    assert_eq!(latest_leaf_index(&e, b"H"), Some(8));
    record_leaf(&mut e, b"H", 8, 2, [2; 32]);
    assert_eq!(latest_leaf_index(&e, b"H"), Some(8));
}

#[test]
fn equal_index_is_not_written_again() {
    let puts = leaf_puts(b"H", 4, 9, &[1; 32], Some(4));
    assert_eq!(puts.len(), 2);
    let puts = leaf_puts(b"H", 5, 9, &[1; 32], Some(4));
    assert_eq!(puts.len(), 3);
    assert_eq!(puts[2].key, build_latest_leaf_key(b"H"));
    assert_eq!(puts[2].value, vec![0, 0, 0, 5]);
}

#[test]
fn destination_and_nonce_packs() {
    assert_eq!(destination_and_nonce(7, 3), (7u64 << 32) | 3);
    assert_eq!(destination_and_nonce(0, u32::MAX), u32::MAX as u64);
    assert_eq!(parse_destination_and_nonce(&optics_message(7, 3, b"x")), Ok((7u64 << 32) | 3));
    assert_eq!(parse_destination_and_nonce(&[0u8; 75]), Err(DecodeError::UnexpectedEnd));
}

#[test]
fn leaf_hash_is_keccak_of_message() {
    let empty = RawCommittedMessage { leaf_index: 0, committed_root: [0; 32], message: vec![] };
    let h = leaf_hash(&empty);
    assert_eq!(h[0..4], [0xc5, 0xd2, 0x46, 0x01]);
    assert_eq!(h[28..32], [0x5d, 0x85, 0xa4, 0x70]);
    let other = RawCommittedMessage { leaf_index: 0, committed_root: [0; 32], message: vec![1] };
    assert_ne!(leaf_hash(&other), h);
}

#[test]
fn end_to_end_message() {
    let mut e = Engine::new();
    let m = RawCommittedMessage { leaf_index: 5, committed_root: [3; 32], message: optics_message(7, 3, b"hello") };
    let current = latest_leaf_index(&e, b"H");
    write(&mut e, raw_committed_message_puts(b"H", &m, current).unwrap());
    let h = leaf_hash(&m);
    assert_eq!(leaf_by_nonce(&e, b"H", 7, 3), Some(h));
    assert_eq!(leaf_by_index(&e, b"H", 5), Some(h));
    let back = message_by_hash(&e, b"H", &h).unwrap();
    assert_eq!(back.leaf_index, 5);
    assert_eq!(back.committed_root, [3; 32]);
    assert_eq!(back.message, m.message);
    assert_eq!(latest_leaf_index(&e, b"H"), Some(5));
}

#[test]
fn lookups_agree_and_missing_are_absent() {
    let mut e = Engine::new();
    let m = RawCommittedMessage { leaf_index: 2, committed_root: [3; 32], message: optics_message(9, 4, b"") };
    let h: H256 = [0xab; 32];
    write(&mut e, message_puts(b"H", &m, &h, None).unwrap());
    let by_index = message_by_hash(&e, b"H", &leaf_by_index(&e, b"H", 2).unwrap()).unwrap();
    let by_nonce = message_by_hash(&e, b"H", &leaf_by_nonce(&e, b"H", 9, 4).unwrap()).unwrap();
    assert_eq!(by_index.message, m.message);
    assert_eq!(by_nonce.message, m.message);
    assert_eq!(by_index.leaf_index, by_nonce.leaf_index);
    assert_eq!(leaf_by_index(&e, b"H", 3), None);
    assert_eq!(leaf_by_nonce(&e, b"H", 9, 5), None);
    assert!(message_by_hash(&e, b"H", &[0xac; 32]).is_none());
}

#[test]
fn short_message_is_rejected() {
    let m = RawCommittedMessage { leaf_index: 2, committed_root: [3; 32], message: vec![0; 75] };
    assert!(message_puts(b"H", &m, &[1; 32], None).is_err());
    assert!(raw_committed_message_puts(b"H", &m, None).is_err());
}

#[test]
fn homes_are_isolated() {
    let mut e = Engine::new();
    record_leaf(&mut e, b"A", 1, 5, [1; 32]);
    assert_eq!(leaf_by_index(&e, b"A", 1), Some([1; 32]));
    assert_eq!(leaf_by_index(&e, b"B", 1), None);
    assert_eq!(latest_leaf_index(&e, b"B"), None);
}

#[test]
fn update_twice_is_idempotent() {
    let mut e = Engine::new();
    let u = update(0, 1);
    record_update(&mut e, b"H", &u);
    assert_eq!(latest_root(&e, b"H"), Some([1; 32]));
    let before = e.clone();
    record_update(&mut e, b"H", &u);
    assert_eq!(e, before);
    assert_eq!(update_by_previous_root(&e, b"H", &[0; 32]).unwrap().update.new_root, [1; 32]);
}

#[test]
fn chain_in_order_advances() {
    let mut e = Engine::new();
    record_update(&mut e, b"H", &update(0, 1));
    record_update(&mut e, b"H", &update(1, 2));
    assert_eq!(latest_root(&e, b"H"), Some([2; 32]));
    assert_eq!(update_by_new_root(&e, b"H", &[2; 32]).unwrap().update.previous_root, [1; 32]);
}

#[test]
fn chain_out_of_order_waits() {
    let mut e = Engine::new();
    record_update(&mut e, b"H", &update(9, 0));
    assert_eq!(latest_root(&e, b"H"), Some([0; 32]));
    record_update(&mut e, b"H", &update(1, 2));
    assert_eq!(latest_root(&e, b"H"), Some([0; 32]));
    record_update(&mut e, b"H", &update(0, 1));
    assert_eq!(latest_root(&e, b"H"), Some([1; 32]));
    let later = update_by_previous_root(&e, b"H", &[1; 32]).unwrap();
    assert_eq!(later.update.new_root, [2; 32]);
    assert!(update_by_new_root(&e, b"H", &[7; 32]).is_none());
}

#[test]
fn first_update_sets_latest_root() {
    let puts = update_puts(b"H", &update(4, 5), &None);
    assert_eq!(puts.len(), 3);
    assert_eq!(puts[0].key, build_latest_root_key(b"H"));
    assert_eq!(puts[0].value, vec![5; 32]);
    let puts = update_puts(b"H", &update(4, 5), &Some([6; 32]));
    assert_eq!(puts.len(), 2);
}

#[test]
fn proof_is_stored_by_index() {
    let p = Proof { leaf: [1; 32], index: 4, path: [[2; 32]; 32] };
    let puts = proof_puts(b"H", 4, &p);
    assert_eq!(puts.len(), 1);
    assert_eq!(puts[0].key, build_proof_key(b"H", 4));
    assert_eq!(puts[0].value.len(), 1064);
}

#[test]
fn scan_stops_outside_prefix() {
    let prefix = leaf_index_tag_bytes();
    assert_eq!(prefix, b"_leaf_index_".to_vec());
    let mut key = prefix.clone();
    key.extend_from_slice(&[0, 0, 0, 1]);
    assert!(has_prefix(&prefix, &key));
    assert_eq!(scan_leaf_entry(&prefix, &key, &[4; 32]), Some(Ok([4; 32])));
    assert_eq!(scan_leaf_entry(&prefix, &key, &[4; 3]), Some(Err(DecodeError::UnexpectedEnd)));
    assert_eq!(scan_leaf_entry(&prefix, b"_leaf_hash_", &[4; 32]), None);
    assert!(!has_prefix(&prefix, b"_leaf"));
}

#[test]
fn waiter_polls_until_leaf_arrives() {
    let mut e = Engine::new();
    let mut polls = 0;
    let found = loop {
        if polls == 2 {
            record_leaf(&mut e, b"H", 9, 1, [9; 32]);
        }
        match wait_step(leaf_by_index(&e, b"H", 9)) {
            WaitStep::Found(h) => break h,
            WaitStep::Retry(ms) => {
                assert_eq!(ms, POLL_INTERVAL_MS);
                polls += 1;
                assert!(polls < 10);
            }
        }
    };
    assert_eq!(found, [9; 32]);
    assert_eq!(polls, 2);
    assert_eq!(POLL_INTERVAL_MS, 100);
}

#[test]
fn undecodable_latest_leaf_index_is_an_error() {
    assert_eq!(latest_leaf_index_for_update(None), Ok(None));
    assert_eq!(latest_leaf_index_for_update(Some(vec![0, 0, 0, 9])), Ok(Some(9)));
    assert_eq!(latest_leaf_index_for_update(Some(vec![0, 9])), Err(DecodeError::UnexpectedEnd));
    assert_eq!(latest_leaf_index_for_update(Some(vec![1, 0, 0, 0])), Ok(Some(0x0100_0000)));
    assert_eq!(latest_leaf_index_for_update(Some(vec![0, 0, 0, 0])), Ok(Some(0)));
}

#[test]
fn second_lookup_only_after_a_hit() {
    assert_eq!(message_key_after_hash(b"H", &None), None);
    assert_eq!(message_key_after_hash(b"H", &Some([5; 32])), Some(build_leaf_hash_key(b"H", &[5; 32])));
    assert_eq!(update_key_after_previous_root(b"H", &None), None);
    assert_eq!(
        update_key_after_previous_root(b"H", &Some([6; 32])),
        Some(build_prev_root_key(b"H", &[6; 32]))
    );
}
