use optics_db::codec::{
    decode_h256, decode_message, decode_proof, decode_u32, decode_u64, decode_update, encode_h256,
    encode_message, encode_proof, encode_u32, encode_u64, encode_update,
};
use optics_db::keys::{build_key, build_latest_leaf_key, build_leaf_index_key, build_nonce_key};
use optics_db::types::{DecodeError, Proof, RawCommittedMessage, Signature, SignedUpdate, Update};

#[test]
fn u32_is_big_endian() {
    assert_eq!(encode_u32(0x0102_0304), vec![1, 2, 3, 4]);
    assert_eq!(decode_u32(&[1, 2, 3, 4]), Ok(0x0102_0304));
}

#[test]
fn u64_is_big_endian() {
    assert_eq!(encode_u64(0x0102_0304_0506_0708), vec![1, 2, 3, 4, 5, 6, 7, 8]);
    assert_eq!(decode_u64(&[1, 2, 3, 4, 5, 6, 7, 8]), Ok(0x0102_0304_0506_0708));
}

#[test]
fn integers_round_trip() {
    for x in [0u32, 1, 255, 256, 0xdead_beef, u32::MAX] {
        assert_eq!(decode_u32(&encode_u32(x)), Ok(x));
    }
    for x in [0u64, 1, 7 << 32 | 3, u64::MAX] {
        assert_eq!(decode_u64(&encode_u64(x)), Ok(x));
    }
}

#[test]
fn short_bytes_do_not_decode() {
    assert_eq!(decode_u32(&[1, 2, 3]), Err(DecodeError::UnexpectedEnd));
    assert_eq!(decode_u64(&[1, 2, 3, 4, 5, 6, 7]), Err(DecodeError::UnexpectedEnd));
    assert_eq!(decode_h256(&[0u8; 31]), Err(DecodeError::UnexpectedEnd));
    assert!(decode_message(&[0u8; 35]).is_err());
    assert!(decode_update(&[0u8; 132]).is_err());
    assert!(decode_proof(&[0u8; 1063]).is_err());
}

#[test]
fn hash_round_trips() {
    let h = [9u8; 32];
    assert_eq!(encode_h256(&h), vec![9u8; 32]);
    assert_eq!(decode_h256(&encode_h256(&h)), Ok(h));
}

#[test]
fn message_round_trips() {
    let m = RawCommittedMessage { leaf_index: 5, committed_root: [2u8; 32], message: vec![1, 2, 3] };
    let bytes = encode_message(&m);
    assert_eq!(bytes.len(), 39);
    assert_eq!(&bytes[0..4], &[0, 0, 0, 5]);
    let back = decode_message(&bytes).unwrap();
    assert_eq!(back.leaf_index, 5);
    assert_eq!(back.committed_root, [2u8; 32]);
    assert_eq!(back.message, vec![1, 2, 3]);
}

#[test]
fn update_round_trips() {
    let u = SignedUpdate {
        update: Update { home_domain: 1000, previous_root: [1u8; 32], new_root: [2u8; 32] },
        signature: Signature { r: [3u8; 32], s: [4u8; 32], v: 27 },
    };
    let bytes = encode_update(&u);
    assert_eq!(bytes.len(), 133);
    assert_eq!(bytes[132], 27);
    let back = decode_update(&bytes).unwrap();
    assert_eq!(back.update.home_domain, 1000);
    assert_eq!(back.update.previous_root, [1u8; 32]);
    assert_eq!(back.update.new_root, [2u8; 32]);
    assert_eq!(back.signature.r, [3u8; 32]);
    assert_eq!(back.signature.s, [4u8; 32]);
    assert_eq!(back.signature.v, 27);
}

#[test]
fn proof_round_trips() {
    let path: [[u8; 32]; 32] = std::array::from_fn(|i| [i as u8; 32]);
    let p = Proof { leaf: [7u8; 32], index: 12, path };
    let bytes = encode_proof(&p);
    assert_eq!(bytes.len(), 1064);
    let back = decode_proof(&bytes).unwrap();
    assert_eq!(back.leaf, [7u8; 32]);
    assert_eq!(back.index, 12);
    assert_eq!(back.path, path);
}

#[test]
fn key_is_home_then_tag_then_key() {
    assert_eq!(build_key(b"home", b"_t_", &[1, 2]), b"home_t_\x01\x02".to_vec());
    assert_eq!(build_leaf_index_key(b"h", 5), b"h_leaf_index_\x00\x00\x00\x05".to_vec());
    assert_eq!(build_latest_leaf_key(b"h"), b"h_latest_known_leaf_".to_vec());
    let mut nonce_key = b"h_destination_and_nonce_".to_vec();
    nonce_key.extend_from_slice(&[0, 0, 0, 7, 0, 0, 0, 3]);
    assert_eq!(build_nonce_key(b"h", 7 << 32 | 3), nonce_key);
}

#[test]
fn homes_never_share_keys() {
    assert_ne!(build_leaf_index_key(b"A", 1), build_leaf_index_key(b"B", 1));
    assert_ne!(build_key(b"A", b"_t_", b"k"), build_key(b"AB", b"_t_", b"k"));
}
