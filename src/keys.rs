//! Engine keys: `home ++ type tag ++ key`, with no delimiter and no length prefix.
use vstd::prelude::*;
use crate::codec::{u32_bytes, u64_bytes, encode_u32, encode_u64};
use crate::types::H256;
use vstd::string::{is_ascii, is_ascii_spec_bytes, StrSliceExecFns, StringSliceAdditionalSpecFns};

verus! {

/// The bytes of an ASCII string.
pub open spec fn ascii(s: &str) -> Seq<u8> {
    s.spec_bytes()
}

/// The key under which `value` of type `tag` is stored for `home`.
pub open spec fn spec_build_key(home: Seq<u8>, tag: Seq<u8>, key: Seq<u8>) -> Seq<u8> {
    home + tag + key
}

pub open spec fn nonce_tag() -> Seq<u8> {
    ascii("_destination_and_nonce_")
}

pub open spec fn leaf_index_tag() -> Seq<u8> {
    ascii("_leaf_index_")
}

pub open spec fn leaf_hash_tag() -> Seq<u8> {
    ascii("_leaf_hash_")
}

pub open spec fn prev_root_tag() -> Seq<u8> {
    ascii("_update_prev_root_")
}

pub open spec fn new_root_tag() -> Seq<u8> {
    ascii("_update_new_root_")
}

pub open spec fn latest_root_tag() -> Seq<u8> {
    ascii("_update_latest_root_")
}

pub open spec fn proof_tag() -> Seq<u8> {
    ascii("_proof_")
}

pub open spec fn latest_leaf_tag() -> Seq<u8> {
    ascii("_latest_known_leaf_")
}

/// The lengths of the eight tags.
pub proof fn lemma_tag_lengths()
    ensures
        nonce_tag().len() == 23,
        leaf_index_tag().len() == 12,
        leaf_hash_tag().len() == 11,
        prev_root_tag().len() == 18,
        new_root_tag().len() == 17,
        latest_root_tag().len() == 20,
        proof_tag().len() == 7,
        latest_leaf_tag().len() == 19,
{
    reveal_strlit("_destination_and_nonce_");
    reveal_strlit("_leaf_index_");
    reveal_strlit("_leaf_hash_");
    reveal_strlit("_update_prev_root_");
    reveal_strlit("_update_new_root_");
    reveal_strlit("_update_latest_root_");
    reveal_strlit("_proof_");
    reveal_strlit("_latest_known_leaf_");
    is_ascii_spec_bytes("_destination_and_nonce_");
    is_ascii_spec_bytes("_leaf_index_");
    is_ascii_spec_bytes("_leaf_hash_");
    is_ascii_spec_bytes("_update_prev_root_");
    is_ascii_spec_bytes("_update_new_root_");
    is_ascii_spec_bytes("_update_latest_root_");
    is_ascii_spec_bytes("_proof_");
    is_ascii_spec_bytes("_latest_known_leaf_");
}

fn ascii_bytes(s: &str) -> (r: Vec<u8>)
    requires
        is_ascii(s),
    ensures
        r@ == ascii(s),
{
    s.as_bytes_vec()
}

pub fn nonce_tag_bytes() -> (r: Vec<u8>)
    ensures
        r@ == nonce_tag(),
{
    proof {
        reveal_strlit("_destination_and_nonce_");
    }
    ascii_bytes("_destination_and_nonce_")
}

pub fn leaf_index_tag_bytes() -> (r: Vec<u8>)
    ensures
        r@ == leaf_index_tag(),
{
    proof {
        reveal_strlit("_leaf_index_");
    }
    ascii_bytes("_leaf_index_")
}

pub fn leaf_hash_tag_bytes() -> (r: Vec<u8>)
    ensures
        r@ == leaf_hash_tag(),
{
    proof {
        reveal_strlit("_leaf_hash_");
    }
    ascii_bytes("_leaf_hash_")
}

pub fn prev_root_tag_bytes() -> (r: Vec<u8>)
    ensures
        r@ == prev_root_tag(),
{
    proof {
        reveal_strlit("_update_prev_root_");
    }
    ascii_bytes("_update_prev_root_")
}

pub fn new_root_tag_bytes() -> (r: Vec<u8>)
    ensures
        r@ == new_root_tag(),
{
    proof {
        reveal_strlit("_update_new_root_");
    }
    ascii_bytes("_update_new_root_")
}

pub fn latest_root_tag_bytes() -> (r: Vec<u8>)
    ensures
        r@ == latest_root_tag(),
{
    proof {
        reveal_strlit("_update_latest_root_");
    }
    ascii_bytes("_update_latest_root_")
}

pub fn proof_tag_bytes() -> (r: Vec<u8>)
    ensures
        r@ == proof_tag(),
{
    proof {
        reveal_strlit("_proof_");
    }
    ascii_bytes("_proof_")
}

pub fn latest_leaf_tag_bytes() -> (r: Vec<u8>)
    ensures
        r@ == latest_leaf_tag(),
{
    proof {
        reveal_strlit("_latest_known_leaf_");
    }
    ascii_bytes("_latest_known_leaf_")
}

/// Appends `src` to `buf`.
pub fn append_bytes(buf: &mut Vec<u8>, src: &[u8])
    requires
        old(buf)@.len() + src@.len() <= usize::MAX,
    ensures
        final(buf)@ == old(buf)@ + src@,
{
    let ghost start = buf@;
    let mut i: usize = 0;
    while i < src.len()
        invariant
            i <= src@.len(),
            buf@ == start + src@.subrange(0, i as int),
            start.len() + src@.len() <= usize::MAX,
        decreases src@.len() - i,
    {
        buf.push(src[i]);
        i = i + 1;
        assert(buf@ =~= start + src@.subrange(0, i as int));
    }
    assert(src@.subrange(0, i as int) =~= src@);
}

/// Concatenates `home`, `tag` and `key` in that order.
pub fn build_key(home: &[u8], tag: &[u8], key: &[u8]) -> (r: Vec<u8>)
    requires
        home@.len() + tag@.len() + key@.len() <= usize::MAX,
    ensures
        r@ == spec_build_key(home@, tag@, key@),
{
    let mut buf: Vec<u8> = Vec::new();
    append_bytes(&mut buf, home);
    append_bytes(&mut buf, tag);
    append_bytes(&mut buf, key);
    assert(buf@ =~= Seq::<u8>::empty() + home@ + tag@ + key@);
    buf
}

pub open spec fn nonce_key(home: Seq<u8>, destination_and_nonce: u64) -> Seq<u8> {
    spec_build_key(home, nonce_tag(), u64_bytes(destination_and_nonce))
}

pub open spec fn leaf_index_key(home: Seq<u8>, leaf_index: u32) -> Seq<u8> {
    spec_build_key(home, leaf_index_tag(), u32_bytes(leaf_index))
}

pub open spec fn leaf_hash_key(home: Seq<u8>, leaf_hash: Seq<u8>) -> Seq<u8> {
    spec_build_key(home, leaf_hash_tag(), leaf_hash)
}

pub open spec fn prev_root_key(home: Seq<u8>, root: Seq<u8>) -> Seq<u8> {
    spec_build_key(home, prev_root_tag(), root)
}

pub open spec fn new_root_key(home: Seq<u8>, root: Seq<u8>) -> Seq<u8> {
    spec_build_key(home, new_root_tag(), root)
}

pub open spec fn proof_key(home: Seq<u8>, leaf_index: u32) -> Seq<u8> {
    spec_build_key(home, proof_tag(), u32_bytes(leaf_index))
}

/// The singletons are stored with an empty tag and their name as the key.
pub open spec fn latest_root_key(home: Seq<u8>) -> Seq<u8> {
    spec_build_key(home, Seq::empty(), latest_root_tag())
}

pub open spec fn latest_leaf_key(home: Seq<u8>) -> Seq<u8> {
    spec_build_key(home, Seq::empty(), latest_leaf_tag())
}

/// The longest home name for which every key fits in memory.
pub open spec fn home_fits(home: Seq<u8>) -> bool {
    home.len() + 64 <= usize::MAX
}

pub fn build_nonce_key(home: &[u8], destination_and_nonce: u64) -> (r: Vec<u8>)
    requires
        home_fits(home@),
    ensures
        r@ == nonce_key(home@, destination_and_nonce),
{
    proof { lemma_tag_lengths(); }
    build_key(home, nonce_tag_bytes().as_slice(), encode_u64(destination_and_nonce).as_slice())
}

pub fn build_leaf_index_key(home: &[u8], leaf_index: u32) -> (r: Vec<u8>)
    requires
        home_fits(home@),
    ensures
        r@ == leaf_index_key(home@, leaf_index),
{
    proof { lemma_tag_lengths(); }
    build_key(home, leaf_index_tag_bytes().as_slice(), encode_u32(leaf_index).as_slice())
}

pub fn build_leaf_hash_key(home: &[u8], leaf_hash: &H256) -> (r: Vec<u8>)
    requires
        home_fits(home@),
    ensures
        r@ == leaf_hash_key(home@, leaf_hash@),
{
    proof { lemma_tag_lengths(); }
    build_key(home, leaf_hash_tag_bytes().as_slice(), crate::codec::encode_h256(leaf_hash).as_slice())
}

pub fn build_prev_root_key(home: &[u8], root: &H256) -> (r: Vec<u8>)
    requires
        home_fits(home@),
    ensures
        r@ == prev_root_key(home@, root@),
{
    proof { lemma_tag_lengths(); }
    build_key(home, prev_root_tag_bytes().as_slice(), crate::codec::encode_h256(root).as_slice())
}

pub fn build_new_root_key(home: &[u8], root: &H256) -> (r: Vec<u8>)
    requires
        home_fits(home@),
    ensures
        r@ == new_root_key(home@, root@),
{
    proof { lemma_tag_lengths(); }
    build_key(home, new_root_tag_bytes().as_slice(), crate::codec::encode_h256(root).as_slice())
}

pub fn build_proof_key(home: &[u8], leaf_index: u32) -> (r: Vec<u8>)
    requires
        home_fits(home@),
    ensures
        r@ == proof_key(home@, leaf_index),
{
    proof { lemma_tag_lengths(); }
    build_key(home, proof_tag_bytes().as_slice(), encode_u32(leaf_index).as_slice())
}

pub fn build_latest_root_key(home: &[u8]) -> (r: Vec<u8>)
    requires
        home_fits(home@),
    ensures
        r@ == latest_root_key(home@),
{
    proof { lemma_tag_lengths(); }
    let empty: Vec<u8> = Vec::new();
    build_key(home, empty.as_slice(), latest_root_tag_bytes().as_slice())
}

pub fn build_latest_leaf_key(home: &[u8]) -> (r: Vec<u8>)
    requires
        home_fits(home@),
    ensures
        r@ == latest_leaf_key(home@),
{
    proof { lemma_tag_lengths(); }
    let empty: Vec<u8> = Vec::new();
    build_key(home, empty.as_slice(), latest_leaf_tag_bytes().as_slice())
}

/// Keys of one type never collide across homes: the home comes first, and
/// with one tag and keys of one width two keys have the length of their homes
/// apart.
pub proof fn lemma_homes_isolated(a: Seq<u8>, b: Seq<u8>, tag: Seq<u8>, key_a: Seq<u8>, key_b: Seq<u8>)
    requires
        a != b,
        key_a.len() == key_b.len(),
    ensures
        spec_build_key(a, tag, key_a) != spec_build_key(b, tag, key_b),
{
    let ka = spec_build_key(a, tag, key_a);
    let kb = spec_build_key(b, tag, key_b);
    if ka == kb {
        assert(ka.len() == a.len() + tag.len() + key_a.len());
        assert(kb.len() == b.len() + tag.len() + key_b.len());
        assert(a.len() == b.len());
        assert(ka.subrange(0, a.len() as int) =~= a);
        assert(kb.subrange(0, b.len() as int) =~= b);
        assert(a =~= b);
    }
}

/// Within one home, the keys of different types have different lengths.
pub proof fn lemma_key_lengths(home: Seq<u8>, dn: u64, i: u32, h: Seq<u8>)
    requires
        h.len() == 32,
    ensures
        nonce_key(home, dn).len() == home.len() + 31,
        leaf_index_key(home, i).len() == home.len() + 16,
        leaf_hash_key(home, h).len() == home.len() + 43,
        prev_root_key(home, h).len() == home.len() + 50,
        new_root_key(home, h).len() == home.len() + 49,
        proof_key(home, i).len() == home.len() + 11,
        latest_root_key(home).len() == home.len() + 20,
        latest_leaf_key(home).len() == home.len() + 19,
{
    lemma_tag_lengths();
}

/// Within one home and tag, keys of equal length differ where their keys do.
pub proof fn lemma_keys_distinct(home: Seq<u8>, tag: Seq<u8>, k1: Seq<u8>, k2: Seq<u8>)
    requires
        k1 != k2,
        k1.len() == k2.len(),
    ensures
        spec_build_key(home, tag, k1) != spec_build_key(home, tag, k2),
{
    let a = spec_build_key(home, tag, k1);
    let b = spec_build_key(home, tag, k2);
    let off: int = (home.len() + tag.len()) as int;
    if a == b {
        assert(a.subrange(off, a.len() as int) =~= k1);
        assert(b.subrange(off, b.len() as int) =~= k2);
        assert(k1 =~= k2);
    }
}

} // verus!
