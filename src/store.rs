//! The indices of a home, as writes to a byte-keyed store.
//!
//! Each recording operation is planned here as the list of key/value writes
//! that it makes, given what it read from the store first. `apply` gives the
//! store after those writes, and the `read_*` functions the lookups on it.
use vstd::prelude::*;
use crate::codec::{
    decode_u32, encode_h256, encode_message, encode_proof, encode_u32, encode_update, read_u32,
    spec_decode_h256, spec_decode_message, spec_decode_u32, spec_decode_update,
    spec_encode_message, spec_encode_proof, spec_encode_update, u32_at, u32_bytes,
};
use crate::keys::{
    build_latest_leaf_key, build_latest_root_key, build_leaf_hash_key, build_leaf_index_key,
    build_new_root_key, build_nonce_key, build_prev_root_key, build_proof_key, home_fits,
    latest_leaf_key, latest_root_key, leaf_hash_key, leaf_index_key, new_root_key, nonce_key,
    prev_root_key, proof_key,
};
use crate::types::{DecodeError, H256, Proof, RawCommittedMessage, SignedUpdate};

verus! {

/// One write to the store.
pub struct Put {
    pub key: Vec<u8>,
    pub value: Vec<u8>,
}

pub open spec fn puts_view(ps: Seq<Put>) -> Seq<(Seq<u8>, Seq<u8>)> {
    ps.map_values(|p: Put| (p.key@, p.value@))
}

/// The store after the writes `ws`, in order: a later write to a key wins.
pub open spec fn apply(m: Map<Seq<u8>, Seq<u8>>, ws: Seq<(Seq<u8>, Seq<u8>)>) -> Map<Seq<u8>, Seq<u8>>
    decreases ws.len(),
{
    if ws.len() == 0 {
        m
    } else {
        apply(m, ws.drop_last()).insert(ws.last().0, ws.last().1)
    }
}

pub open spec fn root_view(o: Option<H256>) -> Option<Seq<u8>> {
    match o {
        Some(h) => Some(h@),
        None => None,
    }
}

/// The destination and nonce of a message, packed into one integer.
pub open spec fn spec_destination_and_nonce(destination: u32, nonce: u32) -> u64 {
    (destination as int * 0x1_0000_0000 + nonce as int) as u64
}

/// The packed destination and nonce of a message's bytes: its nonce is the
/// big-endian integer at byte 36 and its destination the one at byte 40, of a
/// message of at least 76 bytes (origin, sender, nonce, destination, recipient).
pub open spec fn message_destination_and_nonce(message: Seq<u8>) -> Option<u64> {
    if message.len() >= 76 {
        Some(spec_destination_and_nonce(
            u32_at(message.subrange(40, message.len() as int)),
            u32_at(message.subrange(36, message.len() as int)),
        ))
    } else {
        None
    }
}

/// The latest leaf index moves only to a strictly greater index.
pub open spec fn advances_index(current: Option<u32>, leaf_index: u32) -> bool {
    match current {
        Some(c) => leaf_index > c,
        None => true,
    }
}

/// The latest root moves only along an update that starts from it.
pub open spec fn advances_root(current: Option<Seq<u8>>, previous_root: Seq<u8>) -> bool {
    match current {
        Some(c) => c == previous_root,
        None => true,
    }
}

pub open spec fn latest_index_writes(home: Seq<u8>, leaf_index: u32, current: Option<u32>) -> Seq<(Seq<u8>, Seq<u8>)> {
    if advances_index(current, leaf_index) {
        seq![(latest_leaf_key(home), u32_bytes(leaf_index))]
    } else {
        seq![]
    }
}

pub open spec fn leaf_writes(home: Seq<u8>, leaf_index: u32, destination_and_nonce: u64, leaf_hash: Seq<u8>, current: Option<u32>) -> Seq<(Seq<u8>, Seq<u8>)> {
    seq![
        (nonce_key(home, destination_and_nonce), leaf_hash),
        (leaf_index_key(home, leaf_index), leaf_hash),
    ] + latest_index_writes(home, leaf_index, current)
}

pub open spec fn message_writes(home: Seq<u8>, m: RawCommittedMessage, leaf_hash: Seq<u8>, current: Option<u32>) -> Option<Seq<(Seq<u8>, Seq<u8>)>> {
    match message_destination_and_nonce(m.message@) {
        Some(dn) => Some(
            seq![(leaf_hash_key(home, leaf_hash), spec_encode_message(m))]
                + leaf_writes(home, m.leaf_index, dn, leaf_hash, current),
        ),
        None => None,
    }
}

pub open spec fn update_writes(home: Seq<u8>, u: SignedUpdate, current: Option<Seq<u8>>) -> Seq<(Seq<u8>, Seq<u8>)> {
    let prev = u.update.previous_root@;
    let new = u.update.new_root@;
    (if advances_root(current, prev) {
        seq![(latest_root_key(home), new)]
    } else {
        seq![]
    }) + seq![(prev_root_key(home, prev), spec_encode_update(u)), (new_root_key(home, new), prev)]
}

pub open spec fn entry(m: Map<Seq<u8>, Seq<u8>>, k: Seq<u8>) -> Option<Seq<u8>> {
    if m.contains_key(k) {
        Some(m[k])
    } else {
        None
    }
}

pub open spec fn read_latest_leaf_index(m: Map<Seq<u8>, Seq<u8>>, home: Seq<u8>) -> Option<u32> {
    match entry(m, latest_leaf_key(home)) {
        Some(b) => spec_decode_u32(b),
        None => None,
    }
}

pub open spec fn read_leaf_by_index(m: Map<Seq<u8>, Seq<u8>>, home: Seq<u8>, leaf_index: u32) -> Option<Seq<u8>> {
    match entry(m, leaf_index_key(home, leaf_index)) {
        Some(b) => spec_decode_h256(b),
        None => None,
    }
}

pub open spec fn read_leaf_by_nonce(m: Map<Seq<u8>, Seq<u8>>, home: Seq<u8>, destination_and_nonce: u64) -> Option<Seq<u8>> {
    match entry(m, nonce_key(home, destination_and_nonce)) {
        Some(b) => spec_decode_h256(b),
        None => None,
    }
}

pub open spec fn read_message_by_hash(m: Map<Seq<u8>, Seq<u8>>, home: Seq<u8>, leaf_hash: Seq<u8>) -> Option<(u32, Seq<u8>, Seq<u8>)> {
    match entry(m, leaf_hash_key(home, leaf_hash)) {
        Some(b) => spec_decode_message(b),
        None => None,
    }
}

/// Resolves the hash first; a missing hash gives no message.
pub open spec fn read_message_by_index(m: Map<Seq<u8>, Seq<u8>>, home: Seq<u8>, leaf_index: u32) -> Option<(u32, Seq<u8>, Seq<u8>)> {
    match read_leaf_by_index(m, home, leaf_index) {
        Some(h) => read_message_by_hash(m, home, h),
        None => None,
    }
}

pub open spec fn read_message_by_nonce(m: Map<Seq<u8>, Seq<u8>>, home: Seq<u8>, destination_and_nonce: u64) -> Option<(u32, Seq<u8>, Seq<u8>)> {
    match read_leaf_by_nonce(m, home, destination_and_nonce) {
        Some(h) => read_message_by_hash(m, home, h),
        None => None,
    }
}

pub open spec fn read_latest_root(m: Map<Seq<u8>, Seq<u8>>, home: Seq<u8>) -> Option<Seq<u8>> {
    match entry(m, latest_root_key(home)) {
        Some(b) => spec_decode_h256(b),
        None => None,
    }
}

/// What a signed update reads back as.
pub open spec fn update_view(u: SignedUpdate) -> (u32, Seq<u8>, Seq<u8>, Seq<u8>, Seq<u8>, u8) {
    (u.update.home_domain, u.update.previous_root@, u.update.new_root@, u.signature.r@,
        u.signature.s@, u.signature.v)
}

pub open spec fn read_update_by_previous_root(m: Map<Seq<u8>, Seq<u8>>, home: Seq<u8>, previous_root: Seq<u8>) -> Option<(u32, Seq<u8>, Seq<u8>, Seq<u8>, Seq<u8>, u8)> {
    match entry(m, prev_root_key(home, previous_root)) {
        Some(b) => spec_decode_update(b),
        None => None,
    }
}

/// The 32-byte Keccak-256 digest of the bytes.
pub uninterp spec fn keccak_of(b: Seq<u8>) -> Seq<u8>;

/// Relies on ethers::utils::keccak256: the Keccak-256 digest of the bytes, 32
/// bytes long, which depends on the bytes alone.
#[verifier::external_body]
fn keccak256(b: &[u8]) -> (r: H256)
    ensures
        r@ == keccak_of(b@),
{
    ethers::utils::keccak256(b)
}

/// The leaf hash of a committed message: the digest of its message bytes.
pub fn leaf_hash(m: &RawCommittedMessage) -> (r: H256)
    ensures
        r@ == keccak_of(m.message@),
{
    keccak256(m.message.as_slice())
}

pub fn destination_and_nonce(destination: u32, nonce: u32) -> (r: u64)
    ensures
        r == spec_destination_and_nonce(destination, nonce),
        r as int == destination as int * 0x1_0000_0000 + nonce as int,
{
    let r = ((destination as u64) << 32u64) | (nonce as u64);
    assert(((destination as u64) << 32u64) | (nonce as u64)
        == (destination as u64) * 0x1_0000_0000u64 + (nonce as u64)) by (bit_vector);
    r
}

/// The packed destination and nonce read from a message's bytes.
pub fn parse_destination_and_nonce(message: &[u8]) -> (r: Result<u64, DecodeError>)
    ensures
        r matches Ok(dn) ==> message_destination_and_nonce(message@) == Some(dn),
        r is Err <==> message_destination_and_nonce(message@) is None,
{
    if message.len() < 76 {
        return Err(DecodeError::UnexpectedEnd);
    }
    let nonce = read_u32(message, 36);
    let destination = read_u32(message, 40);
    Ok(destination_and_nonce(destination, nonce))
}

pub fn advances_leaf_index(current: Option<u32>, leaf_index: u32) -> (r: bool)
    ensures
        r == advances_index(current, leaf_index),
{
    match current {
        Some(c) => leaf_index > c,
        None => true,
    }
}

/// Whether two hashes are equal.
pub fn same_hash(a: &H256, b: &H256) -> (r: bool)
    ensures
        r == (a@ == b@),
{
    let mut i: usize = 0;
    while i < 32
        invariant
            i <= 32,
            a@.len() == 32,
            b@.len() == 32,
            forall|k: int| 0 <= k < i ==> a@[k] == b@[k],
        decreases 32 - i,
    {
        if a[i] != b[i] {
            return false;
        }
        i = i + 1;
    }
    assert(a@ =~= b@);
    true
}

pub fn advances_latest_root(current: &Option<H256>, previous_root: &H256) -> (r: bool)
    ensures
        r == advances_root(root_view(*current), previous_root@),
{
    match current {
        Some(c) => same_hash(c, previous_root),
        None => true,
    }
}

/// The write that moves the latest leaf index of `home` to `leaf_index`,
/// given the index read before: none unless it moves forward.
pub fn latest_leaf_index_puts(home: &[u8], leaf_index: u32, current: Option<u32>) -> (r: Vec<Put>)
    requires
        home_fits(home@),
    ensures
        puts_view(r@) == latest_index_writes(home@, leaf_index, current),
{
    let mut ps: Vec<Put> = Vec::new();
    if advances_leaf_index(current, leaf_index) {
        ps.push(Put { key: build_latest_leaf_key(home), value: encode_u32(leaf_index) });
    }
    assert(puts_view(ps@) =~= latest_index_writes(home@, leaf_index, current));
    ps
}

/// The writes that record leaf `leaf_index` of `home`: its hash under its
/// destination and nonce, its hash under its index, then the latest index.
pub fn leaf_puts(home: &[u8], leaf_index: u32, destination_and_nonce: u64, leaf_hash: &H256, current: Option<u32>) -> (r: Vec<Put>)
    requires
        home_fits(home@),
    ensures
        puts_view(r@) == leaf_writes(home@, leaf_index, destination_and_nonce, leaf_hash@, current),
{
    let mut ps: Vec<Put> = Vec::new();
    ps.push(Put { key: build_nonce_key(home, destination_and_nonce), value: encode_h256(leaf_hash) });
    ps.push(Put { key: build_leaf_index_key(home, leaf_index), value: encode_h256(leaf_hash) });
    let ghost head = ps@;
    let mut tail = latest_leaf_index_puts(home, leaf_index, current);
    ps.append(&mut tail);
    assert(puts_view(ps@) =~= puts_view(head) + latest_index_writes(home@, leaf_index, current));
    assert(puts_view(ps@) =~= leaf_writes(home@, leaf_index, destination_and_nonce, leaf_hash@, current));
    ps
}

/// The writes that record a committed message of `home` whose leaf hash is
/// `leaf_hash`: the message under its hash, then the leaf. Fails where the
/// message is too short to hold a destination and a nonce.
pub fn message_puts(home: &[u8], m: &RawCommittedMessage, leaf_hash: &H256, current: Option<u32>) -> (r: Result<Vec<Put>, DecodeError>)
    requires
        home_fits(home@),
        m.message@.len() + 36 <= usize::MAX,
    ensures
        r matches Ok(ps) ==> message_writes(home@, *m, leaf_hash@, current) == Some(puts_view(ps@)),
        r is Err <==> message_writes(home@, *m, leaf_hash@, current) is None,
{
    let dn = match parse_destination_and_nonce(m.message.as_slice()) {
        Ok(dn) => dn,
        Err(e) => return Err(e),
    };
    let mut ps: Vec<Put> = Vec::new();
    ps.push(Put { key: build_leaf_hash_key(home, leaf_hash), value: encode_message(m) });
    let ghost head = ps@;
    let mut tail = leaf_puts(home, m.leaf_index, dn, leaf_hash, current);
    ps.append(&mut tail);
    assert(puts_view(ps@) =~= puts_view(head) + leaf_writes(home@, m.leaf_index, dn, leaf_hash@, current));
    Ok(ps)
}

/// The writes that record a committed message of `home`, under the digest of
/// its message bytes.
pub fn raw_committed_message_puts(home: &[u8], m: &RawCommittedMessage, current: Option<u32>) -> (r: Result<Vec<Put>, DecodeError>)
    requires
        home_fits(home@),
        m.message@.len() + 36 <= usize::MAX,
    ensures
        r matches Ok(ps) ==> message_writes(home@, *m, keccak_of(m.message@), current) == Some(puts_view(ps@)),
        r is Err <==> message_writes(home@, *m, keccak_of(m.message@), current) is None,
{
    let h = leaf_hash(m);
    message_puts(home, m, &h, current)
}

/// The writes that record a signed update of `home`, given the latest root
/// read before: the latest root where the update extends it (or none is
/// known), then the update under its previous root, and the previous root
/// under the new one.
pub fn update_puts(home: &[u8], u: &SignedUpdate, current: &Option<H256>) -> (r: Vec<Put>)
    requires
        home_fits(home@),
    ensures
        puts_view(r@) == update_writes(home@, *u, root_view(*current)),
{
    let mut ps: Vec<Put> = Vec::new();
    if advances_latest_root(current, &u.update.previous_root) {
        ps.push(Put { key: build_latest_root_key(home), value: encode_h256(&u.update.new_root) });
    }
    ps.push(Put { key: build_prev_root_key(home, &u.update.previous_root), value: encode_update(u) });
    ps.push(Put {
        key: build_new_root_key(home, &u.update.new_root),
        value: encode_h256(&u.update.previous_root),
    });
    assert(puts_view(ps@) =~= update_writes(home@, *u, root_view(*current)));
    ps
}

/// The write that records a proof of `home` under its leaf index.
pub fn proof_puts(home: &[u8], leaf_index: u32, proof: &Proof) -> (r: Vec<Put>)
    requires
        home_fits(home@),
    ensures
        puts_view(r@) == seq![(proof_key(home@, leaf_index), spec_encode_proof(*proof))],
{
    let mut ps: Vec<Put> = Vec::new();
    ps.push(Put { key: build_proof_key(home, leaf_index), value: encode_proof(proof) });
    assert(puts_view(ps@) =~= seq![(proof_key(home@, leaf_index), spec_encode_proof(*proof))]);
    ps
}

/// The latest leaf index read from its stored bytes, if any: bytes that do
/// not decode are an error, so no recording overwrites them.
pub fn latest_leaf_index_for_update(stored: Option<Vec<u8>>) -> (r: Result<Option<u32>, DecodeError>)
    ensures
        r == match stored {
            None => Ok(None),
            Some(b) => match spec_decode_u32(b@) {
                Some(x) => Ok(Some(x)),
                None => Err(DecodeError::UnexpectedEnd),
            },
        },
{
    match stored {
        Some(b) => match decode_u32(b.as_slice()) {
            Ok(x) => Ok(Some(x)),
            Err(e) => Err(e),
        },
        None => Ok(None),
    }
}

/// The second key of a lookup by leaf index or by destination and nonce: the
/// message under the leaf hash found first. No hash, no second lookup.
pub fn message_key_after_hash(home: &[u8], found: &Option<H256>) -> (r: Option<Vec<u8>>)
    requires
        home_fits(home@),
    ensures
        r matches Some(k) ==> found matches Some(h) && k@ == leaf_hash_key(home@, h@),
        r is None <==> found is None,
{
    match found {
        Some(h) => Some(build_leaf_hash_key(home, h)),
        None => None,
    }
}

/// The second key of a lookup by new root: the update under the previous
/// root found first. No previous root, no second lookup.
pub fn update_key_after_previous_root(home: &[u8], found: &Option<H256>) -> (r: Option<Vec<u8>>)
    requires
        home_fits(home@),
    ensures
        r matches Some(k) ==> found matches Some(h) && k@ == prev_root_key(home@, h@),
        r is None <==> found is None,
{
    match found {
        Some(h) => Some(build_prev_root_key(home, h)),
        None => None,
    }
}

/// Resolves the previous root first; a missing one gives no update.
pub open spec fn read_update_by_new_root(m: Map<Seq<u8>, Seq<u8>>, home: Seq<u8>, new_root: Seq<u8>) -> Option<(u32, Seq<u8>, Seq<u8>, Seq<u8>, Seq<u8>, u8)> {
    match entry(m, new_root_key(home, new_root)) {
        Some(b) => match spec_decode_h256(b) {
            Some(prev) => read_update_by_previous_root(m, home, prev),
            None => None,
        },
        None => None,
    }
}

/// Whether the latest leaf index of `home`, if stored, decodes.
pub open spec fn latest_leaf_index_readable(m: Map<Seq<u8>, Seq<u8>>, home: Seq<u8>) -> bool {
    match entry(m, latest_leaf_key(home)) {
        Some(b) => spec_decode_u32(b) is Some,
        None => true,
    }
}

} // verus!
