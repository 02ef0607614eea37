//! Byte encodings of the stored values: big-endian integers, raw hashes, and
//! records as the concatenation of their fields.
use vstd::prelude::*;
use crate::types::{DecodeError, H256, Proof, RawCommittedMessage, Signature, SignedUpdate, Update, TREE_DEPTH};

verus! {

pub open spec fn u32_bytes(x: u32) -> Seq<u8> {
    seq![(x >> 24u32) as u8, (x >> 16u32) as u8, (x >> 8u32) as u8, x as u8]
}

/// The big-endian integer held by the first four bytes of `b`.
pub open spec fn u32_at(b: Seq<u8>) -> u32 {
    ((b[0] as u32) << 24u32) | ((b[1] as u32) << 16u32) | ((b[2] as u32) << 8u32) | (b[3] as u32)
}

pub open spec fn u64_bytes(x: u64) -> Seq<u8> {
    seq![
        (x >> 56u64) as u8, (x >> 48u64) as u8, (x >> 40u64) as u8, (x >> 32u64) as u8,
        (x >> 24u64) as u8, (x >> 16u64) as u8, (x >> 8u64) as u8, x as u8,
    ]
}

/// The big-endian integer held by the first eight bytes of `b`.
pub open spec fn u64_at(b: Seq<u8>) -> u64 {
    ((b[0] as u64) << 56u64) | ((b[1] as u64) << 48u64) | ((b[2] as u64) << 40u64)
        | ((b[3] as u64) << 32u64) | ((b[4] as u64) << 24u64) | ((b[5] as u64) << 16u64)
        | ((b[6] as u64) << 8u64) | (b[7] as u64)
}

pub open spec fn spec_decode_u32(b: Seq<u8>) -> Option<u32> {
    if b.len() >= 4 { Some(u32_at(b)) } else { None }
}

pub open spec fn spec_decode_u64(b: Seq<u8>) -> Option<u64> {
    if b.len() >= 8 { Some(u64_at(b)) } else { None }
}

pub open spec fn spec_decode_h256(b: Seq<u8>) -> Option<Seq<u8>> {
    if b.len() >= 32 { Some(b.subrange(0, 32)) } else { None }
}

pub proof fn lemma_u32_round_trip(x: u32)
    ensures
        spec_decode_u32(u32_bytes(x)) == Some(x),
{
    let b = u32_bytes(x);
    let (b0, b1, b2, b3) = ((x >> 24u32) as u8, (x >> 16u32) as u8, (x >> 8u32) as u8, x as u8);
    assert(b[0] == b0 && b[1] == b1 && b[2] == b2 && b[3] == b3);
    assert((((((x >> 24u32) as u8) as u32) << 24u32) | ((((x >> 16u32) as u8) as u32) << 16u32)
        | ((((x >> 8u32) as u8) as u32) << 8u32) | ((x as u8) as u32)) == x) by (bit_vector);
}

pub proof fn lemma_u64_round_trip(x: u64)
    ensures
        spec_decode_u64(u64_bytes(x)) == Some(x),
{
    let b = u64_bytes(x);
    assert(b[0] == (x >> 56u64) as u8 && b[1] == (x >> 48u64) as u8 && b[2] == (x >> 40u64) as u8
        && b[3] == (x >> 32u64) as u8 && b[4] == (x >> 24u64) as u8 && b[5] == (x >> 16u64) as u8
        && b[6] == (x >> 8u64) as u8 && b[7] == x as u8);
    assert((((((x >> 56u64) as u8) as u64) << 56u64) | ((((x >> 48u64) as u8) as u64) << 48u64)
        | ((((x >> 40u64) as u8) as u64) << 40u64) | ((((x >> 32u64) as u8) as u64) << 32u64)
        | ((((x >> 24u64) as u8) as u64) << 24u64) | ((((x >> 16u64) as u8) as u64) << 16u64)
        | ((((x >> 8u64) as u8) as u64) << 8u64) | ((x as u8) as u64)) == x) by (bit_vector);
}

/// Appends the big-endian bytes of `x`.
pub fn push_u32(buf: &mut Vec<u8>, x: u32)
    ensures
        final(buf)@ == old(buf)@ + u32_bytes(x),
{
    buf.push((x >> 24u32) as u8);
    buf.push((x >> 16u32) as u8);
    buf.push((x >> 8u32) as u8);
    buf.push(x as u8);
    assert(buf@ =~= old(buf)@ + u32_bytes(x));
}

/// Appends the big-endian bytes of `x`.
pub fn push_u64(buf: &mut Vec<u8>, x: u64)
    ensures
        final(buf)@ == old(buf)@ + u64_bytes(x),
{
    buf.push((x >> 56u64) as u8);
    buf.push((x >> 48u64) as u8);
    buf.push((x >> 40u64) as u8);
    buf.push((x >> 32u64) as u8);
    buf.push((x >> 24u64) as u8);
    buf.push((x >> 16u64) as u8);
    buf.push((x >> 8u64) as u8);
    buf.push(x as u8);
    assert(buf@ =~= old(buf)@ + u64_bytes(x));
}

/// Appends the 32 bytes of `h`.
pub fn push_h256(buf: &mut Vec<u8>, h: &H256)
    ensures
        final(buf)@ == old(buf)@ + h@,
{
    let ghost start = buf@;
    let mut i: usize = 0;
    while i < 32
        invariant
            i <= 32,
            h@.len() == 32,
            buf@ == start + h@.subrange(0, i as int),
        decreases 32 - i,
    {
        buf.push(h[i]);
        i = i + 1;
        assert(buf@ =~= start + h@.subrange(0, i as int));
    }
    assert(h@.subrange(0, 32) =~= h@);
}

/// The big-endian integer at `at`.
pub fn read_u32(b: &[u8], at: usize) -> (r: u32)
    requires
        at + 4 <= b@.len(),
    ensures
        r == u32_at(b@.subrange(at as int, b@.len() as int)),
{
    ((b[at] as u32) << 24u32) | ((b[at + 1] as u32) << 16u32) | ((b[at + 2] as u32) << 8u32)
        | (b[at + 3] as u32)
}

/// The big-endian integer at `at`.
pub fn read_u64(b: &[u8], at: usize) -> (r: u64)
    requires
        at + 8 <= b@.len(),
    ensures
        r == u64_at(b@.subrange(at as int, b@.len() as int)),
{
    ((b[at] as u64) << 56u64) | ((b[at + 1] as u64) << 48u64) | ((b[at + 2] as u64) << 40u64)
        | ((b[at + 3] as u64) << 32u64) | ((b[at + 4] as u64) << 24u64)
        | ((b[at + 5] as u64) << 16u64) | ((b[at + 6] as u64) << 8u64) | (b[at + 7] as u64)
}

/// The 32 bytes at `at`.
pub fn read_h256(b: &[u8], at: usize) -> (r: H256)
    requires
        at + 32 <= b@.len(),
    ensures
        r@ == b@.subrange(at as int, at + 32),
{
    let n = b.len();
    let mut h: H256 = [0u8; 32];
    let mut i: usize = 0;
    while i < 32
        invariant
            i <= 32,
            n == b@.len(),
            at + 32 <= b@.len(),
            h@.len() == 32,
            forall|k: int| 0 <= k < i ==> h@[k] == b@[at + k],
        decreases 32 - i,
    {
        h[i] = b[at + i];
        i = i + 1;
    }
    assert(h@ =~= b@.subrange(at as int, at + 32));
    h
}

/// The bytes of a sequence of hashes, one after the other.
pub open spec fn hashes_bytes(p: Seq<H256>) -> Seq<u8>
    decreases p.len(),
{
    if p.len() == 0 {
        Seq::empty()
    } else {
        hashes_bytes(p.drop_last()) + p.last()@
    }
}

pub open spec fn spec_encode_message(m: RawCommittedMessage) -> Seq<u8> {
    u32_bytes(m.leaf_index) + m.committed_root@ + m.message@
}

/// A message read back: leaf index, committed root, message bytes.
pub open spec fn spec_decode_message(b: Seq<u8>) -> Option<(u32, Seq<u8>, Seq<u8>)> {
    if b.len() >= 36 {
        Some((u32_at(b), b.subrange(4, 36), b.subrange(36, b.len() as int)))
    } else {
        None
    }
}

pub open spec fn spec_encode_update(u: SignedUpdate) -> Seq<u8> {
    u32_bytes(u.update.home_domain) + u.update.previous_root@ + u.update.new_root@
        + u.signature.r@ + u.signature.s@ + seq![u.signature.v]
}

/// Length of an encoded signed update.
pub open spec fn update_len() -> int {
    133
}

/// A signed update read back: home domain, previous root, new root, and the
/// signature's `r`, `s` and `v`.
pub open spec fn spec_decode_update(b: Seq<u8>) -> Option<(u32, Seq<u8>, Seq<u8>, Seq<u8>, Seq<u8>, u8)> {
    if b.len() >= update_len() {
        Some((u32_at(b), b.subrange(4, 36), b.subrange(36, 68), b.subrange(68, 100),
            b.subrange(100, 132), b[132]))
    } else {
        None
    }
}

pub open spec fn spec_encode_proof(p: Proof) -> Seq<u8> {
    p.leaf@ + u64_bytes(p.index) + hashes_bytes(p.path@)
}

/// Length of an encoded proof.
pub open spec fn proof_len() -> int {
    1064
}

/// A proof read back: leaf, index, and the path as `TREE_DEPTH` hashes.
pub open spec fn spec_decode_proof(b: Seq<u8>) -> Option<(Seq<u8>, u64, Seq<Seq<u8>>)> {
    if b.len() >= proof_len() {
        Some((b.subrange(0, 32), u64_at(b.subrange(32, b.len() as int)),
            Seq::new(32, |k: int| b.subrange(40 + 32 * k, 72 + 32 * k))))
    } else {
        None
    }
}

pub fn encode_u32(x: u32) -> (r: Vec<u8>)
    ensures
        r@ == u32_bytes(x),
{
    let mut buf: Vec<u8> = Vec::new();
    push_u32(&mut buf, x);
    assert(buf@ =~= u32_bytes(x));
    buf
}

pub fn decode_u32(b: &[u8]) -> (r: Result<u32, DecodeError>)
    ensures
        r matches Ok(x) ==> spec_decode_u32(b@) == Some(x),
        r is Err <==> spec_decode_u32(b@) is None,
{
    if b.len() < 4 {
        return Err(DecodeError::UnexpectedEnd);
    }
    let x = read_u32(b, 0);
    assert(b@.subrange(0, b@.len() as int) =~= b@);
    Ok(x)
}

pub fn encode_u64(x: u64) -> (r: Vec<u8>)
    ensures
        r@ == u64_bytes(x),
{
    let mut buf: Vec<u8> = Vec::new();
    push_u64(&mut buf, x);
    assert(buf@ =~= u64_bytes(x));
    buf
}

pub fn decode_u64(b: &[u8]) -> (r: Result<u64, DecodeError>)
    ensures
        r matches Ok(x) ==> spec_decode_u64(b@) == Some(x),
        r is Err <==> spec_decode_u64(b@) is None,
{
    if b.len() < 8 {
        return Err(DecodeError::UnexpectedEnd);
    }
    let x = read_u64(b, 0);
    assert(b@.subrange(0, b@.len() as int) =~= b@);
    Ok(x)
}

pub fn encode_h256(h: &H256) -> (r: Vec<u8>)
    ensures
        r@ == h@,
{
    let mut buf: Vec<u8> = Vec::new();
    push_h256(&mut buf, h);
    assert(buf@ =~= h@);
    buf
}

pub fn decode_h256(b: &[u8]) -> (r: Result<H256, DecodeError>)
    ensures
        r matches Ok(h) ==> spec_decode_h256(b@) == Some(h@),
        r is Err <==> spec_decode_h256(b@) is None,
{
    if b.len() < 32 {
        return Err(DecodeError::UnexpectedEnd);
    }
    Ok(read_h256(b, 0))
}

/// Copies the bytes of `b` from `at` on.
fn tail_bytes(b: &[u8], at: usize) -> (r: Vec<u8>)
    requires
        at <= b@.len(),
    ensures
        r@ == b@.subrange(at as int, b@.len() as int),
{
    let n = b.len();
    let mut r: Vec<u8> = Vec::new();
    let mut i: usize = at;
    while i < n
        invariant
            at <= i <= n,
            n == b@.len(),
            r@ == b@.subrange(at as int, i as int),
        decreases n - i,
    {
        r.push(b[i]);
        i = i + 1;
        assert(r@ =~= b@.subrange(at as int, i as int));
    }
    r
}

pub fn encode_message(m: &RawCommittedMessage) -> (r: Vec<u8>)
    requires
        m.message@.len() + 36 <= usize::MAX,
    ensures
        r@ == spec_encode_message(*m),
{
    let mut buf: Vec<u8> = Vec::new();
    push_u32(&mut buf, m.leaf_index);
    push_h256(&mut buf, &m.committed_root);
    crate::keys::append_bytes(&mut buf, m.message.as_slice());
    assert(buf@ =~= spec_encode_message(*m));
    buf
}

pub fn decode_message(b: &[u8]) -> (r: Result<RawCommittedMessage, DecodeError>)
    ensures
        r matches Ok(m) ==> spec_decode_message(b@) == Some((m.leaf_index, m.committed_root@, m.message@)),
        r is Err <==> spec_decode_message(b@) is None,
{
    if b.len() < 36 {
        return Err(DecodeError::UnexpectedEnd);
    }
    let leaf_index = read_u32(b, 0);
    assert(b@.subrange(0, b@.len() as int) =~= b@);
    let committed_root = read_h256(b, 4);
    let message = tail_bytes(b, 36);
    Ok(RawCommittedMessage { leaf_index, committed_root, message })
}

pub fn encode_update(u: &SignedUpdate) -> (r: Vec<u8>)
    ensures
        r@ == spec_encode_update(*u),
{
    let mut buf: Vec<u8> = Vec::new();
    push_u32(&mut buf, u.update.home_domain);
    push_h256(&mut buf, &u.update.previous_root);
    push_h256(&mut buf, &u.update.new_root);
    push_h256(&mut buf, &u.signature.r);
    push_h256(&mut buf, &u.signature.s);
    buf.push(u.signature.v);
    assert(buf@ =~= spec_encode_update(*u));
    buf
}

pub fn decode_update(b: &[u8]) -> (r: Result<SignedUpdate, DecodeError>)
    ensures
        r matches Ok(u) ==> spec_decode_update(b@) == Some((u.update.home_domain,
            u.update.previous_root@, u.update.new_root@, u.signature.r@, u.signature.s@,
            u.signature.v)),
        r is Err <==> spec_decode_update(b@) is None,
{
    if b.len() < 133 {
        return Err(DecodeError::UnexpectedEnd);
    }
    let home_domain = read_u32(b, 0);
    assert(b@.subrange(0, b@.len() as int) =~= b@);
    let previous_root = read_h256(b, 4);
    let new_root = read_h256(b, 36);
    let r = read_h256(b, 68);
    let s = read_h256(b, 100);
    let v = b[132];
    Ok(SignedUpdate {
        update: Update { home_domain, previous_root, new_root },
        signature: Signature { r, s, v },
    })
}

pub fn encode_proof(p: &Proof) -> (r: Vec<u8>)
    ensures
        r@ == spec_encode_proof(*p),
{
    let mut buf: Vec<u8> = Vec::new();
    push_h256(&mut buf, &p.leaf);
    push_u64(&mut buf, p.index);
    let ghost head = buf@;
    let mut i: usize = 0;
    while i < TREE_DEPTH
        invariant
            i <= p.path@.len() == TREE_DEPTH,
            head.len() == 40,
            buf@ == head + hashes_bytes(p.path@.subrange(0, i as int)),
        decreases p.path@.len() - i,
    {
        proof {
            lemma_hashes_bytes(p.path@.subrange(0, i as int));
        }
        push_h256(&mut buf, &p.path[i]);
        i = i + 1;
        assert(p.path@.subrange(0, i as int).drop_last() =~= p.path@.subrange(0, i - 1));
        assert(buf@ =~= head + hashes_bytes(p.path@.subrange(0, i as int)));
    }
    assert(p.path@.subrange(0, i as int) =~= p.path@);
    assert(buf@ =~= spec_encode_proof(*p));
    buf
}

pub fn decode_proof(b: &[u8]) -> (r: Result<Proof, DecodeError>)
    ensures
        r matches Ok(p) ==> spec_decode_proof(b@) == Some((p.leaf@, p.index,
            p.path@.map_values(|h: H256| h@))),
        r is Err <==> spec_decode_proof(b@) is None,
{
    if b.len() < 1064 {
        return Err(DecodeError::UnexpectedEnd);
    }
    let leaf = read_h256(b, 0);
    let index = read_u64(b, 32);
    let mut path: [H256; TREE_DEPTH] = [[0u8; 32]; TREE_DEPTH];
    let mut k: usize = 0;
    while k < TREE_DEPTH
        invariant
            k <= TREE_DEPTH,
            b@.len() >= 1064,
            path@.len() == TREE_DEPTH,
            forall|j: int| 0 <= j < k ==> (#[trigger] path@[j])@ == b@.subrange(40 + 32 * j, 72 + 32 * j),
        decreases TREE_DEPTH - k,
    {
        let h = read_h256(b, 40 + 32 * k);
        path[k] = h;
        k = k + 1;
    }
    let p = Proof { leaf, index, path };
    assert(p.path@.map_values(|h: H256| h@) =~= Seq::new(32, |j: int| b@.subrange(40 + 32 * j, 72 + 32 * j)));
    Ok(p)
}

/// The hashes of a sequence lie one after the other, 32 bytes each.
pub proof fn lemma_hashes_bytes(p: Seq<H256>)
    ensures
        hashes_bytes(p).len() == 32 * p.len(),
        forall|k: int| 0 <= k < p.len() ==> hashes_bytes(p).subrange(32 * k, 32 * k + 32) == (#[trigger] p[k])@,
    decreases p.len(),
{
    if p.len() > 0 {
        let q = p.drop_last();
        lemma_hashes_bytes(q);
        let hb = hashes_bytes(p);
        assert(hb == hashes_bytes(q) + p.last()@);
        assert forall|k: int| 0 <= k < p.len() implies hb.subrange(32 * k, 32 * k + 32) == (#[trigger] p[k])@ by {
            if k < q.len() {
                assert(q[k] == p[k]);
                assert(32 * k + 32 <= 32 * q.len()) by (nonlinear_arith) requires k < q.len();
                assert(hb.subrange(32 * k, 32 * k + 32) =~= hashes_bytes(q).subrange(32 * k, 32 * k + 32));
            } else {
                assert(hb.subrange(32 * k, 32 * k + 32) =~= p.last()@);
            }
        }
    }
}

/// A message reads back as written.
pub proof fn lemma_message_round_trip(m: RawCommittedMessage)
    ensures
        spec_decode_message(spec_encode_message(m)) == Some((m.leaf_index, m.committed_root@, m.message@)),
{
    let b = spec_encode_message(m);
    lemma_u32_round_trip(m.leaf_index);
    assert(b.subrange(0, 4) =~= u32_bytes(m.leaf_index));
    assert(b.subrange(4, 36) =~= m.committed_root@);
    assert(b.subrange(36, b.len() as int) =~= m.message@);
}

/// A signed update reads back as written.
pub proof fn lemma_update_round_trip(u: SignedUpdate)
    ensures
        spec_decode_update(spec_encode_update(u)) == Some((u.update.home_domain,
            u.update.previous_root@, u.update.new_root@, u.signature.r@, u.signature.s@,
            u.signature.v)),
{
    let b = spec_encode_update(u);
    lemma_u32_round_trip(u.update.home_domain);
    assert(b.subrange(0, 4) =~= u32_bytes(u.update.home_domain));
    assert(b.subrange(4, 36) =~= u.update.previous_root@);
    assert(b.subrange(36, 68) =~= u.update.new_root@);
    assert(b.subrange(68, 100) =~= u.signature.r@);
    assert(b.subrange(100, 132) =~= u.signature.s@);
}

/// A proof reads back as written.
pub proof fn lemma_proof_round_trip(p: Proof)
    ensures
        spec_decode_proof(spec_encode_proof(p)) == Some((p.leaf@, p.index,
            p.path@.map_values(|h: H256| h@))),
{
    let b = spec_encode_proof(p);
    let hb = hashes_bytes(p.path@);
    lemma_hashes_bytes(p.path@);
    lemma_u64_round_trip(p.index);
    assert(b.subrange(0, 32) =~= p.leaf@);
    assert(b.subrange(32, b.len() as int).subrange(0, 8) =~= u64_bytes(p.index));
    assert(u64_at(b.subrange(32, b.len() as int)) == u64_at(u64_bytes(p.index)));
    let path = Seq::new(32, |k: int| b.subrange(40 + 32 * k, 72 + 32 * k));
    assert forall|k: int| 0 <= k < 32 implies path[k] == (#[trigger] p.path@[k])@ by {
        assert(b.subrange(40 + 32 * k, 72 + 32 * k) =~= hb.subrange(32 * k, 32 * k + 32));
    }
    assert(path =~= p.path@.map_values(|h: H256| h@));
}

/// A hash reads back as written.
pub proof fn lemma_h256_round_trip(h: H256)
    ensures
        spec_decode_h256(h@) == Some(h@),
{
    assert(h@.subrange(0, 32) =~= h@);
}

} // verus!
