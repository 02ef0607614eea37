//! Prefix scans and the wait for a leaf, as decisions on what the store
//! returned.
use vstd::prelude::*;
use crate::codec::{decode_h256, spec_decode_h256};
use crate::types::{DecodeError, H256};

verus! {

/// Time between two lookups while waiting for a leaf.
pub const POLL_INTERVAL_MS: u64 = 100;

pub open spec fn starts_with(key: Seq<u8>, prefix: Seq<u8>) -> bool {
    prefix.len() <= key.len() && key.subrange(0, prefix.len() as int) == prefix
}

/// Whether `key` begins with `prefix`.
pub fn has_prefix(prefix: &[u8], key: &[u8]) -> (r: bool)
    ensures
        r == starts_with(key@, prefix@),
{
    let n = prefix.len();
    if n > key.len() {
        return false;
    }
    let mut i: usize = 0;
    while i < n
        invariant
            i <= n,
            n == prefix@.len(),
            n <= key@.len(),
            forall|k: int| 0 <= k < i ==> key@[k] == prefix@[k],
        decreases n - i,
    {
        if key[i] != prefix[i] {
            assert(key@.subrange(0, n as int)[i as int] != prefix@[i as int]);
            return false;
        }
        i = i + 1;
    }
    assert(key@.subrange(0, n as int) =~= prefix@);
    true
}

/// One entry of a scan over leaf hashes: `None` where the key leaves the
/// prefix, so the scan stops; otherwise the entry's hash, or the reason it
/// does not decode.
pub fn scan_leaf_entry(prefix: &[u8], key: &[u8], value: &[u8]) -> (r: Option<Result<H256, DecodeError>>)
    ensures
        r is None <==> !starts_with(key@, prefix@),
        r matches Some(Ok(h)) ==> spec_decode_h256(value@) == Some(h@),
        r matches Some(Err(_)) ==> spec_decode_h256(value@) is None,
        starts_with(key@, prefix@) && spec_decode_h256(value@) is None ==> r matches Some(Err(_)),
{
    if !has_prefix(prefix, key) {
        return None;
    }
    Some(decode_h256(value))
}

/// What a wait for a leaf does after one lookup.
pub enum WaitStep {
    /// The leaf is there: the wait ends with its hash.
    Found(H256),
    /// Not yet: look again after this many milliseconds.
    Retry(u64),
}

/// The wait ends on a hit and polls again after `POLL_INTERVAL_MS` on a miss.
pub fn wait_step(found: Option<H256>) -> (r: WaitStep)
    ensures
        r == match found {
            Some(h) => WaitStep::Found(h),
            None => WaitStep::Retry(POLL_INTERVAL_MS),
        },
{
    match found {
        Some(h) => WaitStep::Found(h),
        None => WaitStep::Retry(POLL_INTERVAL_MS),
    }
}

} // verus!
