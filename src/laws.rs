//! What holds of the store across several recordings.
use vstd::prelude::*;
use crate::codec::{lemma_message_round_trip, lemma_u32_round_trip, lemma_update_round_trip, u32_bytes};
use crate::keys::{
    latest_leaf_key, latest_root_key, leaf_hash_key, leaf_index_key, lemma_key_lengths,
    lemma_keys_distinct, new_root_key, nonce_key, prev_root_key,
};
use crate::store::{
    advances_index, advances_root, apply, entry, leaf_writes,
    message_destination_and_nonce, message_writes, read_latest_leaf_index, read_latest_root,
    read_leaf_by_index, read_leaf_by_nonce, read_message_by_hash, read_message_by_index,
    read_message_by_nonce, read_update_by_new_root, read_update_by_previous_root, update_view,
    update_writes, latest_leaf_index_readable,
};
use crate::types::{RawCommittedMessage, SignedUpdate};

verus! {

/// Writes to other keys leave a key as it was.
pub proof fn lemma_apply_untouched(m: Map<Seq<u8>, Seq<u8>>, ws: Seq<(Seq<u8>, Seq<u8>)>, k: Seq<u8>)
    requires
        forall|i: int| 0 <= i < ws.len() ==> (#[trigger] ws[i]).0 != k,
    ensures
        entry(apply(m, ws), k) == entry(m, k),
    decreases ws.len(),
{
    if ws.len() > 0 {
        let p = ws.drop_last();
        assert forall|i: int| 0 <= i < p.len() implies (#[trigger] p[i]).0 != k by {
            assert(p[i] == ws[i]);
        }
        lemma_apply_untouched(m, p, k);
        assert(ws.last() == ws[ws.len() - 1]);
    }
}

/// A key holds the value of the last write to it.
pub proof fn lemma_apply_last_write(m: Map<Seq<u8>, Seq<u8>>, ws: Seq<(Seq<u8>, Seq<u8>)>, i: int)
    requires
        0 <= i < ws.len(),
        forall|j: int| i < j < ws.len() ==> (#[trigger] ws[j]).0 != ws[i].0,
    ensures
        entry(apply(m, ws), ws[i].0) == Some(ws[i].1),
    decreases ws.len(),
{
    if i < ws.len() - 1 {
        let p = ws.drop_last();
        assert forall|j: int| i < j < p.len() implies (#[trigger] p[j]).0 != p[i].0 by {
            assert(p[j] == ws[j]);
        }
        lemma_apply_last_write(m, p, i);
        assert(ws.last() == ws[ws.len() - 1]);
    }
}

/// The latest leaf index after recording one leaf: the greater of the index
/// read before and the new one.
pub open spec fn index_after(current: Option<u32>, leaf_index: u32) -> u32 {
    match current {
        Some(c) => if leaf_index > c { leaf_index } else { c },
        None => leaf_index,
    }
}

/// Recording a leaf leaves the latest leaf index at the greater of the old
/// one and the leaf's index.
pub proof fn lemma_leaf_latest_index(m: Map<Seq<u8>, Seq<u8>>, home: Seq<u8>, leaf_index: u32, destination_and_nonce: u64, leaf_hash: Seq<u8>)
    requires
        leaf_hash.len() == 32,
    ensures
        read_latest_leaf_index(
            apply(m, leaf_writes(home, leaf_index, destination_and_nonce, leaf_hash, read_latest_leaf_index(m, home))),
            home,
        ) == Some(index_after(read_latest_leaf_index(m, home), leaf_index)),
{
    let cur = read_latest_leaf_index(m, home);
    let ws = leaf_writes(home, leaf_index, destination_and_nonce, leaf_hash, cur);
    let k = latest_leaf_key(home);
    lemma_key_lengths(home, destination_and_nonce, leaf_index, leaf_hash);
    assert(ws[0].0 != k && ws[1].0 != k);
    if advances_index(cur, leaf_index) {
        assert(ws[2] == (k, u32_bytes(leaf_index)));
        lemma_apply_last_write(m, ws, 2);
        lemma_u32_round_trip(leaf_index);
    } else {
        assert(ws.len() == 2);
        lemma_apply_untouched(m, ws, k);
    }
}

/// The latest leaf index is monotone and does not depend on the order of
/// writes: after recording leaves `i` and `j`, in either order, it is the
/// greatest of `i`, `j` and the index recorded before, if any.
pub proof fn lemma_latest_leaf_index_is_max(m: Map<Seq<u8>, Seq<u8>>, home: Seq<u8>, i: u32, dn_i: u64, hash_i: Seq<u8>, j: u32, dn_j: u64, hash_j: Seq<u8>)
    requires
        hash_i.len() == 32,
        hash_j.len() == 32,
        latest_leaf_index_readable(m, home),
    ensures
        ({
            let m1 = apply(m, leaf_writes(home, i, dn_i, hash_i, read_latest_leaf_index(m, home)));
            let m2 = apply(m1, leaf_writes(home, j, dn_j, hash_j, read_latest_leaf_index(m1, home)));
            let top: u32 = if i >= j { i } else { j };
            read_latest_leaf_index(m2, home) == Some(match read_latest_leaf_index(m, home) {
                Some(c) => if c >= top { c } else { top },
                None => top,
            })
        }),
{
    let m1 = apply(m, leaf_writes(home, i, dn_i, hash_i, read_latest_leaf_index(m, home)));
    lemma_leaf_latest_index(m, home, i, dn_i, hash_i);
    lemma_leaf_latest_index(m1, home, j, dn_j, hash_j);
}

/// What a committed message reads back as.
pub open spec fn message_view(m: RawCommittedMessage) -> (u32, Seq<u8>, Seq<u8>) {
    (m.leaf_index, m.committed_root@, m.message@)
}

/// After a message is recorded under `leaf_hash`, its leaf index, its
/// destination and nonce, and its hash all lead to that same message; other
/// leaf indices and other destinations and nonces read as before, so those
/// never recorded stay absent.
pub proof fn lemma_message_lookups_agree(m: Map<Seq<u8>, Seq<u8>>, home: Seq<u8>, msg: RawCommittedMessage, leaf_hash: Seq<u8>, other_index: u32, other_dn: u64)
    requires
        leaf_hash.len() == 32,
        latest_leaf_index_readable(m, home),
        message_writes(home, msg, leaf_hash, read_latest_leaf_index(m, home)) is Some,
    ensures
        ({
            let m1 = apply(m, message_writes(home, msg, leaf_hash, read_latest_leaf_index(m, home)).unwrap());
            let dn = message_destination_and_nonce(msg.message@).unwrap();
            &&& read_leaf_by_index(m1, home, msg.leaf_index) == Some(leaf_hash)
            &&& read_leaf_by_nonce(m1, home, dn) == Some(leaf_hash)
            &&& read_message_by_hash(m1, home, leaf_hash) == Some(message_view(msg))
            &&& read_message_by_index(m1, home, msg.leaf_index) == Some(message_view(msg))
            &&& read_message_by_nonce(m1, home, dn) == Some(message_view(msg))
            &&& (other_index != msg.leaf_index ==> read_leaf_by_index(m1, home, other_index)
                == read_leaf_by_index(m, home, other_index))
            &&& (other_dn != dn ==> read_leaf_by_nonce(m1, home, other_dn)
                == read_leaf_by_nonce(m, home, other_dn))
        }),
{
    let cur = read_latest_leaf_index(m, home);
    let ws = message_writes(home, msg, leaf_hash, cur).unwrap();
    let dn = message_destination_and_nonce(msg.message@).unwrap();
    let kh = leaf_hash_key(home, leaf_hash);
    let kn = nonce_key(home, dn);
    let ki = leaf_index_key(home, msg.leaf_index);
    let ko = leaf_index_key(home, other_index);
    let kd = nonce_key(home, other_dn);
    lemma_key_lengths(home, dn, msg.leaf_index, leaf_hash);
    lemma_key_lengths(home, other_dn, other_index, leaf_hash);
    assert(ws[0] == (kh, crate::codec::spec_encode_message(msg)));
    assert(ws[1] == (kn, leaf_hash));
    assert(ws[2] == (ki, leaf_hash));
    assert(ws.len() == 3 || ws[3].0 == latest_leaf_key(home));
    lemma_apply_last_write(m, ws, 0);
    lemma_apply_last_write(m, ws, 1);
    lemma_apply_last_write(m, ws, 2);
    lemma_message_round_trip(msg);
    assert(leaf_hash.subrange(0, 32) =~= leaf_hash);
    if other_index != msg.leaf_index {
        assert(u32_bytes(other_index) != u32_bytes(msg.leaf_index)) by {
            lemma_u32_round_trip(other_index);
            lemma_u32_round_trip(msg.leaf_index);
        }
        lemma_keys_distinct(home, crate::keys::leaf_index_tag(), u32_bytes(other_index), u32_bytes(msg.leaf_index));
        lemma_apply_untouched(m, ws, ko);
    }
    if other_dn != dn {
        assert(crate::codec::u64_bytes(other_dn) != crate::codec::u64_bytes(dn)) by {
            crate::codec::lemma_u64_round_trip(other_dn);
            crate::codec::lemma_u64_round_trip(dn);
        }
        lemma_keys_distinct(home, crate::keys::nonce_tag(), crate::codec::u64_bytes(other_dn), crate::codec::u64_bytes(dn));
        lemma_apply_untouched(m, ws, kd);
    }
}

/// The store after recording a signed update on what it held.
pub open spec fn after_update(m: Map<Seq<u8>, Seq<u8>>, home: Seq<u8>, u: SignedUpdate) -> Map<Seq<u8>, Seq<u8>> {
    apply(m, update_writes(home, u, read_latest_root(m, home)))
}

/// Recording an update moves the latest root to its new root exactly when it
/// extends the latest root (or none is known), records the update under its
/// previous root, where a lookup by its new root finds it too, and leaves the
/// updates under other previous roots alone.
pub proof fn lemma_update_step(m: Map<Seq<u8>, Seq<u8>>, home: Seq<u8>, u: SignedUpdate, other_root: Seq<u8>)
    requires
        other_root.len() == 32,
    ensures
        read_latest_root(after_update(m, home, u), home) == if advances_root(read_latest_root(m, home), u.update.previous_root@) {
            Some(u.update.new_root@)
        } else {
            read_latest_root(m, home)
        },
        read_update_by_previous_root(after_update(m, home, u), home, u.update.previous_root@) == Some(update_view(u)),
        read_update_by_new_root(after_update(m, home, u), home, u.update.new_root@) == Some(update_view(u)),
        other_root != u.update.previous_root@ ==> read_update_by_previous_root(after_update(m, home, u), home, other_root)
            == read_update_by_previous_root(m, home, other_root),
{
    let cur = read_latest_root(m, home);
    let prev = u.update.previous_root@;
    let new = u.update.new_root@;
    let ws = update_writes(home, u, cur);
    let kl = latest_root_key(home);
    let kp = prev_root_key(home, prev);
    let kn = new_root_key(home, new);
    let ko = prev_root_key(home, other_root);
    lemma_key_lengths(home, 0, 0, prev);
    lemma_key_lengths(home, 0, 0, new);
    lemma_key_lengths(home, 0, 0, other_root);
    lemma_update_round_trip(u);
    if other_root != prev {
        lemma_keys_distinct(home, crate::keys::prev_root_tag(), other_root, prev);
    }
    if advances_root(cur, prev) {
        assert(ws =~= seq![(kl, new), (kp, crate::codec::spec_encode_update(u)), (kn, prev)]);
        lemma_apply_last_write(m, ws, 0);
        lemma_apply_last_write(m, ws, 1);
        lemma_apply_last_write(m, ws, 2);
        assert(new.subrange(0, 32) =~= new);
        assert(prev.subrange(0, 32) =~= prev);
        if other_root != prev {
            lemma_apply_untouched(m, ws, ko);
        }
    } else {
        assert(ws =~= seq![(kp, crate::codec::spec_encode_update(u)), (kn, prev)]);
        lemma_apply_untouched(m, ws, kl);
        lemma_apply_last_write(m, ws, 0);
        lemma_apply_last_write(m, ws, 1);
        assert(prev.subrange(0, 32) =~= prev);
        if other_root != prev {
            lemma_apply_untouched(m, ws, ko);
        }
    }
}

/// Recording the same update twice reads as recording it once: the latest
/// root and the update under its previous root are as after the first time.
pub proof fn lemma_update_idempotent(m: Map<Seq<u8>, Seq<u8>>, home: Seq<u8>, u: SignedUpdate)
    ensures
        read_latest_root(after_update(after_update(m, home, u), home, u), home)
            == read_latest_root(after_update(m, home, u), home),
        read_update_by_previous_root(after_update(after_update(m, home, u), home, u), home, u.update.previous_root@)
            == read_update_by_previous_root(after_update(m, home, u), home, u.update.previous_root@),
{
    let m1 = after_update(m, home, u);
    let r = u.update.new_root@;
    lemma_update_step(m, home, u, r);
    lemma_update_step(m1, home, u, r);
}

/// Updates recorded along the chain move the latest root to its end: after
/// `u1` from the latest root (or with none known) and then `u2` from where
/// `u1` ends, the latest root is where `u2` ends.
pub proof fn lemma_chain_in_order(m: Map<Seq<u8>, Seq<u8>>, home: Seq<u8>, u1: SignedUpdate, u2: SignedUpdate)
    requires
        u1.update.new_root@ == u2.update.previous_root@,
        read_latest_root(m, home) is None || read_latest_root(m, home) == Some(u1.update.previous_root@),
    ensures
        read_latest_root(after_update(after_update(m, home, u1), home, u2), home) == Some(u2.update.new_root@),
{
    let m1 = after_update(m, home, u1);
    let r = u1.update.previous_root@;
    lemma_update_step(m, home, u1, r);
    lemma_update_step(m1, home, u2, r);
}

/// An update that arrives before the one it extends is kept but does not move
/// the latest root: with the latest root at `R0`, `u2` from `R1` leaves it at
/// `R0`; `u1` from `R0` to `R1` then moves it to `R1`, and `u2` is still found
/// under `R1`.
pub proof fn lemma_chain_out_of_order(m: Map<Seq<u8>, Seq<u8>>, home: Seq<u8>, u1: SignedUpdate, u2: SignedUpdate)
    requires
        u1.update.new_root@ == u2.update.previous_root@,
        u1.update.previous_root@ != u2.update.previous_root@,
        read_latest_root(m, home) == Some(u1.update.previous_root@),
    ensures
        read_latest_root(after_update(m, home, u2), home) == Some(u1.update.previous_root@),
        read_latest_root(after_update(after_update(m, home, u2), home, u1), home) == Some(u1.update.new_root@),
        read_update_by_previous_root(after_update(after_update(m, home, u2), home, u1), home, u2.update.previous_root@)
            == Some(update_view(u2)),
{
    let m1 = after_update(m, home, u2);
    lemma_update_step(m, home, u2, u1.update.previous_root@);
    lemma_update_step(m1, home, u1, u2.update.previous_root@);
}

} // verus!
