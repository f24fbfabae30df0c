//! What holds of the store across several operations.

use crate::engine::{flushed, flushed_all, KvsModel};
use crate::error::ErrorCode;
use crate::format::{distinct_keys, enc_mapping, entries_bounded};
use crate::mapping::map_of;
use crate::roundtrip::lemma_round_trip;
use crate::snapshot::{
    archived, has_snapshot, lemma_archived_tail, lemma_archived_valid, lemma_snapshot_index,
    restore_result, tail_consecutive, SNAPSHOT_MAX_COUNT,
};
use crate::value::EntriesModel;
use vstd::prelude::*;

verus! {

/// The number of snapshots retained after `n` more were archived.
pub open spec fn retained(before: nat, n: nat) -> nat {
    if before + n <= SNAPSHOT_MAX_COUNT {
        before + n
    } else {
        SNAPSHOT_MAX_COUNT as nat
    }
}

/// Any number of flushes keeps the state in order, advances the next
/// identifier by one for each flush, and retains as many snapshots as
/// were archived, up to the bound. The snapshots that these flushes
/// archived and that are retained have consecutive identifiers. The
/// working set and the defaults are as before.
pub proof fn lemma_flushed_all(s: KvsModel, writes: Seq<Seq<u8>>)
    requires
        s.wf(),
        s.next_id + writes.len() <= u64::MAX,
    ensures
        flushed_all(s, writes).wf(),
        flushed_all(s, writes).next_id == s.next_id + writes.len(),
        flushed_all(s, writes).snapshots.len() == retained(s.snapshots.len(), writes.len()),
        tail_consecutive(
            flushed_all(s, writes).snapshots,
            flushed_all(s, writes).next_id,
            if writes.len() <= flushed_all(s, writes).snapshots.len() {
                writes.len() as int
            } else {
                flushed_all(s, writes).snapshots.len() as int
            },
        ),
        flushed_all(s, writes).working == s.working,
        flushed_all(s, writes).defaults == s.defaults,
    decreases writes.len(),
{
    if writes.len() > 0 {
        lemma_flushed_all(s, writes.drop_last());
        let m = flushed_all(s, writes.drop_last());
        let n = writes.len() - 1;
        let t = if n <= m.snapshots.len() { n as int } else { m.snapshots.len() as int };
        lemma_archived_valid(m.snapshots, m.next_id, m.current);
        lemma_archived_tail(m.snapshots, m.next_id, m.current, t);
    }
}

/// Snapshot bound: after more flushes than the bound, as many
/// snapshots as the bound are retained, and neither the first one that
/// these flushes archived nor any older one can be restored.
pub proof fn lemma_snapshot_bound(s: KvsModel, writes: Seq<Seq<u8>>, id: u64)
    requires
        s.wf(),
        writes.len() > SNAPSHOT_MAX_COUNT,
        s.next_id + writes.len() <= u64::MAX,
        id <= s.next_id,
    ensures
        flushed_all(s, writes).snapshots.len() == SNAPSHOT_MAX_COUNT,
        restore_result(flushed_all(s, writes).snapshots, id) == Err::<EntriesModel, ErrorCode>(
            ErrorCode::SnapshotNotFound,
        ),
{
    lemma_flushed_all(s, writes);
    let r = flushed_all(s, writes);
    assert forall|i: int| 0 <= i < r.snapshots.len() implies (#[trigger] r.snapshots[i]).0
        != id by {}
    assert(!has_snapshot(r.snapshots, id));
}

/// A flush archives the state that was durable before it: restoring
/// the identifier that the flush assigned gives that state back.
pub proof fn lemma_restore_archived(s: KvsModel, prior: EntriesModel, bytes: Seq<u8>)
    requires
        s.wf(),
        s.next_id < u64::MAX,
        s.current == enc_mapping(prior),
        distinct_keys(prior),
        entries_bounded(prior),
    ensures
        restore_result(flushed(s, bytes).snapshots, s.next_id) == Ok::<EntriesModel, ErrorCode>(
            prior,
        ),
{
    let h = archived(s.snapshots, s.next_id, s.current);
    lemma_archived_valid(s.snapshots, s.next_id, s.current);
    lemma_snapshot_index(h, h.len() - 1);
    lemma_round_trip(prior);
}

/// Restore idempotence: restoring changes the working set only, so
/// restoring the same identifier again gives the same working set.
pub proof fn lemma_restore_twice(s: KvsModel, id: u64)
    ensures
        restore_result(s.snapshots, id) matches Ok(es) ==> restore_result(
            (KvsModel { working: map_of(es), ..s }).snapshots,
            id,
        ) == Ok::<EntriesModel, ErrorCode>(es),
{
}

} // verus!
