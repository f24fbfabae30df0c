//! The snapshot history: a bounded, rotating sequence of archived
//! states with identifiers that only grow.

use crate::codec::{decode, encode};
use crate::error::ErrorCode;
use crate::format::{enc_mapping, entries_bounded, parse_mapping};
use crate::mapping::KvsMap;
use crate::value::EntriesModel;
use vstd::prelude::*;

verus! {

/// The number of snapshots that an instance retains at most.
pub const SNAPSHOT_MAX_COUNT: usize = 3;

/// The identifier of a snapshot.
#[derive(Clone, Copy, Debug, PartialEq, Eq, Structural)]
pub struct SnapshotId(pub u64);

/// An archived state: its identifier and its durable bytes.
#[derive(Clone, Debug, PartialEq, Eq)]
pub struct Snapshot {
    pub id: SnapshotId,
    pub bytes: Vec<u8>,
}

/// A history as mathematics: identifier and bytes, oldest first.
pub type HistoryModel = Seq<(u64, Seq<u8>)>;

/// The history that a list of snapshots stands for.
pub open spec fn history_of(snaps: Seq<Snapshot>) -> HistoryModel {
    Seq::new(snaps.len(), |i: int| (snaps[i].id.0, snaps[i].bytes@))
}

/// A history that an instance may hold: within the bound, identifiers
/// from one on, strictly increasing, and room for a next one.
pub open spec fn valid_history(h: HistoryModel) -> bool {
    &&& h.len() <= SNAPSHOT_MAX_COUNT
    &&& forall|i: int| 0 <= i < h.len() ==> 1 <= (#[trigger] h[i]).0 < u64::MAX
    &&& forall|i: int, j: int| 0 <= i < j < h.len() ==> (#[trigger] h[i]).0 < (#[trigger] h[j]).0
}

/// The identifier that follows the newest of a history.
pub open spec fn next_after(h: HistoryModel) -> u64 {
    if h.len() == 0 {
        1
    } else {
        (h.last().0 + 1) as u64
    }
}

/// Some retained snapshot has the identifier.
pub open spec fn has_snapshot(h: HistoryModel, id: u64) -> bool {
    exists|i: int| 0 <= i < h.len() && (#[trigger] h[i]).0 == id
}

/// The place of a snapshot with the identifier, where there is one.
pub open spec fn snapshot_index(h: HistoryModel, id: u64) -> int {
    choose|i: int| 0 <= i < h.len() && (#[trigger] h[i]).0 == id
}

/// The history with its oldest snapshot evicted where it is over the bound.
pub open spec fn rotate(h: HistoryModel) -> HistoryModel {
    if h.len() > SNAPSHOT_MAX_COUNT {
        h.remove(0)
    } else {
        h
    }
}

/// The history after archiving `bytes` under `id`.
pub open spec fn archived(h: HistoryModel, id: u64, bytes: Seq<u8>) -> HistoryModel {
    rotate(h.push((id, bytes)))
}

/// What restoring an identifier gives: the archived entries, or why not.
pub open spec fn restore_result(h: HistoryModel, id: u64) -> Result<EntriesModel, ErrorCode> {
    if !has_snapshot(h, id) {
        Err(ErrorCode::SnapshotNotFound)
    } else {
        match parse_mapping(h[snapshot_index(h, id)].1) {
            Some(es) => Ok(es),
            None => Err(ErrorCode::CorruptData),
        }
    }
}

/// Whether a list of snapshots is a history that an instance may hold.
pub fn check_history(snaps: &Vec<Snapshot>) -> (r: bool)
    ensures
        r == valid_history(history_of(snaps@)),
{
    let ghost h = history_of(snaps@);
    if snaps.len() > SNAPSHOT_MAX_COUNT {
        return false;
    }
    let mut i: usize = 0;
    while i < snaps.len()
        invariant
            i <= snaps.len(),
            h == history_of(snaps@),
            forall|a: int| 0 <= a < i ==> 1 <= (#[trigger] h[a]).0 < u64::MAX,
            forall|a: int, c: int| 0 <= a < c < i ==> (#[trigger] h[a]).0 < (#[trigger] h[c]).0,
        decreases snaps.len() - i,
    {
        let id = snaps[i].id.0;
        assert(h[i as int].0 == id);
        if id < 1 || id == u64::MAX {
            return false;
        }
        if i > 0 {
            let prev = snaps[i - 1].id.0;
            assert(h[i - 1].0 == prev);
            if prev >= id {
                return false;
            }
        }
        i += 1;
    }
    true
}

/// The first place of a snapshot with the identifier, if there is one.
pub fn find_snapshot(snaps: &Vec<Snapshot>, id: SnapshotId) -> (r: Option<usize>)
    ensures
        match r {
            Some(i) => i < snaps@.len() && history_of(snaps@)[i as int].0 == id.0 && forall|
                j: int,
            | 0 <= j < i ==> (#[trigger] history_of(snaps@)[j]).0 != id.0,
            None => !has_snapshot(history_of(snaps@), id.0),
        },
{
    let ghost h = history_of(snaps@);
    let mut i: usize = 0;
    while i < snaps.len()
        invariant
            i <= snaps.len(),
            h == history_of(snaps@),
            forall|a: int| 0 <= a < i ==> (#[trigger] h[a]).0 != id.0,
        decreases snaps.len() - i,
    {
        if snaps[i].id.0 == id.0 {
            assert(h[i as int].0 == id.0);
            return Some(i);
        }
        i += 1;
    }
    None
}

/// In a valid history an identifier stands at one place only.
pub proof fn lemma_snapshot_index(h: HistoryModel, i: int)
    requires
        valid_history(h),
        0 <= i < h.len(),
    ensures
        has_snapshot(h, h[i].0),
        snapshot_index(h, h[i].0) == i,
{
    let j = snapshot_index(h, h[i].0);
    if j < i {
        assert(h[j].0 < h[i].0);
    } else if i < j {
        assert(h[i].0 < h[j].0);
    }
}

/// The newest `t` identifiers follow one another up to the next one.
pub open spec fn tail_consecutive(h: HistoryModel, next_id: u64, t: int) -> bool {
    &&& 0 <= t <= h.len()
    &&& forall|i: int| h.len() - t <= i < h.len() ==> (#[trigger] h[i]).0 == next_id - h.len() + i
}

/// Archiving under a fresh identifier keeps a history valid and within the bound.
pub proof fn lemma_archived_valid(h: HistoryModel, id: u64, bytes: Seq<u8>)
    requires
        valid_history(h),
        forall|i: int| 0 <= i < h.len() ==> (#[trigger] h[i]).0 < id,
        1 <= id < u64::MAX,
    ensures
        valid_history(archived(h, id, bytes)),
        forall|i: int|
            0 <= i < archived(h, id, bytes).len() ==> (#[trigger] archived(h, id, bytes)[i]).0
                < id + 1,
        archived(h, id, bytes).len() == if h.len() < SNAPSHOT_MAX_COUNT {
            h.len() + 1
        } else {
            SNAPSHOT_MAX_COUNT as nat
        },
        archived(h, id, bytes).last() == (id, bytes),
        next_after(archived(h, id, bytes)) == id + 1,
{
    let pushed = h.push((id, bytes));
    assert forall|i: int, j: int| 0 <= i < j < pushed.len() implies (#[trigger] pushed[i]).0 < (
    #[trigger] pushed[j]).0 by {
        assert(pushed[i] == h[i]);
        if j < h.len() {
            assert(pushed[j] == h[j]);
        }
    }
    assert forall|i: int| 0 <= i < pushed.len() implies 1 <= (#[trigger] pushed[i]).0 <= id by {
        if i < h.len() {
            assert(pushed[i] == h[i]);
        }
    }
    let r = archived(h, id, bytes);
    if pushed.len() > SNAPSHOT_MAX_COUNT {
        assert forall|i: int| 0 <= i < r.len() implies #[trigger] r[i] == pushed[i + 1] by {}
        assert forall|i: int, j: int| 0 <= i < j < r.len() implies (#[trigger] r[i]).0 < (
        #[trigger] r[j]).0 by {
            assert(r[i] == pushed[i + 1]);
            assert(r[j] == pushed[j + 1]);
        }
        assert forall|i: int| 0 <= i < r.len() implies 1 <= (#[trigger] r[i]).0 <= id by {
            assert(r[i] == pushed[i + 1]);
        }
    }
}

/// Archiving under the next identifier makes the consecutive tail
/// longer by one, as far as the bound lets it.
pub proof fn lemma_archived_tail(h: HistoryModel, next_id: u64, bytes: Seq<u8>, t: int)
    requires
        tail_consecutive(h, next_id, t),
        next_id < u64::MAX,
    ensures
        tail_consecutive(
            archived(h, next_id, bytes),
            (next_id + 1) as u64,
            if t + 1 <= archived(h, next_id, bytes).len() {
                t + 1
            } else {
                archived(h, next_id, bytes).len() as int
            },
        ),
{
    let pushed = h.push((next_id, bytes));
    let r = archived(h, next_id, bytes);
    assert forall|i: int| pushed.len() - (t + 1) <= i < pushed.len() implies (
    #[trigger] pushed[i]).0 == next_id + 1 - pushed.len() + i by {
        if i < h.len() {
            assert(pushed[i] == h[i]);
        }
    }
    if pushed.len() > SNAPSHOT_MAX_COUNT {
        let t2 = if t + 1 <= r.len() { t + 1 } else { r.len() as int };
        assert forall|i: int| r.len() - t2 <= i < r.len() implies (#[trigger] r[i]).0 == next_id
            + 1 - r.len() + i by {
            assert(r[i] == pushed[i + 1]);
        }
    }
}

/// The state of a snapshot manager as mathematics.
pub struct ManagerModel {
    /// The bytes of the durable current state.
    pub current: Seq<u8>,
    /// The retained snapshots, oldest first.
    pub snapshots: HistoryModel,
    /// The identifier that the next commit assigns.
    pub next_id: u64,
}

impl ManagerModel {
    /// The history is valid and every identifier in it was assigned before `next_id`.
    pub open spec fn wf(self) -> bool {
        &&& valid_history(self.snapshots)
        &&& 1 <= self.next_id
        &&& forall|i: int|
            0 <= i < self.snapshots.len() ==> (#[trigger] self.snapshots[i]).0 < self.next_id
    }
}

/// The state after a commit that writes `bytes`: they are the current
/// state, and the state that was current is archived under the next identifier.
pub open spec fn committed(s: ManagerModel, bytes: Seq<u8>) -> ManagerModel {
    ManagerModel {
        current: bytes,
        snapshots: archived(s.snapshots, s.next_id, s.current),
        next_id: (s.next_id + 1) as u64,
    }
}

/// The durable current state of an instance and its snapshot history.
pub struct SnapshotManager {
    current: Vec<u8>,
    snapshots: Vec<Snapshot>,
    next_id: u64,
}

impl SnapshotManager {
    #[verifier::type_invariant]
    spec fn inv(self) -> bool {
        (ManagerModel {
            current: self.current@,
            snapshots: history_of(self.snapshots@),
            next_id: self.next_id,
        }).wf()
    }

    /// The state of the manager.
    pub closed spec fn view(&self) -> ManagerModel {
        ManagerModel {
            current: self.current@,
            snapshots: history_of(self.snapshots@),
            next_id: self.next_id,
        }
    }

    /// The manager is in order. This holds of every manager.
    pub open spec fn wf(&self) -> bool {
        self@.wf()
    }

    /// Brings what holds of every manager into a proof. Does nothing when run.
    pub fn well_formed(&self)
        ensures
            self.wf(),
    {
        proof {
            use_type_invariant(self);
        }
    }

    /// A manager over the current state and the snapshots retained so
    /// far, if these are a valid history. The next identifier follows
    /// the newest snapshot.
    pub fn new(current: Vec<u8>, history: Vec<Snapshot>) -> (r: Option<SnapshotManager>)
        ensures
            r is Some <==> valid_history(history_of(history@)),
            r matches Some(m) ==> m.wf() && m@ == (ManagerModel {
                current: current@,
                snapshots: history_of(history@),
                next_id: next_after(history_of(history@)),
            }),
    {
        if !check_history(&history) {
            return None;
        }
        let ghost h = history_of(history@);
        let next_id: u64 = if history.len() == 0 {
            1
        } else {
            assert(h.last().0 == history@[history@.len() - 1].id.0);
            history[history.len() - 1].id.0 + 1
        };
        assert forall|i: int| 0 <= i < h.len() implies (#[trigger] h[i]).0 < next_id by {
            if i < h.len() - 1 {
                assert(h[i].0 < h[h.len() - 1].0);
            }
        }
        Some(SnapshotManager { current, snapshots: history, next_id })
    }

    /// Whether another commit can be assigned an identifier.
    pub fn can_commit(&self) -> (r: bool)
        ensures
            r == (self@.next_id < u64::MAX),
    {
        self.next_id < u64::MAX
    }

    /// Makes the bytes of the working set the current state and
    /// archives the state that was current before under the next
    /// identifier, which is returned. Over the bound, the oldest
    /// snapshot is evicted.
    pub fn commit(&mut self, working: &KvsMap) -> (id: SnapshotId)
        requires
            old(self)@.next_id < u64::MAX,
        ensures
            final(self).wf(),
            id.0 == old(self)@.next_id,
            final(self)@ == committed(old(self)@, enc_mapping(working.entries())),
            entries_bounded(working.entries()),
    {
        proof {
            use_type_invariant(&*self);
        }
        let ghost h = history_of(self.snapshots@);
        let ghost prior_bytes = self.current@;
        let id = SnapshotId(self.next_id);
        let mut bytes = encode(working);
        core::mem::swap(&mut self.current, &mut bytes);
        let mut snapshots: Vec<Snapshot> = Vec::new();
        core::mem::swap(&mut self.snapshots, &mut snapshots);
        let snapshot = Snapshot { id, bytes };
        proof {
            lemma_archived_valid(h, id.0, prior_bytes);
            assert(history_of(snapshots@.push(snapshot)) =~= h.push((id.0, prior_bytes)));
        }
        snapshots.push(snapshot);
        if snapshots.len() > SNAPSHOT_MAX_COUNT {
            proof {
                assert(history_of(snapshots@.remove(0)) =~= history_of(snapshots@).remove(0));
            }
            let _ = snapshots.remove(0);
        }
        self.next_id = self.next_id + 1;
        self.snapshots = snapshots;
        id
    }

    /// The mapping archived under `id`. The snapshot stays.
    pub fn restore(&self, id: SnapshotId) -> (r: Result<KvsMap, ErrorCode>)
        ensures
            match r {
                Ok(m) => m.wf() && restore_result(self@.snapshots, id.0) == Ok::<
                    EntriesModel,
                    ErrorCode,
                >(m.entries()),
                Err(e) => restore_result(self@.snapshots, id.0) == Err::<EntriesModel, ErrorCode>(
                    e,
                ),
            },
    {
        proof {
            use_type_invariant(self);
        }
        match find_snapshot(&self.snapshots, id) {
            None => Err(ErrorCode::SnapshotNotFound),
            Some(i) => {
                proof {
                    lemma_snapshot_index(history_of(self.snapshots@), i as int);
                }
                decode(self.snapshots[i].bytes.as_slice())
            },
        }
    }

    /// The number of retained snapshots.
    pub fn count(&self) -> (n: usize)
        ensures
            n == self@.snapshots.len(),
            n <= SNAPSHOT_MAX_COUNT,
    {
        proof {
            use_type_invariant(self);
        }
        self.snapshots.len()
    }

    /// The number of snapshots that are retained at most.
    pub fn max_count() -> (n: usize)
        ensures
            n == SNAPSHOT_MAX_COUNT,
    {
        SNAPSHOT_MAX_COUNT
    }

    /// The bytes of the durable current state.
    pub fn current_state(&self) -> (r: &Vec<u8>)
        ensures
            r@ == self@.current,
    {
        &self.current
    }

    /// The retained snapshots, oldest first.
    pub fn snapshots(&self) -> (r: &Vec<Snapshot>)
        ensures
            history_of(r@) == self@.snapshots,
            self.wf(),
    {
        proof {
            use_type_invariant(self);
        }
        &self.snapshots
    }
}

} // verus!
