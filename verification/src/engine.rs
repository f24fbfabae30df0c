//! The store engine: the working set of overrides over the defaults,
//! the durable current state and the snapshot history of one instance.
//!
//! The engine holds bytes, not files. A flush makes the bytes of the
//! working set the current state and archives the state that was
//! current before it, the empty mapping where there was none, under
//! the next snapshot identifier. Whoever owns the files writes
//! `current_state` and `snapshots` out after a flush and hands them
//! back to `build`.

use crate::codec::{decode, encode};
use crate::defaults::{load, loaded_defaults, resolve, resolved, KvsDefaults};
use crate::error::ErrorCode;
use crate::format::{distinct_keys, enc_mapping, entries_bounded, parse_mapping};
use crate::mapping::{map_of, KvsMap};
use crate::snapshot::{
    archived, history_of, next_after, restore_result, valid_history, HistoryModel, ManagerModel,
    Snapshot, SnapshotId, SnapshotManager, SNAPSHOT_MAX_COUNT,
};
use crate::value::{EntriesModel, Value, ValueModel};
use vstd::prelude::*;

verus! {

/// The identifier of an instance.
#[derive(Clone, Copy, Debug, PartialEq, Eq, Structural)]
pub struct InstanceId(pub u64);

/// Whether an existing current state is loaded when an instance is built.
#[derive(Clone, Copy, Debug, PartialEq, Eq, Structural)]
pub enum KvsLoad {
    /// Start empty, whatever is there.
    Ignored,
    /// Load the current state if there is one.
    Optional,
}

/// The state of an instance as mathematics.
pub struct KvsModel {
    pub instance: InstanceId,
    /// The overrides, not durable until flushed.
    pub working: Map<Seq<char>, ValueModel>,
    pub defaults: Map<Seq<char>, ValueModel>,
    /// The bytes of the durable current state.
    pub current: Seq<u8>,
    /// The retained snapshots, oldest first.
    pub snapshots: HistoryModel,
    /// The identifier that the next flush assigns.
    pub next_id: u64,
}

impl KvsModel {
    /// The part of the state that the snapshot manager keeps.
    pub open spec fn manager(self) -> ManagerModel {
        ManagerModel { current: self.current, snapshots: self.snapshots, next_id: self.next_id }
    }

    /// The history is valid and every identifier in it was assigned before `next_id`.
    pub open spec fn wf(self) -> bool {
        self.manager().wf()
    }
}

/// Whether building loads the given state.
pub open spec fn loads(load: KvsLoad, state: Option<Seq<u8>>) -> bool {
    load == KvsLoad::Optional && state is Some
}

/// What building an instance gives: its first state, or the error.
pub open spec fn built(
    instance: InstanceId,
    directory_available: bool,
    load: KvsLoad,
    state: Option<Seq<u8>>,
    policy: KvsDefaults,
    source: Option<Seq<u8>>,
    history: HistoryModel,
) -> Result<KvsModel, ErrorCode> {
    if !directory_available {
        Err(ErrorCode::DirectoryUnavailable)
    } else if loads(load, state) && parse_mapping(state.unwrap()) is None {
        Err(ErrorCode::CorruptData)
    } else {
        match loaded_defaults(source, policy) {
            Err(e) => Err(e),
            Ok(defaults) => if !valid_history(history) {
                Err(ErrorCode::CorruptData)
            } else {
                Ok(
                    KvsModel {
                        instance,
                        working: if loads(load, state) {
                            map_of(parse_mapping(state.unwrap()).unwrap())
                        } else {
                            Map::empty()
                        },
                        defaults,
                        current: match state {
                            Some(bytes) => bytes,
                            None => enc_mapping(Seq::empty()),
                        },
                        snapshots: history,
                        next_id: next_after(history),
                    },
                )
            },
        }
    }
}

/// The state after a flush that writes `bytes`.
pub open spec fn flushed(s: KvsModel, bytes: Seq<u8>) -> KvsModel {
    KvsModel {
        current: bytes,
        snapshots: archived(s.snapshots, s.next_id, s.current),
        next_id: (s.next_id + 1) as u64,
        ..s
    }
}

/// The state after one flush for each of `writes`, in order.
pub open spec fn flushed_all(s: KvsModel, writes: Seq<Seq<u8>>) -> KvsModel
    decreases writes.len(),
{
    if writes.len() == 0 {
        s
    } else {
        flushed(flushed_all(s, writes.drop_last()), writes.last())
    }
}

/// The bytes of an optional byte vector.
pub open spec fn bytes_of(o: Option<Vec<u8>>) -> Option<Seq<u8>> {
    match o {
        Some(v) => Some(v@),
        None => None,
    }
}

/// One instance of the store.
pub struct Kvs {
    instance: InstanceId,
    working: KvsMap,
    defaults: KvsMap,
    history: SnapshotManager,
}

impl Kvs {
    /// The state of the instance.
    pub closed spec fn view(&self) -> KvsModel {
        KvsModel {
            instance: self.instance,
            working: self.working@,
            defaults: self.defaults@,
            current: self.history@.current,
            snapshots: self.history@.snapshots,
            next_id: self.history@.next_id,
        }
    }

    /// The entries of the working set as a flush writes them.
    pub closed spec fn working_entries(&self) -> EntriesModel {
        self.working.entries()
    }

    /// The instance is in order. This holds of every instance.
    pub closed spec fn wf(&self) -> bool {
        self.working.wf() && self.defaults.wf() && self.history.wf()
    }

    /// An instance that is in order has an ordered state, and its
    /// working set is the mapping of its entries, whose keys are distinct.
    pub proof fn lemma_wf(&self)
        requires
            self.wf(),
        ensures
            self@.wf(),
            distinct_keys(self.working_entries()),
            self@.working == map_of(self.working_entries()),
    {
    }

    /// Brings what holds of every instance into a proof. Does nothing when run.
    pub fn well_formed(&self)
        ensures
            self.wf(),
    {
        self.working.well_formed();
        self.defaults.well_formed();
        self.history.well_formed();
    }

    /// Builds an instance from what its directory holds: the bytes of
    /// the current state, of the defaults source and of the snapshots,
    /// each where it exists.
    pub fn build(
        instance: InstanceId,
        directory_available: bool,
        load_policy: KvsLoad,
        state: Option<Vec<u8>>,
        defaults_policy: KvsDefaults,
        defaults_source: Option<Vec<u8>>,
        history: Vec<Snapshot>,
    ) -> (r: Result<Kvs, ErrorCode>)
        ensures
            match r {
                Ok(kvs) => kvs.wf() && built(
                    instance,
                    directory_available,
                    load_policy,
                    bytes_of(state),
                    defaults_policy,
                    bytes_of(defaults_source),
                    history_of(history@),
                ) == Ok::<KvsModel, ErrorCode>(kvs@),
                Err(e) => built(
                    instance,
                    directory_available,
                    load_policy,
                    bytes_of(state),
                    defaults_policy,
                    bytes_of(defaults_source),
                    history_of(history@),
                ) == Err::<KvsModel, ErrorCode>(e),
            },
    {
        if !directory_available {
            return Err(ErrorCode::DirectoryUnavailable);
        }
        let working = match (load_policy, &state) {
            (KvsLoad::Optional, Some(bytes)) => {
                match decode(bytes.as_slice()) {
                    Ok(m) => m,
                    Err(e) => {
                        return Err(e);
                    },
                }
            },
            _ => KvsMap::new(),
        };
        let current = match state {
            Some(bytes) => bytes,
            None => encode(&KvsMap::new()),
        };
        let source: Option<&[u8]> = match &defaults_source {
            Some(v) => Some(v.as_slice()),
            None => None,
        };
        let defaults = match load(source, defaults_policy) {
            Ok(m) => m,
            Err(e) => {
                return Err(e);
            },
        };
        match SnapshotManager::new(current, history) {
            Some(history) => Ok(Kvs { instance, working, defaults, history }),
            None => Err(ErrorCode::CorruptData),
        }
    }

    /// The identifier of the instance.
    pub fn instance_id(&self) -> (r: InstanceId)
        ensures
            r == self@.instance,
    {
        self.instance
    }

    /// The value of a key: its override, else its default.
    pub fn get_value(&self, key: &String) -> (r: Result<&Value, ErrorCode>)
        ensures
            match r {
                Ok(v) => resolved(self@.working, self@.defaults, key@) == Some(v.model()),
                Err(e) => e == ErrorCode::KeyNotFound && resolved(
                    self@.working,
                    self@.defaults,
                    key@,
                ) is None,
            },
    {
        resolve(key, &self.working, &self.defaults)
    }

    /// Sets the override of a key. Nothing is durable before the next flush.
    pub fn set_value(&mut self, key: String, value: Value)
        ensures
            final(self).wf(),
            final(self)@ == (KvsModel {
                working: old(self)@.working.insert(key@, value.model()),
                ..old(self)@
            }),
    {
        self.well_formed();
        self.working.insert(key, value);
    }

    /// Removes the override of a key and says whether there was one.
    /// The defaults are not touched.
    pub fn remove_key(&mut self, key: &String) -> (removed: bool)
        ensures
            final(self).wf(),
            removed == old(self)@.working.contains_key(key@),
            final(self)@ == (KvsModel {
                working: old(self)@.working.remove(key@),
                ..old(self)@
            }),
    {
        self.well_formed();
        self.working.remove(key)
    }

    /// Whether a key has an override. A key that has only a default does not exist.
    pub fn key_exists(&self, key: &String) -> (r: bool)
        ensures
            r == self@.working.contains_key(key@),
    {
        self.working.contains_key(key)
    }

    /// The keys that have an override, each once, as many as there are.
    pub fn get_all_keys(&self) -> (r: Vec<String>)
        ensures
            forall|i: int, j: int|
                0 <= i < j < r@.len() ==> (#[trigger] r@[i])@ != (#[trigger] r@[j])@,
            forall|k: Seq<char>|
                self@.working.contains_key(k) <==> exists|i: int|
                    0 <= i < r@.len() && (#[trigger] r@[i])@ == k,
            self@.working.dom().finite(),
            r@.len() == self@.working.dom().len(),
            r@.len() == 0 <==> self@.working == Map::<Seq<char>, ValueModel>::empty(),
    {
        let r = self.working.keys();
        proof {
            if r@.len() == 0 {
                assert(self@.working =~= Map::<Seq<char>, ValueModel>::empty());
            } else {
                assert(self@.working.contains_key(r@[0]@));
            }
        }
        r
    }

    /// The default of a key, whatever its override.
    pub fn get_default_value(&self, key: &String) -> (r: Result<&Value, ErrorCode>)
        ensures
            match r {
                Ok(v) => self@.defaults.contains_key(key@) && self@.defaults[key@] == v.model(),
                Err(e) => e == ErrorCode::KeyNotFound && !self@.defaults.contains_key(key@),
            },
    {
        match self.defaults.get(key) {
            Some(v) => Ok(v),
            None => Err(ErrorCode::KeyNotFound),
        }
    }

    /// Resets a key to its default by removing its override, if it has one.
    pub fn reset_key(&mut self, key: &String)
        ensures
            final(self).wf(),
            final(self)@ == (KvsModel {
                working: old(self)@.working.remove(key@),
                ..old(self)@
            }),
    {
        self.well_formed();
        let _ = self.working.remove(key);
    }

    /// Removes every override. Snapshots and defaults are not touched.
    pub fn reset(&mut self)
        ensures
            final(self).wf(),
            final(self)@ == (KvsModel { working: Map::empty(), ..old(self)@ }),
    {
        self.well_formed();
        self.working.clear();
    }

    /// Whether another flush can be assigned an identifier.
    pub fn can_flush(&self) -> (r: bool)
        ensures
            r == (self@.next_id < u64::MAX),
    {
        self.history.can_commit()
    }

    /// Makes the working set the durable current state and archives
    /// the state that was current before, under the identifier returned.
    pub fn flush(&mut self) -> (id: SnapshotId)
        requires
            old(self)@.next_id < u64::MAX,
        ensures
            final(self).wf(),
            id.0 == old(self)@.next_id,
            final(self)@ == flushed(old(self)@, enc_mapping(old(self).working_entries())),
            final(self).working_entries() == old(self).working_entries(),
            entries_bounded(old(self).working_entries()),
    {
        self.well_formed();
        self.history.commit(&self.working)
    }

    /// Flushes where an identifier is left to assign; otherwise changes
    /// nothing and returns `None`.
    pub fn try_flush(&mut self) -> (r: Option<SnapshotId>)
        ensures
            final(self).wf(),
            final(self).working_entries() == old(self).working_entries(),
            match r {
                Some(id) => old(self)@.next_id < u64::MAX && id.0 == old(self)@.next_id
                    && final(self)@ == flushed(
                    old(self)@,
                    enc_mapping(old(self).working_entries()),
                ),
                None => old(self)@.next_id == u64::MAX && final(self)@ == old(self)@,
            },
    {
        if self.can_flush() {
            Some(self.flush())
        } else {
            self.well_formed();
            None
        }
    }

    /// Replaces the working set by the state archived under `id`. The
    /// snapshot stays; the restored state is durable after the next flush.
    pub fn snapshot_restore(&mut self, id: SnapshotId) -> (r: Result<(), ErrorCode>)
        ensures
            final(self).wf(),
            match restore_result(old(self)@.snapshots, id.0) {
                Ok(es) => r is Ok && final(self).working_entries() == es && final(self)@ == (
                KvsModel { working: map_of(es), ..old(self)@ }),
                Err(e) => r == Err::<(), ErrorCode>(e) && final(self)@ == old(self)@
                    && final(self).working_entries() == old(self).working_entries(),
            },
    {
        self.well_formed();
        match self.history.restore(id) {
            Ok(m) => {
                self.working = m;
                Ok(())
            },
            Err(e) => Err(e),
        }
    }

    /// The number of retained snapshots.
    pub fn snapshot_count(&self) -> (n: usize)
        ensures
            n == self@.snapshots.len(),
            n <= SNAPSHOT_MAX_COUNT,
    {
        self.history.count()
    }

    /// The number of snapshots that an instance retains at most.
    pub fn snapshot_max_count() -> (n: usize)
        ensures
            n == SNAPSHOT_MAX_COUNT,
    {
        SnapshotManager::max_count()
    }

    /// The bytes of the durable current state.
    pub fn current_state(&self) -> (r: &Vec<u8>)
        ensures
            r@ == self@.current,
    {
        self.history.current_state()
    }

    /// The retained snapshots, oldest first.
    pub fn snapshots(&self) -> (r: &Vec<Snapshot>)
        ensures
            history_of(r@) == self@.snapshots,
    {
        self.history.snapshots()
    }
}

} // verus!
