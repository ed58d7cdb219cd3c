use vstd::prelude::*;
use crate::epoch::EpochManager;
use crate::faster_status::FasterStatus;
use crate::index::HashIndex;
use crate::log::{HybridLog, Record, clone_bytes};
use crate::model::{
    RecM, log_m, log_cost, prev_decreasing, entries_in_range, bucket_of, chain_find,
    lookup, kv_view, chain_measure, rmw_merge, current_value, lemma_install_view,
    lemma_log_cost_push, RECORD_OVERHEAD_BYTES,
};
use vstd::bytes::{u64_from_le_bytes, u64_to_le_bytes};

verus! {

/// Bytes of index storage per bucket entry: the table size in bytes fixes
/// the bucket count.
pub const BUCKET_ENTRY_BYTES: u64 = 64;

/// Number of index buckets bought by `table_size_bytes` of table storage,
/// at least one and at most the addressable maximum.
pub open spec fn spec_nslots(table_size_bytes: u64) -> int {
    let n = table_size_bytes as int / BUCKET_ENTRY_BYTES as int;
    if n < 1 {
        1
    } else if n > usize::MAX as int {
        usize::MAX as int
    } else {
        n
    }
}

fn compute_nslots(table_size_bytes: u64) -> (n: usize)
    ensures
        n as int == spec_nslots(table_size_bytes),
        n >= 1,
{
    let n64 = table_size_bytes / BUCKET_ENTRY_BYTES;
    if n64 < 1 {
        1
    } else if n64 > (usize::MAX as u64) {
        usize::MAX
    } else {
        n64 as usize
    }
}

fn bucket_for(key: u64, nslots: usize) -> (b: usize)
    requires
        nslots >= 1,
    ensures
        b as int == bucket_of(key, nslots as int),
        b < nslots,
{
    (key % (nslots as u64)) as usize
}

/// A consistent point-in-time image of the store: the log up to the
/// recorded tail, the index snapshot, and the global epoch at the
/// checkpoint boundary. Recovery validates the image before trusting it.
pub struct Checkpoint {
    pub records: Vec<Record>,
    pub entries: Vec<Option<usize>>,
    /// Log address up to which the image is committed.
    pub tail: usize,
    /// Global epoch recorded at the checkpoint boundary.
    pub epoch: u64,
}

impl Checkpoint {
    /// The committed record prefix the image captures.
    pub open spec fn committed(self) -> Seq<RecM> {
        log_m(self.records@).take(self.tail as int)
    }

    /// The image is a consistent cut for a store of the given table and
    /// log sizes: the tail lies within the captured log, every index
    /// entry reaches only committed records, chain links decrease, and
    /// the committed prefix fits the configured log capacity.
    pub open spec fn wf(self, table_size_bytes: u64, log_size_bytes: u64) -> bool {
        &&& self.tail <= self.records@.len()
        &&& self.entries@.len() == spec_nslots(table_size_bytes)
        &&& entries_in_range(self.entries@, self.tail as int)
        &&& prev_decreasing(self.committed())
        &&& log_cost(self.committed()) <= log_size_bytes
        &&& self.epoch >= 1
    }
}

impl View for Checkpoint {
    type V = Map<u64, Seq<u8>>;

    open spec fn view(&self) -> Map<u64, Seq<u8>> {
        kv_view(self.committed(), self.entries@)
    }
}

/// The key-value engine: a fixed-size hash index over an append-only
/// hybrid log, with epoch-tracked sessions. Its abstract contents are a
/// map from keys to values; updates append records and install their
/// addresses into the index, deletes append tombstones.
pub struct FasterKv {
    index: HashIndex,
    log: HybridLog,
    epochs: EpochManager,
    table_size_bytes: u64,
    log_size_bytes: u64,
}

impl View for FasterKv {
    type V = Map<u64, Seq<u8>>;

    closed spec fn view(&self) -> Map<u64, Seq<u8>> {
        kv_view(self.log.records(), self.index.entries())
    }
}

impl FasterKv {
    pub closed spec fn table_size(self) -> u64 {
        self.table_size_bytes
    }

    pub closed spec fn log_size(self) -> u64 {
        self.log_size_bytes
    }

    /// The stored records, oldest first.
    pub closed spec fn log_records(self) -> Seq<RecM> {
        self.log.records()
    }

    /// The index entries, by bucket.
    pub closed spec fn index_entries(self) -> Seq<Option<usize>> {
        self.index.entries()
    }

    /// Number of registered sessions.
    pub closed spec fn session_count(self) -> int {
        self.epochs.published().len() as int
    }

    /// The current global epoch.
    pub closed spec fn epoch_global(self) -> u64 {
        self.epochs.global()
    }

    pub closed spec fn wf(self) -> bool {
        &&& self.index.entries().len() == spec_nslots(self.table_size_bytes)
        &&& self.index.entries().len() >= 1
        &&& self.log.wf()
        &&& self.log.capacity() == self.log_size_bytes
        &&& entries_in_range(self.index.entries(), self.log.records().len() as int)
        &&& self.epochs.wf()
        &&& forall|i: int|
            0 <= i < self.epochs.published().len() ==> self.epochs.published()[i] == 0
    }

    /// Bytes of log capacity consumed so far.
    pub open spec fn log_used(self) -> int {
        log_cost(self.log_records())
    }

    /// A record carrying `vlen` value bytes still fits under the log
    /// capacity.
    pub open spec fn fits_value(self, vlen: nat) -> bool {
        self.log_used() + RECORD_OVERHEAD_BYTES + vlen <= self.log_size()
    }

    /// Table size, log size and session count are unchanged.
    pub open spec fn same_config(self, other: Self) -> bool {
        &&& self.table_size() == other.table_size()
        &&& self.log_size() == other.log_size()
        &&& self.session_count() == other.session_count()
    }

    /// Opens a fresh, empty store with the given index-table and log
    /// capacities in bytes.
    pub fn new(table_size_bytes: u64, log_size_bytes: u64) -> (s: Self)
        ensures
            s.wf(),
            s@ == Map::<u64, Seq<u8>>::empty(),
            s.log_records() == Seq::<RecM>::empty(),
            s.log_used() == 0,
            s.table_size() == table_size_bytes,
            s.log_size() == log_size_bytes,
            s.session_count() == 0,
            s.epoch_global() == 1,
    {
        let nslots = compute_nslots(table_size_bytes);
        let s = FasterKv {
            index: HashIndex::new(nslots),
            log: HybridLog::new(log_size_bytes),
            epochs: EpochManager::new(),
            table_size_bytes,
            log_size_bytes,
        };
        proof {
            assert(s@ =~= Map::<u64, Seq<u8>>::empty());
        }
        s
    }

    /// Appends one record version for `key` at the log tail and installs
    /// its address into the key's bucket; shared body of every update
    /// operation. The compare-and-swap cannot be conflicted here, because
    /// the store is exclusively borrowed between observing the bucket and
    /// installing into it.
    fn append_and_install(&mut self, key: u64, value: Vec<u8>, tombstone: bool) -> (status:
        FasterStatus)
        requires
            old(self).wf(),
        ensures
            final(self).wf(),
            final(self).same_config(*old(self)),
            final(self).epoch_global() == old(self).epoch_global(),
            status == FasterStatus::OK || status == FasterStatus::OutOfMemory,
            (status == FasterStatus::OK) <==> old(self).fits_value(value@.len()),
            status == FasterStatus::OK ==> final(self).log_records()
                == old(self).log_records().push(
                (RecM {
                    key,
                    value: value@,
                    tombstone,
                    prev: old(self).index_entries()[bucket_of(
                        key,
                        old(self).index_entries().len() as int,
                    )],
                }),
            ),
            status == FasterStatus::OK ==> final(self).log_used() == old(self).log_used()
                + RECORD_OVERHEAD_BYTES + value@.len(),
            status == FasterStatus::OK && !tombstone ==> final(self)@ == old(self)@.insert(
                key,
                value@,
            ),
            status == FasterStatus::OK && tombstone ==> final(self)@ == old(self)@.remove(key),
            status != FasterStatus::OK ==> final(self)@ == old(self)@
                && final(self).log_records() == old(self).log_records(),
    {
        let nslots = self.index.slot_count();
        let b = bucket_for(key, nslots);
        let session = self.epochs.session_count();
        if session > 0 {
            self.epochs.enter(session - 1);
        }
        let head = self.index.find(b);
        let ghost m = RecM { key, value: value@, tombstone, prev: head };
        let ghost old_records = old(self).log.records();
        let ghost old_entries = old(self).index.entries();
        proof {
            assert(old_entries[b as int] matches Some(a) ==> a < old_records.len());
        }
        let res = self.log.append(key, value, tombstone, head);
        let status = match res {
            Err(e) => e,
            Ok(addr) => {
                let installed = self.index.try_install(b, head, Some(addr));
                proof {
                    assert(installed);
                    lemma_log_cost_push(old_records, m);
                    lemma_install_view(old_records, old_entries, m, addr);
                    assert forall|bb: int|
                        0 <= bb < self.index.entries().len() implies (
                    #[trigger] self.index.entries()[bb] matches Some(a) ==> a
                        < self.log.records().len()) by {
                        if bb != b as int {
                            assert(self.index.entries()[bb] == old_entries[bb]);
                        }
                    }
                }
                FasterStatus::OK
            },
        };
        if session > 0 {
            self.epochs.exit(session - 1);
            proof {
                assert(self.epochs.published() =~= old(self).epochs.published());
            }
        }
        status
    }

    /// Installs `value` as the newest version of `key`. Fails with
    /// `OutOfMemory` exactly when the record does not fit under the log
    /// capacity; the contents are then unchanged.
    pub fn upsert(&mut self, key: u64, value: Vec<u8>) -> (status: FasterStatus)
        requires
            old(self).wf(),
        ensures
            final(self).wf(),
            final(self).same_config(*old(self)),
            final(self).epoch_global() == old(self).epoch_global(),
            status == FasterStatus::OK || status == FasterStatus::OutOfMemory,
            (status == FasterStatus::OK) <==> old(self).fits_value(value@.len()),
            status == FasterStatus::OK ==> final(self)@ == old(self)@.insert(key, value@)
                && final(self).log_used() == old(self).log_used() + RECORD_OVERHEAD_BYTES
                + value@.len(),
            status != FasterStatus::OK ==> final(self)@ == old(self)@ && final(self).log_used()
                == old(self).log_used(),
    {
        self.append_and_install(key, value, false)
    }

    /// Reads the newest visible version of `key`: its value with `OK`, or
    /// `NotFound` when the key has no live (non-tombstoned) version.
    pub fn read(&self, key: u64) -> (r: (FasterStatus, Option<Vec<u8>>))
        requires
            self.wf(),
        ensures
            self@.contains_key(key) ==> r.0 == FasterStatus::OK && (r.1 matches Some(v) && v@
                == self@[key]),
            !self@.contains_key(key) ==> r.0 == FasterStatus::NotFound && r.1 is None,
    {
        let nslots = self.index.slot_count();
        let b = bucket_for(key, nslots);
        let mut cur = self.index.find(b);
        proof {
            assert(chain_find(self.log.records(), cur, key) == lookup(
                self.log.records(),
                self.index.entries(),
                key,
            ));
        }
        loop
            invariant
                self.wf(),
                cur matches Some(a) ==> a < self.log.records().len(),
                chain_find(self.log.records(), cur, key) == lookup(
                    self.log.records(),
                    self.index.entries(),
                    key,
                ),
            decreases chain_measure(cur),
        {
            match cur {
                None => {
                    return (FasterStatus::NotFound, None);
                },
                Some(a) => {
                    let rec = self.log.get(a);
                    if rec.key == key {
                        if rec.tombstone {
                            return (FasterStatus::NotFound, None);
                        }
                        let v = clone_bytes(&rec.value);
                        return (FasterStatus::OK, Some(v));
                    }
                    proof {
                        assert(self.log.records()[a as int].prev matches Some(p) ==> p < a);
                    }
                    cur = rec.prev;
                },
            }
        }
    }

    /// Read-modify-write: merges `delta` into the current value of `key`
    /// and installs the result as a new version. Two 8-byte values are
    /// summed as little-endian 64-bit integers (wrapping); a missing key
    /// takes the delta against a zero base. The merge is recomputed from
    /// the freshly observed value, never from a cached intermediate.
    pub fn rmw(&mut self, key: u64, delta: Vec<u8>) -> (status: FasterStatus)
        requires
            old(self).wf(),
        ensures
            final(self).wf(),
            final(self).same_config(*old(self)),
            final(self).epoch_global() == old(self).epoch_global(),
            status == FasterStatus::OK || status == FasterStatus::OutOfMemory,
            ({
                let merged = rmw_merge(current_value(old(self)@, key), delta@);
                &&& (status == FasterStatus::OK) <==> old(self).fits_value(merged.len())
                &&& status == FasterStatus::OK ==> final(self)@ == old(self)@.insert(
                    key,
                    merged,
                ) && final(self).log_used() == old(self).log_used() + RECORD_OVERHEAD_BYTES
                    + merged.len()
                &&& status != FasterStatus::OK ==> final(self)@ == old(self)@
                    && final(self).log_used() == old(self).log_used()
            }),
    {
        let r = self.read(key);
        let merged: Vec<u8> = match r.1 {
            Some(v) => {
                if v.len() == 8 && delta.len() == 8 {
                    let a = u64_from_le_bytes(v.as_slice());
                    let d = u64_from_le_bytes(delta.as_slice());
                    let s = a.wrapping_add(d);
                    u64_to_le_bytes(s)
                } else {
                    delta
                }
            },
            None => delta,
        };
        proof {
            assert(merged@ == rmw_merge(current_value(self@, key), delta@));
        }
        self.append_and_install(key, merged, false)
    }

    /// Deletes `key` by appending a tombstone record: later reads return
    /// `NotFound` until a newer version is installed. Fails with
    /// `OutOfMemory` exactly when the tombstone does not fit.
    pub fn delete(&mut self, key: u64) -> (status: FasterStatus)
        requires
            old(self).wf(),
        ensures
            final(self).wf(),
            final(self).same_config(*old(self)),
            final(self).epoch_global() == old(self).epoch_global(),
            status == FasterStatus::OK || status == FasterStatus::OutOfMemory,
            (status == FasterStatus::OK) <==> old(self).fits_value(0),
            status == FasterStatus::OK ==> final(self)@ == old(self)@.remove(key)
                && final(self).log_used() == old(self).log_used() + RECORD_OVERHEAD_BYTES,
            status != FasterStatus::OK ==> final(self)@ == old(self)@ && final(self).log_used()
                == old(self).log_used(),
    {
        self.append_and_install(key, Vec::new(), true)
    }

    /// The anticipatory read path: behaves as the standard `read`.
    pub fn mlkv_read(&self, key: u64) -> (r: (FasterStatus, Option<Vec<u8>>))
        requires
            self.wf(),
        ensures
            self@.contains_key(key) ==> r.0 == FasterStatus::OK && (r.1 matches Some(v) && v@
                == self@[key]),
            !self@.contains_key(key) ==> r.0 == FasterStatus::NotFound && r.1 is None,
    {
        self.read(key)
    }

    /// The anticipatory update path: behaves as the standard `upsert`.
    pub fn mlkv_upsert(&mut self, key: u64, value: Vec<u8>) -> (status: FasterStatus)
        requires
            old(self).wf(),
        ensures
            final(self).wf(),
            final(self).same_config(*old(self)),
            final(self).epoch_global() == old(self).epoch_global(),
            status == FasterStatus::OK || status == FasterStatus::OutOfMemory,
            (status == FasterStatus::OK) <==> old(self).fits_value(value@.len()),
            status == FasterStatus::OK ==> final(self)@ == old(self)@.insert(key, value@)
                && final(self).log_used() == old(self).log_used() + RECORD_OVERHEAD_BYTES
                + value@.len(),
            status != FasterStatus::OK ==> final(self)@ == old(self)@ && final(self).log_used()
                == old(self).log_used(),
    {
        self.append_and_install(key, value, false)
    }

    /// Announces an anticipated read of `key` of up to `value_length`
    /// bytes. Every live region is memory-resident here, so there is no
    /// page to stage: the call only reports whether the key is live.
    pub fn mlkv_lookahead(&self, key: u64, value_length: u64) -> (status: FasterStatus)
        requires
            self.wf(),
        ensures
            self@.contains_key(key) ==> status == FasterStatus::OK,
            !self@.contains_key(key) ==> status == FasterStatus::NotFound,
    {
        let _ = value_length;
        let r = self.read(key);
        r.0
    }

    /// Registers one more session with the epoch protocol.
    pub fn start_session(&mut self)
        requires
            old(self).wf(),
        ensures
            final(self).wf(),
            final(self)@ == old(self)@,
            final(self).session_count() == old(self).session_count() + 1,
            final(self).table_size() == old(self).table_size(),
            final(self).log_size() == old(self).log_size(),
            final(self).epoch_global() == old(self).epoch_global(),
            final(self).log_records() == old(self).log_records(),
    {
        let _ = self.epochs.register();
    }

    /// Deregisters the most recently started session; without one, does
    /// nothing.
    pub fn stop_session(&mut self)
        requires
            old(self).wf(),
        ensures
            final(self).wf(),
            final(self)@ == old(self)@,
            final(self).session_count() == if old(self).session_count() > 0 {
                old(self).session_count() - 1
            } else {
                0
            },
            final(self).table_size() == old(self).table_size(),
            final(self).log_size() == old(self).log_size(),
            final(self).epoch_global() == old(self).epoch_global(),
            final(self).log_records() == old(self).log_records(),
    {
        let n = self.epochs.session_count();
        if n > 0 {
            self.epochs.deregister();
        }
    }

    /// Drains completed asynchronous operations. Every live region of
    /// this log is memory-resident, so no operation ever goes pending and
    /// there is never anything to drain; with `wait` the call would block
    /// until outstanding storage reads resolve.
    pub fn complete_pending(&self, wait: bool)
        requires
            self.wf(),
    {
        let _ = wait;
    }

    /// Takes a consistent checkpoint: bumps the global epoch to mark the
    /// boundary, confirms every session is past it, marks the captured
    /// prefix read-only and returns the image. Fails with `Aborted`
    /// exactly when the epoch counter cannot advance any further.
    pub fn checkpoint(&mut self) -> (r: Result<Checkpoint, FasterStatus>)
        requires
            old(self).wf(),
        ensures
            final(self).wf(),
            final(self)@ == old(self)@,
            final(self).same_config(*old(self)),
            final(self).log_records() == old(self).log_records(),
            r is Ok <==> old(self).epoch_global() < u64::MAX,
            r matches Ok(c) ==> {
                &&& c.wf(old(self).table_size(), old(self).log_size())
                &&& c@ == old(self)@
                &&& c.tail == old(self).log_records().len()
                &&& c.epoch == old(self).epoch_global() + 1
                &&& final(self).epoch_global() == old(self).epoch_global() + 1
            },
            r matches Err(e) ==> e == FasterStatus::Aborted && *final(self) == *old(self),
    {
        let g = self.epochs.global_epoch();
        if g == u64::MAX {
            return Err(FasterStatus::Aborted);
        }
        let boundary = self.epochs.bump_global_epoch();
        let safe = self.epochs.safe_to_reclaim_epoch();
        proof {
            assert(safe == boundary);
        }
        let tail = self.log.len();
        self.log.advance_read_only(tail);
        let records = self.log.snapshot_records();
        let entries = self.index.snapshot_entries();
        let c = Checkpoint { records, entries, tail, epoch: boundary };
        proof {
            assert(c.committed() =~= old(self).log.records());
            assert(c@ == old(self)@);
        }
        Ok(c)
    }

    /// Rebuilds a store from a checkpoint image, for the given table and
    /// log sizes. The image is validated first — tail within the captured
    /// log, index entries within the tail, decreasing chain links, bucket
    /// count and capacity matching the requested sizes — and any mismatch
    /// is reported as `Corruption` rather than silently repaired.
    pub fn recover(
        table_size_bytes: u64,
        log_size_bytes: u64,
        checkpoint: Checkpoint,
    ) -> (r: Result<FasterKv, FasterStatus>)
        ensures
            r is Ok <==> checkpoint.wf(table_size_bytes, log_size_bytes),
            r matches Ok(s) ==> {
                &&& s.wf()
                &&& s@ == checkpoint@
                &&& s.table_size() == table_size_bytes
                &&& s.log_size() == log_size_bytes
                &&& s.session_count() == 0
                &&& s.epoch_global() == checkpoint.epoch
            },
            r matches Err(e) ==> e == FasterStatus::Corruption,
    {
        let ghost c0 = checkpoint;
        let Checkpoint { records: mut records, entries, tail, epoch } = checkpoint;
        if tail > records.len() {
            return Err(FasterStatus::Corruption);
        }
        if epoch < 1 {
            return Err(FasterStatus::Corruption);
        }
        records.truncate(tail);
        proof {
            assert(log_m(records@) =~= c0.committed());
        }
        let nslots = compute_nslots(table_size_bytes);
        let index = match HashIndex::restore(entries, nslots, tail) {
            Ok(h) => h,
            Err(e) => {
                return Err(e);
            },
        };
        let log = match HybridLog::restore(records, log_size_bytes) {
            Ok(l) => l,
            Err(e) => {
                return Err(e);
            },
        };
        let s = FasterKv {
            index,
            log,
            epochs: EpochManager::resume(epoch),
            table_size_bytes,
            log_size_bytes,
        };
        proof {
            assert(s@ == c0@);
        }
        Ok(s)
    }
}

/// Checkpoint-then-recover round trip: `checkpoint` captures an image
/// whose contents are the store's contents, and `recover` rebuilds a
/// store whose contents are the image's, so every key committed before
/// the checkpoint reads back with its pre-checkpoint value.
pub proof fn lemma_checkpoint_recover_round_trip(
    pre: Map<u64, Seq<u8>>,
    image: Map<u64, Seq<u8>>,
    post: Map<u64, Seq<u8>>,
)
    requires
        image == pre,
        post == image,
    ensures
        post == pre,
{
}

} // verus!
