use vstd::prelude::*;
use crate::faster_status::FasterStatus;
use crate::model::{
    RecM, rec_m, log_m, log_cost, prev_decreasing, record_cost, RECORD_OVERHEAD_BYTES,
    lemma_log_cost_push, lemma_log_cost_nonneg, lemma_log_cost_prefix,
};

verus! {

/// Copies a byte vector, element by element.
pub(crate) fn clone_bytes(v: &Vec<u8>) -> (r: Vec<u8>)
    ensures
        r@ == v@,
{
    let mut out: Vec<u8> = Vec::new();
    let mut i: usize = 0;
    let n = v.len();
    while i < n
        invariant
            i <= n,
            n == v@.len(),
            out@ == v@.take(i as int),
        decreases n - i,
    {
        out.push(v[i]);
        proof {
            assert(out@ =~= v@.take(i as int + 1));
        }
        i = i + 1;
    }
    proof {
        assert(v@.take(n as int) =~= v@);
    }
    out
}

/// One log record: a version of `key`. Records are immutable once written;
/// updates append a newer record instead of mutating in place.
pub struct Record {
    pub key: u64,
    pub value: Vec<u8>,
    /// Marks the key as deleted as of this version.
    pub tombstone: bool,
    /// Log address of the previous version in the same hash chain, always
    /// strictly below this record's own address.
    pub prev: Option<usize>,
}

/// The append-only record store. Addresses are positions in the record
/// sequence and grow monotonically; the region below `read_only_mark` is
/// immutable/flushed, the region above is mutable. Capacity is charged in
/// bytes: a fixed overhead per record plus its value length.
pub struct HybridLog {
    records: Vec<Record>,
    used_bytes: u64,
    capacity: u64,
    read_only: usize,
}

impl HybridLog {
    /// The stored records, as their mathematical images.
    pub closed spec fn records(self) -> Seq<RecM> {
        log_m(self.records@)
    }

    pub closed spec fn capacity(self) -> u64 {
        self.capacity
    }

    /// Boundary between the mutable region and the read-only region.
    pub closed spec fn read_only_mark(self) -> int {
        self.read_only as int
    }

    pub closed spec fn accounting_ok(self) -> bool {
        self.used_bytes == log_cost(self.records())
    }

    pub open spec fn wf(self) -> bool {
        &&& self.accounting_ok()
        &&& log_cost(self.records()) <= self.capacity()
        &&& prev_decreasing(self.records())
        &&& 0 <= self.read_only_mark() <= self.records().len()
    }

    /// A record with `vlen` value bytes still fits under the capacity.
    pub open spec fn fits(self, vlen: nat) -> bool {
        log_cost(self.records()) + RECORD_OVERHEAD_BYTES + vlen <= self.capacity()
    }

    pub fn new(capacity: u64) -> (l: Self)
        ensures
            l.wf(),
            l.records() == Seq::<RecM>::empty(),
            l.capacity() == capacity,
            l.read_only_mark() == 0,
    {
        let l = HybridLog { records: Vec::new(), used_bytes: 0, capacity, read_only: 0 };
        proof {
            assert(l.records() =~= Seq::<RecM>::empty());
        }
        l
    }

    /// Tail address: the address the next record will take.
    pub fn len(&self) -> (n: usize)
        ensures
            n == self.records().len(),
    {
        self.records.len()
    }

    /// Bump-allocates at the tail and writes one record there. Fails with
    /// `OutOfMemory` exactly when the record does not fit under the
    /// configured capacity; the log is then unchanged.
    pub fn append(
        &mut self,
        key: u64,
        value: Vec<u8>,
        tombstone: bool,
        prev: Option<usize>,
    ) -> (r: Result<usize, FasterStatus>)
        requires
            old(self).wf(),
            prev matches Some(p) ==> p < old(self).records().len(),
        ensures
            final(self).wf(),
            final(self).capacity() == old(self).capacity(),
            r is Ok <==> old(self).fits(value@.len()),
            r matches Ok(addr) ==> {
                &&& addr == old(self).records().len()
                &&& final(self).records() == old(self).records().push(
                    (RecM { key, value: value@, tombstone, prev }),
                )
                &&& final(self).read_only_mark() == old(self).read_only_mark()
            },
            r matches Err(e) ==> e == FasterStatus::OutOfMemory && *final(self) == *old(self),
    {
        proof {
            lemma_log_cost_nonneg(self.records());
        }
        let vlen64 = value.len() as u64;
        let rem = self.capacity - self.used_bytes;
        if vlen64 > rem {
            return Err(FasterStatus::OutOfMemory);
        }
        let rem2 = rem - vlen64;
        if RECORD_OVERHEAD_BYTES > rem2 {
            return Err(FasterStatus::OutOfMemory);
        }
        let addr = self.records.len();
        let ghost m = RecM { key, value: value@, tombstone, prev };
        self.used_bytes = self.used_bytes + vlen64 + RECORD_OVERHEAD_BYTES;
        self.records.push(Record { key, value, tombstone, prev });
        proof {
            assert(rec_m(self.records@[addr as int]) == m);
            assert forall|j: int| 0 <= j < self.records@.len() implies #[trigger] self.records()[j]
                == old(self).records().push(m)[j] by {
                if j < addr {
                    assert(self.records@[j] == old(self).records@[j]);
                }
            }
            assert(self.records() =~= old(self).records().push(m));
            lemma_log_cost_push(old(self).records(), m);
            assert forall|j: int| 0 <= j < self.records().len() implies (
            #[trigger] self.records()[j].prev matches Some(p) ==> p < j) by {
                if j < addr {
                    assert(self.records()[j] == old(self).records()[j]);
                }
            }
        }
        Ok(addr)
    }

    /// Reads the record at `addr`. Valid for any address below the tail:
    /// nothing is reclaimed from this in-memory log.
    pub fn get(&self, addr: usize) -> (r: &Record)
        requires
            addr < self.records().len(),
        ensures
            rec_m(*r) == self.records()[addr as int],
    {
        &self.records[addr]
    }

    /// Current boundary of the read-only region.
    pub fn read_only_threshold(&self) -> (t: usize)
        ensures
            t == self.read_only_mark(),
    {
        self.read_only
    }

    /// Moves the read-only boundary forward: everything below `addr`
    /// becomes immutable/flushed bookkeeping-wise.
    pub fn advance_read_only(&mut self, addr: usize)
        requires
            old(self).wf(),
            old(self).read_only_mark() <= addr <= old(self).records().len(),
        ensures
            final(self).wf(),
            final(self).records() == old(self).records(),
            final(self).capacity() == old(self).capacity(),
            final(self).read_only_mark() == addr,
    {
        self.read_only = addr;
    }

    /// Copies out every stored record, for a checkpoint image.
    pub fn snapshot_records(&self) -> (r: Vec<Record>)
        ensures
            log_m(r@) == self.records(),
    {
        let mut out: Vec<Record> = Vec::new();
        let mut i: usize = 0;
        let n = self.records.len();
        while i < n
            invariant
                i <= n,
                n == self.records@.len(),
                out@.len() == i,
                log_m(out@) == log_m(self.records@).take(i as int),
            decreases n - i,
        {
            let rec = &self.records[i];
            let val = clone_bytes(&rec.value);
            let newrec = Record {
                key: rec.key,
                value: val,
                tombstone: rec.tombstone,
                prev: rec.prev,
            };
            let ghost nm = rec_m(newrec);
            let ghost out0 = out@;
            proof {
                assert(nm == rec_m(self.records@[i as int]));
            }
            out.push(newrec);
            proof {
                assert forall|j: int| 0 <= j < i + 1 implies #[trigger] log_m(out@)[j]
                    == log_m(self.records@).take(i as int + 1)[j] by {
                    if j < i {
                        assert(out@[j] == out0[j]);
                        assert(log_m(out0)[j] == log_m(self.records@).take(i as int)[j]);
                    } else {
                        assert(rec_m(out@[j]) == nm);
                    }
                }
                assert(log_m(out@) =~= log_m(self.records@).take(i as int + 1));
            }
            i = i + 1;
        }
        proof {
            assert(log_m(self.records@).take(n as int) =~= log_m(self.records@));
        }
        out
    }

    /// Rebuilds a log from recovered records, validating every
    /// previous-version link and the configured capacity; any violation is
    /// reported as corruption and nothing is rebuilt.
    pub fn restore(records: Vec<Record>, capacity: u64) -> (r: Result<Self, FasterStatus>)
        ensures
            r is Ok <==> prev_decreasing(log_m(records@)) && log_cost(log_m(records@))
                <= capacity,
            r matches Ok(l) ==> {
                &&& l.wf()
                &&& l.records() == log_m(records@)
                &&& l.capacity() == capacity
                &&& l.read_only_mark() == records@.len()
            },
            r matches Err(e) ==> e == FasterStatus::Corruption,
    {
        let ghost s = log_m(records@);
        let mut used: u64 = 0;
        let mut i: usize = 0;
        let n = records.len();
        while i < n
            invariant
                n == records@.len(),
                s == log_m(records@),
                i <= n,
                used == log_cost(s.take(i as int)),
                used <= capacity,
                prev_decreasing(s.take(i as int)),
            decreases n - i,
        {
            let rec = &records[i];
            proof {
                assert(s[i as int] == rec_m(records@[i as int]));
            }
            match rec.prev {
                Some(p) => {
                    if p >= i {
                        proof {
                            assert(s[i as int].prev matches Some(q) && q >= i);
                        }
                        return Err(FasterStatus::Corruption);
                    }
                },
                None => {},
            }
            let vlen64 = rec.value.len() as u64;
            proof {
                assert(s.take(i as int + 1).drop_last() =~= s.take(i as int));
                assert(s.take(i as int + 1).last() == s[i as int]);
            }
            if vlen64 > capacity - used {
                proof {
                    lemma_log_cost_prefix(s, i as int + 1);
                }
                return Err(FasterStatus::Corruption);
            }
            let rem = capacity - used - vlen64;
            if RECORD_OVERHEAD_BYTES > rem {
                proof {
                    lemma_log_cost_prefix(s, i as int + 1);
                }
                return Err(FasterStatus::Corruption);
            }
            used = used + vlen64 + RECORD_OVERHEAD_BYTES;
            i = i + 1;
        }
        proof {
            assert(s.take(n as int) =~= s);
        }
        Ok(HybridLog { records, used_bytes: used, capacity, read_only: n })
    }
}

} // verus!
