use vstd::prelude::*;
use crate::faster_status::FasterStatus;
use crate::model::entries_in_range;

verus! {

/// Fixed-size latch-free-style directory from a key's bucket to the log
/// address of the newest record whose chain serves that bucket. Collisions
/// share a bucket and are chained through the records' previous-version
/// links. Installation is expressed as a compare-and-swap: it succeeds only
/// against the entry value the caller observed, so a racing installer is
/// reported as a conflict instead of being overwritten.
pub struct HashIndex {
    entries: Vec<Option<usize>>,
}

impl HashIndex {
    pub closed spec fn entries(self) -> Seq<Option<usize>> {
        self.entries@
    }

    pub fn new(nslots: usize) -> (h: Self)
        requires
            nslots >= 1,
        ensures
            h.entries().len() == nslots,
            forall|b: int| 0 <= b < nslots ==> h.entries()[b] is None,
    {
        let mut entries: Vec<Option<usize>> = Vec::new();
        let mut i: usize = 0;
        while i < nslots
            invariant
                i <= nslots,
                entries@.len() == i,
                forall|b: int| 0 <= b < i ==> entries@[b] is None,
            decreases nslots - i,
        {
            entries.push(None);
            i = i + 1;
        }
        HashIndex { entries }
    }

    /// Number of buckets.
    pub fn slot_count(&self) -> (n: usize)
        ensures
            n == self.entries().len(),
    {
        self.entries.len()
    }

    /// Current log address installed for `bucket`, or nothing.
    pub fn find(&self, bucket: usize) -> (r: Option<usize>)
        requires
            bucket < self.entries().len(),
        ensures
            r == self.entries()[bucket as int],
    {
        self.entries[bucket]
    }

    /// Compare-and-swap on the bucket entry: installs `new_addr` only if
    /// the entry still holds `expected`, and otherwise reports a conflict
    /// and changes nothing. The caller retries a conflicted install from
    /// the address it now observes.
    pub fn try_install(
        &mut self,
        bucket: usize,
        expected: Option<usize>,
        new_addr: Option<usize>,
    ) -> (success: bool)
        requires
            bucket < old(self).entries().len(),
        ensures
            success == (old(self).entries()[bucket as int] == expected),
            success ==> final(self).entries() == old(self).entries().update(
                bucket as int,
                new_addr,
            ),
            !success ==> *final(self) == *old(self),
    {
        let cur = self.entries[bucket];
        let same = match (cur, expected) {
            (None, None) => true,
            (Some(a), Some(b)) => a == b,
            _ => false,
        };
        if same {
            self.entries.set(bucket, new_addr);
            true
        } else {
            false
        }
    }

    /// Copies out every bucket entry, for a checkpoint image.
    pub fn snapshot_entries(&self) -> (r: Vec<Option<usize>>)
        ensures
            r@ == self.entries(),
    {
        let mut out: Vec<Option<usize>> = Vec::new();
        let mut i: usize = 0;
        let n = self.entries.len();
        while i < n
            invariant
                i <= n,
                n == self.entries@.len(),
                out@ == self.entries@.take(i as int),
            decreases n - i,
        {
            out.push(self.entries[i]);
            proof {
                assert(out@ =~= self.entries@.take(i as int + 1));
            }
            i = i + 1;
        }
        proof {
            assert(self.entries@.take(n as int) =~= self.entries@);
        }
        out
    }

    /// Rebuilds an index from recovered entries, validating the bucket
    /// count and that every occupied entry points below `tail`; any
    /// mismatch is reported as corruption.
    pub fn restore(entries: Vec<Option<usize>>, nslots: usize, tail: usize) -> (r: Result<
        Self,
        FasterStatus,
    >)
        requires
            nslots >= 1,
        ensures
            r is Ok <==> entries@.len() == nslots && entries_in_range(entries@, tail as int),
            r matches Ok(h) ==> h.entries() == entries@,
            r matches Err(e) ==> e == FasterStatus::Corruption,
    {
        if entries.len() != nslots {
            return Err(FasterStatus::Corruption);
        }
        let mut b: usize = 0;
        while b < nslots
            invariant
                nslots == entries@.len(),
                b <= nslots,
                forall|j: int| 0 <= j < b ==> (#[trigger] entries@[j] matches Some(a) ==> a
                    < tail),
            decreases nslots - b,
        {
            match entries[b] {
                Some(a) => {
                    if a >= tail {
                        proof {
                            assert(entries@[b as int] matches Some(x) && x >= tail);
                        }
                        return Err(FasterStatus::Corruption);
                    }
                },
                None => {},
            }
            b = b + 1;
        }
        Ok(HashIndex { entries })
    }
}

} // verus!
