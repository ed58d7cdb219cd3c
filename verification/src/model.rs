use vstd::prelude::*;
use crate::log::Record;

verus! {

/// Fixed byte charge per record against the log capacity, covering key,
/// metadata and the previous-version link.
pub const RECORD_OVERHEAD_BYTES: u64 = 32;

/// Mathematical image of one log record.
pub ghost struct RecM {
    pub key: u64,
    pub value: Seq<u8>,
    pub tombstone: bool,
    /// Log address of the previous version in the same hash chain, always
    /// strictly below the record's own address.
    pub prev: Option<usize>,
}

/// The mathematical image of a stored record.
pub open spec fn rec_m(r: Record) -> RecM {
    RecM { key: r.key, value: r.value@, tombstone: r.tombstone, prev: r.prev }
}

/// The mathematical image of a whole log.
pub open spec fn log_m(s: Seq<Record>) -> Seq<RecM> {
    s.map_values(|r: Record| rec_m(r))
}

/// Byte cost of one record.
pub open spec fn record_cost(r: RecM) -> int {
    RECORD_OVERHEAD_BYTES + r.value.len()
}

/// Total byte cost of a log.
pub open spec fn log_cost(s: Seq<RecM>) -> int
    decreases s.len(),
{
    if s.len() == 0 {
        0
    } else {
        log_cost(s.drop_last()) + record_cost(s.last())
    }
}

/// Every previous-version link points strictly below its own address.
pub open spec fn prev_decreasing(s: Seq<RecM>) -> bool {
    forall|i: int| 0 <= i < s.len() ==> (#[trigger] s[i].prev matches Some(p) ==> p < i)
}

/// Every occupied index entry points below address `hi`.
pub open spec fn entries_in_range(entries: Seq<Option<usize>>, hi: int) -> bool {
    forall|b: int| 0 <= b < entries.len() ==> (#[trigger] entries[b] matches Some(a) ==> a < hi)
}

/// Bucket that `key` hashes to in a table of `nslots` slots.
pub open spec fn bucket_of(key: u64, nslots: int) -> int
    recommends
        nslots >= 1,
{
    (key as int) % nslots
}

/// Walks the hash chain starting at address `a`: the newest record for
/// `key` on that chain, if any. A link that does not decrease or points
/// outside the log ends the walk.
pub open spec fn chain_find_at(log: Seq<RecM>, a: usize, key: u64) -> Option<RecM>
    decreases a,
{
    if a < log.len() {
        let r = log[a as int];
        if r.key == key {
            Some(r)
        } else {
            match r.prev {
                Some(p) => if p < a {
                    chain_find_at(log, p, key)
                } else {
                    None
                },
                None => None,
            }
        }
    } else {
        None
    }
}

/// Walks the hash chain below `head`.
pub open spec fn chain_find(log: Seq<RecM>, head: Option<usize>, key: u64) -> Option<RecM> {
    match head {
        Some(a) => chain_find_at(log, a, key),
        None => None,
    }
}

/// Newest record for `key`, found through its index bucket.
pub open spec fn lookup(log: Seq<RecM>, entries: Seq<Option<usize>>, key: u64) -> Option<RecM>
    recommends
        entries.len() >= 1,
{
    chain_find(log, entries[bucket_of(key, entries.len() as int)], key)
}

/// The abstract contents of index plus log: each key whose newest record
/// is not a tombstone, mapped to that record's value.
pub open spec fn kv_view(log: Seq<RecM>, entries: Seq<Option<usize>>) -> Map<u64, Seq<u8>> {
    Map::new(
        |k: u64| lookup(log, entries, k) matches Some(r) && !r.tombstone,
        |k: u64|
            match lookup(log, entries, k) {
                Some(r) => r.value,
                None => Seq::empty(),
            },
    )
}

/// Loop measure for an executable chain walk.
pub open spec fn chain_measure(head: Option<usize>) -> int {
    match head {
        Some(a) => a as int + 1,
        None => 0,
    }
}

/// Value produced by a read-modify-write against the current value: on two
/// 8-byte values, the little-endian 64-bit sum (wrapping); on a missing or
/// dead key, the delta itself (the delta applied to a zero base); on any
/// other shape, the delta replaces the value blindly.
pub open spec fn rmw_merge(cur: Option<Seq<u8>>, delta: Seq<u8>) -> Seq<u8> {
    match cur {
        Some(v) => if v.len() == 8 && delta.len() == 8 {
            vstd::bytes::spec_u64_to_le_bytes(
                vstd::wrapping::u64_specs::wrapping_add(
                    vstd::bytes::spec_u64_from_le_bytes(v),
                    vstd::bytes::spec_u64_from_le_bytes(delta),
                ),
            )
        } else {
            delta
        },
        None => delta,
    }
}

/// The current value of `key` in a map, if any.
pub open spec fn current_value(m: Map<u64, Seq<u8>>, key: u64) -> Option<Seq<u8>> {
    if m.contains_key(key) {
        Some(m[key])
    } else {
        None
    }
}

/// Appending a record does not change what any chain rooted below the old
/// tail finds.
pub proof fn lemma_chain_find_at_push(log: Seq<RecM>, r: RecM, a: usize, key: u64)
    requires
        a < log.len(),
    ensures
        chain_find_at(log.push(r), a, key) == chain_find_at(log, a, key),
    decreases a,
{
    assert(log.push(r)[a as int] == log[a as int]);
    let rec = log[a as int];
    if rec.key != key {
        match rec.prev {
            Some(p) => {
                if p < a {
                    lemma_chain_find_at_push(log, r, p, key);
                }
            },
            None => {},
        }
    }
}

/// Appending a record for key `r.key` at the log tail and installing the
/// tail address into the key's bucket updates the abstract contents at
/// exactly that key: an insert for a plain record, a remove for a
/// tombstone.
pub proof fn lemma_install_view(
    log: Seq<RecM>,
    entries: Seq<Option<usize>>,
    r: RecM,
    addr: usize,
)
    requires
        entries.len() >= 1,
        addr == log.len(),
        r.prev == entries[bucket_of(r.key, entries.len() as int)],
        entries_in_range(entries, log.len() as int),
    ensures
        ({
            let log2 = log.push(r);
            let entries2 = entries.update(
                bucket_of(r.key, entries.len() as int),
                Some(addr),
            );
            &&& !r.tombstone ==> kv_view(log2, entries2) == kv_view(log, entries).insert(
                r.key,
                r.value,
            )
            &&& r.tombstone ==> kv_view(log2, entries2) == kv_view(log, entries).remove(r.key)
        }),
{
    let b = bucket_of(r.key, entries.len() as int);
    let log2 = log.push(r);
    let entries2 = entries.update(b, Some(addr));
    assert(entries2.len() == entries.len());
    assert forall|k: u64| #[trigger] lookup(log2, entries2, k) == (if k == r.key {
        Some(r)
    } else {
        lookup(log, entries, k)
    }) by {
        let b2 = bucket_of(k, entries.len() as int);
        if k == r.key {
            assert(entries2[b] == Some(addr));
            assert(log2[addr as int] == r);
        } else if b2 == b {
            assert(log2[addr as int] == r);
            match entries[b] {
                Some(a0) => {
                    assert(a0 < addr);
                    lemma_chain_find_at_push(log, r, a0, k);
                },
                None => {},
            }
        } else {
            assert(entries2[b2] == entries[b2]);
            match entries[b2] {
                Some(a0) => {
                    assert(a0 < log.len());
                    lemma_chain_find_at_push(log, r, a0, k);
                },
                None => {},
            }
        }
    }
    if !r.tombstone {
        assert(kv_view(log2, entries2) =~= kv_view(log, entries).insert(r.key, r.value));
    } else {
        assert(kv_view(log2, entries2) =~= kv_view(log, entries).remove(r.key));
    }
}

pub proof fn lemma_log_cost_push(s: Seq<RecM>, r: RecM)
    ensures
        log_cost(s.push(r)) == log_cost(s) + record_cost(r),
{
    assert(s.push(r).drop_last() =~= s);
    assert(s.push(r).last() == r);
}

pub proof fn lemma_log_cost_nonneg(s: Seq<RecM>)
    ensures
        log_cost(s) >= 0,
    decreases s.len(),
{
    if s.len() > 0 {
        lemma_log_cost_nonneg(s.drop_last());
    }
}

/// The cost of a prefix never exceeds the cost of the whole log.
pub proof fn lemma_log_cost_prefix(s: Seq<RecM>, i: int)
    requires
        0 <= i <= s.len(),
    ensures
        log_cost(s.take(i)) <= log_cost(s),
    decreases s.len() - i,
{
    if i == s.len() {
        assert(s.take(i) =~= s);
    } else {
        assert(s.take(i + 1).drop_last() =~= s.take(i));
        assert(s.take(i + 1).last() == s[i]);
        lemma_log_cost_prefix(s, i + 1);
    }
}

} // verus!
