use vstd::prelude::*;
use crate::model::{rmw_merge, current_value};
use vstd::bytes::{spec_u64_from_le_bytes, spec_u64_to_le_bytes,
    lemma_auto_spec_u64_to_from_le_bytes};

verus! {

/// One update operation against the store's abstract contents, as the
/// operations' contracts describe them: `upsert` inserts, `rmw` inserts
/// the merge of the delta with the current value, `delete` removes.
pub ghost enum OpModel {
    Upsert { key: u64, value: Seq<u8> },
    Rmw { key: u64, delta: Seq<u8> },
    Delete { key: u64 },
}

/// The key an operation targets.
pub open spec fn op_key(op: OpModel) -> u64 {
    match op {
        OpModel::Upsert { key, .. } => key,
        OpModel::Rmw { key, .. } => key,
        OpModel::Delete { key } => key,
    }
}

/// Effect of one successful operation on the abstract contents.
pub open spec fn apply_op(m: Map<u64, Seq<u8>>, op: OpModel) -> Map<u64, Seq<u8>> {
    match op {
        OpModel::Upsert { key, value } => m.insert(key, value),
        OpModel::Rmw { key, delta } => m.insert(key, rmw_merge(current_value(m, key), delta)),
        OpModel::Delete { key } => m.remove(key),
    }
}

/// Effect of a sequence of successful operations, first to last.
pub open spec fn apply_ops(m: Map<u64, Seq<u8>>, ops: Seq<OpModel>) -> Map<u64, Seq<u8>>
    decreases ops.len(),
{
    if ops.len() == 0 {
        m
    } else {
        apply_ops(apply_op(m, ops[0]), ops.subrange(1, ops.len() as int))
    }
}

pub proof fn lemma_apply_ops_concat(m: Map<u64, Seq<u8>>, a: Seq<OpModel>, b: Seq<OpModel>)
    ensures
        apply_ops(m, a + b) == apply_ops(apply_ops(m, a), b),
    decreases a.len(),
{
    if a.len() == 0 {
        assert(a + b =~= b);
    } else {
        assert((a + b)[0] == a[0]);
        assert((a + b).subrange(1, (a + b).len() as int) =~= a.subrange(1, a.len() as int)
            + b);
        lemma_apply_ops_concat(apply_op(m, a[0]), a.subrange(1, a.len() as int), b);
    }
}

pub proof fn lemma_apply_ops_push(m: Map<u64, Seq<u8>>, a: Seq<OpModel>, op: OpModel)
    ensures
        apply_ops(m, a.push(op)) == apply_op(apply_ops(m, a), op),
    decreases a.len(),
{
    if a.len() == 0 {
        assert(a.push(op)[0] == op);
        assert(a.push(op).subrange(1, 1) =~= Seq::<OpModel>::empty());
        assert(apply_ops(apply_op(m, op), Seq::<OpModel>::empty()) == apply_op(m, op));
    } else {
        assert(a.push(op)[0] == a[0]);
        assert(a.push(op).subrange(1, a.len() as int + 1) =~= a.subrange(
            1,
            a.len() as int,
        ).push(op));
        lemma_apply_ops_push(apply_op(m, a[0]), a.subrange(1, a.len() as int), op);
    }
}

/// Operations on other keys never touch `k`: it stays absent or keeps its
/// value. This is the no-lost-update guarantee for writers of disjoint
/// key ranges, and with an empty starting point it says a key never
/// inserted is never found.
pub proof fn lemma_untouched_key(m: Map<u64, Seq<u8>>, ops: Seq<OpModel>, k: u64)
    requires
        forall|i: int| 0 <= i < ops.len() ==> op_key(#[trigger] ops[i]) != k,
    ensures
        apply_ops(m, ops).contains_key(k) == m.contains_key(k),
        m.contains_key(k) ==> apply_ops(m, ops)[k] == m[k],
    decreases ops.len(),
{
    if ops.len() > 0 {
        let m1 = apply_op(m, ops[0]);
        let rest = ops.subrange(1, ops.len() as int);
        assert(forall|i: int| 0 <= i < rest.len() ==> op_key(#[trigger] rest[i]) != k);
        lemma_untouched_key(m1, rest, k);
    }
}

/// A key never inserted reads as absent: if `k` is missing at the start
/// and no operation targets it, it is still missing at the end.
pub proof fn lemma_never_inserted(m: Map<u64, Seq<u8>>, ops: Seq<OpModel>, k: u64)
    requires
        !m.contains_key(k),
        forall|i: int| 0 <= i < ops.len() ==> op_key(#[trigger] ops[i]) != k,
    ensures
        !apply_ops(m, ops).contains_key(k),
{
    lemma_untouched_key(m, ops, k);
}

/// The most recent upsert of a key wins: after an upsert of `k` that no
/// later operation on `k` follows, `k` reads back as exactly the upserted
/// value — whatever interleaved operations target other keys, and even if
/// `k` was deleted earlier in the sequence. This also gives each writer
/// of a disjoint key range its own values back unchanged.
pub proof fn lemma_last_upsert_visible(
    m: Map<u64, Seq<u8>>,
    ops: Seq<OpModel>,
    i: int,
    k: u64,
    v: Seq<u8>,
)
    requires
        0 <= i < ops.len(),
        ops[i] == (OpModel::Upsert { key: k, value: v }),
        forall|j: int| i < j < ops.len() ==> op_key(#[trigger] ops[j]) != k,
    ensures
        apply_ops(m, ops).contains_key(k),
        apply_ops(m, ops)[k] == v,
{
    let pre = ops.subrange(0, i + 1);
    let post = ops.subrange(i + 1, ops.len() as int);
    assert(ops =~= pre + post);
    lemma_apply_ops_concat(m, pre, post);
    let pre0 = ops.subrange(0, i);
    assert(pre =~= pre0.push(ops[i]));
    lemma_apply_ops_push(m, pre0, ops[i]);
    let mb = apply_ops(m, pre0);
    assert(apply_ops(m, pre) == mb.insert(k, v));
    assert(forall|j: int| 0 <= j < post.len() ==> op_key(#[trigger] post[j]) != k);
    lemma_untouched_key(apply_ops(m, pre), post, k);
}

/// A delete not followed by any further operation on its key leaves the
/// key absent: the read after it returns nothing.
pub proof fn lemma_delete_then_absent(m: Map<u64, Seq<u8>>, ops: Seq<OpModel>, i: int, k: u64)
    requires
        0 <= i < ops.len(),
        ops[i] == (OpModel::Delete { key: k }),
        forall|j: int| i < j < ops.len() ==> op_key(#[trigger] ops[j]) != k,
    ensures
        !apply_ops(m, ops).contains_key(k),
{
    let pre = ops.subrange(0, i + 1);
    let post = ops.subrange(i + 1, ops.len() as int);
    assert(ops =~= pre + post);
    lemma_apply_ops_concat(m, pre, post);
    let pre0 = ops.subrange(0, i);
    assert(pre =~= pre0.push(ops[i]));
    lemma_apply_ops_push(m, pre0, ops[i]);
    let mb = apply_ops(m, pre0);
    assert(apply_ops(m, pre) == mb.remove(k));
    assert(forall|j: int| 0 <= j < post.len() ==> op_key(#[trigger] post[j]) != k);
    lemma_untouched_key(apply_ops(m, pre), post, k);
}

/// The predicate picking out operations that target `k`.
pub open spec fn targets(k: u64) -> spec_fn(OpModel) -> bool {
    |op: OpModel| op_key(op) == k
}

/// Per-key linearization: the final state of a key is decided by the
/// subsequence of operations targeting that key alone, however the
/// operations of other writers are interleaved among them. A writer
/// whose key range nobody else touches therefore reads back exactly what
/// its own operations left, whatever the interleaving.
pub proof fn lemma_per_key_linearization(m: Map<u64, Seq<u8>>, ops: Seq<OpModel>, k: u64)
    ensures
        apply_ops(m, ops).contains_key(k) == apply_ops(
            m,
            ops.filter(targets(k)),
        ).contains_key(k),
        apply_ops(m, ops).contains_key(k) ==> apply_ops(m, ops)[k] == apply_ops(
            m,
            ops.filter(targets(k)),
        )[k],
    decreases ops.len(),
{
    reveal(Seq::filter);
    let pred = targets(k);
    if ops.len() > 0 {
        let a = ops.drop_last();
        let op = ops.last();
        lemma_per_key_linearization(m, a, k);
        assert(ops =~= a.push(op));
        lemma_apply_ops_push(m, a, op);
        assert(apply_ops(m, ops) == apply_op(apply_ops(m, a), op));
        if pred(op) {
            assert(ops.filter(pred) == a.filter(pred).push(op));
            lemma_apply_ops_push(m, a.filter(pred), op);
        } else {
            assert(ops.filter(pred) == a.filter(pred));
        }
    }
}

/// `n` read-modify-writes of the same delta against `k`.
pub open spec fn repeat_rmw(k: u64, d: Seq<u8>, n: nat) -> Seq<OpModel> {
    Seq::new(n, |i: int| OpModel::Rmw { key: k, delta: d })
}

/// The delta applied `n` times to `base` by wrapping 64-bit addition.
pub open spec fn iter_delta(base: u64, d: u64, n: nat) -> u64
    decreases n,
{
    if n == 0 {
        base
    } else {
        vstd::wrapping::u64_specs::wrapping_add(iter_delta(base, d, (n - 1) as nat), d)
    }
}

/// Numeric base an rmw sequence starts from: the current 8-byte value,
/// or zero for an absent key.
pub open spec fn rmw_base(m: Map<u64, Seq<u8>>, k: u64) -> u64 {
    if m.contains_key(k) {
        spec_u64_from_le_bytes(m[k])
    } else {
        0
    }
}

/// Wrapping 64-bit addition commutes: the merge delta is a commutative
/// operation, so identical concurrent deltas reach the same sum in any
/// order.
pub proof fn lemma_wrapping_add_commutes(a: u64, b: u64)
    ensures
        vstd::wrapping::u64_specs::wrapping_add(a, b) == vstd::wrapping::u64_specs::wrapping_add(
            b,
            a,
        ),
{
}

/// An rmw applied `n` times with one 8-byte delta yields the value equal
/// to applying the delta `n` times against the starting value (or a zero
/// base for an absent key), as wrapping little-endian 64-bit addition.
pub proof fn lemma_rmw_accumulates(m: Map<u64, Seq<u8>>, k: u64, d: Seq<u8>, n: nat)
    requires
        d.len() == 8,
        m.contains_key(k) ==> m[k].len() == 8,
        n >= 1,
    ensures
        apply_ops(m, repeat_rmw(k, d, n)).contains_key(k),
        apply_ops(m, repeat_rmw(k, d, n))[k] == spec_u64_to_le_bytes(
            iter_delta(rmw_base(m, k), spec_u64_from_le_bytes(d), n),
        ),
    decreases n,
{
    lemma_auto_spec_u64_to_from_le_bytes();
    let du = spec_u64_from_le_bytes(d);
    if n == 1 {
        let ops = repeat_rmw(k, d, 1);
        assert(ops =~= Seq::<OpModel>::empty().push(ops[0]));
        lemma_apply_ops_push(m, Seq::<OpModel>::empty(), ops[0]);
        assert(apply_ops(m, ops) == apply_op(m, ops[0]));
        assert(iter_delta(rmw_base(m, k), du, 0) == rmw_base(m, k));
        assert(iter_delta(rmw_base(m, k), du, 1) == vstd::wrapping::u64_specs::wrapping_add(
            rmw_base(m, k),
            du,
        ));
        if m.contains_key(k) {
            assert(rmw_merge(current_value(m, k), d) == spec_u64_to_le_bytes(
                vstd::wrapping::u64_specs::wrapping_add(spec_u64_from_le_bytes(m[k]), du),
            ));
        } else {
            assert(rmw_merge(current_value(m, k), d) == d);
            assert(vstd::wrapping::u64_specs::wrapping_add(0, du) == du);
            assert(spec_u64_to_le_bytes(du) == d);
        }
    } else {
        let ops = repeat_rmw(k, d, n);
        let pre = repeat_rmw(k, d, (n - 1) as nat);
        assert(ops =~= pre.push(ops[n - 1]));
        lemma_apply_ops_push(m, pre, ops[n - 1]);
        lemma_rmw_accumulates(m, k, d, (n - 1) as nat);
        let mp = apply_ops(m, pre);
        let prev_val = spec_u64_to_le_bytes(iter_delta(rmw_base(m, k), du, (n - 1) as nat));
        assert(mp[k] == prev_val);
        assert(prev_val.len() == 8);
        assert(apply_ops(m, ops) == apply_op(mp, ops[n - 1]));
        assert(spec_u64_from_le_bytes(prev_val) == iter_delta(rmw_base(m, k), du, (n - 1) as nat));
        assert(iter_delta(rmw_base(m, k), du, n) == vstd::wrapping::u64_specs::wrapping_add(
            iter_delta(rmw_base(m, k), du, (n - 1) as nat),
            du,
        ));
        assert(rmw_merge(current_value(mp, k), d) == spec_u64_to_le_bytes(
            iter_delta(rmw_base(m, k), du, n),
        ));
    }
}

} // verus!
