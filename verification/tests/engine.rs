use faster_kv::FasterStatus;
use faster_kv::FasterKv;

fn le(x: u64) -> Vec<u8> {
    x.to_le_bytes().to_vec()
}

fn read_u64(kv: &FasterKv, key: u64) -> u64 {
    let (st, v) = kv.read(key);
    assert_eq!(st, FasterStatus::OK);
    let bytes = v.expect("value expected");
    u64::from_le_bytes(bytes.as_slice().try_into().expect("8 bytes expected"))
}

#[test]
fn scenario_insert_read_rmw_delete() {
    let mut kv = FasterKv::new(1024, 8192);
    kv.start_session();
    assert_eq!(kv.upsert(42, le(100)), FasterStatus::OK);
    assert_eq!(read_u64(&kv, 42), 100);
    assert_eq!(kv.rmw(42, le(5)), FasterStatus::OK);
    assert_eq!(read_u64(&kv, 42), 105);
    assert_eq!(kv.delete(42), FasterStatus::OK);
    let (st, v) = kv.read(42);
    assert_eq!(st, FasterStatus::NotFound);
    assert!(v.is_none());
    kv.stop_session();
}

#[test]
fn read_never_inserted_returns_not_found() {
    let mut kv = FasterKv::new(1024, 8192);
    kv.start_session();
    assert_eq!(kv.upsert(7, le(1)), FasterStatus::OK);
    let (st, v) = kv.read(8);
    assert_eq!(st, FasterStatus::NotFound);
    assert!(v.is_none());
    kv.stop_session();
}

#[test]
fn latest_upsert_wins() {
    let mut kv = FasterKv::new(1024, 8192);
    assert_eq!(kv.upsert(1, le(10)), FasterStatus::OK);
    assert_eq!(kv.upsert(2, le(20)), FasterStatus::OK);
    assert_eq!(kv.upsert(1, le(11)), FasterStatus::OK);
    assert_eq!(read_u64(&kv, 1), 11);
    assert_eq!(read_u64(&kv, 2), 20);
}

#[test]
fn delete_then_upsert_then_read_returns_new_value() {
    let mut kv = FasterKv::new(1024, 8192);
    assert_eq!(kv.upsert(3, le(30)), FasterStatus::OK);
    assert_eq!(kv.delete(3), FasterStatus::OK);
    assert_eq!(kv.read(3).0, FasterStatus::NotFound);
    assert_eq!(kv.upsert(3, le(31)), FasterStatus::OK);
    assert_eq!(read_u64(&kv, 3), 31);
}

#[test]
fn delete_absent_key_then_read() {
    let mut kv = FasterKv::new(1024, 8192);
    assert_eq!(kv.delete(9), FasterStatus::OK);
    assert_eq!(kv.read(9).0, FasterStatus::NotFound);
}

#[test]
fn empty_value_round_trip() {
    let mut kv = FasterKv::new(1024, 8192);
    assert_eq!(kv.upsert(5, Vec::new()), FasterStatus::OK);
    let (st, v) = kv.read(5);
    assert_eq!(st, FasterStatus::OK);
    assert_eq!(v.expect("value expected"), Vec::<u8>::new());
}

#[test]
fn extreme_keys() {
    let mut kv = FasterKv::new(1024, 8192);
    assert_eq!(kv.upsert(0, le(1)), FasterStatus::OK);
    assert_eq!(kv.upsert(u64::MAX, le(2)), FasterStatus::OK);
    assert_eq!(read_u64(&kv, 0), 1);
    assert_eq!(read_u64(&kv, u64::MAX), 2);
}

#[test]
fn collision_chain_in_single_bucket() {
    // A 64-byte table buys exactly one bucket: every key collides and the
    // whole store runs through one hash chain.
    let mut kv = FasterKv::new(64, 1 << 16);
    for k in 0..50u64 {
        assert_eq!(kv.upsert(k, le(k * 7)), FasterStatus::OK);
    }
    assert_eq!(kv.delete(25), FasterStatus::OK);
    for k in 0..50u64 {
        if k == 25 {
            assert_eq!(kv.read(k).0, FasterStatus::NotFound);
        } else {
            assert_eq!(read_u64(&kv, k), k * 7);
        }
    }
}

#[test]
fn rmw_on_absent_key_inserts_delta() {
    let mut kv = FasterKv::new(1024, 8192);
    assert_eq!(kv.rmw(77, le(13)), FasterStatus::OK);
    assert_eq!(read_u64(&kv, 77), 13);
}

#[test]
fn rmw_on_deleted_key_inserts_delta() {
    let mut kv = FasterKv::new(1024, 8192);
    assert_eq!(kv.upsert(77, le(100)), FasterStatus::OK);
    assert_eq!(kv.delete(77), FasterStatus::OK);
    assert_eq!(kv.rmw(77, le(13)), FasterStatus::OK);
    assert_eq!(read_u64(&kv, 77), 13);
}

#[test]
fn rmw_non_eight_byte_value_is_replaced() {
    let mut kv = FasterKv::new(1024, 8192);
    assert_eq!(kv.upsert(6, vec![1, 2, 3]), FasterStatus::OK);
    assert_eq!(kv.rmw(6, le(9)), FasterStatus::OK);
    assert_eq!(read_u64(&kv, 6), 9);
}

#[test]
fn rmw_wraps_around() {
    let mut kv = FasterKv::new(1024, 8192);
    assert_eq!(kv.upsert(8, le(u64::MAX)), FasterStatus::OK);
    assert_eq!(kv.rmw(8, le(1)), FasterStatus::OK);
    assert_eq!(read_u64(&kv, 8), 0);
}

#[test]
fn rmw_applied_n_times_accumulates() {
    let mut kv = FasterKv::new(1024, 1 << 16);
    assert_eq!(kv.upsert(42, le(100)), FasterStatus::OK);
    for _ in 0..10 {
        assert_eq!(kv.rmw(42, le(5)), FasterStatus::OK);
    }
    assert_eq!(read_u64(&kv, 42), 150);
}

#[test]
fn out_of_memory_leaves_store_usable() {
    // Capacity 64 bytes: exactly one small record fits (32 bytes of
    // overhead plus an 8-byte value), a 64-byte value can never fit.
    let mut kv = FasterKv::new(1024, 64);
    assert_eq!(kv.upsert(1, vec![0u8; 64]), FasterStatus::OutOfMemory);
    assert_eq!(kv.read(1).0, FasterStatus::NotFound);
    assert_eq!(kv.upsert(2, le(4)), FasterStatus::OK);
    assert_eq!(read_u64(&kv, 2), 4);
    assert_eq!(kv.upsert(3, le(5)), FasterStatus::OutOfMemory);
    assert_eq!(read_u64(&kv, 2), 4);
}

#[test]
fn delete_can_run_out_of_memory() {
    // A tombstone still costs its record overhead: with 40 of 64 bytes
    // used, the 32-byte tombstone no longer fits.
    let mut kv = FasterKv::new(1024, 64);
    assert_eq!(kv.upsert(1, le(1)), FasterStatus::OK);
    assert_eq!(kv.delete(1), FasterStatus::OutOfMemory);
    assert_eq!(read_u64(&kv, 1), 1);
}

#[test]
fn rmw_out_of_memory_leaves_value() {
    let mut kv = FasterKv::new(1024, 64);
    assert_eq!(kv.upsert(1, le(10)), FasterStatus::OK);
    assert_eq!(kv.rmw(1, le(5)), FasterStatus::OutOfMemory);
    assert_eq!(read_u64(&kv, 1), 10);
}

#[test]
fn disjoint_writers_keep_their_own_values() {
    // Two writers over disjoint key ranges, interleaved: a full read-back
    // observes exactly each writer's own values.
    let mut kv = FasterKv::new(4096, 1 << 16);
    kv.start_session();
    for i in 0..20u64 {
        assert_eq!(kv.upsert(i, le(i * 2)), FasterStatus::OK);
        assert_eq!(kv.upsert(100 + i, le(i * 3)), FasterStatus::OK);
    }
    for i in 0..20u64 {
        assert_eq!(read_u64(&kv, i), i * 2);
        assert_eq!(read_u64(&kv, 100 + i), i * 3);
    }
    kv.stop_session();
}

#[test]
fn sessions_and_complete_pending() {
    let mut kv = FasterKv::new(1024, 8192);
    kv.start_session();
    kv.start_session();
    assert_eq!(kv.upsert(1, le(1)), FasterStatus::OK);
    kv.complete_pending(false);
    kv.complete_pending(true);
    assert_eq!(read_u64(&kv, 1), 1);
    kv.stop_session();
    kv.stop_session();
    kv.stop_session();
    assert_eq!(kv.upsert(2, le(2)), FasterStatus::OK);
    assert_eq!(read_u64(&kv, 2), 2);
}

#[test]
fn mlkv_paths_behave_as_standard() {
    let mut kv = FasterKv::new(1024, 8192);
    assert_eq!(kv.mlkv_upsert(11, le(111)), FasterStatus::OK);
    let (st, v) = kv.mlkv_read(11);
    assert_eq!(st, FasterStatus::OK);
    assert_eq!(
        u64::from_le_bytes(v.expect("value expected").as_slice().try_into().unwrap()),
        111
    );
    assert_eq!(kv.mlkv_lookahead(11, 8), FasterStatus::OK);
    assert_eq!(kv.mlkv_lookahead(12, 8), FasterStatus::NotFound);
    assert_eq!(kv.mlkv_read(12).0, FasterStatus::NotFound);
}

#[test]
fn status_codes() {
    assert_eq!(FasterStatus::OK.code(), 0);
    assert_eq!(FasterStatus::Pending.code(), 1);
    assert_eq!(FasterStatus::NotFound.code(), 2);
    assert_eq!(FasterStatus::OutOfMemory.code(), 3);
    assert_eq!(FasterStatus::IOError.code(), 4);
    assert_eq!(FasterStatus::Corruption.code(), 5);
    assert_eq!(FasterStatus::Aborted.code(), 6);
}
