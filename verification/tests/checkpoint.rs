use faster_kv::FasterStatus;
use faster_kv::FasterKv;
use faster_kv::Checkpoint;
use faster_kv::log::Record;

fn le(x: u64) -> Vec<u8> {
    x.to_le_bytes().to_vec()
}

fn read_u64(kv: &FasterKv, key: u64) -> u64 {
    let (st, v) = kv.read(key);
    assert_eq!(st, FasterStatus::OK);
    let bytes = v.expect("value expected");
    u64::from_le_bytes(bytes.as_slice().try_into().expect("8 bytes expected"))
}

#[test]
fn checkpoint_recover_round_trip() {
    let mut kv = FasterKv::new(1024, 1 << 16);
    for k in 0..30u64 {
        assert_eq!(kv.upsert(k, le(k * k)), FasterStatus::OK);
    }
    assert_eq!(kv.delete(17), FasterStatus::OK);
    let image = kv.checkpoint().expect("checkpoint expected to succeed");
    let recovered = FasterKv::recover(1024, 1 << 16, image).expect("recovery expected");
    for k in 0..30u64 {
        if k == 17 {
            assert_eq!(recovered.read(k).0, FasterStatus::NotFound);
        } else {
            assert_eq!(read_u64(&recovered, k), k * k);
        }
    }
}

#[test]
fn checkpoint_preserves_contents() {
    let mut kv = FasterKv::new(1024, 8192);
    assert_eq!(kv.upsert(1, le(10)), FasterStatus::OK);
    let _image = kv.checkpoint().expect("checkpoint expected to succeed");
    assert_eq!(read_u64(&kv, 1), 10);
    assert_eq!(kv.upsert(2, le(20)), FasterStatus::OK);
    assert_eq!(read_u64(&kv, 2), 20);
}

#[test]
fn recover_empty_store() {
    let mut kv = FasterKv::new(1024, 8192);
    let image = kv.checkpoint().expect("checkpoint expected to succeed");
    let recovered = FasterKv::recover(1024, 8192, image).expect("recovery expected");
    assert_eq!(recovered.read(1).0, FasterStatus::NotFound);
}

#[test]
fn recover_then_operate() {
    let mut kv = FasterKv::new(1024, 8192);
    assert_eq!(kv.upsert(1, le(10)), FasterStatus::OK);
    let image = kv.checkpoint().expect("checkpoint expected to succeed");
    let mut recovered = FasterKv::recover(1024, 8192, image).expect("recovery expected");
    assert_eq!(recovered.upsert(2, le(20)), FasterStatus::OK);
    assert_eq!(recovered.rmw(1, le(1)), FasterStatus::OK);
    assert_eq!(read_u64(&recovered, 1), 11);
    assert_eq!(read_u64(&recovered, 2), 20);
}

#[test]
fn updates_after_checkpoint_are_not_in_the_image() {
    let mut kv = FasterKv::new(1024, 8192);
    assert_eq!(kv.upsert(1, le(10)), FasterStatus::OK);
    let image = kv.checkpoint().expect("checkpoint expected to succeed");
    assert_eq!(kv.upsert(1, le(99)), FasterStatus::OK);
    assert_eq!(kv.upsert(2, le(20)), FasterStatus::OK);
    let recovered = FasterKv::recover(1024, 8192, image).expect("recovery expected");
    assert_eq!(read_u64(&recovered, 1), 10);
    assert_eq!(recovered.read(2).0, FasterStatus::NotFound);
}

#[test]
fn recover_rejects_tail_beyond_log() {
    let mut kv = FasterKv::new(1024, 8192);
    assert_eq!(kv.upsert(1, le(10)), FasterStatus::OK);
    let mut image = kv.checkpoint().expect("checkpoint expected to succeed");
    image.tail = image.records.len() + 1;
    match FasterKv::recover(1024, 8192, image) {
        Err(e) => assert_eq!(e, FasterStatus::Corruption),
        Ok(_) => panic!("recovery must reject a tail beyond the captured log"),
    }
}

#[test]
fn recover_rejects_entry_beyond_tail() {
    let entries: Vec<Option<usize>> = (0..16).map(|b| if b == 3 { Some(5) } else { None }).collect();
    let image = Checkpoint { records: Vec::new(), entries, tail: 0, epoch: 1 };
    match FasterKv::recover(1024, 8192, image) {
        Err(e) => assert_eq!(e, FasterStatus::Corruption),
        Ok(_) => panic!("recovery must reject an index entry beyond the tail"),
    }
}

#[test]
fn recover_rejects_wrong_table_size() {
    let mut kv = FasterKv::new(1024, 8192);
    assert_eq!(kv.upsert(1, le(10)), FasterStatus::OK);
    let image = kv.checkpoint().expect("checkpoint expected to succeed");
    match FasterKv::recover(64 * 999, 8192, image) {
        Err(e) => assert_eq!(e, FasterStatus::Corruption),
        Ok(_) => panic!("recovery must reject a mismatched table size"),
    }
}

#[test]
fn recover_rejects_capacity_too_small() {
    let mut kv = FasterKv::new(1024, 8192);
    assert_eq!(kv.upsert(1, le(10)), FasterStatus::OK);
    let image = kv.checkpoint().expect("checkpoint expected to succeed");
    match FasterKv::recover(1024, 16, image) {
        Err(e) => assert_eq!(e, FasterStatus::Corruption),
        Ok(_) => panic!("recovery must reject a log too small for the image"),
    }
}

#[test]
fn recover_rejects_bad_prev_link() {
    let records = vec![Record { key: 1, value: le(10), tombstone: false, prev: Some(0) }];
    let entries: Vec<Option<usize>> = (0..16).map(|_| None).collect();
    let image = Checkpoint { records, entries, tail: 1, epoch: 1 };
    match FasterKv::recover(1024, 8192, image) {
        Err(e) => assert_eq!(e, FasterStatus::Corruption),
        Ok(_) => panic!("recovery must reject a non-decreasing chain link"),
    }
}

#[test]
fn recover_rejects_zero_epoch() {
    let mut kv = FasterKv::new(1024, 8192);
    let mut image = kv.checkpoint().expect("checkpoint expected to succeed");
    image.epoch = 0;
    match FasterKv::recover(1024, 8192, image) {
        Err(e) => assert_eq!(e, FasterStatus::Corruption),
        Ok(_) => panic!("recovery must reject an impossible epoch"),
    }
}

#[test]
fn tombstones_survive_the_round_trip() {
    let mut kv = FasterKv::new(64, 1 << 16);
    for k in 0..10u64 {
        assert_eq!(kv.upsert(k, le(k + 1)), FasterStatus::OK);
    }
    assert_eq!(kv.delete(4), FasterStatus::OK);
    assert_eq!(kv.delete(5), FasterStatus::OK);
    let image = kv.checkpoint().expect("checkpoint expected to succeed");
    let recovered = FasterKv::recover(64, 1 << 16, image).expect("recovery expected");
    for k in 0..10u64 {
        if k == 4 || k == 5 {
            assert_eq!(recovered.read(k).0, FasterStatus::NotFound);
        } else {
            assert_eq!(read_u64(&recovered, k), k + 1);
        }
    }
}
