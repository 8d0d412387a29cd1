use rendezvous::actor::Chameneos;
use rendezvous::packed::{encode, slot_count, TransactionalQueue, BATCH, STOPPED};

#[test]
fn encode_places_fields() {
    assert_eq!(encode(0, 0, 0), 0);
    assert_eq!(encode(5, 3, 0x21), 5 + (3 << 24) + (0x21 << 28));
    assert_eq!(encode(0xFF_FFFF, 15, 0xF_FFFF_FFFF), STOPPED);
    assert_ne!(encode(0xFF_FFFF, 14, 0xF_FFFF_FFFF), STOPPED);
    assert_ne!(encode(0xFF_FFFE, 15, 0xF_FFFF_FFFF), STOPPED);
}

#[test]
fn full_counter_word_round_trips() {
    let w: u64 = 0xFF_FFFF;
    let mut q = TransactionalQueue { set_state: w };
    let done = q.take_count();
    let broker = q.take();
    assert_eq!(done, BATCH);
    assert_eq!(encode(done, broker.idx, q.set_state), w);
}

#[test]
fn decode_round_trip() {
    let w = encode(1234, 7, 0x321);
    let mut q = TransactionalQueue { set_state: w };
    assert_eq!(q.take_count(), 1234);
    assert_eq!(q.take().idx, 7);
    assert_eq!(q.set_state, 0x321);
    assert_eq!(q.take().idx, 1);
    assert_eq!(q.take().idx, 2);
    assert_eq!(q.take().idx, 3);
    assert_eq!(q.take().idx, 0);
    assert_eq!(q.set_state, 0);
}

#[test]
fn put_appends_at_back() {
    let mut q = TransactionalQueue { set_state: 0 };
    q.put(Chameneos { idx: 4 }, Chameneos { idx: 9 });
    assert_eq!(q.set_state, 0x49);
    q.put(Chameneos { idx: 1 }, Chameneos { idx: 2 });
    assert_eq!(q.set_state, 0x1249);
    assert_eq!(q.take().idx, 9);
    assert_eq!(q.take().idx, 4);
    assert_eq!(q.take().idx, 2);
    assert_eq!(q.take().idx, 1);
    assert_eq!(q.take().idx, 0);
}

#[test]
fn slot_counts() {
    assert_eq!(slot_count(0), 0);
    assert_eq!(slot_count(0x5), 1);
    assert_eq!(slot_count(0x105), 3);
    assert_eq!(slot_count(u64::MAX), 16);
}
