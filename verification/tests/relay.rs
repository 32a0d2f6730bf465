use gdvpn_server::frame::{decode_batch, serialize_batch};
use gdvpn_server::queue::{RelayWorker, Response, WorkerEvent, WorkerStep};
use gdvpn_server::slots::SlotPool;

fn pool_of(n: usize) -> SlotPool {
    let ids: Vec<Vec<u8>> = (0..n).map(|i| format!("slot-{}", i).into_bytes()).collect();
    SlotPool::new(ids)
}

fn expect_wait(step: WorkerStep) -> u64 {
    match step {
        WorkerStep::Wait { budget_ms } => budget_ms,
        WorkerStep::Upload { .. } => panic!("expected a wait, got an upload"),
    }
}

fn expect_upload(step: WorkerStep) -> (Vec<u8>, usize) {
    match step {
        WorkerStep::Upload { content, slot } => (content, slot),
        WorkerStep::Wait { .. } => panic!("expected an upload, got a wait"),
    }
}

fn note_index(note: Option<Response>) -> Option<usize> {
    note.map(|Response::FileIndex(i)| i)
}

#[test]
fn empty_window_never_uploads() {
    // No packet within the whole window: no upload, a fresh window, and the
    // cursor stays put.
    let mut w = RelayWorker::new(pool_of(3), 100);
    for _ in 0..5 {
        let step = w.on_event(WorkerEvent::TimedOut);
        assert_eq!(expect_wait(step), 100);
        assert_eq!(w.slots.cursor, 0);
    }
}

#[test]
fn window_budget_decrements() {
    let mut w = RelayWorker::new(pool_of(3), 100);
    let s1 = w.on_event(WorkerEvent::Packet { data: vec![1], elapsed_ms: 0 });
    assert_eq!(expect_wait(s1), 100);
    let s2 = w.on_event(WorkerEvent::Packet { data: vec![2], elapsed_ms: 30 });
    assert_eq!(expect_wait(s2), 70);
    let s3 = w.on_event(WorkerEvent::Packet { data: vec![3], elapsed_ms: 60 });
    assert_eq!(expect_wait(s3), 10);
}

#[test]
fn late_packet_still_joins_its_batch() {
    // A packet whose arrival gap exceeds the remaining budget closes the
    // batch but is itself included, exactly as a packet received just before
    // the deadline fired.
    let mut w = RelayWorker::new(pool_of(2), 100);
    let _ = w.on_event(WorkerEvent::Packet { data: vec![1], elapsed_ms: 0 });
    let step = w.on_event(WorkerEvent::Packet { data: vec![2], elapsed_ms: 150 });
    let (content, slot) = expect_upload(step);
    assert_eq!(slot, 0);
    assert_eq!(decode_batch(&content), Some(vec![vec![1u8], vec![2u8]]));
}

#[test]
fn three_packets_one_window_then_a_fourth() {
    // packet_duration = 100ms; packets of 10, 20 and 30 bytes arrive at
    // t=0ms, t=30ms and t=90ms: all three travel in one batch, to slot 0. A
    // fourth packet arriving 50ms into the next window travels alone, to
    // slot 1.
    let p1 = vec![1u8; 10];
    let p2 = vec![2u8; 20];
    let p3 = vec![3u8; 30];
    let p4 = vec![4u8; 5];
    let mut w = RelayWorker::new(pool_of(8), 100);

    assert_eq!(expect_wait(w.on_event(WorkerEvent::Packet { data: p1.clone(), elapsed_ms: 0 })), 100);
    assert_eq!(expect_wait(w.on_event(WorkerEvent::Packet { data: p2.clone(), elapsed_ms: 30 })), 70);
    assert_eq!(expect_wait(w.on_event(WorkerEvent::Packet { data: p3.clone(), elapsed_ms: 60 })), 10);
    let (content, slot) = expect_upload(w.on_event(WorkerEvent::TimedOut));
    assert_eq!(slot, 0);
    assert_eq!(content, serialize_batch(&vec![p1.clone(), p2.clone(), p3.clone()]));
    assert_eq!(decode_batch(&content), Some(vec![p1, p2, p3]));
    assert_eq!(note_index(w.finish_upload(true)), Some(0));

    assert_eq!(expect_wait(w.on_event(WorkerEvent::Packet { data: p4.clone(), elapsed_ms: 50 })), 50);
    let (content, slot) = expect_upload(w.on_event(WorkerEvent::TimedOut));
    assert_eq!(slot, 1);
    assert_eq!(decode_batch(&content), Some(vec![p4]));
    assert_eq!(note_index(w.finish_upload(true)), Some(1));
}

#[test]
fn ten_uploads_rotate_three_slots() {
    // file_count = 3, ten consecutive successful uploads: slot sequence
    // 0,1,2,0,1,2,0,1,2,0.
    let mut w = RelayWorker::new(pool_of(3), 100);
    let mut slots_seen = Vec::new();
    let mut notes_seen = Vec::new();
    for i in 0..10u8 {
        let _ = w.on_event(WorkerEvent::Packet { data: vec![i], elapsed_ms: 0 });
        let (_, slot) = expect_upload(w.on_event(WorkerEvent::TimedOut));
        slots_seen.push(slot);
        notes_seen.push(note_index(w.finish_upload(true)).expect("success must notify"));
    }
    let expected = vec![0usize, 1, 2, 0, 1, 2, 0, 1, 2, 0];
    assert_eq!(slots_seen, expected);
    assert_eq!(notes_seen, expected);
}

#[test]
fn failed_upload_drops_batch_but_advances() {
    // The 5th upload fails: its packets appear in no uploaded content, no
    // notification is emitted for it, and the 6th upload uses the slot the
    // 5th would have used next.
    let mut w = RelayWorker::new(pool_of(16), 100);
    let mut uploaded = Vec::new();
    let mut notes = Vec::new();
    for i in 1..=6u8 {
        let _ = w.on_event(WorkerEvent::Packet { data: vec![i; 4], elapsed_ms: 0 });
        let (content, slot) = expect_upload(w.on_event(WorkerEvent::TimedOut));
        let ok = i != 5;
        if ok {
            uploaded.push((slot, content));
        }
        notes.push(note_index(w.finish_upload(ok)));
    }
    // The failed batch's bytes are absent from every uploaded content.
    let all_uploaded: Vec<u8> = uploaded.iter().flat_map(|(_, c)| c.clone()).collect();
    let relayed = decode_batch(&all_uploaded).expect("kept contents decode");
    assert_eq!(
        relayed,
        vec![vec![1u8; 4], vec![2u8; 4], vec![3u8; 4], vec![4u8; 4], vec![6u8; 4]]
    );
    // No notification for the failure; the cursor still advanced.
    assert_eq!(notes, vec![Some(0), Some(1), Some(2), Some(3), None, Some(5)]);
    let slots: Vec<usize> = uploaded.iter().map(|(s, _)| *s).collect();
    assert_eq!(slots, vec![0, 1, 2, 3, 5]);
}
