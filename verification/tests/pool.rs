use gdvpn_server::gdrive::{slots_missing, GDriveChild, GDriveChildList};
use gdvpn_server::settings::Settings;
use gdvpn_server::slots::SlotPool;

#[test]
fn cursor_wraps_round_robin() {
    let mut pool = SlotPool::new(vec![b"a".to_vec(), b"b".to_vec(), b"c".to_vec()]);
    assert_eq!(pool.current_index(), 0);
    let mut seen = Vec::new();
    for _ in 0..7 {
        seen.push(pool.current_index());
        pool.advance();
    }
    assert_eq!(seen, vec![0, 1, 2, 0, 1, 2, 0]);
}

#[test]
fn current_id_follows_cursor() {
    let mut pool = SlotPool::new(vec![b"first".to_vec(), b"second".to_vec()]);
    assert_eq!(pool.current_id(), &b"first".to_vec());
    pool.advance();
    assert_eq!(pool.current_id(), &b"second".to_vec());
    pool.advance();
    assert_eq!(pool.current_id(), &b"first".to_vec());
}

#[test]
fn single_slot_pool_stays_at_zero() {
    let mut pool = SlotPool::new(vec![b"only".to_vec()]);
    pool.advance();
    assert_eq!(pool.current_index(), 0);
    assert_eq!(pool.file_count(), 1);
}

#[test]
fn missing_slot_count() {
    assert_eq!(slots_missing(0, 3), 3);
    assert_eq!(slots_missing(2, 5), 3);
    assert_eq!(slots_missing(5, 5), 0);
    assert_eq!(slots_missing(9, 3), 0);
}

#[test]
fn listing_ids_in_order() {
    let child = |id: &str| GDriveChild {
        id: id.to_string(),
        self_link: String::new(),
        child_link: String::new(),
    };
    let list = GDriveChildList {
        next_page_token: None,
        next_link: None,
        items: vec![child("x"), child("y"), child("z")],
    };
    let ids = gdvpn_server::gdrive::child_ids(&list);
    assert_eq!(ids, vec!["x".to_string(), "y".to_string(), "z".to_string()]);
}

#[test]
fn settings_validity() {
    let mut s = Settings {
        packet_duration: 100,
        max_queued_packets: 1024,
        folder_id: "folder".to_string(),
        file_count: 4,
        port: 8000,
    };
    assert!(s.is_valid());
    s.file_count = 0;
    assert!(!s.is_valid());
}
