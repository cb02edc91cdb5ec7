use vegam::state::{PeerInfo, PeerRoster, TransferDirection, TransferInfo, TransferRegistry, TransferStatus};

fn record(id: &str) -> TransferInfo {
    TransferInfo::pending(id.to_string(), "a.bin".to_string(), 10, TransferDirection::Receive)
}

fn peer(id: &str, last_seen: u64) -> PeerInfo {
    PeerInfo { node_id: id.to_string(), device_name: format!("{id}-host"), last_seen }
}

#[test]
fn status_moves_from_pending_to_completed_and_stays() {
    let mut reg = TransferRegistry::new();
    reg.add_transfer(record("t1"));
    assert_eq!(reg.get_transfer("t1").unwrap().status, TransferStatus::Pending);

    reg.update_transfer_progress("t1", 0);
    assert_eq!(reg.get_transfer("t1").unwrap().status, TransferStatus::Pending);

    reg.update_transfer_progress("t1", 5);
    let t = reg.get_transfer("t1").unwrap();
    assert_eq!(t.status, TransferStatus::InProgress);
    assert_eq!(t.bytes_transferred, 5);

    reg.update_transfer_status("t1", TransferStatus::Completed, None);
    assert_eq!(reg.get_transfer("t1").unwrap().status, TransferStatus::Completed);

    reg.update_transfer_progress("t1", 7);
    reg.update_transfer_status("t1", TransferStatus::InProgress, None);
    reg.update_transfer_status("t1", TransferStatus::Failed, Some("late".to_string()));
    let t = reg.get_transfer("t1").unwrap();
    assert_eq!(t.status, TransferStatus::Completed);
    assert_eq!(t.error, None);
}

#[test]
fn in_progress_does_not_go_back_to_pending() {
    let mut reg = TransferRegistry::new();
    reg.add_transfer(record("t"));
    reg.update_transfer_progress("t", 1);
    reg.update_transfer_status("t", TransferStatus::Pending, None);
    assert_eq!(reg.get_transfer("t").unwrap().status, TransferStatus::InProgress);
}

#[test]
fn failure_keeps_its_message() {
    let mut reg = TransferRegistry::new();
    reg.add_transfer(record("t"));
    reg.fail_transfer("t", "connection reset".to_string());
    let t = reg.get_transfer("t").unwrap();
    assert_eq!(t.status, TransferStatus::Failed);
    assert_eq!(t.error.as_deref(), Some("connection reset"));
    reg.complete_transfer("t", 10);
    assert_eq!(reg.get_transfer("t").unwrap().status, TransferStatus::Failed);
}

#[test]
fn completion_takes_the_actual_byte_count() {
    let mut reg = TransferRegistry::new();
    reg.add_transfer(record("t"));
    reg.complete_transfer("t", 12);
    let t = reg.get_transfer("t").unwrap();
    assert_eq!(t.status, TransferStatus::Completed);
    assert_eq!(t.bytes_transferred, 12);
    assert_eq!(t.file_size, 12);
}

#[test]
fn unknown_ids_change_nothing() {
    let mut reg = TransferRegistry::new();
    reg.update_transfer_progress("nope", 3);
    reg.update_transfer_status("nope", TransferStatus::Completed, None);
    reg.complete_transfer("nope", 3);
    assert!(reg.get_transfer("nope").is_none());
}

#[test]
fn add_transfer_replaces_same_id() {
    let mut reg = TransferRegistry::new();
    reg.add_transfer(record("t"));
    let mut r = record("t");
    r.file_name = "b.bin".to_string();
    reg.add_transfer(r);
    assert_eq!(reg.get_transfer("t").unwrap().file_name, "b.bin");
    assert!(TransferStatus::Cancelled.is_terminal());
    assert!(!TransferStatus::InProgress.is_terminal());
}

#[test]
fn peer_timeout_after_one_cleanup() {
    let now = 10_000u64;
    let mut roster = PeerRoster::new();
    roster.add_peer(peer("old", now - 91));
    roster.add_peer(peer("recent", now - 89));
    roster.add_peer(peer("edge", now - 90));
    let lost = roster.cleanup_stale_peers(now);
    assert_eq!(lost, vec!["old".to_string()]);
    assert!(!roster.contains_peer("old"));
    assert!(roster.contains_peer("recent"));
    assert!(roster.contains_peer("edge"));
}

#[test]
fn peers_seen_in_the_future_are_kept() {
    let mut roster = PeerRoster::new();
    roster.add_peer(peer("ahead", 500));
    assert!(roster.cleanup_stale_peers(100).is_empty());
    assert!(roster.contains_peer("ahead"));
}

#[test]
fn one_record_per_peer() {
    let mut roster = PeerRoster::new();
    roster.add_peer(peer("a", 1));
    roster.add_peer(peer("b", 2));
    roster.add_peer(peer("a", 3));
    let peers = roster.get_peers();
    assert_eq!(peers.len(), 2);
    let a = peers.iter().find(|p| p.node_id == "a").unwrap();
    assert_eq!(a.last_seen, 3);
    roster.remove_peer("a");
    assert_eq!(roster.get_peers().len(), 1);
}
