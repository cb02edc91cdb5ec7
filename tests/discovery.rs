use vegam::discovery::{
    device_name_from, handle_peer_announcement, presence_step, PeerAnnouncement, PresenceAction, PresenceEvent,
};
use vegam::state::{PeerInfo, PeerRoster};

#[test]
fn own_announcement_is_ignored() {
    let mut roster = PeerRoster::new();
    let ann = PeerAnnouncement::at("me".to_string(), "laptop".to_string(), 100);
    let actions = presence_step(&mut roster, "me", "laptop", PresenceEvent::Received(ann));
    assert!(actions.is_empty());
    assert!(roster.get_peers().is_empty());
}

#[test]
fn new_peer_is_discovered_then_listed() {
    let mut roster = PeerRoster::new();
    let ann = PeerAnnouncement::at("other".to_string(), "phone".to_string(), 100);
    let actions = handle_peer_announcement(&mut roster, "me", ann);
    assert_eq!(actions.len(), 2);
    match &actions[0] {
        PresenceAction::PeerDiscovered(p) => {
            assert_eq!(p.node_id, "other");
            assert_eq!(p.device_name, "phone");
            assert_eq!(p.last_seen, 100);
        }
        other => panic!("unexpected {other:?}"),
    }
    match &actions[1] {
        PresenceAction::PeerListUpdated(list) => assert_eq!(list.len(), 1),
        other => panic!("unexpected {other:?}"),
    }

    let again = PeerAnnouncement::at("other".to_string(), "phone".to_string(), 130);
    let actions = handle_peer_announcement(&mut roster, "me", again);
    assert_eq!(actions.len(), 1);
    assert!(matches!(&actions[0], PresenceAction::PeerListUpdated(l) if l[0].last_seen == 130));
}

#[test]
fn tick_announces_and_expires() {
    let mut roster = PeerRoster::new();
    roster.add_peer(PeerInfo { node_id: "gone".to_string(), device_name: "x".to_string(), last_seen: 1000 - 91 });
    roster.add_peer(PeerInfo { node_id: "here".to_string(), device_name: "y".to_string(), last_seen: 1000 - 89 });
    let actions = presence_step(&mut roster, "me", "laptop", PresenceEvent::Tick { now: 1000 });
    assert_eq!(actions.len(), 2);
    match &actions[0] {
        PresenceAction::Broadcast(a) => {
            assert_eq!(a.node_id, "me");
            assert_eq!(a.device_name, "laptop");
            assert_eq!(a.timestamp, 1000);
        }
        other => panic!("unexpected {other:?}"),
    }
    assert!(matches!(&actions[1], PresenceAction::PeerLost(id) if id == "gone"));
    assert!(roster.contains_peer("here"));
    assert!(!roster.contains_peer("gone"));
}

#[test]
fn malformed_and_closed_streams() {
    let mut roster = PeerRoster::new();
    assert!(presence_step(&mut roster, "me", "n", PresenceEvent::Malformed).is_empty());
    let actions = presence_step(&mut roster, "me", "n", PresenceEvent::Closed);
    assert_eq!(actions.len(), 1);
    assert!(matches!(actions[0], PresenceAction::Stop));
}

#[test]
fn announcement_now_keeps_identity() {
    let a = PeerAnnouncement::new("id".to_string(), "host".to_string());
    assert_eq!(a.node_id, "id");
    assert_eq!(a.device_name, "host");
    assert!(a.timestamp > 1_600_000_000);
}

#[test]
fn device_name_falls_back() {
    assert_eq!(device_name_from(Some("box".to_string())), "box");
    assert_eq!(device_name_from(None), "Unknown Device");
}
