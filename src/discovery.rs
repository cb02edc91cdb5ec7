//! The presence protocol: each node announces itself on a timer, listens for
//! the announcements of others, and keeps a roster of peers that expires
//! silent ones. The loop around it (timer, broadcast channel, notifications)
//! hands each event to `presence_step` and carries out the actions it returns.
use std::time::{SystemTime, UNIX_EPOCH};
use vstd::prelude::*;
use vstd::string::*;

use crate::keyed::{keyed_map, keys_unique};
use crate::state::{fresh_peers, is_stale, names_stale, PeerInfo, PeerRoster, PEER_TIMEOUT_SECS};
use crate::text::same_text;

verus! {

/// Seconds between two announcements of this node.
pub const ANNOUNCEMENT_INTERVAL_SECS: u64 = 30;

/// What a node broadcasts about itself.
#[derive(Clone, Debug)]
pub struct PeerAnnouncement {
    pub node_id: String,
    pub device_name: String,
    pub timestamp: u64,
}

/// Relies on std's `SystemTime::now` and `duration_since(UNIX_EPOCH)`:
/// whole seconds since the Unix epoch, or nothing when the clock reads an
/// earlier time.
#[verifier::external_body]
fn epoch_seconds() -> (r: Option<u64>) {
    SystemTime::now().duration_since(UNIX_EPOCH).ok().map(|d| d.as_secs())
}

impl PeerAnnouncement {
    /// An announcement stamped with the current time (zero if the clock reads
    /// before the Unix epoch).
    pub fn new(node_id: String, device_name: String) -> (r: Self)
        ensures
            r.node_id == node_id,
            r.device_name == device_name,
    {
        let timestamp = match epoch_seconds() {
            Some(t) => t,
            None => 0,
        };
        PeerAnnouncement::at(node_id, device_name, timestamp)
    }

    /// An announcement stamped with `timestamp`.
    pub fn at(node_id: String, device_name: String, timestamp: u64) -> (r: Self)
        ensures
            r == (PeerAnnouncement { node_id, device_name, timestamp }),
    {
        PeerAnnouncement { node_id, device_name, timestamp }
    }
}

/// The roster record an announcement stands for.
pub open spec fn peer_of(a: PeerAnnouncement) -> PeerInfo {
    PeerInfo { node_id: a.node_id, device_name: a.device_name, last_seen: a.timestamp }
}

/// Something that happened to the presence loop.
#[derive(Debug)]
pub enum PresenceEvent {
    /// The announcement timer fired at `now` (seconds since the epoch).
    Tick { now: u64 },
    /// An announcement came in.
    Received(PeerAnnouncement),
    /// A message came in that is not an announcement.
    Malformed,
    /// The inbound stream has closed for good.
    Closed,
}

/// Something the presence loop must do.
#[derive(Debug)]
pub enum PresenceAction {
    /// Broadcast this announcement.
    Broadcast(PeerAnnouncement),
    /// Tell observers a peer has expired.
    PeerLost(String),
    /// Tell observers a new peer has appeared.
    PeerDiscovered(PeerInfo),
    /// Tell observers the whole roster.
    PeerListUpdated(Vec<PeerInfo>),
    /// Stop the loop.
    Stop,
}

/// `a` hands observers the roster `m`, one record per peer.
pub open spec fn lists_roster(a: PresenceAction, m: Map<Seq<char>, PeerInfo>) -> bool {
    match a {
        PresenceAction::PeerListUpdated(v) => keys_unique(v@) && keyed_map(v@) == m,
        _ => false,
    }
}

/// `r` tells of an announcement that moved the roster from `before` to
/// `after`: a discovery if the sender was unknown, then the whole roster.
pub open spec fn announcement_actions(
    r: Seq<PresenceAction>,
    a: PeerAnnouncement,
    before: Map<Seq<char>, PeerInfo>,
    after: Map<Seq<char>, PeerInfo>,
) -> bool {
    if before.contains_key(a.node_id@) {
        r.len() == 1 && lists_roster(r[0], after)
    } else {
        r.len() == 2 && r[0] == PresenceAction::PeerDiscovered(peer_of(a)) && lists_roster(r[1], after)
    }
}

/// Takes in an announcement. One from this node itself changes nothing;
/// any other records its sender as seen at the announced time.
pub fn handle_peer_announcement(roster: &mut PeerRoster, node_id: &str, announcement: PeerAnnouncement) -> (r: Vec<PresenceAction>)
    ensures
        announcement.node_id@ == node_id@ ==> final(roster)@ == old(roster)@ && r@.len() == 0,
        announcement.node_id@ != node_id@ ==> final(roster)@ == old(roster)@.insert(
            announcement.node_id@,
            peer_of(announcement),
        ) && announcement_actions(r@, announcement, old(roster)@, final(roster)@),
{
    let mut actions: Vec<PresenceAction> = Vec::new();
    if same_text(announcement.node_id.as_str(), node_id) {
        return actions;
    }
    let is_new = !roster.contains_peer(announcement.node_id.as_str());
    let peer = PeerInfo {
        node_id: announcement.node_id,
        device_name: announcement.device_name,
        last_seen: announcement.timestamp,
    };
    if is_new {
        actions.push(PresenceAction::PeerDiscovered(peer.copied()));
    }
    roster.add_peer(peer);
    actions.push(PresenceAction::PeerListUpdated(roster.get_peers()));
    actions
}

/// `r` is what a timer tick at `now` asks for: this node's announcement,
/// then one notice per expired peer of `before`.
pub open spec fn tick_actions(
    r: Seq<PresenceAction>,
    node_id: Seq<char>,
    device_name: Seq<char>,
    now: u64,
    before: Map<Seq<char>, PeerInfo>,
) -> bool {
    &&& r.len() >= 1
    &&& r[0] matches PresenceAction::Broadcast(a) && a.node_id@ == node_id && a.device_name@
        == device_name && a.timestamp == now
    &&& forall|i: int| 1 <= i < r.len() ==> #[trigger] r[i] is PeerLost
    &&& names_stale(lost_ids(r), before, now)
}

/// The peers that `r` reports lost, in order.
pub open spec fn lost_ids(r: Seq<PresenceAction>) -> Seq<String> {
    Seq::new(
        (r.len() - 1) as nat,
        |i: int|
            match r[i + 1] {
                PresenceAction::PeerLost(id) => id,
                _ => arbitrary(),
            },
    )
}

/// One turn of the presence loop: from the roster and an event to the new
/// roster and the actions to carry out.
pub fn presence_step(roster: &mut PeerRoster, node_id: &str, device_name: &str, event: PresenceEvent) -> (r: Vec<PresenceAction>)
    ensures
        match event {
            PresenceEvent::Tick { now } => final(roster)@ == fresh_peers(old(roster)@, now)
                && tick_actions(r@, node_id@, device_name@, now, old(roster)@),
            PresenceEvent::Received(a) => if a.node_id@ == node_id@ {
                final(roster)@ == old(roster)@ && r@.len() == 0
            } else {
                final(roster)@ == old(roster)@.insert(a.node_id@, peer_of(a)) && announcement_actions(
                    r@,
                    a,
                    old(roster)@,
                    final(roster)@,
                )
            },
            PresenceEvent::Malformed => final(roster)@ == old(roster)@ && r@.len() == 0,
            PresenceEvent::Closed => final(roster)@ == old(roster)@ && r@ == seq![PresenceAction::Stop],
        },
{
    match event {
        PresenceEvent::Tick { now } => {
            let mut actions: Vec<PresenceAction> = Vec::new();
            actions.push(
                PresenceAction::Broadcast(
                    PeerAnnouncement::at(String::from_str(node_id), String::from_str(device_name), now),
                ),
            );
            let lost = roster.cleanup_stale_peers(now);
            let mut i: usize = 0;
            while i < lost.len()
                invariant
                    i <= lost@.len(),
                    actions@.len() == i + 1,
                    actions@[0] matches PresenceAction::Broadcast(a) && a.node_id@ == node_id@
                        && a.device_name@ == device_name@ && a.timestamp == now,
                    forall|j: int| 1 <= j < actions@.len() ==> #[trigger] actions@[j] == PresenceAction::PeerLost(lost@[j - 1]),
                decreases lost@.len() - i,
            {
                actions.push(PresenceAction::PeerLost(lost[i].clone()));
                i = i + 1;
            }
            assert(lost_ids(actions@) =~= lost@);
            actions
        },
        PresenceEvent::Received(a) => handle_peer_announcement(roster, node_id, a),
        PresenceEvent::Malformed => Vec::new(),
        PresenceEvent::Closed => {
            let mut actions: Vec<PresenceAction> = Vec::new();
            actions.push(PresenceAction::Stop);
            assert(actions@ =~= seq![PresenceAction::Stop]);
            actions
        },
    }
}

/// Peer timeout: one second past the timeout a peer is stale; one second
/// before it, it is not.
pub proof fn lemma_peer_timeout(p: PeerInfo, now: u64)
    ensures
        now as int == p.last_seen as int + 91 ==> is_stale(p, now),
        now as int == p.last_seen as int + 89 ==> !is_stale(p, now),
        ANNOUNCEMENT_INTERVAL_SECS * 3 <= PEER_TIMEOUT_SECS,
{
}

/// The name this device goes by: its host name when it has one.
pub fn device_name_from(host_name: Option<String>) -> (r: String)
    ensures
        r@ == (match host_name {
            Some(h) => h@,
            None => "Unknown Device"@,
        }),
{
    match host_name {
        Some(h) => h,
        None => String::from_str("Unknown Device"),
    }
}

} // verus!
