//! Transfer records and their status machine, the transfer registry, and
//! the roster of known peers.
use vstd::prelude::*;
use vstd::string::*;

use crate::keyed::{keyed_map, keys_unique, lemma_keyed_map_at, Keyed, KeyedTable};

verus! {

/// Where a transfer stands.
#[derive(Clone, Copy, Debug, PartialEq, Eq, Structural)]
pub enum TransferStatus {
    Pending,
    InProgress,
    Completed,
    Failed,
    Cancelled,
}

/// Which way the bytes of a transfer go.
#[derive(Clone, Copy, Debug, PartialEq, Eq, Structural)]
pub enum TransferDirection {
    Send,
    Receive,
}

impl TransferStatus {
    /// Completed, failed and cancelled transfers are over: no status follows.
    pub open spec fn spec_is_terminal(self) -> bool {
        self is Completed || self is Failed || self is Cancelled
    }

    #[verifier::when_used_as_spec(spec_is_terminal)]
    pub fn is_terminal(self) -> (r: bool)
        ensures
            r == self.spec_is_terminal(),
    {
        match self {
            TransferStatus::Completed | TransferStatus::Failed | TransferStatus::Cancelled => true,
            _ => false,
        }
    }
}

/// The status changes a record accepts: none out of a terminal status, and
/// none back to `Pending`.
pub open spec fn can_move(from: TransferStatus, to: TransferStatus) -> bool {
    !from.spec_is_terminal() && (to != TransferStatus::Pending || from == TransferStatus::Pending)
}

pub fn status_can_move(from: TransferStatus, to: TransferStatus) -> (r: bool)
    ensures
        r == can_move(from, to),
{
    !from.is_terminal() && (!matches!(to, TransferStatus::Pending) || matches!(from, TransferStatus::Pending))
}

/// The tracked state of one send or receive.
#[derive(Clone, Debug)]
pub struct TransferInfo {
    pub id: String,
    pub file_name: String,
    pub file_size: u64,
    pub bytes_transferred: u64,
    pub status: TransferStatus,
    pub error: Option<String>,
    pub direction: TransferDirection,
    pub speed_bps: u64,
}

/// A peer seen on the network, and when it last announced itself (seconds
/// since the Unix epoch).
#[derive(Clone, Debug)]
pub struct PeerInfo {
    pub node_id: String,
    pub device_name: String,
    pub last_seen: u64,
}

impl Keyed for TransferInfo {
    open spec fn key(&self) -> Seq<char> {
        self.id@
    }

    fn key_text(&self) -> (r: &String) {
        &self.id
    }
}

impl Keyed for PeerInfo {
    open spec fn key(&self) -> Seq<char> {
        self.node_id@
    }

    fn key_text(&self) -> (r: &String) {
        &self.node_id
    }
}

pub fn copy_text(s: &Option<String>) -> (r: Option<String>)
    ensures
        r == *s,
{
    match s {
        Some(t) => Some(t.clone()),
        None => None,
    }
}

/// A record after a progress report of `bytes`: the count is taken, and a
/// pending record starts once bytes move.
pub open spec fn with_progress(t: TransferInfo, bytes: u64) -> TransferInfo {
    TransferInfo {
        bytes_transferred: bytes,
        status: if bytes > 0 && t.status == TransferStatus::Pending {
            TransferStatus::InProgress
        } else {
            t.status
        },
        ..t
    }
}

/// A record after a status change to `status` with `error`.
pub open spec fn with_status(t: TransferInfo, status: TransferStatus, error: Option<String>) -> TransferInfo {
    TransferInfo { status, error, ..t }
}

/// A record for an operation that has just been created.
pub open spec fn pending_record(
    id: String,
    file_name: String,
    file_size: u64,
    direction: TransferDirection,
) -> TransferInfo {
    TransferInfo {
        id,
        file_name,
        file_size,
        bytes_transferred: 0,
        status: TransferStatus::Pending,
        error: None,
        direction,
        speed_bps: 0,
    }
}

impl TransferInfo {
    /// A new record: pending, with no bytes moved yet.
    pub fn pending(id: String, file_name: String, file_size: u64, direction: TransferDirection) -> (r: Self)
        ensures
            r == pending_record(id, file_name, file_size, direction),
    {
        TransferInfo {
            id,
            file_name,
            file_size,
            bytes_transferred: 0,
            status: TransferStatus::Pending,
            error: None,
            direction,
            speed_bps: 0,
        }
    }

    /// A field-for-field copy.
    pub fn copied(&self) -> (r: Self)
        ensures
            r == *self,
    {
        TransferInfo {
            id: self.id.clone(),
            file_name: self.file_name.clone(),
            file_size: self.file_size,
            bytes_transferred: self.bytes_transferred,
            status: self.status,
            error: copy_text(&self.error),
            direction: self.direction,
            speed_bps: self.speed_bps,
        }
    }
}

impl PeerInfo {
    /// A field-for-field copy.
    pub fn copied(&self) -> (r: Self)
        ensures
            r == *self,
    {
        PeerInfo {
            node_id: self.node_id.clone(),
            device_name: self.device_name.clone(),
            last_seen: self.last_seen,
        }
    }
}

/// Transfer records by id.
pub struct TransferRegistry {
    table: KeyedTable<TransferInfo>,
}

impl View for TransferRegistry {
    type V = Map<Seq<char>, TransferInfo>;

    closed spec fn view(&self) -> Map<Seq<char>, TransferInfo> {
        self.table@
    }
}

impl TransferRegistry {
    pub fn new() -> (r: Self)
        ensures
            r@ == Map::<Seq<char>, TransferInfo>::empty(),
    {
        TransferRegistry { table: KeyedTable::new() }
    }

    /// Stores a record, replacing any with the same id.
    pub fn add_transfer(&mut self, transfer: TransferInfo)
        ensures
            final(self)@ == old(self)@.insert(transfer.id@, transfer),
    {
        self.table.upsert(transfer);
    }

    /// Records how many bytes a transfer has moved; a pending transfer that
    /// has moved bytes is in progress. Unknown ids change nothing.
    pub fn update_transfer_progress(&mut self, id: &str, bytes_transferred: u64)
        ensures
            final(self)@ == (if old(self)@.contains_key(id@) {
                old(self)@.insert(id@, with_progress(old(self)@[id@], bytes_transferred))
            } else {
                old(self)@
            }),
    {
        let updated = match self.table.get(id) {
            None => return,
            Some(t) => {
                let mut u = t.copied();
                u.bytes_transferred = bytes_transferred;
                if bytes_transferred > 0 && matches!(u.status, TransferStatus::Pending) {
                    u.status = TransferStatus::InProgress;
                }
                u
            },
        };
        self.table.upsert(updated);
    }

    /// Moves a transfer to `status` with `error`, where the status machine
    /// allows it; otherwise, and for unknown ids, nothing changes.
    pub fn update_transfer_status(&mut self, id: &str, status: TransferStatus, error: Option<String>)
        ensures
            final(self)@ == (if old(self)@.contains_key(id@) && can_move(old(self)@[id@].status, status) {
                old(self)@.insert(id@, with_status(old(self)@[id@], status, error))
            } else {
                old(self)@
            }),
    {
        let updated = match self.table.get(id) {
            None => return,
            Some(t) => {
                if !status_can_move(t.status, status) {
                    return;
                }
                let mut u = t.copied();
                u.status = status;
                u.error = error;
                u
            },
        };
        self.table.upsert(updated);
    }

    /// A copy of the record with this id.
    pub fn get_transfer(&self, id: &str) -> (r: Option<TransferInfo>)
        ensures
            r == (if self@.contains_key(id@) {
                Some(self@[id@])
            } else {
                None::<TransferInfo>
            }),
            r matches Some(t) ==> t.id@ == id@,
    {
        match self.table.get(id) {
            Some(t) => Some(t.copied()),
            None => None,
        }
    }
}

impl TransferRegistry {
    /// Marks a transfer completed with the bytes actually moved, which also
    /// become its size. Records that are over already, and unknown ids, stay
    /// as they are.
    pub fn complete_transfer(&mut self, id: &str, bytes: u64)
        ensures
            final(self)@ == (if old(self)@.contains_key(id@) && !old(self)@[id@].status.spec_is_terminal() {
                old(self)@.insert(id@, completed_record(old(self)@[id@], bytes))
            } else {
                old(self)@
            }),
    {
        match self.get_transfer(id) {
            Some(t) => {
                if t.status.is_terminal() {
                    return;
                }
                let done = TransferInfo {
                    file_size: bytes,
                    bytes_transferred: bytes,
                    status: TransferStatus::Completed,
                    error: None,
                    ..t
                };
                self.add_transfer(done);
            },
            None => {},
        }
    }

    /// Marks a transfer failed with `message`. Records that are over already,
    /// and unknown ids, stay as they are.
    pub fn fail_transfer(&mut self, id: &str, message: String)
        ensures
            final(self)@ == (if old(self)@.contains_key(id@) && !old(self)@[id@].status.spec_is_terminal() {
                old(self)@.insert(id@, failed_record(old(self)@[id@], message))
            } else {
                old(self)@
            }),
    {
        match self.get_transfer(id) {
            Some(t) => {
                if t.status.is_terminal() {
                    return;
                }
                let failed = TransferInfo { status: TransferStatus::Failed, error: Some(message), ..t };
                self.add_transfer(failed);
            },
            None => {},
        }
    }
}

/// A record completed with `bytes` moved.
pub open spec fn completed_record(t: TransferInfo, bytes: u64) -> TransferInfo {
    TransferInfo {
        file_size: bytes,
        bytes_transferred: bytes,
        status: TransferStatus::Completed,
        error: None,
        ..t
    }
}

/// A record failed with `message`.
pub open spec fn failed_record(t: TransferInfo, message: String) -> TransferInfo {
    TransferInfo { status: TransferStatus::Failed, error: Some(message), ..t }
}

/// Status transitions: a new record is pending; bytes moving make it in
/// progress; once completed it stays completed under any later progress
/// report and refuses every status change.
pub proof fn lemma_status_transitions(
    id: String,
    file_name: String,
    file_size: u64,
    direction: TransferDirection,
    bytes: u64,
    later_bytes: u64,
    later_status: TransferStatus,
)
    requires
        bytes > 0,
    ensures
        pending_record(id, file_name, file_size, direction).status == TransferStatus::Pending,
        with_progress(pending_record(id, file_name, file_size, direction), bytes).status
            == TransferStatus::InProgress,
        can_move(TransferStatus::InProgress, TransferStatus::Completed),
        ({
            let done = with_status(
                with_progress(pending_record(id, file_name, file_size, direction), bytes),
                TransferStatus::Completed,
                None,
            );
            &&& done.status == TransferStatus::Completed
            &&& with_progress(done, later_bytes).status == TransferStatus::Completed
            &&& !can_move(done.status, later_status)
        }),
{
}

/// Peers by identity.
pub struct PeerRoster {
    table: KeyedTable<PeerInfo>,
}

impl View for PeerRoster {
    type V = Map<Seq<char>, PeerInfo>;

    closed spec fn view(&self) -> Map<Seq<char>, PeerInfo> {
        self.table@
    }
}

/// The seconds after which a silent peer is dropped.
pub const PEER_TIMEOUT_SECS: u64 = 90;

/// A peer is stale once more than the timeout has passed since it was seen.
pub open spec fn is_stale(p: PeerInfo, now: u64) -> bool {
    now as int - p.last_seen as int > PEER_TIMEOUT_SECS as int
}

/// The peers of `m` that are not stale at `now`.
pub open spec fn fresh_peers(m: Map<Seq<char>, PeerInfo>, now: u64) -> Map<Seq<char>, PeerInfo> {
    Map::new(|k: Seq<char>| m.contains_key(k) && !is_stale(m[k], now), |k: Seq<char>| m[k])
}

/// `ids` names exactly the stale peers of `m` at `now`, each once.
pub open spec fn names_stale(ids: Seq<String>, m: Map<Seq<char>, PeerInfo>, now: u64) -> bool {
    &&& forall|k: Seq<char>|
        #[trigger] listed(ids, ids.len() as int, k) <==> (m.contains_key(k) && is_stale(m[k], now))
    &&& forall|a: int, b: int|
        0 <= a < ids.len() && 0 <= b < ids.len() && a != b ==> #[trigger] ids[a]@ != #[trigger] ids[b]@
}

impl PeerRoster {
    pub fn new() -> (r: Self)
        ensures
            r@ == Map::<Seq<char>, PeerInfo>::empty(),
    {
        PeerRoster { table: KeyedTable::new() }
    }

    pub fn contains_peer(&self, node_id: &str) -> (r: bool)
        ensures
            r == self@.contains_key(node_id@),
    {
        self.table.contains_key(node_id)
    }

    /// Stores a peer, replacing any with the same identity.
    pub fn add_peer(&mut self, peer: PeerInfo)
        ensures
            final(self)@ == old(self)@.insert(peer.node_id@, peer),
    {
        self.table.upsert(peer);
    }

    pub fn remove_peer(&mut self, node_id: &str)
        ensures
            final(self)@ == old(self)@.remove(node_id@),
    {
        self.table.remove(node_id);
    }

    /// Copies of all peers, one per identity.
    pub fn get_peers(&self) -> (r: Vec<PeerInfo>)
        ensures
            keys_unique(r@),
            keyed_map(r@) == self@,
    {
        let items = self.table.values();
        let mut out: Vec<PeerInfo> = Vec::new();
        let mut i: usize = 0;
        while i < items.len()
            invariant
                i <= items@.len(),
                out@ == items@.subrange(0, i as int),
            decreases items@.len() - i,
        {
            out.push(items[i].copied());
            i = i + 1;
            assert(out@ =~= items@.subrange(0, i as int));
        }
        assert(items@.subrange(0, items@.len() as int) =~= items@);
        out
    }

    /// Drops every stale peer and names the dropped ones.
    pub fn cleanup_stale_peers(&mut self, now: u64) -> (r: Vec<String>)
        ensures
            final(self)@ == fresh_peers(old(self)@, now),
            names_stale(r@, old(self)@, now),
    {
        let ghost start = self@;
        let items = self.table.values();
        let mut stale: Vec<String> = Vec::new();
        let mut i: usize = 0;
        while i < items.len()
            invariant
                i <= items@.len(),
                keys_unique(items@),
                keyed_map(items@) == start,
                forall|j: int| 0 <= j < stale@.len() ==> #[trigger] stale_among(items@, i as int, stale@[j]@, now),
                forall|x: int|
                    0 <= x < i && is_stale(items@[x], now) ==> #[trigger] listed(stale@, stale@.len() as int, items@[x].node_id@),
                forall|a: int, b: int|
                    0 <= a < stale@.len() && 0 <= b < stale@.len() && a != b ==> #[trigger] stale@[a]@
                        != #[trigger] stale@[b]@,
            decreases items@.len() - i,
        {
            let p = &items[i];
            let ghost before = stale@;
            if now as u128 > p.last_seen as u128 + PEER_TIMEOUT_SECS as u128 {
                proof {
                    assert forall|j: int| 0 <= j < stale@.len() implies stale@[j]@ != p.node_id@ by {
                        assert(stale_among(items@, i as int, stale@[j]@, now));
                        let x = choose|x: int|
                            0 <= x < i && #[trigger] items@[x].key() == stale@[j]@ && is_stale(items@[x], now);
                        assert(items@[x].key() != items@[i as int].key());
                    }
                }
                stale.push(p.node_id.clone());
            }
            proof {
                assert forall|j: int| 0 <= j < stale@.len() implies #[trigger] stale_among(items@, i + 1, stale@[j]@, now) by {
                    if j < before.len() {
                        assert(stale@[j] == before[j]);
                        assert(stale_among(items@, i as int, before[j]@, now));
                    } else {
                        assert(items@[i as int].key() == stale@[j]@);
                    }
                }
                assert forall|x: int|
                    0 <= x < i + 1 && is_stale(items@[x], now) implies #[trigger] listed(stale@, stale@.len() as int, items@[x].node_id@) by {
                    if x < i {
                        assert(listed(before, before.len() as int, items@[x].node_id@));
                        let j = choose|j: int| 0 <= j < before.len() && #[trigger] before[j]@ == items@[x].node_id@;
                        assert(stale@[j] == before[j]);
                    } else {
                        assert(stale@[stale@.len() - 1]@ == items@[x].node_id@);
                    }
                }
            }
            i = i + 1;
        }
        proof {
            assert forall|k: Seq<char>|
                #[trigger] listed(stale@, stale@.len() as int, k) <==> (start.contains_key(k) && is_stale(start[k], now)) by {
                if listed(stale@, stale@.len() as int, k) {
                    let j = choose|j: int| 0 <= j < stale@.len() && #[trigger] stale@[j]@ == k;
                    assert(stale_among(items@, items@.len() as int, stale@[j]@, now));
                    let x = choose|x: int|
                        0 <= x < items@.len() && #[trigger] items@[x].key() == stale@[j]@ && is_stale(items@[x], now);
                    lemma_keyed_map_at(items@, x);
                }
                if start.contains_key(k) && is_stale(start[k], now) {
                    let x = choose|x: int| 0 <= x < items@.len() && #[trigger] items@[x].key() == k;
                    lemma_keyed_map_at(items@, x);
                    assert(listed(stale@, stale@.len() as int, items@[x].node_id@));
                }
            }
        }
        let mut j: usize = 0;
        while j < stale.len()
            invariant
                j <= stale@.len(),
                forall|k: Seq<char>|
                    #[trigger] listed(stale@, stale@.len() as int, k) <==> (start.contains_key(k) && is_stale(start[k], now)),
                forall|k: Seq<char>|
                    #[trigger] self@.contains_key(k) <==> (start.contains_key(k) && !listed(stale@, j as int, k)),
                forall|k: Seq<char>| #[trigger] self@.contains_key(k) ==> self@[k] == start[k],
                forall|a: int, b: int|
                    0 <= a < stale@.len() && 0 <= b < stale@.len() && a != b ==> #[trigger] stale@[a]@
                        != #[trigger] stale@[b]@,
            decreases stale@.len() - j,
        {
            let ghost before = self@;
            self.table.remove(stale[j].as_str());
            proof {
                assert forall|k: Seq<char>|
                    #[trigger] self@.contains_key(k) <==> (start.contains_key(k) && !listed(stale@, j + 1, k)) by {
                    if listed(stale@, j + 1, k) && !listed(stale@, j as int, k) {
                        let m = choose|m: int| 0 <= m < j + 1 && #[trigger] stale@[m]@ == k;
                        assert(m == j);
                    }
                    if listed(stale@, j as int, k) {
                        let m = choose|m: int| 0 <= m < j && #[trigger] stale@[m]@ == k;
                        assert(listed(stale@, j + 1, k));
                    }
                    if k == stale@[j as int]@ {
                        assert(listed(stale@, j + 1, k));
                    }
                    assert(before.contains_key(k) <==> (start.contains_key(k) && !listed(stale@, j as int, k)));
                }
            }
            j = j + 1;
        }
        proof {
            assert forall|k: Seq<char>| #[trigger] self@.contains_key(k) <==> fresh_peers(start, now).contains_key(k) by {
                assert(listed(stale@, stale@.len() as int, k) <==> (start.contains_key(k) && is_stale(start[k], now)));
            }
        }
        assert(self@ =~= fresh_peers(start, now));
        stale
    }
}

/// Some of the first `upto` items is a stale peer with key `k`.
pub open spec fn stale_among(items: Seq<PeerInfo>, upto: int, k: Seq<char>, now: u64) -> bool {
    exists|x: int| 0 <= x < upto && #[trigger] items[x].key() == k && is_stale(items[x], now)
}

/// Some of the first `upto` ids is `k`.
pub open spec fn listed(ids: Seq<String>, upto: int, k: Seq<char>) -> bool {
    exists|j: int| 0 <= j < upto && #[trigger] ids[j]@ == k
}

} // verus!
