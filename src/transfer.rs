//! Transfer orchestration: the `name|size|token` record inside a ticket,
//! building a send ticket, reading a received one, throttled progress, and
//! the registry bookkeeping of a receive.
use std::path::Path;
use vstd::prelude::*;
use vstd::string::*;

use crate::state::{with_progress, TransferDirection, TransferInfo, TransferRegistry, TransferStatus};
use crate::text::{
    decimal, find_char, find_from, lemma_decimal_digits, lemma_find_from, parse_u64, parse_u64_spec,
    is_digit, same_text, u64_to_decimal,
};
use crate::ticket_codec::{
    decrypt_spec, decrypt_ticket, encrypt_ticket, is_ticket_of, lemma_round_trip, TicketError,
    PLAINTEXT_MAX,
};

verus! {

/// What the sender hands out for one file.
#[derive(Clone, Debug)]
pub struct BlobTicketInfo {
    pub ticket: String,
    pub file_name: String,
    pub file_size: u64,
    pub transfer_id: String,
}

/// Why a transfer could not go on.
#[derive(Clone, Debug, PartialEq, Eq)]
pub enum TransferError {
    /// The ticket could not be read.
    InvalidTicket(TicketError),
    /// The network identity or the store is not ready yet.
    NotInitialized,
    /// Connecting to the sender or fetching from it failed.
    Network(String),
    /// Reading or writing a local file failed.
    Io(String),
}

/// The name a ticket without metadata stands for.
pub open spec fn legacy_name() -> Seq<char> {
    "received_file"@
}

/// The record a ticket encrypts: name, decimal size and address token,
/// separated by `|`.
pub open spec fn ticket_record(name: Seq<char>, size: u64, token: Seq<char>) -> Seq<char> {
    name + seq!['|'] + decimal(size as nat) + seq!['|'] + token
}

/// File name, size and address token of a ticket's plaintext: three fields
/// split at the first two `|` (the token keeps any further `|`), or, when
/// there are fewer than two, the whole text as a token of unknown name and
/// size.
pub open spec fn ticket_fields(p: Seq<char>) -> Result<(Seq<char>, u64, Seq<char>), TicketError> {
    match find_from(p, '|', 0) {
        Some(i) => match find_from(p, '|', i + 1) {
            Some(j) => match parse_u64_spec(p.subrange(i + 1, j)) {
                Some(n) => Ok((p.subrange(0, i), n, p.subrange(j + 1, p.len() as int))),
                None => Err(TicketError::Format),
            },
            None => Ok((legacy_name(), 0, p)),
        },
        None => Ok((legacy_name(), 0, p)),
    }
}

pub open spec fn fields_view(r: Result<(String, u64, String), TicketError>) -> Result<(Seq<char>, u64, Seq<char>), TicketError> {
    match r {
        Ok((n, s, t)) => Ok((n@, s, t@)),
        Err(e) => Err(e),
    }
}

/// Writes the record a ticket encrypts.
pub fn compose_enhanced_ticket(file_name: &str, file_size: u64, address_token: &str) -> (r: String)
    ensures
        r@ == ticket_record(file_name@, file_size, address_token@),
{
    proof {
        reveal_strlit("|");
    }
    let mut r = String::from_str(file_name);
    r.append("|");
    let size = u64_to_decimal(file_size);
    r.append(size.as_str());
    r.append("|");
    r.append(address_token);
    assert(r@ =~= ticket_record(file_name@, file_size, address_token@));
    r
}

/// Reads name, size and address token out of a ticket's plaintext.
pub fn parse_enhanced_ticket(ticket_str: &str) -> (r: Result<(String, u64, String), TicketError>)
    ensures
        fields_view(r) == ticket_fields(ticket_str@),
{
    proof {
        lemma_find_from(ticket_str@, '|', 0);
    }
    let len = ticket_str.unicode_len();
    let i = match find_char(ticket_str, '|', 0) {
        Some(i) => i,
        None => return Ok((String::from_str("received_file"), 0, String::from_str(ticket_str))),
    };
    proof {
        lemma_find_from(ticket_str@, '|', i + 1);
    }
    let j = match find_char(ticket_str, '|', i + 1) {
        Some(j) => j,
        None => return Ok((String::from_str("received_file"), 0, String::from_str(ticket_str))),
    };
    match parse_u64(ticket_str.substring_char(i + 1, j)) {
        Some(n) => Ok((
            String::from_str(ticket_str.substring_char(0, i)),
            n,
            String::from_str(ticket_str.substring_char(j + 1, len)),
        )),
        None => Err(TicketError::Format),
    }
}

/// The address token of a ticket's plaintext.
pub fn parse_ticket(ticket_str: &str) -> (r: Result<String, TicketError>)
    ensures
        match r {
            Ok(t) => ticket_fields(ticket_str@) matches Ok((_, _, tok)) && tok == t@,
            Err(e) => ticket_fields(ticket_str@) == Err::<(Seq<char>, u64, Seq<char>), TicketError>(e),
        },
{
    match parse_enhanced_ticket(ticket_str) {
        Ok((_name, _size, token)) => Ok(token),
        Err(e) => Err(e),
    }
}

/// The record's fields come back out of it when the name holds no `|`.
pub proof fn lemma_record_round_trip(name: Seq<char>, size: u64, token: Seq<char>)
    requires
        !name.contains('|'),
    ensures
        ticket_fields(ticket_record(name, size, token)) == Ok::<(Seq<char>, u64, Seq<char>), TicketError>((name, size, token)),
{
    let p = ticket_record(name, size, token);
    let d = decimal(size as nat);
    lemma_decimal_digits(size as nat);
    let i = name.len() as int;
    let j = i + 1 + d.len();
    assert(p[i] == '|');
    assert forall|k: int| 0 <= k < i implies p[k] != '|' by {
        assert(p[k] == name[k]);
    }
    lemma_find_from(p, '|', 0);
    assert(find_from(p, '|', 0) == Some(i));
    assert(p[j] == '|');
    assert forall|k: int| i + 1 <= k < j implies p[k] != '|' by {
        assert(p[k] == d[k - i - 1]);
        assert(is_digit(d[k - i - 1]));
    }
    lemma_find_from(p, '|', i + 1);
    assert(find_from(p, '|', i + 1) == Some(j));
    assert(p.subrange(i + 1, j) =~= d);
    assert(p.subrange(0, i) =~= name);
    assert(p.subrange(j + 1, p.len() as int) =~= token);
    assert(d.len() > 0 && d[0] != '+');
    assert(parse_u64_spec(d) == Some(size));
}

/// What a ticket carries: name, size and address token, or why it cannot
/// be read.
pub open spec fn transfer_ticket_fields(t: Seq<char>, receiver: Seq<char>) -> Result<(Seq<char>, u64, Seq<char>), TicketError> {
    match decrypt_spec(t, receiver) {
        Ok(p) => ticket_fields(p),
        Err(e) => Err(e),
    }
}

/// Decrypts a ticket and reads its fields.
pub fn parse_received_ticket(ticket: &str, node_id: &str) -> (r: Result<(String, u64, String), TransferError>)
    ensures
        match r {
            Ok((n, s, t)) => transfer_ticket_fields(ticket@, node_id@) == Ok::<(Seq<char>, u64, Seq<char>), TicketError>((n@, s, t@)),
            Err(e) => transfer_ticket_fields(ticket@, node_id@) matches Err(te) && e == TransferError::InvalidTicket(te),
        },
{
    let plaintext = match decrypt_ticket(ticket, node_id) {
        Ok(p) => p,
        Err(e) => return Err(TransferError::InvalidTicket(e)),
    };
    match parse_enhanced_ticket(plaintext.as_str()) {
        Ok(fields) => Ok(fields),
        Err(e) => Err(TransferError::InvalidTicket(e)),
    }
}

/// The last component of a path, when the path has a normal last component
/// that is valid text.
pub uninterp spec fn path_file_name(path: Seq<char>) -> Option<Seq<char>>;

/// Relies on std's `Path::file_name` and `OsStr::to_str`: the result depends
/// on the path's text alone.
#[verifier::external_body]
fn file_name_of(path: &str) -> (r: Option<String>)
    ensures
        match r {
            Some(n) => path_file_name(path@) == Some(n@),
            None => path_file_name(path@) is None,
        },
{
    Path::new(path).file_name().and_then(|n| n.to_str()).map(|n| n.to_string())
}

pub open spec fn name_or(found: Option<Seq<char>>, fallback: Seq<char>) -> Seq<char> {
    match found {
        Some(n) => n,
        None => fallback,
    }
}

/// The name a sent file goes by: the last component of its path, or `file`.
pub fn send_file_name(file_path: &str) -> (r: String)
    ensures
        r@ == name_or(path_file_name(file_path@), "file"@),
{
    match file_name_of(file_path) {
        Some(n) => n,
        None => String::from_str("file"),
    }
}

/// The ticket for a file of `file_size` bytes named `file_name`, reachable
/// through `address_token`, sealed by `node_id`.
pub fn send_ticket_for(
    node_id: &str,
    file_name: String,
    file_size: u64,
    address_token: &str,
    transfer_id: String,
) -> (r: Result<BlobTicketInfo, TicketError>)
    ensures
        r is Ok <==> vstd::utf8::encode_utf8(ticket_record(file_name@, file_size, address_token@)).len() <= PLAINTEXT_MAX,
        r matches Err(e) ==> e == TicketError::Crypto,
        r matches Ok(info) ==> info.file_name == file_name && info.file_size == file_size
            && info.transfer_id == transfer_id && is_ticket_of(
            info.ticket@,
            node_id@,
            ticket_record(file_name@, file_size, address_token@),
        ),
{
    let record = compose_enhanced_ticket(file_name.as_str(), file_size, address_token);
    match encrypt_ticket(record.as_str(), node_id) {
        Ok(ticket) => Ok(BlobTicketInfo { ticket, file_name, file_size, transfer_id }),
        Err(e) => Err(e),
    }
}

/// The ticket for the bytes of the file at `file_path`, as `send_ticket_for`
/// writes it for that file's name.
pub fn create_send_ticket(
    node_id: &str,
    file_path: &str,
    file_size: u64,
    address_token: &str,
    transfer_id: String,
) -> (r: Result<BlobTicketInfo, TicketError>)
    ensures
        ({
            let name = name_or(path_file_name(file_path@), "file"@);
            &&& r is Ok <==> vstd::utf8::encode_utf8(ticket_record(name, file_size, address_token@)).len() <= PLAINTEXT_MAX
            &&& r matches Err(e) ==> e == TicketError::Crypto
            &&& r matches Ok(info) ==> info.file_name@ == name && info.file_size == file_size
                && info.transfer_id == transfer_id && is_ticket_of(
                info.ticket@,
                node_id@,
                ticket_record(name, file_size, address_token@),
            )
        }),
{
    let name = send_file_name(file_path);
    send_ticket_for(node_id, name, file_size, address_token, transfer_id)
}

/// End to end: a ticket written by a sender whose identity holds no `:`,
/// for a file whose name holds no `|`, gives back that name, size and
/// token to any receiver.
pub proof fn lemma_ticket_end_to_end(
    t: Seq<char>,
    sender: Seq<char>,
    receiver: Seq<char>,
    name: Seq<char>,
    size: u64,
    token: Seq<char>,
)
    requires
        is_ticket_of(t, sender, ticket_record(name, size, token)),
        !sender.contains(':'),
        !name.contains('|'),
    ensures
        transfer_ticket_fields(t, receiver) == Ok::<(Seq<char>, u64, Seq<char>), TicketError>((name, size, token)),
{
    lemma_round_trip(t, sender, ticket_record(name, size, token), receiver);
    lemma_record_round_trip(name, size, token);
}

/// The shortest time between two progress reports, in milliseconds.
pub const MIN_EMIT_INTERVAL_MS: u64 = 250;

/// When the last progress report went out (milliseconds on the caller's
/// clock), how many bytes it carried, and whether there has been one.
#[derive(Clone, Copy, Debug, PartialEq, Eq, Structural)]
pub struct ProgressThrottle {
    pub last_emit_ms: u64,
    pub last_bytes: u64,
    pub emitted: bool,
}

/// A progress report: bytes moved so far and the rate since the last report.
#[derive(Clone, Copy, Debug, PartialEq, Eq, Structural)]
pub struct ProgressEmission {
    pub bytes_transferred: u64,
    pub speed_bps: u64,
}

/// Bytes per second for `delta` bytes over `elapsed_ms` milliseconds; zero
/// when no time has passed, and capped at `u64::MAX`.
pub open spec fn speed_of(delta: u64, elapsed_ms: u64) -> u64 {
    if elapsed_ms == 0 {
        0
    } else {
        let s = delta as int * 1000 / elapsed_ms as int;
        if s > u64::MAX {
            u64::MAX
        } else {
            s as u64
        }
    }
}

pub open spec fn elapsed_since(last: u64, now: u64) -> u64 {
    if now >= last {
        (now - last) as u64
    } else {
        0
    }
}

/// One progress sample through the throttle: the first and the last sample
/// always go out, any other only once the minimum interval has passed since
/// the last report.
pub open spec fn throttle_step(st: ProgressThrottle, now: u64, bytes: u64, is_last: bool) -> (ProgressThrottle, Option<ProgressEmission>) {
    let elapsed = elapsed_since(st.last_emit_ms, now);
    if !st.emitted || is_last || elapsed >= MIN_EMIT_INTERVAL_MS {
        let delta = if bytes >= st.last_bytes {
            (bytes - st.last_bytes) as u64
        } else {
            0
        };
        (
            ProgressThrottle { last_emit_ms: now, last_bytes: bytes, emitted: true },
            Some(ProgressEmission { bytes_transferred: bytes, speed_bps: speed_of(delta, elapsed) }),
        )
    } else {
        (st, None)
    }
}

pub fn speed_bps(delta: u64, elapsed_ms: u64) -> (r: u64)
    ensures
        r == speed_of(delta, elapsed_ms),
{
    if elapsed_ms == 0 {
        return 0;
    }
    let s: u128 = (delta as u128) * 1000 / (elapsed_ms as u128);
    if s > u64::MAX as u128 {
        u64::MAX
    } else {
        s as u64
    }
}

impl ProgressThrottle {
    /// A throttle for an operation that started at `start_ms`.
    pub fn new(start_ms: u64) -> (r: Self)
        ensures
            r == (ProgressThrottle { last_emit_ms: start_ms, last_bytes: 0, emitted: false }),
    {
        ProgressThrottle { last_emit_ms: start_ms, last_bytes: 0, emitted: false }
    }

    /// Takes a sample of `bytes` moved at `now_ms`; says what to report, if
    /// anything.
    pub fn on_sample(&mut self, now_ms: u64, bytes: u64, is_last: bool) -> (r: Option<ProgressEmission>)
        ensures
            (*final(self), r) == throttle_step(*old(self), now_ms, bytes, is_last),
    {
        let elapsed: u64 = if now_ms >= self.last_emit_ms {
            now_ms - self.last_emit_ms
        } else {
            0
        };
        if self.emitted && !is_last && elapsed < MIN_EMIT_INTERVAL_MS {
            return None;
        }
        let delta: u64 = if bytes >= self.last_bytes {
            bytes - self.last_bytes
        } else {
            0
        };
        let speed = speed_bps(delta, elapsed);
        self.last_emit_ms = now_ms;
        self.last_bytes = bytes;
        self.emitted = true;
        Some(ProgressEmission { bytes_transferred: bytes, speed_bps: speed })
    }
}

/// The byte counts reported for a stream of `(time, bytes)` samples, the
/// last of which ends the operation.
pub open spec fn throttled(st: ProgressThrottle, samples: Seq<(u64, u64)>) -> Seq<u64>
    decreases samples.len(),
{
    if samples.len() == 0 {
        Seq::empty()
    } else {
        let (next, e) = throttle_step(st, samples[0].0, samples[0].1, samples.len() == 1);
        let rest = throttled(next, samples.subrange(1, samples.len() as int));
        match e {
            Some(em) => seq![em.bytes_transferred] + rest,
            None => rest,
        }
    }
}

pub open spec fn non_decreasing(s: Seq<u64>) -> bool {
    forall|i: int, j: int| 0 <= i <= j < s.len() ==> s[i] <= s[j]
}

pub open spec fn samples_non_decreasing(s: Seq<(u64, u64)>) -> bool {
    forall|i: int, j: int| 0 <= i <= j < s.len() ==> s[i].1 <= s[j].1
}

proof fn lemma_throttled_bounds(st: ProgressThrottle, s: Seq<(u64, u64)>, lo: u64)
    requires
        samples_non_decreasing(s),
        forall|k: int| 0 <= k < s.len() ==> lo <= #[trigger] s[k].1,
    ensures
        non_decreasing(throttled(st, s)),
        forall|i: int| 0 <= i < throttled(st, s).len() ==> lo <= #[trigger] throttled(st, s)[i],
        s.len() > 0 ==> throttled(st, s).len() > 0 && throttled(st, s).last() == s.last().1,
    decreases s.len(),
{
    if s.len() > 0 {
        let (next, e) = throttle_step(st, s[0].0, s[0].1, s.len() == 1);
        let tail = s.subrange(1, s.len() as int);
        assert forall|k: int| 0 <= k < tail.len() implies s[0].1 <= #[trigger] tail[k].1 by {
            assert(tail[k] == s[k + 1]);
        }
        lemma_throttled_bounds(next, tail, s[0].1);
        let rest = throttled(next, tail);
        if s.len() == 1 {
            assert(tail.len() == 0);
        } else {
            assert(tail.last() == s.last());
        }
        match e {
            Some(em) => {
                let all = seq![em.bytes_transferred] + rest;
                assert(all == throttled(st, s));
                assert forall|i: int, j: int| 0 <= i <= j < all.len() implies all[i] <= all[j] by {
                    if i > 0 {
                        assert(all[i] == rest[i - 1]);
                        assert(all[j] == rest[j - 1]);
                    } else if j > 0 {
                        assert(all[j] == rest[j - 1]);
                    }
                }
                assert forall|i: int| 0 <= i < all.len() implies lo <= #[trigger] all[i] by {
                    if i > 0 {
                        assert(all[i] == rest[i - 1]);
                    }
                }
            },
            None => {
                assert forall|i: int| 0 <= i < rest.len() implies lo <= #[trigger] rest[i] by {
                    assert(s[0].1 <= rest[i]);
                }
            },
        }
    }
}

/// Progress monotonicity: for a stream of samples whose byte counts never
/// go down, the reported counts never go down either, and the last report
/// carries the final count.
pub proof fn lemma_progress_monotone(st: ProgressThrottle, samples: Seq<(u64, u64)>)
    requires
        samples_non_decreasing(samples),
        samples.len() > 0,
    ensures
        non_decreasing(throttled(st, samples)),
        throttled(st, samples).len() > 0,
        throttled(st, samples).last() == samples.last().1,
{
    lemma_throttled_bounds(st, samples, 0);
}

/// The name a received file goes by: the name in its ticket, or, for a
/// ticket without one, the last component of the destination path (else
/// `unknown`).
pub open spec fn receive_name(ticket_name: Seq<char>, destination: Seq<char>) -> Seq<char> {
    if ticket_name == legacy_name() {
        name_or(path_file_name(destination), "unknown"@)
    } else {
        ticket_name
    }
}

pub fn receive_file_name(ticket_name: String, destination: &str) -> (r: String)
    ensures
        r@ == receive_name(ticket_name@, destination@),
{
    proof {
        reveal_strlit("received_file");
    }
    if !same_text(ticket_name.as_str(), "received_file") {
        return ticket_name;
    }
    match file_name_of(destination) {
        Some(n) => n,
        None => String::from_str("unknown"),
    }
}

/// Starts a receive: reads the ticket and records a pending transfer under
/// `transfer_id` with the ticket's name and declared size. Returns that
/// record and the address token to fetch from. A ticket that cannot be read
/// changes nothing.
pub fn start_receive(
    registry: &mut TransferRegistry,
    ticket: &str,
    node_id: &str,
    destination: &str,
    transfer_id: String,
) -> (r: Result<(TransferInfo, String), TransferError>)
    ensures
        match r {
            Ok((record, token)) => transfer_ticket_fields(ticket@, node_id@) matches Ok((name, size, tok))
                && token@ == tok
                && record.id == transfer_id
                && record.file_name@ == receive_name(name, destination@)
                && record.file_size == size
                && record.bytes_transferred == 0
                && record.status == TransferStatus::Pending
                && record.error is None
                && record.direction == TransferDirection::Receive
                && record.speed_bps == 0
                && final(registry)@ == old(registry)@.insert(transfer_id@, record),
            Err(e) => transfer_ticket_fields(ticket@, node_id@) matches Err(te)
                && e == TransferError::InvalidTicket(te)
                && final(registry)@ == old(registry)@,
        },
{
    let (name, size, token) = match parse_received_ticket(ticket, node_id) {
        Ok(fields) => fields,
        Err(e) => return Err(e),
    };
    let file_name = receive_file_name(name, destination);
    let record = TransferInfo::pending(transfer_id, file_name, size, TransferDirection::Receive);
    registry.add_transfer(record.copied());
    Ok((record, token))
}

/// Records a progress sample of a transfer and, when the throttle lets a
/// report out, returns the record to report, with the measured rate.
pub fn report_progress(
    registry: &mut TransferRegistry,
    throttle: &mut ProgressThrottle,
    id: &str,
    now_ms: u64,
    bytes: u64,
    is_last: bool,
) -> (r: Option<TransferInfo>)
    ensures
        final(registry)@ == (if old(registry)@.contains_key(id@) {
            old(registry)@.insert(id@, with_progress(old(registry)@[id@], bytes))
        } else {
            old(registry)@
        }),
        ({
            let (next, e) = throttle_step(*old(throttle), now_ms, bytes, is_last);
            &&& *final(throttle) == next
            &&& r == (match e {
                Some(em) => if old(registry)@.contains_key(id@) {
                    Some(TransferInfo { speed_bps: em.speed_bps, ..final(registry)@[id@] })
                } else {
                    None::<TransferInfo>
                },
                None => None::<TransferInfo>,
            })
        }),
{
    registry.update_transfer_progress(id, bytes);
    match throttle.on_sample(now_ms, bytes, is_last) {
        Some(em) => match registry.get_transfer(id) {
            Some(t) => Some(TransferInfo { speed_bps: em.speed_bps, ..t }),
            None => None,
        },
        None => None,
    }
}

/// Relies on uuid's `Uuid::new_v4` and its hyphenated text form: a fresh
/// random id of 36 characters.
#[verifier::external_body]
fn new_transfer_id() -> (r: String)
    ensures
        r@.len() == 36,
{
    uuid::Uuid::new_v4().to_string()
}

/// Starts a send of the file at `file_path`: records a pending transfer
/// under a fresh id, named after the file, of size not yet known.
pub fn begin_send(registry: &mut TransferRegistry, file_path: &str) -> (r: TransferInfo)
    ensures
        r.id@.len() == 36,
        r.file_name@ == name_or(path_file_name(file_path@), "file"@),
        r.file_size == 0,
        r.bytes_transferred == 0,
        r.status == TransferStatus::Pending,
        r.error is None,
        r.direction == TransferDirection::Send,
        r.speed_bps == 0,
        final(registry)@ == old(registry)@.insert(r.id@, r),
{
    let id = new_transfer_id();
    let record = TransferInfo::pending(id, send_file_name(file_path), 0, TransferDirection::Send);
    registry.add_transfer(record.copied());
    record
}

/// Starts a receive as `start_receive` does, under a fresh id.
pub fn begin_receive(registry: &mut TransferRegistry, ticket: &str, node_id: &str, destination: &str) -> (r: Result<(TransferInfo, String), TransferError>)
    ensures
        match r {
            Ok((record, token)) => transfer_ticket_fields(ticket@, node_id@) matches Ok((name, size, tok))
                && token@ == tok
                && record.id@.len() == 36
                && record.file_name@ == receive_name(name, destination@)
                && record.file_size == size
                && record.bytes_transferred == 0
                && record.status == TransferStatus::Pending
                && record.error is None
                && record.direction == TransferDirection::Receive
                && record.speed_bps == 0
                && final(registry)@ == old(registry)@.insert(record.id@, record),
            Err(e) => transfer_ticket_fields(ticket@, node_id@) matches Err(te)
                && e == TransferError::InvalidTicket(te)
                && final(registry)@ == old(registry)@,
        },
{
    start_receive(registry, ticket, node_id, destination, new_transfer_id())
}

} // verus!
