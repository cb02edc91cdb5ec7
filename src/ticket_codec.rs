//! The ticket codec: transfer metadata sealed with AES-256-GCM under a key
//! derived from the sender's identity, written as
//! `vegam://<sender>:<base64url(nonce || ciphertext)>`.
use aes_gcm::aead::{Aead, KeyInit, OsRng};
use aes_gcm::{Aes256Gcm, Key, Nonce};
use base64::engine::general_purpose::URL_SAFE_NO_PAD;
use base64::Engine;
use rand::RngCore;
use sha2::{Digest, Sha256};
use vstd::prelude::*;
use vstd::string::*;
use vstd::utf8::*;

use crate::text::{append_bytes, find_char, find_from, lemma_find_from, starts_with};

verus! {

/// Why a ticket could not be read or written.
#[derive(Clone, Copy, Debug, PartialEq, Eq, Structural)]
pub enum TicketError {
    /// The text is not shaped like a ticket.
    Format,
    /// The payload is not valid unpadded URL-safe base64.
    Encoding,
    /// The payload does not authenticate, or its plaintext is not text.
    Crypto,
}

/// Length of the random nonce that starts every payload.
pub const NONCE_LEN: usize = 12;

/// The longest plaintext, in bytes, that AES-GCM seals.
pub const PLAINTEXT_MAX: u64 = 1u64 << 36;

/// The SHA-256 digest of a byte string.
pub uninterp spec fn sha256_of(data: Seq<u8>) -> Seq<u8>;

/// AES-256-GCM with no associated data: the ciphertext of `plaintext`
/// followed by its authentication tag.
pub uninterp spec fn aes256gcm_seal_of(key: Seq<u8>, nonce: Seq<u8>, plaintext: Seq<u8>) -> Seq<u8>;

/// The unpadded URL-safe base64 text of a byte string.
pub uninterp spec fn base64url_of(data: Seq<u8>) -> Seq<char>;

pub open spec fn is_base64url_char(c: char) -> bool {
    ('A' <= c && c <= 'Z') || ('a' <= c && c <= 'z') || ('0' <= c && c <= '9') || c == '-' || c
        == '_'
}

pub open spec fn base64url_text(s: Seq<char>) -> bool {
    forall|i: int| 0 <= i < s.len() ==> is_base64url_char(#[trigger] s[i])
}

/// Relies on sha2's `Sha256::digest`: the 32-byte SHA-256 digest.
#[verifier::external_body]
fn sha256(data: &[u8]) -> (r: Vec<u8>)
    ensures
        r@ == sha256_of(data@),
        r@.len() == 32,
{
    Sha256::digest(data).to_vec()
}

/// Relies on aes_gcm's `Aes256Gcm::encrypt`: it fails only on a plaintext
/// longer than `P_MAX` (2^36 bytes); the output determines the plaintext
/// under the same key and nonce.
#[verifier::external_body]
fn aes256gcm_seal(key: &[u8], nonce: &[u8], plaintext: &[u8]) -> (r: Option<Vec<u8>>)
    requires
        key@.len() == 32,
        nonce@.len() == NONCE_LEN,
    ensures
        r is Some <==> plaintext@.len() <= PLAINTEXT_MAX,
        r matches Some(c) ==> c@ == aes256gcm_seal_of(key@, nonce@, plaintext@),
        r matches Some(c) ==> forall|q: Seq<u8>|
            #[trigger] aes256gcm_seal_of(key@, nonce@, q) == c@ ==> q == plaintext@,
{
    let cipher = Aes256Gcm::new(Key::<Aes256Gcm>::from_slice(key));
    cipher.encrypt(Nonce::from_slice(nonce), plaintext).ok()
}

/// Relies on aes_gcm's `Aes256Gcm::decrypt`: it returns the plaintext whose
/// sealing under the key and nonce is `sealed`, and fails when the tag does
/// not authenticate.
#[verifier::external_body]
fn aes256gcm_open(key: &[u8], nonce: &[u8], sealed: &[u8]) -> (r: Option<Vec<u8>>)
    requires
        key@.len() == 32,
        nonce@.len() == NONCE_LEN,
    ensures
        match r {
            Some(p) => forall|q: Seq<u8>|
                #[trigger] aes256gcm_seal_of(key@, nonce@, q) == sealed@ <==> q == p@,
            None => forall|q: Seq<u8>|
                q.len() <= PLAINTEXT_MAX ==> #[trigger] aes256gcm_seal_of(key@, nonce@, q)
                    != sealed@,
        },
{
    let cipher = Aes256Gcm::new(Key::<Aes256Gcm>::from_slice(key));
    cipher.decrypt(Nonce::from_slice(nonce), sealed).ok()
}

/// Relies on base64's `URL_SAFE_NO_PAD.encode`: the URL-safe alphabet, no
/// padding, and distinct inputs give distinct texts.
#[verifier::external_body]
fn base64url_encode(data: &[u8]) -> (r: String)
    ensures
        r@ == base64url_of(data@),
        base64url_text(r@),
        forall|x: Seq<u8>| #[trigger] base64url_of(x) == r@ ==> x == data@,
{
    URL_SAFE_NO_PAD.encode(data)
}

/// Relies on base64's `URL_SAFE_NO_PAD.decode`: it accepts exactly the
/// canonical unpadded encodings (trailing bits must be zero) and returns
/// the bytes they encode.
#[verifier::external_body]
fn base64url_decode(text: &str) -> (r: Option<Vec<u8>>)
    ensures
        match r {
            Some(b) => forall|x: Seq<u8>| #[trigger] base64url_of(x) == text@ <==> x == b@,
            None => forall|x: Seq<u8>| #[trigger] base64url_of(x) != text@,
        },
{
    URL_SAFE_NO_PAD.decode(text.as_bytes()).ok()
}

/// Relies on the operating system's random source (`OsRng`) for twelve bytes.
#[verifier::external_body]
fn fresh_nonce() -> (r: Vec<u8>)
    ensures
        r@.len() == NONCE_LEN,
{
    let mut nonce = [0u8; 12];
    OsRng.fill_bytes(&mut nonce);
    nonce.to_vec()
}

/// Relies on std's `String::from_utf8`: it succeeds exactly on valid UTF-8.
#[verifier::external_body]
fn utf8_string(bytes: Vec<u8>) -> (r: Option<String>)
    ensures
        match r {
            Some(s) => valid_utf8(bytes@) && s@ == decode_utf8(bytes@),
            None => !valid_utf8(bytes@),
        },
{
    String::from_utf8(bytes).ok()
}

/// The scheme every ticket starts with.
pub open spec fn scheme() -> Seq<char> {
    seq!['v', 'e', 'g', 'a', 'm', ':', '/', '/']
}

/// The bytes hashed to give a sender's key: a fixed domain prefix, then the
/// sender's identity.
pub open spec fn key_material(sender: Seq<char>) -> Seq<u8> {
    encode_utf8("vegam-ticket-key-"@) + encode_utf8(sender)
}

pub open spec fn ticket_key(sender: Seq<char>) -> Seq<u8> {
    sha256_of(key_material(sender))
}

/// A ticket's text for a sender and an encoded payload.
pub open spec fn ticket_text(sender: Seq<char>, encoded: Seq<char>) -> Seq<char> {
    scheme() + sender + seq![':'] + encoded
}

/// The payload for a plaintext sealed by `sender` under `nonce`.
pub open spec fn sealed_payload(sender: Seq<char>, nonce: Seq<u8>, plaintext: Seq<char>) -> Seq<u8> {
    nonce + aes256gcm_seal_of(ticket_key(sender), nonce, encode_utf8(plaintext))
}

/// `t` is the ticket for `plaintext` sealed by `sender` under `nonce`, and
/// both its encoding and its sealing determine what they were applied to.
pub open spec fn sealed_with(t: Seq<char>, sender: Seq<char>, plaintext: Seq<char>, nonce: Seq<u8>) -> bool {
    let bytes = encode_utf8(plaintext);
    let payload = sealed_payload(sender, nonce, plaintext);
    let encoded = base64url_of(payload);
    &&& nonce.len() == NONCE_LEN
    &&& bytes.len() <= PLAINTEXT_MAX
    &&& t == ticket_text(sender, encoded)
    &&& base64url_text(encoded)
    &&& forall|x: Seq<u8>| #[trigger] base64url_of(x) == encoded ==> x == payload
    &&& forall|q: Seq<u8>|
        #[trigger] aes256gcm_seal_of(ticket_key(sender), nonce, q) == aes256gcm_seal_of(
            ticket_key(sender),
            nonce,
            bytes,
        ) ==> q == bytes
}

/// `t` is a ticket that `sender` wrote for `plaintext`, under some nonce.
pub open spec fn is_ticket_of(t: Seq<char>, sender: Seq<char>, plaintext: Seq<char>) -> bool {
    exists|nonce: Seq<u8>| #[trigger] sealed_with(t, sender, plaintext, nonce)
}

/// Sender identity and encoded payload of a ticket's text.
pub open spec fn split_ticket_spec(t: Seq<char>) -> Result<(Seq<char>, Seq<char>), TicketError> {
    if t.len() >= 8 && t.subrange(0, 8) == scheme() {
        match find_from(t, ':', 8) {
            Some(i) => Ok((t.subrange(8, i), t.subrange(i + 1, t.len() as int))),
            None => Err(TicketError::Format),
        }
    } else {
        Err(TicketError::Format)
    }
}

/// The bytes that an encoded payload stands for, if it is a valid encoding.
pub open spec fn decoded_bytes(encoded: Seq<char>) -> Option<Seq<u8>> {
    if exists|x: Seq<u8>| #[trigger] base64url_of(x) == encoded {
        Some(choose|x: Seq<u8>| #[trigger] base64url_of(x) == encoded)
    } else {
        None
    }
}

/// Nonce and sealed part of a decoded payload.
pub open spec fn payload_parts(payload: Seq<u8>) -> Result<(Seq<u8>, Seq<u8>), TicketError> {
    if payload.len() < NONCE_LEN {
        Err(TicketError::Format)
    } else {
        Ok((payload.subrange(0, 12), payload.subrange(12, payload.len() as int)))
    }
}

/// The plaintext bytes that authenticate as `sealed`, if there are any.
pub open spec fn opened_bytes(key: Seq<u8>, nonce: Seq<u8>, sealed: Seq<u8>) -> Option<Seq<u8>> {
    if exists|q: Seq<u8>| q.len() <= PLAINTEXT_MAX && #[trigger] aes256gcm_seal_of(key, nonce, q) == sealed {
        Some(choose|q: Seq<u8>| q.len() <= PLAINTEXT_MAX && #[trigger] aes256gcm_seal_of(key, nonce, q) == sealed)
    } else {
        None
    }
}

/// What a ticket's text decrypts to.
pub open spec fn ticket_plaintext(t: Seq<char>) -> Result<Seq<char>, TicketError> {
    match split_ticket_spec(t) {
        Err(e) => Err(e),
        Ok((sender, encoded)) => match decoded_bytes(encoded) {
            None => Err(TicketError::Encoding),
            Some(payload) => match payload_parts(payload) {
                Err(e) => Err(e),
                Ok((nonce, sealed)) => match opened_bytes(ticket_key(sender), nonce, sealed) {
                    None => Err(TicketError::Crypto),
                    Some(bytes) => if valid_utf8(bytes) {
                        Ok(decode_utf8(bytes))
                    } else {
                        Err(TicketError::Crypto)
                    },
                },
            },
        },
    }
}

/// What `decrypt_ticket` returns for a ticket and a receiver's identity.
pub open spec fn decrypt_spec(t: Seq<char>, receiver: Seq<char>) -> Result<Seq<char>, TicketError> {
    ticket_plaintext(t)
}

pub open spec fn text_result(r: Result<String, TicketError>) -> Result<Seq<char>, TicketError> {
    match r {
        Ok(s) => Ok(s@),
        Err(e) => Err(e),
    }
}

/// Derives the 32-byte key of a sender: SHA-256 of the domain prefix and the
/// sender's identity.
fn derive_key(node_id: &str) -> (r: Vec<u8>)
    ensures
        r@ == ticket_key(node_id@),
        r@.len() == 32,
{
    let mut material: Vec<u8> = Vec::new();
    append_bytes(&mut material, "vegam-ticket-key-".as_bytes());
    append_bytes(&mut material, node_id.as_bytes());
    assert(material@ =~= key_material(node_id@));
    sha256(material.as_slice())
}

/// Writes the ticket text for a sender and an encoded payload.
pub fn compose_ticket(node_id: &str, encoded: &str) -> (r: String)
    ensures
        r@ == ticket_text(node_id@, encoded@),
{
    let mut t = String::from_str("vegam://");
    proof {
        reveal_strlit("vegam://");
        reveal_strlit(":");
    }
    t.append(node_id);
    t.append(":");
    t.append(encoded);
    assert(t@ =~= ticket_text(node_id@, encoded@));
    t
}

/// Splits a ticket's text into the sender's identity and the encoded payload.
pub fn split_ticket(t: &str) -> (r: Result<(&str, &str), TicketError>)
    ensures
        match r {
            Ok((sender, encoded)) => split_ticket_spec(t@) == Ok::<(Seq<char>, Seq<char>), TicketError>((sender@, encoded@)),
            Err(e) => split_ticket_spec(t@) == Err::<(Seq<char>, Seq<char>), TicketError>(e),
        },
{
    proof {
        reveal_strlit("vegam://");
    }
    assert("vegam://"@ =~= scheme());
    if !starts_with(t, "vegam://") {
        return Err(TicketError::Format);
    }
    let len = t.unicode_len();
    match find_char(t, ':', 8) {
        None => Err(TicketError::Format),
        Some(i) => {
            proof {
                lemma_find_from(t@, ':', 8);
            }
            Ok((t.substring_char(8, i), t.substring_char(i + 1, len)))
        },
    }
}

/// Splits a decoded payload into its nonce and its sealed part.
pub fn split_payload(payload: Vec<u8>) -> (r: Result<(Vec<u8>, Vec<u8>), TicketError>)
    ensures
        match r {
            Ok((nonce, sealed)) => payload_parts(payload@) == Ok::<(Seq<u8>, Seq<u8>), TicketError>((nonce@, sealed@)),
            Err(e) => payload_parts(payload@) == Err::<(Seq<u8>, Seq<u8>), TicketError>(e),
        },
{
    if payload.len() < NONCE_LEN {
        return Err(TicketError::Format);
    }
    let mut nonce = payload;
    let sealed = nonce.split_off(NONCE_LEN);
    Ok((nonce, sealed))
}

/// Encrypts `ticket` under the key of `node_id` with a fresh nonce.
///
/// It fails, with `Crypto`, only when the plaintext is too long for AES-GCM.
pub fn encrypt_ticket(ticket: &str, node_id: &str) -> (r: Result<String, TicketError>)
    ensures
        r is Ok <==> encode_utf8(ticket@).len() <= PLAINTEXT_MAX,
        r matches Err(e) ==> e == TicketError::Crypto,
        r matches Ok(t) ==> is_ticket_of(t@, node_id@, ticket@),
{
    let key = derive_key(node_id);
    let nonce = fresh_nonce();
    let bytes = ticket.as_bytes();
    match aes256gcm_seal(key.as_slice(), nonce.as_slice(), bytes) {
        None => Err(TicketError::Crypto),
        Some(sealed) => {
            let mut payload: Vec<u8> = Vec::new();
            append_bytes(&mut payload, nonce.as_slice());
            append_bytes(&mut payload, sealed.as_slice());
            let encoded = base64url_encode(payload.as_slice());
            let t = compose_ticket(node_id, encoded.as_str());
            assert(payload@ =~= sealed_payload(node_id@, nonce@, ticket@));
            assert(sealed_with(t@, node_id@, ticket@, nonce@));
            Ok(t)
        },
    }
}

/// Decrypts a ticket with the key of the sender named inside it; the
/// receiver's identity plays no part.
pub fn decrypt_ticket(ticket: &str, _receiver_node_id: &str) -> (r: Result<String, TicketError>)
    ensures
        text_result(r) == decrypt_spec(ticket@, _receiver_node_id@),
{
    let (sender, encoded) = match split_ticket(ticket) {
        Ok(parts) => parts,
        Err(e) => return Err(e),
    };
    let payload = match base64url_decode(encoded) {
        Some(b) => b,
        None => return Err(TicketError::Encoding),
    };
    assert(base64url_of(payload@) == encoded@);
    assert(decoded_bytes(encoded@) == Some(payload@));
    let (nonce, sealed) = match split_payload(payload) {
        Ok(parts) => parts,
        Err(e) => return Err(e),
    };
    let key = derive_key(sender);
    let opened = aes256gcm_open(key.as_slice(), nonce.as_slice(), sealed.as_slice());
    match opened {
        None => {
            assert(opened_bytes(key@, nonce@, sealed@) is None);
            Err(TicketError::Crypto)
        },
        Some(bytes) => {
            if bytes.len() as u64 > PLAINTEXT_MAX {
                assert(opened_bytes(key@, nonce@, sealed@) is None);
                return Err(TicketError::Crypto);
            }
            assert(aes256gcm_seal_of(key@, nonce@, bytes@) == sealed@);
            assert(opened_bytes(key@, nonce@, sealed@) == Some(bytes@));
            match utf8_string(bytes) {
                Some(s) => Ok(s),
                None => Err(TicketError::Crypto),
            }
        },
    }
}

/// Where `:` stands in a ticket's text: right after the sender, and nowhere
/// in the encoded payload.
proof fn lemma_ticket_colons(t: Seq<char>, sender: Seq<char>, encoded: Seq<char>)
    requires
        t == ticket_text(sender, encoded),
        base64url_text(encoded),
    ensures
        t.len() == 9 + sender.len() as int + encoded.len(),
        t.subrange(0, 8) == scheme(),
        t.subrange(8, 8 + sender.len() as int) == sender,
        t[8 + sender.len() as int] == ':',
        t.subrange(9 + sender.len() as int, t.len() as int) == encoded,
        forall|j: int| 9 + sender.len() as int <= j < t.len() ==> t[j] != ':',
{
    assert(t.subrange(0, 8) =~= scheme());
    assert(t.subrange(8, 8 + sender.len() as int) =~= sender);
    assert(t.subrange(9 + sender.len() as int, t.len() as int) =~= encoded);
    assert forall|j: int| 9 + sender.len() as int <= j < t.len() implies t[j] != ':' by {
        assert(t[j] == encoded[j - 9 - sender.len() as int]);
    }
}

/// Round trip: a ticket that `sender` wrote for `plaintext` decrypts to
/// `plaintext`, whoever decrypts it, when the sender's identity holds no `:`.
pub proof fn lemma_round_trip(t: Seq<char>, sender: Seq<char>, plaintext: Seq<char>, receiver: Seq<char>)
    requires
        is_ticket_of(t, sender, plaintext),
        !sender.contains(':'),
    ensures
        decrypt_spec(t, receiver) == Ok::<Seq<char>, TicketError>(plaintext),
{
    let nonce = choose|n: Seq<u8>| sealed_with(t, sender, plaintext, n);
    let bytes = encode_utf8(plaintext);
    let key = ticket_key(sender);
    let sealed = aes256gcm_seal_of(key, nonce, bytes);
    let payload = sealed_payload(sender, nonce, plaintext);
    let encoded = base64url_of(payload);
    lemma_ticket_colons(t, sender, encoded);
    let i = 8 + sender.len() as int;
    assert forall|j: int| 8 <= j < i implies t[j] != ':' by {
        assert(t.subrange(8, i)[j - 8] == t[j]);
        assert(sender[j - 8] != ':');
    }
    lemma_find_from(t, ':', 8);
    assert(find_from(t, ':', 8) == Some(i));
    assert(split_ticket_spec(t) == Ok::<(Seq<char>, Seq<char>), TicketError>((sender, encoded)));
    assert(base64url_of(payload) == encoded);
    assert(decoded_bytes(encoded) == Some(payload));
    assert(payload.subrange(0, 12) =~= nonce);
    assert(payload.subrange(12, payload.len() as int) =~= sealed);
    assert(aes256gcm_seal_of(key, nonce, bytes) == sealed);
    assert(opened_bytes(key, nonce, sealed) == Some(bytes));
    encode_utf8_valid_utf8(plaintext);
    encode_utf8_decode_utf8(plaintext);
}

/// Decryption does not depend on the identity of whoever decrypts.
pub proof fn lemma_receiver_irrelevant(t: Seq<char>, a: Seq<char>, b: Seq<char>)
    ensures
        decrypt_spec(t, a) == decrypt_spec(t, b),
{
}

/// The same plaintext written by two different senders gives two different
/// tickets, and each ticket carries its sender's identity right after the
/// scheme.
pub proof fn lemma_distinct_senders(
    t1: Seq<char>,
    t2: Seq<char>,
    sender1: Seq<char>,
    sender2: Seq<char>,
    plaintext: Seq<char>,
)
    requires
        is_ticket_of(t1, sender1, plaintext),
        is_ticket_of(t2, sender2, plaintext),
        sender1 != sender2,
    ensures
        t1 != t2,
        t1.subrange(8, 8 + sender1.len() as int) == sender1,
        t2.subrange(8, 8 + sender2.len() as int) == sender2,
{
    let n1 = choose|n: Seq<u8>| sealed_with(t1, sender1, plaintext, n);
    let n2 = choose|n: Seq<u8>| sealed_with(t2, sender2, plaintext, n);
    let e1 = base64url_of(sealed_payload(sender1, n1, plaintext));
    let e2 = base64url_of(sealed_payload(sender2, n2, plaintext));
    lemma_ticket_colons(t1, sender1, e1);
    lemma_ticket_colons(t2, sender2, e2);
    if t1 == t2 {
        let i1 = 8 + sender1.len() as int;
        let i2 = 8 + sender2.len() as int;
        if i1 < i2 {
            assert(t1[i2] != ':');
        } else if i2 < i1 {
            assert(t2[i1] != ':');
        } else {
            assert(sender1 == sender2);
        }
    }
}

/// Past the scheme, a ticket holds none of `=`, `+` and `/` when its
/// sender's identity holds none of them.
pub proof fn lemma_url_safe(t: Seq<char>, sender: Seq<char>, plaintext: Seq<char>)
    requires
        is_ticket_of(t, sender, plaintext),
        !sender.contains('='),
        !sender.contains('+'),
        !sender.contains('/'),
    ensures
        forall|j: int| 8 <= j < t.len() ==> t[j] != '=' && t[j] != '+' && t[j] != '/',
{
    let nonce = choose|n: Seq<u8>| sealed_with(t, sender, plaintext, n);
    let encoded = base64url_of(sealed_payload(sender, nonce, plaintext));
    lemma_ticket_colons(t, sender, encoded);
    assert forall|j: int| 8 <= j < t.len() implies t[j] != '=' && t[j] != '+' && t[j] != '/' by {
        if j < 8 + sender.len() as int {
            assert(t.subrange(8, 8 + sender.len() as int)[j - 8] == t[j]);
            assert(sender[j - 8] == t[j]);
        } else if j > 8 + sender.len() as int {
            assert(t.subrange(9 + sender.len() as int, t.len() as int)[j - 9 - sender.len() as int] == t[j]);
            assert(is_base64url_char(encoded[j - 9 - sender.len() as int]));
        }
    }
}

} // verus!
