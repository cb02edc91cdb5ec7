use vegam::ticket_codec::{compose_ticket, decrypt_ticket, encrypt_ticket, split_payload, split_ticket, TicketError};

#[test]
fn test_encrypt_decrypt_roundtrip() {
    let original = "test.txt|1234|blobhash123";
    let node_id = "test-node-id";

    let encrypted = encrypt_ticket(original, node_id).unwrap();
    assert!(encrypted.starts_with("vegam://"));

    let decrypted = decrypt_ticket(&encrypted, node_id).unwrap();
    assert_eq!(decrypted, original);
}

#[test]
fn test_different_node_ids_produce_different_keys() {
    let ticket = "test.txt|1234|blobhash123";
    let node1 = "node-1";
    let node2 = "node-2";

    let encrypted1 = encrypt_ticket(ticket, node1).unwrap();
    let encrypted2 = encrypt_ticket(ticket, node2).unwrap();

    assert_ne!(encrypted1, encrypted2);

    assert!(encrypted1.contains("node-1"));
    assert!(encrypted2.contains("node-2"));

    assert_eq!(decrypt_ticket(&encrypted1, "any-receiver").unwrap(), ticket);
    assert_eq!(decrypt_ticket(&encrypted2, "any-receiver").unwrap(), ticket);
}

#[test]
fn test_invalid_format_fails() {
    let node_id = "test-node";

    // Missing prefix
    assert!(decrypt_ticket("invalid", node_id).is_err());

    // Invalid base64
    assert!(decrypt_ticket("vegam://!!!", node_id).is_err());

    // Too short
    assert!(decrypt_ticket("vegam://AA", node_id).is_err());
}

#[test]
fn test_encrypted_format_is_url_safe() {
    let ticket = "test.txt|1234|blobhash123";
    let node_id = "test-node";
    let encrypted = encrypt_ticket(ticket, node_id).unwrap();

    // The scheme separator "://" is the one '/' a ticket holds; past it the
    // text is URL-safe.
    let body = encrypted.strip_prefix("vegam://").unwrap();
    assert!(!encrypted.contains('='));
    assert!(!encrypted.contains('+'));
    assert!(!body.contains('/'));
}

#[test]
fn missing_scheme_is_a_format_error() {
    assert_eq!(decrypt_ticket("not-a-ticket", "me"), Err(TicketError::Format));
}

#[test]
fn missing_sender_separator_is_a_format_error() {
    assert_eq!(decrypt_ticket("vegam://!!!", "me"), Err(TicketError::Format));
    assert_eq!(decrypt_ticket("vegam://AA", "me"), Err(TicketError::Format));
}

#[test]
fn bad_base64_is_an_encoding_error() {
    assert_eq!(decrypt_ticket("vegam://node:!!!", "me"), Err(TicketError::Encoding));
    // Padding is refused by the unpadded encoding.
    assert_eq!(decrypt_ticket("vegam://node:AA==", "me"), Err(TicketError::Encoding));
}

#[test]
fn short_payload_is_a_format_error() {
    // "AA" decodes to a single byte, shorter than a nonce.
    assert_eq!(decrypt_ticket("vegam://node:AA", "me"), Err(TicketError::Format));
}

#[test]
fn tampered_ticket_is_a_crypto_error() {
    let t = encrypt_ticket("hello", "node-9").unwrap();
    let mut chars: Vec<char> = t.chars().collect();
    let last = chars.len() - 1;
    chars[last] = if chars[last] == 'A' { 'Q' } else { 'A' };
    let tampered: String = chars.into_iter().collect();
    let r = decrypt_ticket(&tampered, "me");
    assert!(r == Err(TicketError::Crypto) || r == Err(TicketError::Encoding));
}

#[test]
fn ticket_moved_to_another_sender_is_a_crypto_error() {
    let t = encrypt_ticket("hello", "node-a").unwrap();
    let moved = t.replacen("node-a", "node-b", 1);
    assert_eq!(decrypt_ticket(&moved, "me"), Err(TicketError::Crypto));
}

#[test]
fn decryption_ignores_the_receiver() {
    let t = encrypt_ticket("abc|1|tok", "sender").unwrap();
    assert_eq!(decrypt_ticket(&t, "A"), decrypt_ticket(&t, "B"));
    assert_eq!(decrypt_ticket(&t, "A").unwrap(), "abc|1|tok");
}

#[test]
fn same_plaintext_different_senders_differ() {
    let a = encrypt_ticket("x", "node-1").unwrap();
    let b = encrypt_ticket("x", "node-2").unwrap();
    assert_ne!(a, b);
    assert!(a.contains("node-1"));
    assert!(b.contains("node-2"));
}

#[test]
fn two_encryptions_use_fresh_nonces() {
    let a = encrypt_ticket("x", "node-1").unwrap();
    let b = encrypt_ticket("x", "node-1").unwrap();
    assert_ne!(a, b);
    assert_eq!(decrypt_ticket(&a, "r").unwrap(), "x");
    assert_eq!(decrypt_ticket(&b, "r").unwrap(), "x");
}

#[test]
fn round_trip_of_non_ascii_text() {
    let p = "résumé — 日本語.pdf|42|tok|with|bars";
    let t = encrypt_ticket(p, "dev-Ü").unwrap();
    assert_eq!(decrypt_ticket(&t, "other").unwrap(), p);
}

#[test]
fn payload_hides_the_plaintext() {
    let t = encrypt_ticket("plainly-visible", "n").unwrap();
    assert!(!t.contains("plainly-visible"));
    let (_, encoded) = split_ticket(&t).unwrap();
    // 12-byte nonce, 15 bytes of ciphertext, 16-byte tag: 43 bytes, 58 digits.
    assert_eq!(encoded.len(), 58);
}

#[test]
fn compose_and_split_ticket_text() {
    let t = compose_ticket("dev", "QUJD");
    assert_eq!(t, "vegam://dev:QUJD");
    assert_eq!(split_ticket(&t), Ok(("dev", "QUJD")));
    assert_eq!(split_ticket("vegam://a:b:c"), Ok(("a", "b:c")));
    assert_eq!(split_ticket("vegam:/a:b"), Err(TicketError::Format));
}

#[test]
fn split_payload_needs_a_whole_nonce() {
    assert_eq!(split_payload(vec![1u8; 11]), Err(TicketError::Format));
    let (n, c) = split_payload((0u8..15).collect()).unwrap();
    assert_eq!(n, (0u8..12).collect::<Vec<u8>>());
    assert_eq!(c, vec![12u8, 13, 14]);
}
