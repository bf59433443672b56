use peerbridge::ticket::{decode_hex, decode_ticket, derive_topic, encode_hex, encode_ticket};

fn topic_of_bytes(n: u8) -> Vec<u8> {
    (0..32u8).map(|i| i.wrapping_mul(7).wrapping_add(n)).collect()
}

#[test]
fn decode_ticket_with_bootstrap() {
    let topic = topic_of_bytes(1);
    let hex_part = encode_hex(&topic);
    assert_eq!(hex_part.len(), 64);
    let ticket = format!("{}|abc", hex_part);
    let (bytes, boot) = decode_ticket(&ticket).expect("ticket should decode");
    assert_eq!(bytes, topic);
    assert_eq!(boot.as_deref(), Some("abc"));
}

#[test]
fn decode_bare_hex_ticket() {
    let topic = topic_of_bytes(2);
    let hex_part = encode_hex(&topic);
    let (bytes, boot) = decode_ticket(&hex_part).expect("bare hex should decode");
    assert_eq!(bytes, topic);
    assert!(boot.is_none());
}

#[test]
fn decode_rejects_bad_tickets() {
    // Not hex at all.
    assert!(decode_ticket("zz|abc").is_none());
    // Wrong length: 31 bytes.
    let short = "ab".repeat(31);
    assert!(decode_ticket(&short).is_none());
    // Wrong length: 33 bytes.
    let long = "ab".repeat(33);
    assert!(decode_ticket(&long).is_none());
    // Odd number of digits.
    let odd = "abc".to_string();
    assert!(decode_ticket(&odd).is_none());
    // One bad digit in an otherwise valid payload.
    let mut bad = "ab".repeat(32);
    bad.replace_range(10..11, "g");
    assert!(decode_ticket(&bad).is_none());
    // Empty, and empty topic part.
    assert!(decode_ticket("").is_none());
    assert!(decode_ticket("|abc").is_none());
}

#[test]
fn decode_accepts_uppercase_hex() {
    let topic = topic_of_bytes(3);
    let upper = encode_hex(&topic).to_uppercase();
    let (bytes, boot) = decode_ticket(&upper).expect("uppercase hex should decode");
    assert_eq!(bytes, topic);
    assert!(boot.is_none());
}

#[test]
fn encode_matches_reference_hex() {
    let topic = topic_of_bytes(4);
    assert_eq!(encode_hex(&topic), hex::encode(&topic));
    let ticket = encode_ticket(&topic, "node-1");
    assert_eq!(ticket, format!("{}|node-1", hex::encode(&topic)));
}

#[test]
fn decode_hex_matches_reference() {
    let data = vec![0u8, 1, 15, 16, 127, 128, 255];
    let text = hex::encode(&data);
    assert_eq!(decode_hex(&text), Some(data));
    assert!(decode_hex("0g").is_none());
    assert!(decode_hex("012").is_none());
}

#[test]
fn ticket_round_trip() {
    let topic = topic_of_bytes(5);
    let ticket = encode_ticket(&topic, "some-identity");
    let (bytes, boot) = decode_ticket(&ticket).expect("round trip should decode");
    assert_eq!(bytes, topic);
    assert_eq!(boot.as_deref(), Some("some-identity"));
}

#[test]
fn bootstrap_keeps_later_pipes() {
    let topic = topic_of_bytes(6);
    let ticket = format!("{}|a|b", encode_hex(&topic));
    let (_, boot) = decode_ticket(&ticket).expect("should decode");
    assert_eq!(boot.as_deref(), Some("a|b"));
}

#[test]
fn empty_bootstrap_is_none() {
    let topic = topic_of_bytes(7);
    let ticket = format!("{}|", encode_hex(&topic));
    let (bytes, boot) = decode_ticket(&ticket).expect("should decode");
    assert_eq!(bytes, topic);
    assert!(boot.is_none());
}

#[test]
fn derive_topic_uses_hex_when_possible() {
    let topic = topic_of_bytes(8);
    let ticket = encode_hex(&topic);
    assert_eq!(derive_topic(&ticket), topic);
}

#[test]
fn derive_topic_is_deterministic_for_other_tickets() {
    let a1 = derive_topic("not-a-hex-ticket");
    let a2 = derive_topic("not-a-hex-ticket");
    assert_eq!(a1, a2);
    assert_eq!(a1.len(), 32);
    // The expansion mirrors the eight hash bytes.
    assert_eq!(a1[0..8], a1[16..24]);
    assert_eq!(a1[8..16], a1[24..32]);
    for k in 0..8 {
        assert_eq!(a1[k], a1[15 - k]);
    }
}
