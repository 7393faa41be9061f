use antsdr_decoder::codec::decode_iq_tsf;
use antsdr_decoder::iq_source::parse_iq_datagram;
use antsdr_decoder::types::Timestamped;

fn prefix(w0: u16, w1: u16, w2: u16, w3: u16) -> Vec<u8> {
    let mut p = Vec::new();
    p.extend_from_slice(&w0.to_le_bytes());
    p.extend_from_slice(&w1.to_le_bytes());
    p.extend_from_slice(&w2.to_le_bytes());
    p.extend_from_slice(&w3.to_le_bytes());
    p
}

#[test]
fn decode_word_zero() {
    assert_eq!(decode_iq_tsf(&prefix(1, 0, 0, 0)), 1);
}

#[test]
fn decode_word_one() {
    assert_eq!(decode_iq_tsf(&prefix(0, 1, 0, 0)), 65_536);
}

#[test]
fn decode_all_words() {
    // w0 | w1<<16 | w2<<32 | w3<<48, little-endian words in ascending significance
    assert_eq!(
        decode_iq_tsf(&prefix(0x1234, 0x5678, 0x9ABC, 0xDEF0)),
        0xDEF0_9ABC_5678_1234u64
    );
}

#[test]
fn decode_ignores_trailing_bytes() {
    let mut p = prefix(7, 0, 0, 0);
    p.extend_from_slice(&[0xFF; 16]);
    assert_eq!(decode_iq_tsf(&p), 7);
}

#[test]
fn parse_datagram_keeps_whole_payload() {
    let mut payload = prefix(2, 1, 0, 0);
    payload.extend_from_slice(&[9, 8, 7, 6, 5, 4, 3, 2]);
    let pkt = parse_iq_datagram(payload.clone()).expect("long enough");
    assert_eq!(pkt.tsf, 2 + (1u64 << 16));
    assert_eq!(pkt.tsf(), pkt.tsf);
    assert_eq!(pkt.bytes, payload);
}

#[test]
fn parse_datagram_rejects_short() {
    assert!(parse_iq_datagram(vec![1, 2, 3, 4, 5, 6, 7]).is_none());
    assert!(parse_iq_datagram(Vec::new()).is_none());
}

#[test]
fn parse_datagram_accepts_exactly_prefix() {
    let pkt = parse_iq_datagram(prefix(0, 0, 0, 1)).expect("eight bytes suffice");
    assert_eq!(pkt.tsf, 1u64 << 48);
    assert_eq!(pkt.bytes.len(), 8);
}
