use antsdr_decoder::frame_source::{process_frame, RadiotapPcap};

const TARGET: &str = "11:22:33:44:55:66";

/// A radiotap header carrying TSFT and antenna signal, then an 802.11 probe
/// request from the given transmitter.
fn capture(
    with_tsft: Option<u64>,
    rssi: Option<i8>,
    subtype_byte: u8,
    transmitter: [u8; 6],
    seq: u16,
) -> Vec<u8> {
    let mut present: u32 = 0;
    if with_tsft.is_some() {
        present |= 1 << 0;
    }
    if rssi.is_some() {
        present |= 1 << 5;
    }
    let mut fields = Vec::new();
    if let Some(t) = with_tsft {
        fields.extend_from_slice(&t.to_le_bytes());
    }
    if let Some(r) = rssi {
        fields.push(r as u8);
    }
    let len = (8 + fields.len()) as u16;
    let mut data = Vec::new();
    data.push(0); // radiotap version
    data.push(0);
    data.extend_from_slice(&len.to_le_bytes());
    data.extend_from_slice(&present.to_le_bytes());
    data.extend_from_slice(&fields);
    // 802.11 management header
    data.push(subtype_byte); // frame control: version|type|subtype
    data.push(0); // frame control flags
    data.extend_from_slice(&[0, 0]); // duration
    data.extend_from_slice(&[0xFF; 6]); // receiver
    data.extend_from_slice(&transmitter);
    data.extend_from_slice(&[0xFF; 6]); // bssid
    data.extend_from_slice(&(seq << 4).to_le_bytes()); // sequence control
    data
}

const PROBE_REQ: u8 = 0x40;
const BEACON: u8 = 0x80;
const DUT: [u8; 6] = [0x11, 0x22, 0x33, 0x44, 0x55, 0x66];

#[test]
fn accepts_probe_request_from_target() {
    let data = capture(Some(123_456_789), Some(-48), PROBE_REQ, DUT, 100);
    let pkt = process_frame(data.clone(), TARGET).expect("accepted");
    assert_eq!(pkt.tsf, 123_456_789);
    assert_eq!(pkt.seq, 100);
    assert_eq!(pkt.rssi_dbm, -48);
    assert_eq!(pkt.mac, TARGET);
    assert_eq!(pkt.header, data, "the packet keeps the full raw capture");
}

#[test]
fn missing_antenna_signal_defaults_to_zero() {
    let data = capture(Some(42), None, PROBE_REQ, DUT, 1);
    let pkt = process_frame(data, TARGET).expect("accepted");
    assert_eq!(pkt.rssi_dbm, 0);
    assert_eq!(pkt.tsf, 42);
}

#[test]
fn missing_tsft_discards_frame() {
    let data = capture(None, Some(-48), PROBE_REQ, DUT, 1);
    assert!(process_frame(data, TARGET).is_none());
}

#[test]
fn non_probe_request_discards_frame() {
    let data = capture(Some(42), Some(-48), BEACON, DUT, 1);
    assert!(process_frame(data, TARGET).is_none());
}

#[test]
fn alien_transmitter_discards_frame() {
    let alien = [0xDE, 0xAD, 0xBE, 0xEF, 0x00, 0x01];
    let data = capture(Some(42), Some(-48), PROBE_REQ, alien, 1);
    assert!(process_frame(data, TARGET).is_none());
}

#[test]
fn sequence_number_comes_from_sequence_control() {
    let data = capture(Some(42), Some(-48), PROBE_REQ, DUT, 0x0FFF);
    let pkt = process_frame(data, TARGET).expect("accepted");
    assert_eq!(pkt.seq, 0x0FFF);
}

#[test]
fn garbage_discards_frame() {
    assert!(process_frame(vec![], TARGET).is_none());
    assert!(process_frame(vec![0xFF; 4], TARGET).is_none());
    assert!(process_frame(vec![0u8; 64], TARGET).is_none());
}

#[test]
fn truncated_radiotap_discards_frame() {
    // header claims 17 bytes but the capture stops short
    let mut data = capture(Some(42), Some(-48), PROBE_REQ, DUT, 1);
    data.truncate(10);
    assert!(process_frame(data, TARGET).is_none());
}

#[test]
fn capture_source_remembers_device() {
    let source = RadiotapPcap::new("sdr0").expect("never fails");
    assert_eq!(source.device(), "sdr0");
}

/// A capture whose present word announces a vendor namespace with an absurd
/// skip length.  The radiotap parser itself cannot survive this input; the
/// library must screen it out and simply discard the frame.
#[test]
fn vendor_namespace_capture_is_discarded() {
    let mut data = vec![0u8, 0]; // version, padding
    data.extend_from_slice(&14u16.to_le_bytes()); // declared length
    data.extend_from_slice(&0x4000_0000u32.to_le_bytes()); // vendor namespace
    data.extend_from_slice(&[0x00, 0x11, 0x22]); // OUI
    data.push(0); // sub-namespace
    data.extend_from_slice(&255u16.to_le_bytes()); // skip length, far past the end
    assert!(process_frame(data, TARGET).is_none());
}

/// A chain of nine present words.  The parser's per-namespace field counter
/// cannot count that far; the library must screen the capture out.
#[test]
fn overlong_present_chain_is_discarded() {
    let mut data = vec![0u8, 0];
    data.extend_from_slice(&44u16.to_le_bytes());
    for _ in 0..8 {
        data.extend_from_slice(&0x8000_0000u32.to_le_bytes()); // another follows
    }
    data.extend_from_slice(&0u32.to_le_bytes()); // the ninth word
    assert!(process_frame(data, TARGET).is_none());
}

/// A capture that chains a second present word but stays within the
/// screen's bounds is parsed as usual.
#[test]
fn chained_present_words_still_accepted() {
    let mut data = vec![0u8, 0];
    data.extend_from_slice(&24u16.to_le_bytes()); // declared length
    data.extend_from_slice(&0x8000_0001u32.to_le_bytes()); // TSFT, ext bit set
    data.extend_from_slice(&0u32.to_le_bytes()); // empty second word
    data.extend_from_slice(&[0; 4]); // padding up to the 8-byte TSFT alignment
    data.extend_from_slice(&777u64.to_le_bytes()); // TSFT
    // the 802.11 probe request follows the radiotap header
    data.push(PROBE_REQ);
    data.push(0);
    data.extend_from_slice(&[0, 0]);
    data.extend_from_slice(&[0xFF; 6]);
    data.extend_from_slice(&DUT);
    data.extend_from_slice(&[0xFF; 6]);
    data.extend_from_slice(&(3u16 << 4).to_le_bytes());
    let pkt = process_frame(data, TARGET).expect("accepted");
    assert_eq!(pkt.tsf, 777);
    assert_eq!(pkt.rssi_dbm, 0);
    assert_eq!(pkt.seq, 3);
}
