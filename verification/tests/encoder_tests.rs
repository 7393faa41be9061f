use antsdr_decoder::encoder::{
    encode_pair, full_encode, raw_encode, sample_f32_bits, tsf_delta, Mode, START_IDX, VEC_LEN,
};
use antsdr_decoder::types::{IqPkt, RtPkt};

fn rt_pkt(tsf: u64, header: Vec<u8>) -> RtPkt {
    RtPkt { tsf, header, mac: String::from("11:22:33:44:55:66"), seq: 5, rssi_dbm: -37 }
}

fn iq_pkt(tsf: u64, bytes: Vec<u8>) -> IqPkt {
    IqPkt { tsf, bytes }
}

/// An IQ datagram whose body holds `n_syms` 8-byte symbols, all zero except
/// the given `(index, i, q)` samples.
fn synthetic_iq(n_syms: usize, samples: &[(usize, i16, i16)]) -> Vec<u8> {
    let mut bytes = vec![0u8; 8 + n_syms * 8];
    for &(k, i, q) in samples {
        let off = 8 + k * 8;
        bytes[off..off + 2].copy_from_slice(&i.to_le_bytes());
        bytes[off + 2..off + 4].copy_from_slice(&q.to_le_bytes());
    }
    bytes
}

#[test]
fn sample_bits_match_float_division_everywhere() {
    let mut v: i32 = -32768;
    while v <= 32767 {
        let bits = sample_f32_bits(v as i16);
        let expected = (v as f32) / 32768.0;
        assert_eq!(f32::from_bits(bits), expected, "sample {}", v);
        v += 1;
    }
}

#[test]
fn raw_window_normalizes_slot_400() {
    let bytes = synthetic_iq(START_IDX + 1, &[(START_IDX, 16384, -16384)]);
    let rt = rt_pkt(2000, vec![1, 2, 3]);
    let iq = iq_pkt(2000, bytes);
    let out = encode_pair(Mode::Raw, &rt, &iq).expect("long enough");
    // only one complete symbol fits the window
    assert_eq!(out.len(), 8);
    let i = f32::from_le_bytes([out[0], out[1], out[2], out[3]]);
    let q = f32::from_le_bytes([out[4], out[5], out[6], out[7]]);
    assert_eq!(i, 0.5);
    assert_eq!(q, -0.5);
}

#[test]
fn raw_full_window_is_320_pairs() {
    let bytes = synthetic_iq(START_IDX + VEC_LEN, &[(START_IDX + VEC_LEN - 1, -32768, 32767)]);
    let rt = rt_pkt(1, vec![]);
    let iq = iq_pkt(1, bytes);
    let out = encode_pair(Mode::Raw, &rt, &iq).expect("long enough");
    assert_eq!(out.len(), VEC_LEN * 2 * 4);
    let last_i = f32::from_le_bytes([out[2552], out[2553], out[2554], out[2555]]);
    let last_q = f32::from_le_bytes([out[2556], out[2557], out[2558], out[2559]]);
    assert_eq!(last_i, -1.0);
    assert_eq!(last_q, 32767.0 / 32768.0);
}

#[test]
fn raw_truncates_to_complete_symbols() {
    // 405 complete symbols and a 3-byte remainder: 5 window symbols fit
    let mut bytes = synthetic_iq(START_IDX + 5, &[]);
    bytes.extend_from_slice(&[1, 2, 3]);
    let out = encode_pair(Mode::Raw, &rt_pkt(1, vec![]), &iq_pkt(1, bytes)).expect("some");
    assert_eq!(out.len(), 5 * 8);
}

#[test]
fn raw_body_before_window_gives_empty_output() {
    let bytes = synthetic_iq(START_IDX, &[]);
    let out = encode_pair(Mode::Raw, &rt_pkt(1, vec![]), &iq_pkt(1, bytes)).expect("some");
    assert_eq!(out.len(), 0);
}

#[test]
fn raw_encode_direct_truncation() {
    // the body alone, without the datagram prefix
    let body = vec![0u8; (START_IDX + 2) * 8 + 7];
    let out = raw_encode(&body, START_IDX, VEC_LEN);
    assert_eq!(out.len(), 2 * 8);
    assert!(out.iter().all(|&b| b == 0), "zero samples encode to +0.0");
}

#[test]
fn too_short_iq_buffer_encodes_nothing() {
    let rt = rt_pkt(1, vec![1]);
    assert!(encode_pair(Mode::Raw, &rt, &iq_pkt(1, vec![1, 2, 3])).is_none());
    assert!(encode_pair(Mode::Full, &rt, &iq_pkt(1, vec![1, 2, 3])).is_none());
}

#[test]
fn full_layout_round_trips() {
    let header = vec![0xAA, 0xBB, 0xCC];
    let iq_bytes = vec![1, 2, 3, 4, 5, 6, 7, 8, 9];
    let rt = rt_pkt(0x1122334455667788, header.clone());
    let iq = iq_pkt(0x0102030405060708, iq_bytes.clone());
    let out = encode_pair(Mode::Full, &rt, &iq).expect("some");
    assert_eq!(out.len(), 8 + 8 + 2 + 2 + header.len() + iq_bytes.len());
    assert_eq!(u64::from_le_bytes(out[0..8].try_into().unwrap()), rt.tsf);
    assert_eq!(u64::from_le_bytes(out[8..16].try_into().unwrap()), iq.tsf);
    let hl = u16::from_le_bytes(out[16..18].try_into().unwrap()) as usize;
    let il = u16::from_le_bytes(out[18..20].try_into().unwrap()) as usize;
    assert_eq!(hl, header.len());
    assert_eq!(il, iq_bytes.len());
    assert_eq!(&out[20..20 + hl], &header[..]);
    assert_eq!(&out[20 + hl..20 + hl + il], &iq_bytes[..]);
}

#[test]
fn full_encode_empty_header() {
    let rt = rt_pkt(7, vec![]);
    let iq = iq_pkt(9, vec![0; 8]);
    let out = full_encode(&rt, &iq);
    assert_eq!(out.len(), 28);
    assert_eq!(u16::from_le_bytes(out[16..18].try_into().unwrap()), 0);
    assert_eq!(u16::from_le_bytes(out[18..20].try_into().unwrap()), 8);
}

#[test]
fn delta_is_modular() {
    assert_eq!(tsf_delta(10, 4), 6);
    assert_eq!(tsf_delta(4, 10), u64::MAX - 5);
    assert_eq!(tsf_delta(0, u64::MAX), 1);
}
