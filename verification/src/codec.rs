use vstd::bytes::*;
use vstd::prelude::*;
use vstd::slice::slice_subrange;

verus! {

/// The 64-bit tick combined from four 16-bit words in ascending order of
/// significance: `w0 | w1 << 16 | w2 << 32 | w3 << 48`.
pub open spec fn spec_tsf_from_words(w0: u16, w1: u16, w2: u16, w3: u16) -> u64 {
    (w0 as u64) | (w1 as u64) << 16 | (w2 as u64) << 32 | (w3 as u64) << 48
}

/// The tick held in the 8-byte prefix of an IQ datagram: the hardware emits
/// the 64-bit value as four little-endian 16-bit words in ascending order of
/// significance — not as one little-endian 64-bit integer.
pub open spec fn spec_iq_tsf(s: Seq<u8>) -> u64
    recommends
        s.len() >= 8,
{
    spec_tsf_from_words(
        spec_u16_from_le_bytes(s.subrange(0, 2)),
        spec_u16_from_le_bytes(s.subrange(2, 4)),
        spec_u16_from_le_bytes(s.subrange(4, 6)),
        spec_u16_from_le_bytes(s.subrange(6, 8)),
    )
}

/// Decodes the hardware tick from the first 8 bytes of an IQ datagram.
pub fn decode_iq_tsf(prefix: &[u8]) -> (tsf: u64)
    requires
        prefix@.len() >= 8,
    ensures
        tsf == spec_iq_tsf(prefix@),
{
    let w0 = u16_from_le_bytes(slice_subrange(prefix, 0, 2)) as u64;
    let w1 = u16_from_le_bytes(slice_subrange(prefix, 2, 4)) as u64;
    let w2 = u16_from_le_bytes(slice_subrange(prefix, 4, 6)) as u64;
    let w3 = u16_from_le_bytes(slice_subrange(prefix, 6, 8)) as u64;
    w0 | w1 << 16 | w2 << 32 | w3 << 48
}

/// Law: a prefix hand-built from the little-endian encodings of any four
/// 16-bit words decodes to exactly `w0 | w1 << 16 | w2 << 32 | w3 << 48`.
pub proof fn lemma_tsf_round_trip(w0: u16, w1: u16, w2: u16, w3: u16)
    ensures
        spec_iq_tsf(
            spec_u16_to_le_bytes(w0) + spec_u16_to_le_bytes(w1) + spec_u16_to_le_bytes(w2)
                + spec_u16_to_le_bytes(w3),
        ) == spec_tsf_from_words(w0, w1, w2, w3),
{
    lemma_auto_spec_u16_to_from_le_bytes();
    let s = spec_u16_to_le_bytes(w0) + spec_u16_to_le_bytes(w1) + spec_u16_to_le_bytes(w2)
        + spec_u16_to_le_bytes(w3);
    assert(s.subrange(0, 2) =~= spec_u16_to_le_bytes(w0));
    assert(s.subrange(2, 4) =~= spec_u16_to_le_bytes(w1));
    assert(s.subrange(4, 6) =~= spec_u16_to_le_bytes(w2));
    assert(s.subrange(6, 8) =~= spec_u16_to_le_bytes(w3));
}

} // verus!
