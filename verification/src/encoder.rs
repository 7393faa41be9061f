use crate::types::{IqPkt, IqPktView, RtPkt, RtPktView};
use vstd::arithmetic::power2::{lemma2_to64, lemma_pow2_adds, lemma_pow2_pos, lemma_pow2_unfold, pow2};
use vstd::bytes::*;
use vstd::prelude::*;
use vstd::slice::slice_subrange;

verus! {

/// The two outbound wire formats.
#[derive(Clone, Copy, PartialEq, Eq, Structural, Debug)]
pub enum Mode {
    /// Headerless interleaved little-endian 32-bit floating-point IQ pairs,
    /// the fixed extraction window only.
    Raw,
    /// Self-describing datagram: both timestamps, both lengths, then the raw
    /// frame-capture bytes and the raw IQ bytes.
    Full,
}

/// First symbol index of the RAW extraction window.
pub const START_IDX: usize = 400;

/// Number of complex samples the RAW extraction window holds.
pub const VEC_LEN: usize = 320;

/// How many doublings bring `m` up into `[0x80_0000, 0x100_0000)`.
pub open spec fn norm_shifts(m: nat) -> nat
    recommends
        m >= 1,
    decreases (if m < 0x80_0000 { (0x80_0000 - m) as int } else { 0 }),
        when m >= 1
{
    if m >= 0x80_0000 {
        0
    } else {
        norm_shifts(2 * m) + 1
    }
}

/// `m` scaled by doubling into the 24-bit significand range: the significand
/// (with its leading bit) of `m` read as a binary32 magnitude.
pub open spec fn spec_sig(m: nat) -> nat {
    m * pow2(norm_shifts(m))
}

/// The magnitude of a signed 16-bit sample, as a natural number.
pub open spec fn spec_sample_mag(v: i16) -> nat {
    if v < 0 {
        (-(v as int)) as nat
    } else {
        v as nat
    }
}

/// The IEEE-754 binary32 bit pattern of the normalized sample `v / 32768`:
/// sign bit, then the biased exponent `135 - norm_shifts`, then the 23
/// significand bits below the (implicit) leading bit.  Every such quotient
/// of a 16-bit sample is exactly representable, so the pattern is a pure
/// function of the integer sample.
pub open spec fn spec_sample_bits(v: i16) -> u32 {
    if v == 0 {
        0u32
    } else {
        let sign: int = if v < 0 {
            0x8000_0000
        } else {
            0
        };
        let m = spec_sample_mag(v);
        (sign + (135 - norm_shifts(m)) * 0x80_0000 + (spec_sig(m) - 0x80_0000)) as u32
    }
}

/// `spec_sig` always lands in the 24-bit significand range and never takes
/// more than 23 doublings to get there.
pub proof fn lemma_sig_bounds(m: nat)
    requires
        1 <= m < 0x100_0000,
    ensures
        0x80_0000 <= spec_sig(m) < 0x100_0000,
        norm_shifts(m) <= 23,
        m >= 0x80_0000 ==> norm_shifts(m) == 0 && spec_sig(m) == m,
    decreases (if m < 0x80_0000 { (0x80_0000 - m) as int } else { 0 }),
{
    lemma2_to64();
    if m >= 0x80_0000 {
        assert(spec_sig(m) == m * pow2(0));
    } else {
        lemma_sig_bounds(2 * m);
        let k = norm_shifts(2 * m);
        lemma_pow2_unfold(k + 1);
        assert(spec_sig(m) == m * (2 * pow2(k)));
        assert(m * (2 * pow2(k)) == (2 * m) * pow2(k)) by (nonlinear_arith);
        // norm_shifts(m) == k + 1; show k + 1 <= 23 from the range of spec_sig
        if k + 1 > 23 {
            lemma_pow2_adds(24, (k + 1 - 24) as nat);
            lemma_pow2_pos((k + 1 - 24) as nat);
            assert(pow2(k + 1) >= pow2(24)) by (nonlinear_arith)
                requires
                    pow2(k + 1) == pow2(24) * pow2((k + 1 - 24) as nat),
                    pow2((k + 1 - 24) as nat) >= 1,
            ;
            assert(m * pow2(k + 1) >= pow2(24)) by (nonlinear_arith)
                requires
                    m >= 1,
                    pow2(k + 1) >= pow2(24),
            ;
            assert(false);
        }
    }
}

/// The bit pattern of the binary32 value `v / 32768`, as little-endian bytes
/// on the wire (see [`spec_sample_bits`]), computed by integer
/// normalization alone.
pub fn sample_f32_bits(v: i16) -> (bits: u32)
    ensures
        bits == spec_sample_bits(v),
{
    if v == 0 {
        return 0u32;
    }
    let sign: u32 = if v < 0 {
        0x8000_0000u32
    } else {
        0u32
    };
    let mag: u32 = if v < 0 {
        (-(v as i32)) as u32
    } else {
        v as u32
    };
    proof {
        assert(mag == spec_sample_mag(v));
        lemma_sig_bounds(mag as nat);
    }
    let ghost m0: nat = mag as nat;
    let mut m: u32 = mag;
    let mut shifts: u32 = 0;
    while m < 0x80_0000
        invariant
            1 <= m < 0x100_0000,
            spec_sig(m as nat) == spec_sig(m0),
            norm_shifts(m as nat) + shifts == norm_shifts(m0),
            norm_shifts(m0) <= 23,
            0x80_0000 <= spec_sig(m0) < 0x100_0000,
        decreases 0x100_0000 - m,
    {
        proof {
            let k = norm_shifts((2 * m) as nat);
            lemma_pow2_unfold(k + 1);
            assert((m as nat) * (2 * pow2(k)) == (2 * m as nat) * pow2(k)) by (nonlinear_arith);
        }
        m = m * 2;
        shifts = shifts + 1;
    }
    proof {
        lemma_sig_bounds(m as nat);
    }
    sign + (135 - shifts) * 0x80_0000 + (m - 0x80_0000)
}

/// The signed 16-bit word held little-endian at byte offset `off` of `body`.
pub open spec fn spec_sym_word(body: Seq<u8>, off: int) -> i16
    recommends
        0 <= off && off + 2 <= body.len(),
{
    spec_u16_from_le_bytes(body.subrange(off, off + 2)) as i16
}

/// The 8 output bytes of symbol `k`: the normalized I then Q sample, each as
/// a little-endian binary32 bit pattern.
pub open spec fn spec_sym_out(body: Seq<u8>, k: int) -> Seq<u8>
    recommends
        0 <= k && 8 * k + 8 <= body.len(),
{
    spec_u32_to_le_bytes(spec_sample_bits(spec_sym_word(body, 8 * k))) + spec_u32_to_le_bytes(
        spec_sample_bits(spec_sym_word(body, 8 * k + 2)),
    )
}

/// How many complete symbols the window `[start, start + count)` finds in a
/// body of `len` bytes at 8 bytes per symbol: the window length, cut down to
/// the symbols that fit, and never negative.
pub open spec fn spec_n_syms(len: int, start: int, count: int) -> int {
    if len / 8 <= start {
        0
    } else if len / 8 >= start + count {
        count
    } else {
        len / 8 - start
    }
}

/// The concatenated output of the first `n` window symbols, starting at
/// symbol index `start`.
pub open spec fn spec_raw_prefix(body: Seq<u8>, start: int, n: int) -> Seq<u8>
    decreases n,
{
    if n <= 0 {
        Seq::empty()
    } else {
        spec_raw_prefix(body, start, n - 1) + spec_sym_out(body, start + n - 1)
    }
}

/// The RAW wire format of `body`: the window's complete symbols, each
/// re-encoded as two little-endian binary32 values, with no header.
pub open spec fn spec_raw_encode(body: Seq<u8>, start: int, count: int) -> Seq<u8> {
    spec_raw_prefix(body, start, spec_n_syms(body.len() as int, start, count))
}

/// Re-encodes the extraction window of an IQ body in the RAW wire format.
///
/// Symbols are 8 bytes each; for every complete symbol in
/// `[start, start + count)` the two leading little-endian 16-bit words are
/// read as signed samples, normalized to `value / 32768`, and emitted as two
/// little-endian binary32 values.  A body too short for the full window
/// truncates the output to the complete symbols available — never an error.
pub fn raw_encode(body: &[u8], start: usize, count: usize) -> (out: Vec<u8>)
    requires
        8 * (start as int + count as int) <= usize::MAX as int,
    ensures
        out@ == spec_raw_encode(body@, start as int, count as int),
        out@.len() == 8 * spec_n_syms(body@.len() as int, start as int, count as int),
{
    let mut out: Vec<u8> = Vec::new();
    let mut k: usize = start;
    while k < start + count && 8 * k + 8 <= body.len()
        invariant
            start <= k <= start + count,
            8 * (start as int + count as int) <= usize::MAX as int,
            k > start ==> 8 * k <= body@.len(),
            out@ == spec_raw_prefix(body@, start as int, k - start),
            out@.len() == 8 * (k - start),
        decreases start + count - k,
    {
        let i_bits = sample_f32_bits(u16_from_le_bytes(slice_subrange(body, 8 * k, 8 * k + 2)) as i16);
        let q_bits = sample_f32_bits(
            u16_from_le_bytes(slice_subrange(body, 8 * k + 2, 8 * k + 4)) as i16,
        );
        let mut i_bytes = u32_to_le_bytes(i_bits);
        let mut q_bytes = u32_to_le_bytes(q_bits);
        out.append(&mut i_bytes);
        out.append(&mut q_bytes);
        k = k + 1;
    }
    proof {
        let len = body@.len() as int;
        let n = spec_n_syms(len, start as int, count as int);
        if k == start + count {
            assert(k - start == n);
        } else {
            // the next symbol did not fit: 8 * k + 8 > len, so len / 8 == k
            // whenever any symbol was emitted, and len / 8 <= start otherwise
            assert(k - start == n);
        }
    }
    out
}

/// The FULL wire format: `u64 frame_tsf`, `u64 iq_tsf`, `u16 header_len`,
/// `u16 iq_len` (lengths reduced modulo 2^16, as the 2-byte fields force),
/// then the raw frame-capture bytes and the raw IQ bytes, all little-endian,
/// concatenated with no padding.
pub open spec fn spec_full_encode(rt: RtPktView, iq: IqPktView) -> Seq<u8> {
    spec_u64_to_le_bytes(rt.tsf) + spec_u64_to_le_bytes(iq.tsf) + spec_u16_to_le_bytes(
        (rt.header.len() % 0x10000) as u16,
    ) + spec_u16_to_le_bytes((iq.bytes.len() % 0x10000) as u16) + rt.header + iq.bytes
}

/// Appends every byte of `src` to `dst`.
fn push_all(dst: &mut Vec<u8>, src: &Vec<u8>)
    ensures
        final(dst)@ == old(dst)@ + src@,
{
    let mut i: usize = 0;
    while i < src.len()
        invariant
            i <= src@.len(),
            dst@ == old(dst)@ + src@.subrange(0, i as int),
        decreases src@.len() - i,
    {
        dst.push(src[i]);
        proof {
            assert(old(dst)@ + src@.subrange(0, i as int) + seq![src@[i as int]] =~= old(dst)@
                + src@.subrange(0, i + 1));
        }
        i = i + 1;
    }
    proof {
        assert(src@.subrange(0, src@.len() as int) =~= src@);
    }
}

/// Serializes a matched pair in the FULL wire format.
pub fn full_encode(rt: &RtPkt, iq: &IqPkt) -> (out: Vec<u8>)
    ensures
        out@ == spec_full_encode(rt@, iq@),
{
    let mut out = u64_to_le_bytes(rt.tsf);
    let mut iq_tsf_bytes = u64_to_le_bytes(iq.tsf);
    out.append(&mut iq_tsf_bytes);
    let mut header_len_bytes = u16_to_le_bytes((rt.header.len() % 0x10000) as u16);
    out.append(&mut header_len_bytes);
    let mut iq_len_bytes = u16_to_le_bytes((iq.bytes.len() % 0x10000) as u16);
    out.append(&mut iq_len_bytes);
    push_all(&mut out, &rt.header);
    push_all(&mut out, &iq.bytes);
    out
}

/// Reading the FULL layout back: both timestamps, both lengths, then the two
/// byte runs — `None` unless the lengths account for the datagram exactly.
pub open spec fn spec_full_decode(s: Seq<u8>) -> Option<(u64, u64, Seq<u8>, Seq<u8>)> {
    if s.len() < 20 {
        None
    } else {
        let frame_tsf = spec_u64_from_le_bytes(s.subrange(0, 8));
        let iq_tsf = spec_u64_from_le_bytes(s.subrange(8, 16));
        let header_len = spec_u16_from_le_bytes(s.subrange(16, 18)) as int;
        let iq_len = spec_u16_from_le_bytes(s.subrange(18, 20)) as int;
        if s.len() == 20 + header_len + iq_len {
            Some(
                (
                    frame_tsf,
                    iq_tsf,
                    s.subrange(20, 20 + header_len),
                    s.subrange(20 + header_len, 20 + header_len + iq_len),
                ),
            )
        } else {
            None
        }
    }
}

/// Law: round trip — when both byte runs fit their 2-byte length fields,
/// decoding a FULL encoding recovers all four fields exactly.
pub proof fn lemma_full_round_trip(rt: RtPktView, iq: IqPktView)
    requires
        rt.header.len() <= 0xFFFF,
        iq.bytes.len() <= 0xFFFF,
    ensures
        spec_full_decode(spec_full_encode(rt, iq)) == Some(
            (rt.tsf, iq.tsf, rt.header, iq.bytes),
        ),
{
    lemma_auto_spec_u64_to_from_le_bytes();
    lemma_auto_spec_u16_to_from_le_bytes();
    let s = spec_full_encode(rt, iq);
    let hl = rt.header.len() as int;
    let il = iq.bytes.len() as int;
    assert(s.subrange(0, 8) =~= spec_u64_to_le_bytes(rt.tsf));
    assert(s.subrange(8, 16) =~= spec_u64_to_le_bytes(iq.tsf));
    assert(s.subrange(16, 18) =~= spec_u16_to_le_bytes((rt.header.len() % 0x10000) as u16));
    assert(s.subrange(18, 20) =~= spec_u16_to_le_bytes((iq.bytes.len() % 0x10000) as u16));
    assert(s.subrange(20, 20 + hl) =~= rt.header);
    assert(s.subrange(20 + hl, 20 + hl + il) =~= iq.bytes);
}

/// The per-pair wire bytes for the configured mode.  The RAW body is the IQ
/// payload past its 8-byte timestamp prefix.
pub open spec fn spec_encode_pair(mode: Mode, rt: RtPktView, iq: IqPktView) -> Seq<u8> {
    match mode {
        Mode::Raw => spec_raw_encode(iq.bytes.skip(8), START_IDX as int, VEC_LEN as int),
        Mode::Full => spec_full_encode(rt, iq),
    }
}

/// Serializes a matched pair as one outbound datagram in the given mode.
///
/// An IQ buffer shorter than its timestamp prefix cannot even be framed:
/// nothing is transmitted for it, which is not an error.
pub fn encode_pair(mode: Mode, rt: &RtPkt, iq: &IqPkt) -> (r: Option<Vec<u8>>)
    ensures
        r is Some <==> iq.bytes@.len() >= 8,
        r matches Some(out) ==> out@ == spec_encode_pair(mode, rt@, iq@),
{
    if iq.bytes.len() < 8 {
        return None;
    }
    match mode {
        Mode::Raw => {
            let body = slice_subrange(iq.bytes.as_slice(), 8, iq.bytes.len());
            proof {
                assert(body@ =~= iq.bytes@.skip(8));
            }
            Some(raw_encode(body, START_IDX, VEC_LEN))
        },
        Mode::Full => Some(full_encode(rt, iq)),
    }
}

/// The logged timestamp delta `frame_tsf − iq_tsf`, as the modular 64-bit
/// subtraction the pipeline has always used: when `iq_tsf > frame_tsf` it
/// wraps to a large value rather than going negative.
pub fn tsf_delta(frame_tsf: u64, iq_tsf: u64) -> (d: u64)
    ensures
        iq_tsf <= frame_tsf ==> d == frame_tsf - iq_tsf,
        iq_tsf > frame_tsf ==> d == frame_tsf - iq_tsf + 0x1_0000_0000_0000_0000,
{
    frame_tsf.wrapping_sub(iq_tsf)
}

} // verus!
