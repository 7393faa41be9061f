use crate::types::{RtPkt, RtPktView};
use vstd::bytes::{spec_u32_from_le_bytes, u32_from_le_bytes};
use vstd::prelude::*;
use vstd::slice::slice_subrange;

verus! {

/// `anyhow::Error`, declared so signatures can carry it.  Nothing is assumed
/// about its contents.
#[verifier::external_type_specification]
#[verifier::external_body]
pub struct ExAnyhowError(anyhow::Error);

/// What the library reads out of a parsed radiotap header: the header's
/// declared length, the TSFT tick when present, and the antenna signal when
/// present.
pub struct RadiotapMeta {
    pub header_len: usize,
    pub tsft: Option<u64>,
    pub rssi_dbm: Option<i8>,
}

/// What parsing a radiotap capture returns: `None` on a malformed capture,
/// else the declared header length, the optional TSFT tick and the optional
/// antenna signal.  A pure function of the input bytes.
pub uninterp spec fn spec_radiotap(data: Seq<u8>) -> Option<(usize, Option<u64>, Option<i8>)>;

/// The little-endian 32-bit present word at chain index `i` of a radiotap
/// header.  The first present word sits at byte offset 4; bit 31 of a word
/// announces that another follows.
pub open spec fn spec_present_word(data: Seq<u8>, i: int) -> u32
    recommends
        0 <= i && 8 + 4 * i <= data.len(),
{
    spec_u32_from_le_bytes(data.subrange(4 + 4 * i, 8 + 4 * i))
}

/// Whether the present-word chain from index `i` on keeps the radiotap
/// parser inside checked reads.  A word announcing a vendor namespace
/// (bit 30) makes the parser skip ahead by a capture-supplied length with no
/// bounds check, and a ninth chained word overflows its 8-bit field counter:
/// either can abort the process, so such captures are screened out before
/// the parser ever sees them.  A chain cut short by the end of the capture
/// is harmless — the parser reports an error there.
pub open spec fn spec_present_chain_safe(data: Seq<u8>, i: int) -> bool
    decreases 8 - i,
        when i <= 8
{
    if data.len() < 8 + 4 * i {
        true
    } else if i >= 8 {
        false
    } else {
        let w = spec_present_word(data, i);
        if w & 0x4000_0000u32 != 0 {
            false
        } else if w & 0x8000_0000u32 != 0 {
            spec_present_chain_safe(data, i + 1)
        } else {
            true
        }
    }
}

/// The captures the radiotap parser is known to handle without aborting.
/// Screening is conservative: a capture that announces a vendor namespace is
/// discarded rather than parsed (the alternative today is that a hostile or
/// malformed skip length kills the whole pipeline).
pub open spec fn spec_radiotap_safe(data: Seq<u8>) -> bool {
    spec_present_chain_safe(data, 0)
}

/// Walks the present-word chain of a capture before it is handed to the
/// radiotap parser (see [`spec_present_chain_safe`]).
fn radiotap_safe(data: &[u8]) -> (r: bool)
    ensures
        r == spec_radiotap_safe(data@),
{
    let mut i: usize = 0;
    loop
        invariant
            i <= 8,
            spec_radiotap_safe(data@) == spec_present_chain_safe(data@, i as int),
        decreases 8 - i,
    {
        if data.len() < 8 + 4 * i {
            return true;
        }
        if i >= 8 {
            return false;
        }
        let w = u32_from_le_bytes(slice_subrange(data, 4 + 4 * i, 8 + 4 * i));
        if w & 0x4000_0000 != 0 {
            return false;
        }
        if w & 0x8000_0000 == 0 {
            return true;
        }
        i = i + 1;
    }
}

/// Relies on radiotap's `Radiotap::from_bytes`: parsing is a function of the
/// input bytes alone, and a successfully parsed header's declared length
/// never exceeds the input length (shorter inputs are rejected as invalid).
/// On a capture admitted by [`spec_radiotap_safe`] every read the parser
/// makes is bounds-checked and fails with an error instead of aborting: the
/// screen excludes its two unchecked paths, the vendor-namespace skip and
/// the present-word field-counter overflow.
#[verifier::external_body]
fn parse_radiotap(data: &[u8]) -> (r: Option<RadiotapMeta>)
    requires
        spec_radiotap_safe(data@),
    ensures
        (r is Some) == (spec_radiotap(data@) is Some),
        r matches Some(m) ==> spec_radiotap(data@) == Some((m.header_len, m.tsft, m.rssi_dbm))
            && m.header_len <= data@.len(),
{
    match radiotap::Radiotap::from_bytes(data) {
        Ok(parsed) => Some(
            RadiotapMeta {
                header_len: parsed.header.length,
                tsft: parsed.tsft.map(|f| f.value),
                rssi_dbm: parsed.antenna_signal.map(|f| f.value),
            },
        ),
        Err(_) => None,
    }
}

/// The transmitter address and sequence number of an 802.11 probe request;
/// `None` for any other frame type and for bytes that fail to parse.  A pure
/// function of the payload bytes.
pub uninterp spec fn spec_probe_request(payload: Seq<u8>) -> Option<(Seq<u8>, u16)>;

/// One lower-case hex digit.
pub open spec fn spec_hex_char(d: int) -> char
    recommends
        0 <= d < 16,
{
    if d == 0 {
        '0'
    } else if d == 1 {
        '1'
    } else if d == 2 {
        '2'
    } else if d == 3 {
        '3'
    } else if d == 4 {
        '4'
    } else if d == 5 {
        '5'
    } else if d == 6 {
        '6'
    } else if d == 7 {
        '7'
    } else if d == 8 {
        '8'
    } else if d == 9 {
        '9'
    } else if d == 10 {
        'a'
    } else if d == 11 {
        'b'
    } else if d == 12 {
        'c'
    } else if d == 13 {
        'd'
    } else if d == 14 {
        'e'
    } else {
        'f'
    }
}

/// A MAC address in canonical form: six lower-case two-digit hex bytes
/// joined by colons.
pub open spec fn spec_mac_str(b: Seq<u8>) -> Seq<char>
    recommends
        b.len() == 6,
{
    seq![
        spec_hex_char(b[0] as int / 16),
        spec_hex_char(b[0] as int % 16),
        ':',
        spec_hex_char(b[1] as int / 16),
        spec_hex_char(b[1] as int % 16),
        ':',
        spec_hex_char(b[2] as int / 16),
        spec_hex_char(b[2] as int % 16),
        ':',
        spec_hex_char(b[3] as int / 16),
        spec_hex_char(b[3] as int % 16),
        ':',
        spec_hex_char(b[4] as int / 16),
        spec_hex_char(b[4] as int % 16),
        ':',
        spec_hex_char(b[5] as int / 16),
        spec_hex_char(b[5] as int % 16),
    ]
}

/// The transmitter of a probe request, raw and displayed, with the sequence
/// number from the sequence-control field.
pub struct ProbeInfo {
    pub mac_bytes: Vec<u8>,
    pub mac: String,
    pub seq: u16,
}

/// Relies on ieee80211's `GenericFrame::new`, `GenericFrame::matches` and
/// `GenericFrame::parse_to_typed` for `ProbeRequestFrame`, and on
/// mac-parser's `MACAddress` display (six `%02x` bytes joined by `:`):
/// parsing is a function of the payload bytes alone; a parsed probe
/// request's transmitter address is 6 bytes.
#[verifier::external_body]
fn parse_probe_request(payload: &[u8]) -> (r: Option<ProbeInfo>)
    ensures
        (r is Some) == (spec_probe_request(payload@) is Some),
        r matches Some(p) ==> spec_probe_request(payload@) == Some((p.mac_bytes@, p.seq))
            && p.mac_bytes@.len() == 6 && p.mac@ == spec_mac_str(p.mac_bytes@),
{
    let generic = ieee80211::GenericFrame::new(payload, false).ok()?;
    if !generic.matches::<ieee80211::mgmt_frame::ProbeRequestFrame>() {
        return None;
    }
    let frame = match generic.parse_to_typed::<ieee80211::mgmt_frame::ProbeRequestFrame>() {
        Some(Ok(f)) => f,
        _ => return None,
    };
    let mac = frame.header.transmitter_address;
    let seq = frame.header.sequence_control.sequence_number();
    Some(ProbeInfo { mac_bytes: mac.0.to_vec(), mac: mac.to_string(), seq })
}

/// Everything the frame source decides for one captured frame, as a function
/// of its raw bytes and the allow-listed transmitter: screen out the
/// captures the radiotap parser cannot survive (see [`spec_radiotap_safe`]),
/// parse the radiotap header (discard a malformed capture), require a TSFT
/// tick (a frame without one carries no usable timestamp), parse the bytes
/// past the radiotap header as an 802.11 probe request (silently discarding
/// every other frame), and keep only the allow-listed transmitter.  The
/// packet keeps the full raw capture, the displayed MAC, the sequence
/// number, and the antenna signal (0 when the capture reported none).
pub open spec fn spec_process_frame(data: Seq<u8>, target: Seq<char>) -> Option<RtPktView> {
    if !spec_radiotap_safe(data) {
        None
    } else {
        spec_process_safe_frame(data, target)
    }
}

/// [`spec_process_frame`] past the screen.
pub open spec fn spec_process_safe_frame(data: Seq<u8>, target: Seq<char>) -> Option<RtPktView> {
    match spec_radiotap(data) {
        None => None,
        Some(meta) => match meta.1 {
            None => None,
            Some(tsf) => match spec_probe_request(data.skip(meta.0 as int)) {
                None => None,
                Some(probe) => if spec_mac_str(probe.0) == target {
                    Some(
                        RtPktView {
                            tsf,
                            header: data,
                            mac: spec_mac_str(probe.0),
                            seq: probe.1,
                            rssi_dbm: if meta.2 is Some {
                                meta.2->Some_0
                            } else {
                                0
                            },
                        },
                    )
                } else {
                    None
                },
            },
        },
    }
}

/// Turns one raw captured frame into a timestamped frame packet, keeping
/// exactly the probe requests of the allow-listed transmitter `target`
/// (canonical colon-separated lower-case hex).  Everything else — captures
/// the radiotap parser cannot survive (vendor-namespace and over-long
/// present chains included), malformed captures, frames without a TSFT
/// tick, other frame types, other transmitters — is discarded.
pub fn process_frame(data: Vec<u8>, target: &str) -> (r: Option<RtPkt>)
    ensures
        (r is Some) == (spec_process_frame(data@, target@) is Some),
        r matches Some(p) ==> Some(p@) == spec_process_frame(data@, target@),
{
    if !radiotap_safe(data.as_slice()) {
        return None;
    }
    let meta = match parse_radiotap(data.as_slice()) {
        Some(m) => m,
        None => {
            return None;
        },
    };
    let tsf = match meta.tsft {
        Some(t) => t,
        None => {
            return None;
        },
    };
    let payload = slice_subrange(data.as_slice(), meta.header_len, data.len());
    proof {
        assert(payload@ =~= data@.skip(meta.header_len as int));
    }
    let info = match parse_probe_request(payload) {
        Some(p) => p,
        None => {
            return None;
        },
    };
    let target_owned = target.to_owned();
    if info.mac == target_owned {
        let rssi = match meta.rssi_dbm {
            Some(v) => v,
            None => 0,
        };
        Some(RtPkt { tsf, header: data, mac: info.mac, seq: info.seq, rssi_dbm: rssi })
    } else {
        None
    }
}

/// A live-capture frame source bound to one named device.  The capture loop
/// itself does I/O and runs outside the library; it feeds every raw captured
/// frame through [`process_frame`].
pub struct RadiotapPcap {
    dev: String,
}

impl RadiotapPcap {
    /// The configured capture device name.
    pub closed spec fn dev_name(&self) -> Seq<char> {
        self.dev@
    }

    /// Remembers the capture device name.  Never fails.
    pub fn new(dev: &str) -> (r: Result<RadiotapPcap, anyhow::Error>)
        ensures
            r matches Ok(c) && c.dev_name() == dev@,
    {
        Ok(RadiotapPcap { dev: dev.to_owned() })
    }

    /// The device the capture should open.
    pub fn device(&self) -> (r: &str)
        ensures
            r@ == self.dev_name(),
    {
        self.dev.as_str()
    }
}

} // verus!
