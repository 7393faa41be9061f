use vstd::prelude::*;

verus! {

/// A timestamped IQ sample buffer.
///
/// `bytes` is the entire received datagram: an 8-byte timestamp prefix
/// followed by repeating 8-byte symbol records (two little-endian signed
/// 16-bit sample words, I and Q, plus two unused auxiliary words).
/// `tsf` is the hardware tick decoded from the prefix.
pub struct IqPkt {
    pub tsf: u64,
    pub bytes: Vec<u8>,
}

/// The mathematical value of an [`IqPkt`].
pub ghost struct IqPktView {
    pub tsf: u64,
    pub bytes: Seq<u8>,
}

impl View for IqPkt {
    type V = IqPktView;

    open spec fn view(&self) -> IqPktView {
        IqPktView { tsf: self.tsf, bytes: self.bytes@ }
    }
}

/// A timestamped 802.11 frame-metadata packet.
///
/// `header` is the full raw captured frame (radiotap header, 802.11 header
/// and any trailer).  `tsf` is the radiotap TSFT field, a microsecond
/// hardware tick.  `mac` is the transmitter address in canonical
/// colon-separated hex, `seq` the sequence number from the sequence-control
/// field, and `rssi_dbm` the antenna signal (0 when the capture reported
/// none).
pub struct RtPkt {
    pub tsf: u64,
    pub header: Vec<u8>,
    pub mac: String,
    pub seq: u16,
    pub rssi_dbm: i8,
}

/// The mathematical value of an [`RtPkt`].
pub ghost struct RtPktView {
    pub tsf: u64,
    pub header: Seq<u8>,
    pub mac: Seq<char>,
    pub seq: u16,
    pub rssi_dbm: i8,
}

impl View for RtPkt {
    type V = RtPktView;

    open spec fn view(&self) -> RtPktView {
        RtPktView {
            tsf: self.tsf,
            header: self.header@,
            mac: self.mac@,
            seq: self.seq,
            rssi_dbm: self.rssi_dbm,
        }
    }
}

/// Anything carrying the shared hardware tick that the correlator joins on.
pub trait Timestamped {
    /// The tick value, at the specification level.
    spec fn spec_tsf(&self) -> u64;

    /// The tick value.
    fn tsf(&self) -> (r: u64)
        ensures
            r == self.spec_tsf(),
    ;
}

impl Timestamped for IqPkt {
    open spec fn spec_tsf(&self) -> u64 {
        self.tsf
    }

    fn tsf(&self) -> (r: u64) {
        self.tsf
    }
}

impl Timestamped for RtPkt {
    open spec fn spec_tsf(&self) -> u64 {
        self.tsf
    }

    fn tsf(&self) -> (r: u64) {
        self.tsf
    }
}

/// The error a sink reports when it cannot transmit a matched pair.
/// It is fatal: the pipeline propagates it and stops.
#[derive(Clone, Copy, PartialEq, Eq, Structural, Debug)]
pub struct SinkError;

/// A consumer of matched pairs.  The pipeline's outbound side implements
/// this outside the library; the correlator's driver hands every matched
/// pair to exactly one `consume` call.
pub trait Sink {
    fn consume(&mut self, rt: RtPkt, iq: IqPkt) -> Result<(), SinkError>;
}

} // verus!
