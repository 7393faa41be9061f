//! Correlation pipeline for a software-defined-radio capture rig.
//!
//! Two independently clocked streams — raw IQ sample datagrams and captured
//! 802.11 management frames — are decoded, matched by their shared hardware
//! timestamp, and re-encoded for downstream transmission.  The modules are,
//! leaf first: the timestamp codec, the per-datagram and per-frame parsers,
//! the bounded-memory correlator, and the two outbound wire encoders.

pub mod codec;
pub mod encoder;
pub mod frame_source;
pub mod iq_source;
pub mod matcher;
pub mod types;
