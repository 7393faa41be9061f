use crate::codec::spec_iq_tsf;
use crate::types::IqPkt;
use vstd::prelude::*;

verus! {

/// Length of the timestamp prefix at the head of every IQ datagram.
pub const IQ_PREFIX_LEN: usize = 8;

/// Turns one received datagram into a timestamped IQ packet.
///
/// A datagram shorter than the 8-byte timestamp prefix carries no usable
/// timestamp and is rejected; otherwise the packet keeps the entire payload
/// (prefix included — the encoder re-derives body offsets) and the tick
/// decoded from the prefix.
pub fn parse_iq_datagram(payload: Vec<u8>) -> (r: Option<IqPkt>)
    ensures
        r is Some <==> payload@.len() >= IQ_PREFIX_LEN,
        r matches Some(p) ==> p@.bytes == payload@ && p@.tsf == spec_iq_tsf(payload@),
{
    if payload.len() < IQ_PREFIX_LEN {
        None
    } else {
        let tsf = crate::codec::decode_iq_tsf(payload.as_slice());
        Some(IqPkt { tsf, bytes: payload })
    }
}

} // verus!
