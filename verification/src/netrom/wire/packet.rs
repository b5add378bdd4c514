//! A NET/ROM datagram: the network header, the transport header, and the payload.

use vstd::prelude::*;
use vstd::slice::slice_subrange;

use super::network_header;
use super::network_header::{NetRomNetworkHeader, NetworkView, NETWORK_HEADER_LEN};
use super::transport_header;
use super::transport_header::NetRomTransportHeader;
use crate::bytes;

verus! {

/// Octets of the two headers.
pub const PACKET_HEADER_LEN: usize = 20;

/// The longest payload of a datagram, and so the size of a fragment.
pub const MAX_PAYLOAD: usize = 236;

/// A datagram. The payload is borrowed.
#[derive(Debug, Clone, Copy, PartialEq, Eq)]
pub struct NetRomPacket<'a> {
    /// The network header.
    pub network: NetRomNetworkHeader,
    /// The transport header.
    pub transport: NetRomTransportHeader,
    /// The payload.
    pub payload: &'a [u8],
}

/// What a datagram holds.
pub struct PacketView {
    pub network: NetworkView,
    pub transport: NetRomTransportHeader,
    pub payload: Seq<u8>,
}

impl<'a> View for NetRomPacket<'a> {
    type V = PacketView;

    open spec fn view(&self) -> PacketView {
        PacketView {
            network: self.network@,
            transport: self.transport,
            payload: self.payload@,
        }
    }
}

impl PacketView {
    /// Both headers are valid.
    pub open spec fn valid(self) -> bool {
        self.network.valid() && self.transport.valid()
    }

    /// The octets of the datagram.
    pub open spec fn octets(self) -> Seq<u8> {
        self.network.octets() + self.transport.octets() + self.payload
    }
}

/// The datagram that `s` holds, if both callsigns decode. A payload of any length
/// parses.
pub open spec fn packet_in(s: Seq<u8>) -> Option<PacketView> {
    if s.len() < PACKET_HEADER_LEN {
        None
    } else {
        match (network_header::network_in(s), transport_header::transport_in(s.skip(15))) {
            (Some(network), Some(transport)) => Some(
                PacketView { network, transport, payload: s.skip(20) },
            ),
            _ => None,
        }
    }
}

/// A datagram is read back from the octets that it is written as.
pub proof fn law_packet_round_trip(p: PacketView)
    requires
        p.valid(),
    ensures
        p.octets().len() == PACKET_HEADER_LEN + p.payload.len(),
        packet_in(p.octets()) == Some(p),
{
    let s: Seq<u8> = p.octets();
    network_header::law_network_round_trip(p.network, p.transport.octets() + p.payload);
    assert(s =~= p.network.octets() + (p.transport.octets() + p.payload));
    assert(s.skip(20) =~= p.payload);
    assert(s.skip(15) =~= p.transport.octets() + p.payload);
}

impl<'a> NetRomPacket<'a> {
    /// Appends the octets of the datagram to `out`.
    pub(crate) fn append_to(&self, out: &mut Vec<u8>)
        ensures
            final(out)@ == old(out)@ + self@.octets(),
    {
        self.network.append_to(out);
        self.transport.append_to(out);
        bytes::append(out, self.payload);
        assert(out@ =~= old(out)@ + self@.octets());
    }

    /// Writes the datagram over the front of `dst` and says how long it is. `None` if
    /// `dst` is too short.
    pub fn encode(&self, dst: &mut [u8]) -> (r: Option<usize>)
        ensures
            bytes::written(old(dst)@, final(dst)@, self@.octets(), r is Some),
            r matches Some(n) ==> n == self@.octets().len(),
    {
        let mut out: Vec<u8> = Vec::new();
        self.append_to(&mut out);
        assert(out@ =~= self@.octets());
        bytes::put_front(dst, out.as_slice())
    }

    /// Reads a datagram off `src`, whose end is the payload. `None` if `src` is
    /// shorter than the two headers or a callsign does not decode.
    pub fn decode(src: &'a [u8]) -> (r: Option<NetRomPacket<'a>>)
        ensures
            match r {
                Some(p) => packet_in(src@) == Some(p@),
                None => packet_in(src@) is None,
            },
    {
        if src.len() < PACKET_HEADER_LEN {
            return None;
        }
        let network = match NetRomNetworkHeader::decode(src) {
            Some(h) => h,
            None => {
                return None;
            },
        };
        let rest = slice_subrange(src, NETWORK_HEADER_LEN, src.len());
        assert(rest@ =~= src@.skip(15));
        let transport = match NetRomTransportHeader::decode(rest) {
            Some(h) => h,
            None => {
                return None;
            },
        };
        let payload = slice_subrange(src, PACKET_HEADER_LEN, src.len());
        assert(payload@ =~= src@.skip(20));
        Some(NetRomPacket { network, transport, payload })
    }
}

} // verus!
