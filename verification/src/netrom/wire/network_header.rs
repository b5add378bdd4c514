//! The network header of NET/ROM: the fifteen octets before every datagram between
//! nodes. It names the origin and the destination node, end to end, and carries the
//! count of hops that are left.

use vstd::prelude::*;
use vstd::slice::slice_subrange;

use super::callsign;
use super::callsign::{append_shifted, try_read_shifted, SHIFTED_LENGTH};
use crate::ax25::address;
use crate::ax25::callsign::{Callsign, CallsignView};
use crate::bytes;

verus! {

/// Octets of a network header.
pub const NETWORK_HEADER_LEN: usize = 15;

/// The time-to-live that a datagram starts with.
pub const DEFAULT_TIME_TO_LIVE: u8 = 25;

/// A network header.
#[derive(Debug, Clone, Copy, PartialEq, Eq)]
pub struct NetRomNetworkHeader {
    /// The node that the datagram comes from.
    pub origin: Callsign,
    /// The node that the datagram goes to.
    pub destination: Callsign,
    /// The hops that are left. A forwarding node takes one off and discards at 0.
    pub time_to_live: u8,
}

/// What a network header holds.
pub struct NetworkView {
    pub origin: CallsignView,
    pub destination: CallsignView,
    pub time_to_live: u8,
}

impl View for NetRomNetworkHeader {
    type V = NetworkView;

    open spec fn view(&self) -> NetworkView {
        NetworkView {
            origin: self.origin@,
            destination: self.destination@,
            time_to_live: self.time_to_live,
        }
    }
}

impl NetworkView {
    /// Both callsigns are valid.
    pub open spec fn valid(self) -> bool {
        self.origin.valid() && self.destination.valid()
    }

    /// The fifteen octets of the header.
    pub open spec fn octets(self) -> Seq<u8> {
        callsign::plain_shifted(self.origin) + callsign::plain_shifted(self.destination)
            + seq![self.time_to_live]
    }

    /// The header with one hop fewer left, if any is.
    pub open spec fn forwarded(self) -> NetworkView {
        NetworkView {
            time_to_live: if self.time_to_live == 0 {
                0
            } else {
                (self.time_to_live - 1) as u8
            },
            ..self
        }
    }

    /// The header after `n` hops.
    pub open spec fn forwarded_by(self, n: nat) -> NetworkView
        decreases n,
    {
        if n == 0 {
            self
        } else {
            self.forwarded_by((n - 1) as nat).forwarded()
        }
    }
}

/// The header that the first fifteen octets of `s` hold, if both callsigns decode.
pub open spec fn network_in(s: Seq<u8>) -> Option<NetworkView> {
    if s.len() < NETWORK_HEADER_LEN {
        None
    } else {
        match (address::unshifted(s.subrange(0, 7)), address::unshifted(s.subrange(7, 14))) {
            (Some(origin), Some(destination)) => Some(
                NetworkView {
                    origin: origin.callsign,
                    destination: destination.callsign,
                    time_to_live: s[14],
                },
            ),
            _ => None,
        }
    }
}

/// A header is read back from the octets that it is written as, whatever follows
/// them.
pub proof fn law_network_round_trip(h: NetworkView, rest: Seq<u8>)
    requires
        h.valid(),
    ensures
        h.octets().len() == NETWORK_HEADER_LEN,
        network_in(h.octets() + rest) == Some(h),
{
    let s: Seq<u8> = h.octets() + rest;
    callsign::law_callsign_field_round_trip(h.origin);
    callsign::law_callsign_field_round_trip(h.destination);
    assert(s.subrange(0, 7) =~= callsign::plain_shifted(h.origin));
    assert(s.subrange(7, 14) =~= callsign::plain_shifted(h.destination));
}

/// A datagram travels no further than its time-to-live: after as many hops none is
/// left, and its end points are the same.
pub proof fn law_hops_run_out(h: NetworkView, n: nat)
    ensures
        h.forwarded_by(n).origin == h.origin,
        h.forwarded_by(n).destination == h.destination,
        h.forwarded_by(n).time_to_live == if n < h.time_to_live {
            h.time_to_live - n
        } else {
            0
        },
    decreases n,
{
    if n > 0 {
        law_hops_run_out(h, (n - 1) as nat);
    }
}

impl NetRomNetworkHeader {
    /// The header with one hop fewer left. At 0 it stays at 0; the caller forwards
    /// only what has a hop left.
    pub fn decremented(&self) -> (r: NetRomNetworkHeader)
        ensures
            r@ == self@.forwarded(),
    {
        NetRomNetworkHeader {
            origin: self.origin,
            destination: self.destination,
            time_to_live: if self.time_to_live == 0 {
                0
            } else {
                self.time_to_live - 1
            },
        }
    }

    /// Appends the fifteen octets of the header to `out`.
    pub(crate) fn append_to(&self, out: &mut Vec<u8>)
        ensures
            final(out)@ == old(out)@ + self@.octets(),
    {
        append_shifted(&self.origin, out);
        append_shifted(&self.destination, out);
        out.push(self.time_to_live);
        assert(out@ =~= old(out)@ + self@.octets());
    }

    /// Writes the header over the front of `dst`. `None` if `dst` is too short.
    pub fn encode(&self, dst: &mut [u8]) -> (r: Option<()>)
        ensures
            bytes::written(old(dst)@, final(dst)@, self@.octets(), r is Some),
    {
        let mut out: Vec<u8> = Vec::new();
        self.append_to(&mut out);
        assert(out@ =~= self@.octets());
        match bytes::put_front(dst, out.as_slice()) {
            Some(_) => Some(()),
            None => None,
        }
    }

    /// Reads a header off the front of `src`. `None` if `src` is too short or either
    /// callsign does not decode.
    pub fn decode(src: &[u8]) -> (r: Option<NetRomNetworkHeader>)
        ensures
            match r {
                Some(h) => network_in(src@) == Some(h@),
                None => network_in(src@) is None,
            },
    {
        if src.len() < NETWORK_HEADER_LEN {
            return None;
        }
        let origin = match try_read_shifted(slice_subrange(src, 0, SHIFTED_LENGTH)) {
            Some(c) => c,
            None => {
                return None;
            },
        };
        let destination = match try_read_shifted(
            slice_subrange(src, SHIFTED_LENGTH, SHIFTED_LENGTH + SHIFTED_LENGTH),
        ) {
            Some(c) => c,
            None => {
                return None;
            },
        };
        Some(NetRomNetworkHeader { origin, destination, time_to_live: src[14] })
    }
}

} // verus!
