//! The information field of a Connect Request: the window that is proposed, and the
//! user and the node that the circuit is opened for.
//!
//! Octets after the first fifteen are an extension of the peer's and are ignored. One
//! such extension is two octets with the session timer, low octet first, in whose high
//! octet one bit offers compression.

use vstd::prelude::*;
use vstd::slice::slice_subrange;

use super::callsign;
use super::callsign::{append_shifted, try_read_shifted, SHIFTED_LENGTH};
use crate::ax25::address;
use crate::ax25::callsign::{Callsign, CallsignView};
use crate::bytes;

verus! {

/// Octets of the field.
pub const CONNECT_REQUEST_INFO_LEN: usize = 15;

/// Octets of the field with the session timer.
pub const CONNECT_REQUEST_INFO_EXTENDED_LEN: usize = 17;

/// The bit of the timer's high octet that offers compression.
pub const CONNECT_REQUEST_COMPRESS_BIT: u8 = 0x40;

/// What a Connect Request proposes.
#[derive(Debug, Clone, Copy, PartialEq, Eq)]
pub struct ConnectRequestInfo {
    /// The proposed send window (1 to 127).
    pub proposed_window: u8,
    /// The user that the circuit is opened for.
    pub originating_user: Callsign,
    /// The node that opens it.
    pub originating_node: Callsign,
}

/// What the field holds.
pub struct ConnectRequestView {
    pub proposed_window: u8,
    pub originating_user: CallsignView,
    pub originating_node: CallsignView,
}

impl View for ConnectRequestInfo {
    type V = ConnectRequestView;

    open spec fn view(&self) -> ConnectRequestView {
        ConnectRequestView {
            proposed_window: self.proposed_window,
            originating_user: self.originating_user@,
            originating_node: self.originating_node@,
        }
    }
}

impl ConnectRequestView {
    /// Both callsigns are valid.
    pub open spec fn valid(self) -> bool {
        self.originating_user.valid() && self.originating_node.valid()
    }

    /// The fifteen octets of the field.
    pub open spec fn octets(self) -> Seq<u8> {
        seq![self.proposed_window] + callsign::plain_shifted(self.originating_user)
            + callsign::plain_shifted(self.originating_node)
    }

    /// The seventeen octets of the field with the session timer. Of the timer, the
    /// low twelve bits are sent.
    pub open spec fn extended_octets(self, timer: u16, offer: bool) -> Seq<u8> {
        self.octets() + seq![
            (timer % 256) as u8,
            (timer / 256 % 16 + if offer {
                64int
            } else {
                0
            }) as u8,
        ]
    }
}

/// What a field holds, if it is long enough and both callsigns decode.
pub open spec fn connect_request_in(s: Seq<u8>) -> Option<ConnectRequestView> {
    if s.len() < CONNECT_REQUEST_INFO_LEN {
        None
    } else {
        match (address::unshifted(s.subrange(1, 8)), address::unshifted(s.subrange(8, 15))) {
            (Some(user), Some(node)) => Some(
                ConnectRequestView {
                    proposed_window: s[0],
                    originating_user: user.callsign,
                    originating_node: node.callsign,
                },
            ),
            _ => None,
        }
    }
}

/// The field offers compression: it has the session timer and the bit is up.
pub open spec fn offers(s: Seq<u8>) -> bool {
    s.len() >= CONNECT_REQUEST_INFO_EXTENDED_LEN && s[16] / 64 % 2 == 1
}

/// Whatever octets follow the field, it is read back from those that it is written as.
pub proof fn law_extensions_are_passed_over(v: ConnectRequestView, rest: Seq<u8>)
    requires
        v.valid(),
    ensures
        v.octets().len() == CONNECT_REQUEST_INFO_LEN,
        connect_request_in(v.octets() + rest) == Some(v),
{
    let s: Seq<u8> = v.octets() + rest;
    callsign::law_callsign_field_round_trip(v.originating_user);
    callsign::law_callsign_field_round_trip(v.originating_node);
    assert(s.subrange(1, 8) =~= callsign::plain_shifted(v.originating_user));
    assert(s.subrange(8, 15) =~= callsign::plain_shifted(v.originating_node));
}

/// The field is read back from the octets that it is written as, in either form. The
/// long form offers compression exactly when it was asked to, and the short form never
/// does.
pub proof fn law_connect_request_round_trip(v: ConnectRequestView, timer: u16, offer: bool)
    requires
        v.valid(),
    ensures
        connect_request_in(v.octets()) == Some(v),
        connect_request_in(v.extended_octets(timer, offer)) == Some(v),
        offers(v.extended_octets(timer, offer)) == offer,
        !offers(v.octets()),
{
    law_extensions_are_passed_over(v, Seq::empty());
    assert(v.octets() + Seq::empty() =~= v.octets());
    let tail: Seq<u8> = v.extended_octets(timer, offer).skip(15);
    law_extensions_are_passed_over(v, tail);
    assert(v.octets() + tail =~= v.extended_octets(timer, offer));
}

impl ConnectRequestInfo {
    fn append_to(&self, out: &mut Vec<u8>)
        ensures
            final(out)@ == old(out)@ + self@.octets(),
    {
        out.push(self.proposed_window);
        append_shifted(&self.originating_user, out);
        append_shifted(&self.originating_node, out);
        assert(out@ =~= old(out)@ + self@.octets());
    }

    /// Writes the field over the front of `dst`. `None` if `dst` is too short.
    pub fn encode(&self, dst: &mut [u8]) -> (r: Option<()>)
        ensures
            bytes::written(old(dst)@, final(dst)@, self@.octets(), r is Some),
    {
        let mut out: Vec<u8> = Vec::new();
        self.append_to(&mut out);
        assert(out@ =~= self@.octets());
        match bytes::put_front(dst, out.as_slice()) {
            Some(_) => Some(()),
            None => None,
        }
    }

    /// Writes the field with the session timer over the front of `dst`, offering
    /// compression if told to. `None` if `dst` is too short.
    pub fn encode_extended(
        &self,
        dst: &mut [u8],
        timer_seconds: u16,
        offer_compression: bool,
    ) -> (r: Option<()>)
        ensures
            bytes::written(
                old(dst)@,
                final(dst)@,
                self@.extended_octets(timer_seconds, offer_compression),
                r is Some,
            ),
    {
        let mut out: Vec<u8> = Vec::new();
        self.append_to(&mut out);
        out.push((timer_seconds % 256) as u8);
        let mut hi: u8 = (timer_seconds / 256 % 16) as u8;
        if offer_compression {
            hi = hi + CONNECT_REQUEST_COMPRESS_BIT;
        }
        out.push(hi);
        assert(out@ =~= self@.extended_octets(timer_seconds, offer_compression));
        match bytes::put_front(dst, out.as_slice()) {
            Some(_) => Some(()),
            None => None,
        }
    }

    /// Whether a field offers compression.
    pub fn offers_compression(info: &[u8]) -> (r: bool)
        ensures
            r == offers(info@),
    {
        if info.len() < CONNECT_REQUEST_INFO_EXTENDED_LEN {
            return false;
        }
        proof {
            bytes::lemma_octet_masks(info@[16]);
        }
        info[16] & CONNECT_REQUEST_COMPRESS_BIT != 0
    }

    /// Reads a field. `None` if it is shorter than fifteen octets or a callsign does
    /// not decode.
    pub fn decode(info: &[u8]) -> (r: Option<ConnectRequestInfo>)
        ensures
            match r {
                Some(v) => connect_request_in(info@) == Some(v@),
                None => connect_request_in(info@) is None,
            },
    {
        if info.len() < CONNECT_REQUEST_INFO_LEN {
            return None;
        }
        let originating_user = match try_read_shifted(
            slice_subrange(info, 1, 1 + SHIFTED_LENGTH),
        ) {
            Some(c) => c,
            None => {
                return None;
            },
        };
        let originating_node = match try_read_shifted(
            slice_subrange(info, 8, CONNECT_REQUEST_INFO_LEN),
        ) {
            Some(c) => c,
            None => {
                return None;
            },
        };
        Some(
            ConnectRequestInfo { proposed_window: info[0], originating_user, originating_node },
        )
    }
}

} // verus!
