//! The INP3 link-time probe: an ordinary datagram to the literal node `L3RTT` whose
//! payload is a text with the sender's capabilities.
//!
//! The neighbour sends the probe back as it is, and the prober times the round trip.
//! The destination tells a probe from a Connect Acknowledge, which has the same opcode.
//! The origin tells a probe of one's own that came back from a peer's probe.

use vstd::prelude::*;

use super::network_header::{NetRomNetworkHeader, NetworkView, DEFAULT_TIME_TO_LIVE};
use super::packet;
use super::packet::{NetRomPacket, PacketView};
use super::transport_header::{NetRomTransportHeader, OPCODE_MASK};
use crate::ax25::callsign;
use crate::ax25::callsign::{Callsign, CallsignView};
use crate::bytes;
use crate::numbers;
use crate::text::same_bytes;

verus! {

/// The base callsign that every probe goes to: `L3RTT`.
pub const L3RTT_BASE: [u8; 5] = [0x4C, 0x33, 0x52, 0x54, 0x54];

/// The secondary identifier that every probe goes to.
pub const L3RTT_SSID: u8 = 0;

/// The opcode of a probe.
pub const L3RTT_OPCODE: u8 = 0x02;

/// The width to which the text of a probe is padded.
pub const DEFAULT_CAPABILITY_TEXT_WIDTH: usize = 8;

/// A probe.
#[derive(Debug, Clone, PartialEq, Eq)]
pub struct Inp3L3RttFrame {
    /// The network header.
    pub network: NetRomNetworkHeader,
    /// The transport header.
    pub transport: NetRomTransportHeader,
    /// Whether the text says that the sender speaks INP3 (`$N`).
    pub inp3_capable: bool,
    /// The IP version that the text says the sender accepts (`$I` and a digit).
    pub ip_accept: Option<u8>,
    /// The text, padding included.
    pub capability_text: Vec<u8>,
}

/// What a probe holds.
pub struct ProbeView {
    pub network: NetworkView,
    pub transport: NetRomTransportHeader,
    pub inp3_capable: bool,
    pub ip_accept: Option<u8>,
    pub capability_text: Seq<u8>,
}

impl View for Inp3L3RttFrame {
    type V = ProbeView;

    open spec fn view(&self) -> ProbeView {
        ProbeView {
            network: self.network@,
            transport: self.transport,
            inp3_capable: self.inp3_capable,
            ip_accept: self.ip_accept,
            capability_text: self.capability_text@,
        }
    }
}

impl ProbeView {
    /// The probe as a datagram.
    pub open spec fn packet(self) -> PacketView {
        PacketView {
            network: self.network,
            transport: self.transport,
            payload: self.capability_text,
        }
    }
}

/// The token `$N` stands at index `i`.
pub open spec fn says_inp3(text: Seq<u8>, i: int) -> bool {
    0 <= i && i + 1 < text.len() && text[i] == 0x24 && text[i + 1] == 0x4E
}

/// The token `$I` and a digit stand at index `i`.
pub open spec fn says_ip(text: Seq<u8>, i: int) -> bool {
    &&& 0 <= i
    &&& i + 2 < text.len()
    &&& text[i] == 0x24
    &&& text[i + 1] == 0x49
    &&& numbers::is_digit(text[i + 2])
}

/// The text says that the sender speaks INP3.
pub open spec fn capable(text: Seq<u8>) -> bool {
    exists|i: int| says_inp3(text, i)
}

/// The IP version that the first such token from index `i` on names.
pub open spec fn ip_from(text: Seq<u8>, i: int) -> Option<u8>
    decreases text.len() - i,
{
    if i >= text.len() {
        None
    } else if says_ip(text, i) {
        Some((text[i + 2] - 0x30) as u8)
    } else {
        ip_from(text, i + 1)
    }
}

/// The tokens of a probe.
pub open spec fn tokens(ip_accept: Option<u8>) -> Seq<u8> {
    match ip_accept {
        Some(v) => seq![0x24u8, 0x4E, 0x24, 0x49, (0x30 + v) as u8],
        None => seq![0x24u8, 0x4E],
    }
}

/// The tokens of a probe, padded to a width.
pub open spec fn padded(tokens: Seq<u8>, width: nat) -> Seq<u8> {
    tokens + bytes::spaces(if tokens.len() < width {
        (width - tokens.len()) as nat
    } else {
        0
    })
}

/// The node that every probe goes to.
pub open spec fn l3rtt() -> CallsignView {
    CallsignView { base: L3RTT_BASE@, ssid: 0 }
}

/// The datagram is a probe: it goes to `L3RTT`, whatever the secondary identifier, and
/// has the opcode.
pub open spec fn is_probe(p: PacketView) -> bool {
    p.network.destination.base == L3RTT_BASE@ && p.transport.opcode % 16 == L3RTT_OPCODE
}

/// The probe that a datagram is, if it is one.
pub open spec fn probe_of(p: PacketView) -> Option<ProbeView> {
    if is_probe(p) {
        Some(
            ProbeView {
                network: p.network,
                transport: p.transport,
                inp3_capable: capable(p.payload),
                ip_accept: ip_from(p.payload, 0),
                capability_text: p.payload,
            },
        )
    } else {
        None
    }
}

/// The probe that an information field holds, if it holds one.
pub open spec fn probe_in(info: Seq<u8>) -> Option<ProbeView> {
    match packet::packet_in(info) {
        Some(p) => probe_of(p),
        None => None,
    }
}

/// The probe that a node sends.
pub open spec fn built(
    origin: CallsignView,
    ip_accept: Option<u8>,
    time_to_live: u8,
    width: nat,
) -> ProbeView {
    ProbeView {
        network: NetworkView { origin, destination: l3rtt(), time_to_live },
        transport: NetRomTransportHeader {
            circuit_index: 0,
            circuit_id: 0,
            tx_sequence: 0,
            rx_sequence: 0,
            opcode: L3RTT_OPCODE,
            flags: 0,
        },
        inp3_capable: true,
        ip_accept,
        capability_text: padded(tokens(ip_accept), width),
    }
}

/// The IP version, where there is one, is a digit.
pub open spec fn digit_or_none(ip_accept: Option<u8>) -> bool {
    ip_accept matches Some(v) ==> v <= 9
}

proof fn lemma_no_ip_in_padding(text: Seq<u8>, i: int)
    requires
        0 <= i,
        forall|j: int| i <= j < text.len() ==> text[j] == 0x20,
    ensures
        ip_from(text, i) is None,
    decreases text.len() - i,
{
    if i < text.len() {
        lemma_no_ip_in_padding(text, i + 1);
    }
}

/// A probe is read back from the octets that it is sent as, capabilities included,
/// whatever the width. So it is when a neighbour sends those octets back; its origin is
/// then still the prober.
pub proof fn law_probe_round_trip(
    origin: CallsignView,
    ip_accept: Option<u8>,
    time_to_live: u8,
    width: nat,
)
    requires
        origin.valid(),
        digit_or_none(ip_accept),
    ensures
        ({
            let p: ProbeView = built(origin, ip_accept, time_to_live, width);
            &&& probe_in(p.packet().octets()) == Some(p)
            &&& p.network.origin == origin
        }),
{
    let p: ProbeView = built(origin, ip_accept, time_to_live, width);
    let text: Seq<u8> = p.capability_text;
    lemma_l3rtt_is_valid();
    packet::law_packet_round_trip(p.packet());
    assert(says_inp3(text, 0));
    match ip_accept {
        Some(v) => {
            assert(!says_ip(text, 0) && !says_ip(text, 1));
            assert(says_ip(text, 2));
            assert(ip_from(text, 2) == Some(v));
            assert(ip_from(text, 1) == Some(v));
            assert(ip_from(text, 0) == Some(v));
        },
        None => {
            lemma_no_ip_in_padding(text, 2);
            assert(ip_from(text, 1) is None);
            assert(ip_from(text, 0) is None);
        },
    }
}

proof fn lemma_l3rtt_is_valid()
    ensures
        l3rtt().valid(),
        callsign::callsign_of(L3RTT_BASE@, L3RTT_SSID) == Some(l3rtt()),
{
    let b: Seq<u8> = L3RTT_BASE@;
    assert(b.len() == 5);
    assert(b[0] == 0x4C && b[1] == 0x33 && b[2] == 0x52 && b[3] == 0x54 && b[4] == 0x54);
    assert forall|i: int| 0 <= i < b.len() implies callsign::is_call_char(#[trigger] b[i]) by {
        assert(i == 0 || i == 1 || i == 2 || i == 3 || i == 4);
    }
}

impl Inp3L3RttFrame {
    /// A probe from `origin` that is padded to the default width. `None` if the IP
    /// version is no digit.
    pub fn build(origin: Callsign, ip_accept: Option<u8>) -> (r: Option<Inp3L3RttFrame>)
        ensures
            match r {
                Some(p) => digit_or_none(ip_accept) && p@ == built(
                    origin@,
                    ip_accept,
                    DEFAULT_TIME_TO_LIVE,
                    DEFAULT_CAPABILITY_TEXT_WIDTH as nat,
                ),
                None => !digit_or_none(ip_accept),
            },
    {
        Inp3L3RttFrame::build_with(
            origin,
            ip_accept,
            DEFAULT_TIME_TO_LIVE,
            DEFAULT_CAPABILITY_TEXT_WIDTH,
        )
    }

    /// A probe from `origin`. The tokens are never cut short: a width that is smaller
    /// adds no padding. `None` if the IP version is no digit.
    pub fn build_with(
        origin: Callsign,
        ip_accept: Option<u8>,
        time_to_live: u8,
        capability_text_width: usize,
    ) -> (r: Option<Inp3L3RttFrame>)
        ensures
            match r {
                Some(p) => digit_or_none(ip_accept) && p@ == built(
                    origin@,
                    ip_accept,
                    time_to_live,
                    capability_text_width as nat,
                ),
                None => !digit_or_none(ip_accept),
            },
    {
        let mut text: Vec<u8> = Vec::new();
        text.push(0x24);
        text.push(0x4E);
        match ip_accept {
            Some(v) => {
                if v > 9 {
                    return None;
                }
                text.push(0x24);
                text.push(0x49);
                text.push(0x30 + v);
            },
            None => {},
        }
        let ghost unpadded = text@;
        assert(unpadded =~= tokens(ip_accept));
        assert(text@ =~= padded(unpadded, 0));
        while text.len() < capability_text_width
            invariant
                text@.len() >= unpadded.len(),
                text@.len() == unpadded.len() || text@.len() <= capability_text_width,
                text@ == padded(unpadded, text@.len()),
            decreases capability_text_width - text@.len(),
        {
            text.push(0x20);
            assert(text@ =~= padded(unpadded, text@.len()));
        }
        assert(text@ =~= padded(unpadded, capability_text_width as nat));
        proof {
            lemma_l3rtt_is_valid();
        }
        let destination = match Callsign::new(L3RTT_BASE.as_slice(), L3RTT_SSID) {
            Some(c) => c,
            None => {
                return None;
            },
        };
        Some(
            Inp3L3RttFrame {
                network: NetRomNetworkHeader { origin, destination, time_to_live },
                transport: NetRomTransportHeader {
                    circuit_index: 0,
                    circuit_id: 0,
                    tx_sequence: 0,
                    rx_sequence: 0,
                    opcode: L3RTT_OPCODE,
                    flags: 0,
                },
                inp3_capable: true,
                ip_accept,
                capability_text: text,
            },
        )
    }

    /// The probe as a datagram.
    pub fn packet(&self) -> (p: NetRomPacket<'_>)
        ensures
            p@ == self@.packet(),
    {
        NetRomPacket {
            network: self.network,
            transport: self.transport,
            payload: self.capability_text.as_slice(),
        }
    }

    /// The octets of the probe.
    pub fn to_bytes(&self) -> (b: Vec<u8>)
        ensures
            b@ == self@.packet().octets(),
    {
        let mut out: Vec<u8> = Vec::new();
        self.packet().append_to(&mut out);
        assert(out@ =~= self@.packet().octets());
        out
    }

    /// Reads a probe off an information field. `None` if it is no datagram, or one
    /// that is no probe.
    pub fn try_parse(info: &[u8]) -> (r: Option<Inp3L3RttFrame>)
        ensures
            match r {
                Some(p) => probe_in(info@) == Some(p@),
                None => probe_in(info@) is None,
            },
    {
        match NetRomPacket::decode(info) {
            Some(packet) => Inp3L3RttFrame::try_from_packet(&packet),
            None => None,
        }
    }

    /// The probe that a datagram is. `None` if it is none.
    pub fn try_from_packet(packet: &NetRomPacket<'_>) -> (r: Option<Inp3L3RttFrame>)
        ensures
            match r {
                Some(p) => probe_of(packet@) == Some(p@),
                None => probe_of(packet@) is None,
            },
    {
        if !is_l3rtt(packet) {
            return None;
        }
        let (inp3_capable, ip_accept) = scan_capabilities(packet.payload);
        let mut capability_text: Vec<u8> = Vec::new();
        bytes::append(&mut capability_text, packet.payload);
        assert(capability_text@ =~= packet.payload@);
        Some(
            Inp3L3RttFrame {
                network: packet.network,
                transport: packet.transport,
                inp3_capable,
                ip_accept,
                capability_text,
            },
        )
    }

    /// Whether this is a probe of ours that came back.
    pub fn is_reflection_of(&self, our_node_callsign: &Callsign) -> (r: bool)
        ensures
            r == (self@.network.origin == our_node_callsign@),
    {
        self.network.origin == *our_node_callsign
    }
}

/// Whether a datagram is a probe.
pub fn is_l3rtt(packet: &NetRomPacket<'_>) -> (r: bool)
    ensures
        r == is_probe(packet@),
{
    proof {
        bytes::lemma_octet_masks(packet.transport.opcode);
    }
    same_bytes(packet.network.destination.base(), L3RTT_BASE.as_slice())
        && packet.transport.opcode & OPCODE_MASK == L3RTT_OPCODE
}

/// The capabilities that a text names. A token that is not known is passed over.
fn scan_capabilities(text: &[u8]) -> (r: (bool, Option<u8>))
    ensures
        r.0 == capable(text@),
        r.1 == ip_from(text@, 0),
{
    let mut inp3_capable: bool = false;
    let mut ip_accept: Option<u8> = None;
    let mut i: usize = 0;
    while i < text.len()
        invariant
            i <= text@.len(),
            inp3_capable == exists|j: int| j < i && says_inp3(text@, j),
            ip_from(text@, 0) == if ip_accept is Some {
                ip_accept
            } else {
                ip_from(text@, i as int)
            },
        decreases text@.len() - i,
    {
        if text[i] == 0x24 && text.len() - i >= 2 {
            let kind: u8 = text[i + 1];
            if kind == 0x4E {
                inp3_capable = true;
                assert(says_inp3(text@, i as int));
            } else if kind == 0x49 && text.len() - i >= 3 {
                let digit: u8 = text[i + 2];
                if 0x30 <= digit && digit <= 0x39 && ip_accept.is_none() {
                    ip_accept = Some(digit - 0x30);
                }
            }
        }
        i = i + 1;
    }
    (inp3_capable, ip_accept)
}

} // verus!
