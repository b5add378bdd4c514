//! The INP3 routing information frame: the body, opened by a signature octet, of an
//! interlink frame that carries routes with measured times.
//!
//! - [`Inp3Tlv`] is one type-length-value record.
//! - [`Inp3Rip`] is one routing entry: a destination, a hop count, a target time, and
//!   its records.
//! - [`Inp3Rif`] is the frame: the signature and its entries.
//!
//! An entry is closed by a zero octet, and an alias record has the type zero too. They
//! are told apart by position: a zero octet that is followed by a length and that many
//! octets, all inside the body, opens an alias record; any other closes the entry.

use vstd::prelude::*;
use vstd::slice::slice_subrange;
use vstd::string::StringSliceAdditionalSpecFns;

use super::callsign;
use super::callsign::{append_shifted, try_read_shifted, SHIFTED_LENGTH};
use crate::ax25::address;
use crate::ax25::callsign::{Callsign, CallsignView};
use crate::bytes;

verus! {

/// Which departures of a peer from the frame format are accepted.
#[derive(Debug, Clone, Copy, PartialEq, Eq, Structural)]
pub struct Inp3ParseOptions {
    /// Accept a frame without entries.
    pub allow_empty_rip_list: bool,
    /// Accept a frame whose last entry is cut short: keep the whole entries before it
    /// and drop the rest.
    pub allow_trailing_partial_rip: bool,
}

impl Inp3ParseOptions {
    /// Every tolerance on, or every one off.
    pub open spec fn all(on: bool) -> Inp3ParseOptions {
        Inp3ParseOptions { allow_empty_rip_list: on, allow_trailing_partial_rip: on }
    }

    /// Every tolerance on.
    pub fn lenient() -> (r: Inp3ParseOptions)
        ensures
            r == Inp3ParseOptions::all(true),
    {
        Inp3ParseOptions { allow_empty_rip_list: true, allow_trailing_partial_rip: true }
    }

    /// Every tolerance off.
    pub fn strict() -> (r: Inp3ParseOptions)
        ensures
            r == Inp3ParseOptions::all(false),
    {
        Inp3ParseOptions { allow_empty_rip_list: false, allow_trailing_partial_rip: false }
    }

    /// What BPQ nodes need: every tolerance on.
    pub fn bpq() -> (r: Inp3ParseOptions)
        ensures
            r == Inp3ParseOptions::all(true),
    {
        Inp3ParseOptions::lenient()
    }

    /// What XRouter nodes need: every tolerance on.
    pub fn xrouter() -> (r: Inp3ParseOptions)
        ensures
            r == Inp3ParseOptions::all(true),
    {
        Inp3ParseOptions::lenient()
    }
}

impl Default for Inp3ParseOptions {
    fn default() -> (r: Inp3ParseOptions)
        ensures
            r == Inp3ParseOptions::all(true),
    {
        Inp3ParseOptions::lenient()
    }
}

/// One type-length-value record. A record of a type that is not known here is kept
/// as it is and sent on unchanged.
#[derive(Debug, Clone, PartialEq, Eq)]
pub struct Inp3Tlv {
    /// The type.
    pub kind: u8,
    /// The value.
    pub value: Vec<u8>,
}

/// What a record holds.
pub struct TlvView {
    pub kind: u8,
    pub value: Seq<u8>,
}

impl View for Inp3Tlv {
    type V = TlvView;

    open spec fn view(&self) -> TlvView {
        TlvView { kind: self.kind, value: self.value@ }
    }
}

impl TlvView {
    /// The octets of the record, whose value is at most 255 long.
    pub open spec fn octets(self) -> Seq<u8> {
        seq![self.kind, self.value.len() as u8] + self.value
    }
}

/// A printable ASCII character, or a space in place of any other.
pub open spec fn blanked_char(c: char) -> u8 {
    if 0x20 <= c as u32 <= 0x7E {
        c as u8
    } else {
        0x20
    }
}

fn blank(c: char) -> (b: u8)
    ensures
        b == blanked_char(c),
{
    let code: u32 = c as u32;
    if 0x20 <= code && code <= 0x7E {
        code as u8
    } else {
        0x20
    }
}

/// A text in one octet for each character: a printable ASCII character itself, and a
/// space for any other.
pub open spec fn blanked(s: Seq<char>) -> Seq<u8> {
    s.map_values(|c: char| blanked_char(c))
}

/// The alias that fits into `room` octets, before the spaces at its end are taken off.
pub open spec fn fitting(value: Seq<u8>, room: nat) -> Seq<u8> {
    let p: Seq<u8> = callsign::printable(value);
    p.take(if p.len() < room {
        p.len() as int
    } else {
        room as int
    })
}

impl Inp3Tlv {
    /// The type of a record with the destination's alias.
    pub const ALIAS_TYPE: u8 = 0x00;

    /// The type of a record with an IP address: 4 octets, or 16.
    pub const IP_TYPE: u8 = 0x01;

    /// Octets of the record on the wire.
    pub fn encoded_length(&self) -> (n: usize)
        requires
            self.value@.len() + 2 <= usize::MAX,
        ensures
            n == self@.octets().len(),
    {
        2 + self.value.len()
    }

    /// Whether the type is one that is known here.
    pub fn is_known(&self) -> (r: bool)
        ensures
            r == (self.kind == 0x00 || self.kind == 0x01),
    {
        self.kind == Self::ALIAS_TYPE || self.kind == Self::IP_TYPE
    }

    /// A record with an alias. Each character that is not printable becomes a space.
    pub fn alias(alias: &str) -> (r: Inp3Tlv)
        ensures
            r@ == (TlvView { kind: 0x00, value: blanked(alias@) }),
    {
        let mut value: Vec<u8> = Vec::new();
        assert(alias@.take(0) =~= Seq::<char>::empty());
        for c in it: alias.chars()
            invariant
                it.seq() == alias@,
                value@ == blanked(alias@.take(it.index())),
        {
            value.push(blank(c));
            assert(value@ =~= blanked(alias@.take(it.index() + 1)));
        }
        assert(alias@.take(alias@.len() as int) =~= alias@);
        Inp3Tlv { kind: Self::ALIAS_TYPE, value }
    }

    /// A record with an IP address, given in network order.
    pub fn ip(address_bytes: &[u8]) -> (r: Inp3Tlv)
        ensures
            r@ == (TlvView { kind: 0x01, value: address_bytes@ }),
    {
        let mut value: Vec<u8> = Vec::new();
        bytes::append(&mut value, address_bytes);
        assert(value@ =~= address_bytes@);
        Inp3Tlv { kind: Self::IP_TYPE, value }
    }

    /// Writes the printable characters of the value over the front of `dst`, as many
    /// as fit, and says how many there are without the spaces at their end.
    pub fn as_alias(&self, dst: &mut [u8]) -> (n: usize)
        ensures
            final(dst)@ == bytes::patched(old(dst)@, 0, fitting(self.value@, old(dst)@.len())),
            n == bytes::trimmed(fitting(self.value@, old(dst)@.len())).len(),
            final(dst)@.take(n as int) == bytes::trimmed(fitting(self.value@, old(dst)@.len())),
    {
        let room: usize = dst.len();
        let mut len: usize = 0;
        let mut i: usize = 0;
        assert(self.value@.take(0) =~= Seq::<u8>::empty());
        assert(dst@ =~= bytes::patched(old(dst)@, 0, callsign::printable(self.value@.take(0))));
        while i < self.value.len() && len < room
            invariant
                i <= self.value@.len(),
                len <= room,
                room == dst@.len(),
                room == old(dst)@.len(),
                len == callsign::printable(self.value@.take(i as int)).len(),
                dst@ == bytes::patched(
                    old(dst)@,
                    0,
                    callsign::printable(self.value@.take(i as int)),
                ),
            decreases self.value@.len() - i,
        {
            let b: u8 = self.value[i];
            let ghost before = callsign::printable(self.value@.take(i as int));
            assert(self.value@.take(i + 1).drop_last() =~= self.value@.take(i as int));
            if 0x20 <= b && b <= 0x7E {
                dst[len] = b;
                len = len + 1;
                assert(dst@ =~= bytes::patched(old(dst)@, 0, before.push(b)));
            }
            i = i + 1;
        }
        let ghost f = fitting(self.value@, room as nat);
        proof {
            callsign::lemma_printable_extends(self.value@, i as int, self.value@.len() as int);
            assert(self.value@.take(self.value@.len() as int) =~= self.value@);
            assert(callsign::printable(self.value@.take(i as int)) =~= f);
        }
        let written = slice_subrange(&*dst, 0, len);
        assert(written@ =~= f);
        let n: usize = bytes::trimmed_len(written);
        assert(dst@.take(n as int) =~= f.take(n as int));
        n
    }

    /// The value as an IPv4 address, if it is 4 octets long.
    pub fn as_ipv4(&self) -> (r: Option<[u8; 4]>)
        ensures
            match r {
                Some(a) => self.value@ == a@,
                None => self.value@.len() != 4,
            },
    {
        if self.value.len() == 4 {
            let a: [u8; 4] = [self.value[0], self.value[1], self.value[2], self.value[3]];
            assert(a@ =~= self.value@);
            Some(a)
        } else {
            None
        }
    }

    /// The value as an IPv6 address, if it is 16 octets long.
    pub fn as_ipv6(&self) -> (r: Option<[u8; 16]>)
        ensures
            match r {
                Some(a) => self.value@ == a@,
                None => self.value@.len() != 16,
            },
    {
        if self.value.len() == 16 {
            let mut a: [u8; 16] = [0;16];
            let mut i: usize = 0;
            while i < 16
                invariant
                    i <= 16,
                    a@.len() == 16,
                    self.value@.len() == 16,
                    forall|j: int| 0 <= j < i ==> a@[j] == self.value@[j],
                decreases 16 - i,
            {
                a[i] = self.value[i];
                i = i + 1;
            }
            assert(a@ =~= self.value@);
            Some(a)
        } else {
            None
        }
    }

    /// Appends the octets of the record to `out`, if a length octet can count its
    /// value.
    fn append_to(&self, out: &mut Vec<u8>) -> (r: bool)
        ensures
            r == (self.value@.len() <= 255),
            r ==> final(out)@ == old(out)@ + self@.octets(),
    {
        if self.value.len() > 255 {
            return false;
        }
        out.push(self.kind);
        out.push(self.value.len() as u8);
        bytes::append(out, self.value.as_slice());
        assert(out@ =~= old(out)@ + self@.octets());
        true
    }
}

/// What a run of records holds.
pub open spec fn tlv_views(tlvs: Seq<Inp3Tlv>) -> Seq<TlvView> {
    tlvs.map_values(|t: Inp3Tlv| t@)
}

/// The octets of a run of records.
pub open spec fn tlv_region(tlvs: Seq<TlvView>) -> Seq<u8>
    decreases tlvs.len(),
{
    if tlvs.len() == 0 {
        Seq::empty()
    } else {
        tlvs[0].octets() + tlv_region(tlvs.skip(1))
    }
}

/// A whole record stands at the front of `s`.
pub open spec fn fits_tlv(s: Seq<u8>) -> bool {
    s.len() >= 2 && 2 + s[1] <= s.len()
}

/// The records at the front of `s`, up to the octet that closes the entry, and how
/// many octets they and it take. `None` if the entry is not closed.
pub open spec fn tlvs_in(s: Seq<u8>) -> Option<(Seq<TlvView>, nat)>
    decreases s.len(),
{
    if fits_tlv(s) {
        let first: TlvView = TlvView { kind: s[0], value: s.subrange(2, 2 + s[1]) };
        match tlvs_in(s.skip(2 + s[1])) {
            Some((rest, n)) => Some((seq![first] + rest, (2 + s[1] + n) as nat)),
            None => None,
        }
    } else if s.len() > 0 && s[0] == 0x00 {
        Some((Seq::empty(), 1))
    } else {
        None
    }
}

/// One routing entry: the destination is so many hops and so much time away.
#[derive(Debug, Clone, PartialEq, Eq)]
pub struct Inp3Rip {
    /// The destination node.
    pub destination: Callsign,
    /// Hops to the destination.
    pub hop_count: u8,
    /// Time to the destination in milliseconds. On the wire it is counted in units of
    /// 10 ms.
    pub target_time_ms: u32,
    /// The records of the entry.
    pub tlvs: Vec<Inp3Tlv>,
}

/// What an entry holds.
pub struct RipView {
    pub destination: CallsignView,
    pub hop_count: u8,
    pub target_time_ms: u32,
    pub tlvs: Seq<TlvView>,
}

impl View for Inp3Rip {
    type V = RipView;

    open spec fn view(&self) -> RipView {
        RipView {
            destination: self.destination@,
            hop_count: self.hop_count,
            target_time_ms: self.target_time_ms,
            tlvs: tlv_views(self.tlvs@),
        }
    }
}

impl RipView {
    /// The target time and the length of each value can be written.
    pub open spec fn encodable(self) -> bool {
        &&& self.target_time_ms <= 655350
        &&& forall|i: int| 0 <= i < self.tlvs.len() ==> (#[trigger] self.tlvs[i]).value.len() <= 255
    }

    /// The destination is valid and the target time is a whole number of units.
    pub open spec fn valid(self) -> bool {
        &&& self.destination.valid()
        &&& self.target_time_ms % 10 == 0
    }

    /// The octets of the entry.
    pub open spec fn octets(self) -> Seq<u8> {
        callsign::plain_shifted(self.destination) + seq![
            self.hop_count,
            (self.target_time_ms / 10 / 256) as u8,
            (self.target_time_ms / 10 % 256) as u8,
        ] + tlv_region(self.tlvs) + seq![0u8]
    }

    /// The entry takes the route back.
    pub open spec fn withdraws(self) -> bool {
        self.target_time_ms >= 600_000
    }
}

/// The entry at the front of `s`, and how many octets it takes.
pub open spec fn rip_in(s: Seq<u8>) -> Option<(RipView, nat)> {
    if s.len() < 10 {
        None
    } else {
        match (address::unshifted(s.subrange(0, 7)), tlvs_in(s.skip(10))) {
            (Some(destination), Some((tlvs, n))) => Some(
                (
                    RipView {
                        destination: destination.callsign,
                        hop_count: s[7],
                        target_time_ms: ((s[8] * 256 + s[9]) * 10) as u32,
                        tlvs,
                    },
                    10 + n,
                ),
            ),
            _ => None,
        }
    }
}

/// The first record of an alias.
pub open spec fn first_alias(tlvs: Seq<TlvView>) -> Option<TlvView>
    decreases tlvs.len(),
{
    if tlvs.len() == 0 {
        None
    } else if tlvs[0].kind == 0x00 {
        Some(tlvs[0])
    } else {
        first_alias(tlvs.skip(1))
    }
}

proof fn lemma_tlv_region_joins(a: Seq<TlvView>, b: Seq<TlvView>)
    ensures
        tlv_region(a + b) == tlv_region(a) + tlv_region(b),
    decreases a.len(),
{
    if a.len() == 0 {
        assert(a + b =~= b);
        assert(tlv_region(a) + tlv_region(b) =~= tlv_region(b));
    } else {
        lemma_tlv_region_joins(a.skip(1), b);
        assert((a + b).skip(1) =~= a.skip(1) + b);
        assert(tlv_region(a + b) =~= tlv_region(a) + tlv_region(b));
    }
}

proof fn lemma_tlv_region_one(t: TlvView)
    ensures
        tlv_region(seq![t]) == t.octets(),
{
    assert(seq![t].skip(1) =~= Seq::<TlvView>::empty());
    assert(tlv_region(Seq::<TlvView>::empty()) =~= Seq::<u8>::empty());
    assert(tlv_region(seq![t]) =~= t.octets());
}

/// The octets that are read are the records, as they would be written, and the octet
/// that closes the entry.
proof fn lemma_tlvs_in(s: Seq<u8>)
    ensures
        tlvs_in(s) matches Some((tlvs, n)) ==> {
            &&& 1 <= n <= s.len()
            &&& s.take(n as int) == tlv_region(tlvs).push(0)
            &&& forall|i: int| 0 <= i < tlvs.len() ==> (#[trigger] tlvs[i]).value.len() <= 255
        },
    decreases s.len(),
{
    if fits_tlv(s) {
        let m: int = 2 + s[1];
        let first: TlvView = TlvView { kind: s[0], value: s.subrange(2, m) };
        lemma_tlvs_in(s.skip(m));
        if let Some((rest, n)) = tlvs_in(s.skip(m)) {
            let tlvs: Seq<TlvView> = seq![first] + rest;
            assert(tlvs.skip(1) =~= rest);
            assert(first.octets() =~= s.take(m));
            assert(s.take(m + n) =~= s.take(m) + s.skip(m).take(n as int));
            assert(s.take(m + n) =~= tlv_region(tlvs).push(0));
            assert forall|i: int| 0 <= i < tlvs.len() implies (#[trigger] tlvs[i]).value.len()
                <= 255 by {
                if i > 0 {
                    assert(tlvs[i] == rest[i - 1]);
                }
            }
        }
    } else if s.len() > 0 && s[0] == 0x00 {
        assert(s.take(1) =~= tlv_region(Seq::empty()).push(0));
    }
}

/// Where the octets after an entry cannot be taken for a record, its records are read
/// back.
proof fn lemma_tlv_region_reads(tlvs: Seq<TlvView>, rest: Seq<u8>)
    requires
        forall|i: int| 0 <= i < tlvs.len() ==> (#[trigger] tlvs[i]).value.len() <= 255,
        rest.len() == 0 || rest.len() <= rest[0],
    ensures
        tlvs_in(tlv_region(tlvs).push(0) + rest) == Some((tlvs, tlv_region(tlvs).len() + 1)),
    decreases tlvs.len(),
{
    let s: Seq<u8> = tlv_region(tlvs).push(0) + rest;
    if tlvs.len() == 0 {
        assert(s =~= seq![0u8] + rest);
        if rest.len() > 0 {
            assert(s[1] == rest[0]);
        }
        assert(!fits_tlv(s));
        assert(tlvs =~= Seq::<TlvView>::empty());
    } else {
        let t: TlvView = tlvs[0];
        assert(t.value.len() <= 255);
        let m: int = 2 + s[1];
        assert(s[1] == t.value.len());
        assert(s =~= t.octets() + (tlv_region(tlvs.skip(1)).push(0) + rest));
        assert(fits_tlv(s));
        assert(s.subrange(2, m) =~= t.value);
        assert(s.skip(m) =~= tlv_region(tlvs.skip(1)).push(0) + rest);
        assert forall|i: int| 0 <= i < tlvs.skip(1).len() implies (#[trigger] tlvs.skip(
            1,
        )[i]).value.len() <= 255 by {
            assert(tlvs.skip(1)[i] == tlvs[i + 1]);
        }
        lemma_tlv_region_reads(tlvs.skip(1), rest);
        assert(seq![t] + tlvs.skip(1) =~= tlvs);
    }
}

/// An entry takes at least its prefix and the octet that closes it. Its records are
/// kept as they stand in the frame: written again they are the same octets.
pub proof fn law_records_are_kept(s: Seq<u8>)
    ensures
        rip_in(s) matches Some((rip, n)) ==> {
            &&& 11 <= n <= s.len()
            &&& rip.encodable()
            &&& s.subrange(10, n as int) == tlv_region(rip.tlvs).push(0)
        },
{
    if s.len() >= 10 {
        lemma_tlvs_in(s.skip(10));
        if let Some((tlvs, n)) = tlvs_in(s.skip(10)) {
            assert(s.subrange(10, (10 + n) as int) =~= s.skip(10).take(n as int));
        }
    }
}

proof fn lemma_rip_reads(rip: RipView, rest: Seq<u8>)
    requires
        rip.valid(),
        rip.encodable(),
        rest.len() == 0 || rest.len() <= rest[0],
    ensures
        rip_in(rip.octets() + rest) == Some((rip, rip.octets().len())),
        rip.octets().len() >= 11,
{
    let s: Seq<u8> = rip.octets() + rest;
    callsign::law_callsign_field_round_trip(rip.destination);
    assert(s.subrange(0, 7) =~= callsign::plain_shifted(rip.destination));
    assert(s.skip(10) =~= tlv_region(rip.tlvs).push(0) + rest);
    lemma_tlv_region_reads(rip.tlvs, rest);
}

/// An entry alone is read back from the octets that it is written as.
pub proof fn law_rip_round_trip(rip: RipView)
    requires
        rip.valid(),
        rip.encodable(),
    ensures
        rip_in(rip.octets()) == Some((rip, rip.octets().len())),
{
    lemma_rip_reads(rip, Seq::empty());
    assert(rip.octets() + Seq::empty() =~= rip.octets());
}

impl Inp3Rip {
    /// Octets before the records.
    pub const PREFIX_LENGTH: usize = 10;

    /// The target time, in units, of a destination that cannot be reached.
    pub const HORIZON_UNITS: u32 = 0xEA60;

    /// The target time, in milliseconds, of a destination that cannot be reached.
    pub const HORIZON_MS: u32 = 600_000;

    /// The greatest target time, in milliseconds, that can be written.
    pub const MAX_TARGET_TIME_MS: u32 = 655_350;

    /// The octet that closes an entry.
    pub const END_OF_PACKET: u8 = 0x00;

    /// Whether the entry takes the route back.
    pub fn is_horizon(&self) -> (r: bool)
        ensures
            r == self@.withdraws(),
    {
        self.target_time_ms >= Self::HORIZON_MS
    }

    /// Writes the alias in the first record of one over the front of `dst` and says
    /// how long it is. `None` if there is no such record.
    pub fn alias(&self, dst: &mut [u8]) -> (r: Option<usize>)
        ensures
            match first_alias(self@.tlvs) {
                Some(t) => {
                    let f: Seq<u8> = fitting(t.value, old(dst)@.len());
                    &&& r == Some(bytes::trimmed(f).len() as usize)
                    &&& final(dst)@ == bytes::patched(old(dst)@, 0, f)
                    &&& final(dst)@.take(bytes::trimmed(f).len() as int) == bytes::trimmed(f)
                },
                None => r is None && final(dst)@ == old(dst)@,
            },
    {
        let mut i: usize = 0;
        assert(self@.tlvs.skip(0) =~= self@.tlvs);
        while i < self.tlvs.len()
            invariant
                i <= self.tlvs@.len(),
                dst@ == old(dst)@,
                first_alias(self@.tlvs.skip(i as int)) == first_alias(self@.tlvs),
            decreases self.tlvs@.len() - i,
        {
            let tlv = &self.tlvs[i];
            assert(self@.tlvs.skip(i as int)[0] == tlv@);
            if tlv.kind == Inp3Tlv::ALIAS_TYPE {
                return Some(tlv.as_alias(dst));
            }
            assert(self@.tlvs.skip(i as int).skip(1) =~= self@.tlvs.skip(i + 1));
            i = i + 1;
        }
        None
    }

    /// Octets of the entry on the wire.
    pub fn encoded_length(&self) -> (n: usize)
        requires
            self@.octets().len() <= usize::MAX,
        ensures
            n == self@.octets().len(),
    {
        let ghost views = self@.tlvs;
        let mut len: usize = 10;
        let mut i: usize = 0;
        proof {
            assert(tlv_region(views.take(0)) =~= Seq::<u8>::empty());
        }
        while i < self.tlvs.len()
            invariant
                i <= self.tlvs@.len(),
                views == tlv_views(self.tlvs@),
                len == 10 + tlv_region(views.take(i as int)).len(),
                11 + tlv_region(views).len() <= usize::MAX,
            decreases self.tlvs@.len() - i,
        {
            proof {
                let k: int = i as int;
                let t: TlvView = views[k];
                lemma_tlv_region_joins(views.take(k), seq![t]);
                lemma_tlv_region_one(t);
                assert(views.take(k) + seq![t] =~= views.take(k + 1));
                lemma_tlv_region_joins(views.take(k + 1), views.skip(k + 1));
                assert(views.take(k + 1) + views.skip(k + 1) =~= views);
            }
            len = len + self.tlvs[i].encoded_length();
            i = i + 1;
        }
        assert(views.take(i as int) =~= views);
        len + 1
    }

    /// Appends the octets of the entry to `out`, if it can be written.
    fn append_to(&self, out: &mut Vec<u8>) -> (r: bool)
        ensures
            r == self@.encodable(),
            r ==> final(out)@ == old(out)@ + self@.octets(),
    {
        if self.target_time_ms > Self::MAX_TARGET_TIME_MS {
            return false;
        }
        let units: u32 = self.target_time_ms / 10;
        append_shifted(&self.destination, out);
        out.push(self.hop_count);
        out.push((units / 256) as u8);
        out.push((units % 256) as u8);
        let ghost prefix = out@;
        let ghost views = self@.tlvs;
        let mut i: usize = 0;
        assert(prefix + tlv_region(views.take(0)) =~= prefix);
        while i < self.tlvs.len()
            invariant
                i <= self.tlvs@.len(),
                views == tlv_views(self.tlvs@),
                views == self@.tlvs,
                out@ == prefix + tlv_region(views.take(i as int)),
                forall|k: int| 0 <= k < i ==> (#[trigger] views[k]).value.len() <= 255,
            decreases self.tlvs@.len() - i,
        {
            let ghost before = out@;
            assert(views[i as int] == self.tlvs@[i as int]@);
            if !self.tlvs[i].append_to(out) {
                assert(!self@.encodable()) by {
                    assert(self@.tlvs[i as int].value.len() > 255);
                }
                return false;
            }
            proof {
                let t: TlvView = views[i as int];
                lemma_tlv_region_joins(views.take(i as int), seq![t]);
                lemma_tlv_region_one(t);
                assert(views.take(i as int) + seq![t] =~= views.take(i + 1));
                assert(out@ =~= prefix + tlv_region(views.take(i + 1)));
            }
            i = i + 1;
        }
        assert(views.take(i as int) =~= views);
        out.push(Self::END_OF_PACKET);
        assert(out@ =~= old(out)@ + self@.octets());
        true
    }

    /// The octets of the entry. `None` if the target time is over 655350 ms or a value
    /// is longer than 255 octets.
    pub fn to_bytes(&self) -> (r: Option<Vec<u8>>)
        ensures
            match r {
                Some(b) => self@.encodable() && b@ == self@.octets(),
                None => !self@.encodable(),
            },
    {
        let mut out: Vec<u8> = Vec::new();
        if self.append_to(&mut out) {
            assert(out@ =~= self@.octets());
            Some(out)
        } else {
            None
        }
    }

    /// Reads one entry off the front of `source`, and says how many octets it takes.
    /// `None` if there is no whole entry there.
    pub fn try_parse(source: &[u8]) -> (r: Option<(Inp3Rip, usize)>)
        ensures
            match r {
                Some((rip, n)) => rip_in(source@) == Some((rip@, n as nat)) && 11 <= n
                    <= source@.len(),
                None => rip_in(source@) is None,
            },
    {
        if source.len() < Self::PREFIX_LENGTH {
            return None;
        }
        let destination = match try_read_shifted(slice_subrange(source, 0, SHIFTED_LENGTH)) {
            Some(c) => c,
            None => {
                return None;
            },
        };
        let hop_count: u8 = source[7];
        let units: u32 = source[8] as u32 * 256 + source[9] as u32;
        let ghost region = source@.skip(10);
        let mut tlvs: Vec<Inp3Tlv> = Vec::new();
        let mut offset: usize = Self::PREFIX_LENGTH;
        assert(tlv_views(tlvs@) =~= Seq::<TlvView>::empty());
        proof {
            assert(region.skip(0) =~= region);
            if let Some((rest, n)) = tlvs_in(region) {
                assert(tlv_views(tlvs@) + rest =~= rest);
            }
        }
        loop
            invariant_except_break
                10 <= offset <= source@.len(),
                tlvs_in(region) == match tlvs_in(region.skip(offset - 10)) {
                    Some((rest, n)) => Some((tlv_views(tlvs@) + rest, (offset - 10 + n) as nat)),
                    None => None::<(Seq<TlvView>, nat)>,
                },
            invariant
                region == source@.skip(10),
                address::unshifted(source@.subrange(0, 7)) is Some,
            ensures
                tlvs_in(region) == Some((tlv_views(tlvs@), (offset - 10) as nat)),
                11 <= offset <= source@.len(),
            decreases source@.len() - offset,
        {
            let ghost left = region.skip(offset - 10);
            if offset >= source.len() {
                return None;
            }
            let kind: u8 = source[offset];
            assert(left[0] == kind);
            let whole: bool = source.len() - offset >= 2 && source[offset + 1] as usize
                <= source.len() - offset - 2;
            assert(whole == fits_tlv(left));
            if !whole {
                if kind == Self::END_OF_PACKET {
                    offset = offset + 1;
                    assert(tlv_views(tlvs@) + Seq::<TlvView>::empty() =~= tlv_views(tlvs@));
                    break;
                }
                return None;
            }
            let len: usize = source[offset + 1] as usize;
            let mut value: Vec<u8> = Vec::new();
            bytes::append(&mut value, slice_subrange(source, offset + 2, offset + 2 + len));
            let ghost before = tlv_views(tlvs@);
            tlvs.push(Inp3Tlv { kind, value });
            proof {
                let first: TlvView = TlvView { kind: left[0], value: left.subrange(2, 2 + left[1]) };
                assert(value@ =~= left.subrange(2, 2 + left[1]));
                assert(tlv_views(tlvs@) =~= before.push(first));
                assert(left.skip(2 + left[1]) =~= region.skip(offset - 10 + 2 + len));
                if let Some((rest, n)) = tlvs_in(left.skip(2 + left[1])) {
                    assert(before + (seq![first] + rest) =~= before.push(first) + rest);
                }
            }
            offset = offset + 2 + len;
        }
        Some((Inp3Rip { destination, hop_count, target_time_ms: units * 10, tlvs }, offset))
    }
}

/// A routing information frame.
#[derive(Debug, Clone, PartialEq, Eq)]
pub struct Inp3Rif {
    /// The entries, in the order of the frame.
    pub rips: Vec<Inp3Rip>,
}

/// What a run of entries holds.
pub open spec fn rip_views(rips: Seq<Inp3Rip>) -> Seq<RipView> {
    rips.map_values(|r: Inp3Rip| r@)
}

impl View for Inp3Rif {
    type V = Seq<RipView>;

    open spec fn view(&self) -> Seq<RipView> {
        rip_views(self.rips@)
    }
}

/// The octets of a run of entries.
pub open spec fn rip_region(rips: Seq<RipView>) -> Seq<u8>
    decreases rips.len(),
{
    if rips.len() == 0 {
        Seq::empty()
    } else {
        rips[0].octets() + rip_region(rips.skip(1))
    }
}

/// The octets of a frame.
pub open spec fn rif_octets(rips: Seq<RipView>) -> Seq<u8> {
    seq![0xFFu8] + rip_region(rips)
}

/// Each entry can be written.
pub open spec fn all_encodable(rips: Seq<RipView>) -> bool {
    forall|i: int| 0 <= i < rips.len() ==> (#[trigger] rips[i]).encodable()
}

/// The whole entries at the front of `s`, and whether they take all of it.
pub open spec fn rips_in(s: Seq<u8>) -> (Seq<RipView>, bool)
    decreases s.len(),
{
    if s.len() == 0 {
        (Seq::empty(), true)
    } else {
        match rip_in(s) {
            Some((rip, n)) => {
                proof {
                    law_records_are_kept(s);
                }
                let (rest, whole) = rips_in(s.skip(n as int));
                (seq![rip] + rest, whole)
            },
            None => (Seq::empty(), false),
        }
    }
}

/// The entries of the frame that an information field holds under the given
/// tolerances.
pub open spec fn rif_in(info: Seq<u8>, options: Inp3ParseOptions) -> Option<Seq<RipView>> {
    if info.len() == 0 || info[0] != 0xFF {
        None
    } else {
        let (rips, whole) = rips_in(info.skip(1));
        if !whole && !options.allow_trailing_partial_rip {
            None
        } else if rips.len() == 0 && !options.allow_empty_rip_list {
            None
        } else {
            Some(rips)
        }
    }
}

/// No octet that closes an entry can be taken for the start of an alias record: what
/// follows it, read as the length of one, would reach beyond the frame.
pub open spec fn separable(rips: Seq<RipView>) -> bool {
    forall|k: int|
        0 < k < rips.len() ==> (#[trigger] rip_region(rips.skip(k))).len() <= rip_region(
            rips.skip(k),
        )[0]
}

proof fn lemma_rip_region_joins(a: Seq<RipView>, b: Seq<RipView>)
    ensures
        rip_region(a + b) == rip_region(a) + rip_region(b),
    decreases a.len(),
{
    if a.len() == 0 {
        assert(a + b =~= b);
        assert(rip_region(a) + rip_region(b) =~= rip_region(b));
    } else {
        lemma_rip_region_joins(a.skip(1), b);
        assert((a + b).skip(1) =~= a.skip(1) + b);
        assert(rip_region(a + b) =~= rip_region(a) + rip_region(b));
    }
}

proof fn lemma_rip_region_one(r: RipView)
    ensures
        rip_region(seq![r]) == r.octets(),
{
    assert(seq![r].skip(1) =~= Seq::<RipView>::empty());
    assert(rip_region(Seq::<RipView>::empty()) =~= Seq::<u8>::empty());
    assert(rip_region(seq![r]) =~= r.octets());
}

proof fn lemma_rip_region_reads(rips: Seq<RipView>)
    requires
        forall|i: int| 0 <= i < rips.len() ==> (#[trigger] rips[i]).valid(),
        all_encodable(rips),
        separable(rips),
    ensures
        rips_in(rip_region(rips)) == (rips, true),
    decreases rips.len(),
{
    if rips.len() == 0 {
        assert(rips =~= Seq::<RipView>::empty());
    } else {
        let s: Seq<u8> = rip_region(rips);
        let rest: Seq<RipView> = rips.skip(1);
        assert(rips[0].valid() && rips[0].encodable());
        if rest.len() > 0 {
            assert(rip_region(rips.skip(1)).len() <= rip_region(rips.skip(1))[0]);
        }
        lemma_rip_reads(rips[0], rip_region(rest));
        assert(s.skip(rips[0].octets().len() as int) =~= rip_region(rest));
        assert forall|i: int| 0 <= i < rest.len() implies (#[trigger] rest[i]).valid() by {
            assert(rest[i] == rips[i + 1]);
        }
        assert forall|i: int| 0 <= i < rest.len() implies (#[trigger] rest[i]).encodable() by {
            assert(rest[i] == rips[i + 1]);
        }
        assert forall|k: int| 0 < k < rest.len() implies (#[trigger] rip_region(
            rest.skip(k),
        )).len() <= rip_region(rest.skip(k))[0] by {
            assert(rest.skip(k) =~= rips.skip(k + 1));
            assert(rip_region(rips.skip(k + 1)).len() <= rip_region(rips.skip(k + 1))[0]);
        }
        lemma_rip_region_reads(rest);
        assert(seq![rips[0]] + rest =~= rips);
    }
}

/// A frame is read back from the octets that it is written as, by either parser,
/// provided that no octet that closes an entry can be taken for the start of a record.
/// The strict parser only refuses a frame without entries.
pub proof fn law_rif_round_trip(rips: Seq<RipView>, options: Inp3ParseOptions)
    requires
        forall|i: int| 0 <= i < rips.len() ==> (#[trigger] rips[i]).valid(),
        all_encodable(rips),
        separable(rips),
        rips.len() > 0 || options.allow_empty_rip_list,
    ensures
        rif_in(rif_octets(rips), options) == Some(rips),
{
    assert(rif_octets(rips).skip(1) =~= rip_region(rips));
    lemma_rip_region_reads(rips);
}

/// Whatever the strict reading accepts, the lenient reading reads the same.
pub proof fn law_lenient_extends_strict(info: Seq<u8>)
    ensures
        rif_in(info, Inp3ParseOptions::all(false)) is Some ==> rif_in(
            info,
            Inp3ParseOptions::all(true),
        ) == rif_in(info, Inp3ParseOptions::all(false)),
{
}

proof fn lemma_whole_entries(s: Seq<u8>)
    requires
        rips_in(s).1,
    ensures
        rip_region(rips_in(s).0).len() == s.len(),
    decreases s.len(),
{
    if s.len() > 0 {
        law_records_are_kept(s);
        if let Some((rip, n)) = rip_in(s) {
            let left: Seq<u8> = s.skip(n as int);
            let rest: Seq<RipView> = rips_in(left).0;
            assert(s.subrange(10, n as int).len() == tlv_region(rip.tlvs).len() + 1);
            assert(rip.octets().len() == n);
            lemma_whole_entries(left);
            assert((seq![rip] + rest).skip(1) =~= rest);
        }
    }
}

/// What the strict reading accepts accounts for every octet of the field: the frame,
/// written again, is as long.
pub proof fn law_strict_frames_are_whole(info: Seq<u8>)
    ensures
        rif_in(info, Inp3ParseOptions::all(false)) matches Some(rips) ==> {
            &&& all_encodable(rips)
            &&& rif_octets(rips).len() == info.len()
        },
{
    if rif_in(info, Inp3ParseOptions::all(false)) is Some {
        lemma_whole_entries(info.skip(1));
        lemma_read_entries_are_encodable(info.skip(1));
    }
}

proof fn lemma_read_entries_are_encodable(s: Seq<u8>)
    ensures
        all_encodable(rips_in(s).0),
    decreases s.len(),
{
    if s.len() > 0 {
        law_records_are_kept(s);
        if let Some((rip, n)) = rip_in(s) {
            let rest: Seq<RipView> = rips_in(s.skip(n as int)).0;
            lemma_read_entries_are_encodable(s.skip(n as int));
            assert forall|i: int| 0 <= i < (seq![rip] + rest).len() implies (#[trigger] (seq![rip]
                + rest)[i]).encodable() by {
                if i > 0 {
                    assert((seq![rip] + rest)[i] == rest[i - 1]);
                }
            }
        }
    }
}

impl Inp3Rif {
    /// The octet that opens the frame.
    pub const SIGNATURE: u8 = 0xFF;

    /// Octets of the frame on the wire.
    pub fn encoded_length(&self) -> (n: usize)
        requires
            rif_octets(self@).len() <= usize::MAX,
        ensures
            n == rif_octets(self@).len(),
    {
        let ghost views = self@;
        let mut len: usize = 1;
        let mut i: usize = 0;
        assert(rip_region(views.take(0)) =~= Seq::<u8>::empty());
        while i < self.rips.len()
            invariant
                i <= self.rips@.len(),
                views == rip_views(self.rips@),
                len == 1 + rip_region(views.take(i as int)).len(),
                1 + rip_region(views).len() <= usize::MAX,
            decreases self.rips@.len() - i,
        {
            proof {
                let k: int = i as int;
                let r: RipView = views[k];
                lemma_rip_region_joins(views.take(k), seq![r]);
                lemma_rip_region_one(r);
                assert(views.take(k) + seq![r] =~= views.take(k + 1));
                lemma_rip_region_joins(views.take(k + 1), views.skip(k + 1));
                assert(views.take(k + 1) + views.skip(k + 1) =~= views);
            }
            len = len + self.rips[i].encoded_length();
            i = i + 1;
        }
        assert(views.take(i as int) =~= views);
        len
    }

    /// The octets of the frame. `None` if an entry cannot be written.
    pub fn to_bytes(&self) -> (r: Option<Vec<u8>>)
        ensures
            match r {
                Some(b) => all_encodable(self@) && b@ == rif_octets(self@),
                None => !all_encodable(self@),
            },
    {
        let ghost views = self@;
        let mut out: Vec<u8> = Vec::new();
        out.push(Self::SIGNATURE);
        let mut i: usize = 0;
        assert(out@ =~= seq![0xFFu8] + rip_region(views.take(0)));
        while i < self.rips.len()
            invariant
                i <= self.rips@.len(),
                views == rip_views(self.rips@),
                views == self@,
                out@ == seq![0xFFu8] + rip_region(views.take(i as int)),
                forall|k: int| 0 <= k < i ==> (#[trigger] views[k]).encodable(),
            decreases self.rips@.len() - i,
        {
            assert(views[i as int] == self.rips@[i as int]@);
            if !self.rips[i].append_to(&mut out) {
                assert(!all_encodable(views)) by {
                    assert(!views[i as int].encodable());
                }
                return None;
            }
            proof {
                let r: RipView = views[i as int];
                lemma_rip_region_joins(views.take(i as int), seq![r]);
                lemma_rip_region_one(r);
                assert(views.take(i as int) + seq![r] =~= views.take(i + 1));
                assert(out@ =~= seq![0xFFu8] + rip_region(views.take(i + 1)));
            }
            i = i + 1;
        }
        assert(views.take(i as int) =~= views);
        Some(out)
    }

    /// Parses an information field with every tolerance on.
    pub fn try_parse(info: &[u8]) -> (r: Option<Inp3Rif>)
        ensures
            match r {
                Some(f) => rif_in(info@, Inp3ParseOptions::all(true)) == Some(f@),
                None => rif_in(info@, Inp3ParseOptions::all(true)) is None,
            },
    {
        Inp3Rif::try_parse_with(info, Inp3ParseOptions::lenient())
    }

    /// Parses an information field with the given tolerances.
    pub fn try_parse_with(info: &[u8], options: Inp3ParseOptions) -> (r: Option<Inp3Rif>)
        ensures
            match r {
                Some(f) => rif_in(info@, options) == Some(f@),
                None => rif_in(info@, options) is None,
            },
    {
        if info.len() == 0 || info[0] != Self::SIGNATURE {
            return None;
        }
        let ghost body = info@.skip(1);
        let mut rips: Vec<Inp3Rip> = Vec::new();
        let mut offset: usize = 1;
        let mut whole: bool = true;
        assert(rip_views(rips@) =~= Seq::<RipView>::empty());
        assert(body.skip(0) =~= body);
        assert(rip_views(rips@) + rips_in(body).0 =~= rips_in(body).0);
        while offset < info.len() && whole
            invariant
                1 <= offset <= info@.len(),
                body == info@.skip(1),
                whole ==> rips_in(body) == (
                    rip_views(rips@) + rips_in(body.skip(offset - 1)).0,
                    rips_in(body.skip(offset - 1)).1,
                ),
                !whole ==> rips_in(body) == (rip_views(rips@), false),
            decreases info@.len() - offset + if whole {
                1int
            } else {
                0
            },
        {
            let ghost left = body.skip(offset - 1);
            let rest = slice_subrange(info, offset, info.len());
            assert(rest@ =~= left);
            match Inp3Rip::try_parse(rest) {
                Some((rip, consumed)) => {
                    let ghost before = rip_views(rips@);
                    rips.push(rip);
                    proof {
                        assert(rip_views(rips@) =~= before.push(rip@));
                        assert(left.skip(consumed as int) =~= body.skip(
                            offset - 1 + consumed,
                        ));
                        let tail: Seq<RipView> = rips_in(left.skip(consumed as int)).0;
                        assert(before + (seq![rip@] + tail) =~= before.push(rip@) + tail);
                    }
                    offset = offset + consumed;
                },
                None => {
                    whole = false;
                    assert(rip_views(rips@) + Seq::<RipView>::empty() =~= rip_views(rips@));
                },
            }
        }
        proof {
            if whole {
                assert(body.skip(offset - 1).len() == 0);
                assert(rip_views(rips@) + Seq::<RipView>::empty() =~= rip_views(rips@));
            }
        }
        if !whole && !options.allow_trailing_partial_rip {
            return None;
        }
        if rips.len() == 0 && !options.allow_empty_rip_list {
            return None;
        }
        Some(Inp3Rif { rips })
    }
}

} // verus!
