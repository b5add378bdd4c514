//! The address field of a frame: a callsign in shifted form with two flags.

use vstd::prelude::*;

use super::callsign;
use super::callsign::{Callsign, CallsignView};
use crate::bytes;
use crate::bytes::trimmed_len;

verus! {

/// Octets that one address occupies.
pub const ADDRESS_LEN: usize = 7;

/// One address of a frame.
#[derive(Debug, Clone, Copy, PartialEq, Eq)]
pub struct Address {
    /// The station.
    pub callsign: Callsign,
    /// The command/response bit, or the has-been-repeated bit of a digipeater.
    pub crh: bool,
    /// Whether this is the last address of the chain.
    pub extension: bool,
}

/// What an [`Address`] holds.
pub struct AddressView {
    pub callsign: CallsignView,
    pub crh: bool,
    pub extension: bool,
}

impl View for Address {
    type V = AddressView;

    open spec fn view(&self) -> AddressView {
        AddressView { callsign: self.callsign@, crh: self.crh, extension: self.extension }
    }
}

/// The base of a callsign padded to six characters.
pub open spec fn padded_base(base: Seq<u8>) -> Seq<u8> {
    base + bytes::spaces((6 - base.len()) as nat)
}

/// The last octet of an address: the two flags around the identifier, with the two
/// reserved bits set.
pub open spec fn ssid_octet(a: AddressView) -> u8 {
    (96 + 2 * a.callsign.ssid + (if a.crh {
        128int
    } else {
        0
    }) + (if a.extension {
        1int
    } else {
        0
    })) as u8
}

/// The seven octets of an address: each character of the base moved up one bit,
/// then the identifier with the flags.
pub open spec fn shifted(a: AddressView) -> Seq<u8> {
    Seq::new(
        7,
        |i: int| {
            if i < 6 {
                (2 * padded_base(a.callsign.base)[i]) as u8
            } else {
                ssid_octet(a)
            }
        },
    )
}

/// The six characters of a shifted field.
pub open spec fn unshifted_chars(s: Seq<u8>) -> Seq<u8> {
    Seq::new(6, |i: int| (s[i] / 2) as u8)
}

/// The address that the first seven octets of a field hold, if the characters
/// before the padding are those of a callsign.
pub open spec fn unshifted(s: Seq<u8>) -> Option<AddressView> {
    if s.len() < ADDRESS_LEN {
        None
    } else {
        match callsign::callsign_of(bytes::trimmed(unshifted_chars(s)), ((s[6] / 2) % 16) as u8) {
            None => None,
            Some(c) => Some(
                AddressView { callsign: c, crh: s[6] >= 128, extension: s[6] % 2 == 1 },
            ),
        }
    }
}

/// An address is read back from the seven octets that it is written as.
pub proof fn law_address_round_trip(a: AddressView)
    requires
        a.callsign.valid(),
    ensures
        shifted(a).len() == ADDRESS_LEN,
        unshifted(shifted(a)) == Some(a),
{
    let base: Seq<u8> = a.callsign.base;
    assert(unshifted_chars(shifted(a)) =~= padded_base(base));
    bytes::lemma_trim_undoes_padding(base, (6 - base.len()) as nat);
    assert(CallsignView { base, ssid: a.callsign.ssid } == a.callsign);
}

/// What an address decodes from depends on its first seven octets only.
pub proof fn law_address_reads_seven_octets(s: Seq<u8>)
    requires
        s.len() >= ADDRESS_LEN,
    ensures
        unshifted(s) == unshifted(s.take(7)),
        unshifted(s) matches Some(a) ==> a.callsign.valid(),
{
    assert(unshifted_chars(s) =~= unshifted_chars(s.take(7)));
}

impl Address {
    /// Octet `i` of the encoded address.
    fn octet(&self, i: usize) -> (r: u8)
        requires
            i < ADDRESS_LEN,
        ensures
            r == shifted(self@)[i as int],
            self.callsign@.valid(),
    {
        let base = self.callsign.base();
        let ssid: u8 = self.callsign.ssid();
        if i < 6 {
            if i < base.len() {
                assert(callsign::is_call_char(base@[i as int]));
                base[i] * 2
            } else {
                0x40
            }
        } else {
            let mut r: u8 = 96 + 2 * ssid;
            if self.crh {
                r = r + 128;
            }
            if self.extension {
                r = r + 1;
            }
            r
        }
    }

    /// Writes the address over the first seven octets of `out`. `None` if `out` is
    /// shorter than that.
    pub fn encode(&self, out: &mut [u8]) -> (r: Option<()>)
        ensures
            r is Some <==> old(out)@.len() >= ADDRESS_LEN,
            final(out)@ == if old(out)@.len() >= ADDRESS_LEN {
                bytes::patched(old(out)@, 0, shifted(self@))
            } else {
                old(out)@
            },
    {
        self.encode_at(out, 0)
    }

    /// Writes the address over the seven octets of `out` from `at` on. `None` if
    /// they are not there.
    pub fn encode_at(&self, out: &mut [u8], at: usize) -> (r: Option<()>)
        ensures
            r is Some <==> at + ADDRESS_LEN <= old(out)@.len(),
            final(out)@ == if at + ADDRESS_LEN <= old(out)@.len() {
                bytes::patched(old(out)@, at as int, shifted(self@))
            } else {
                old(out)@
            },
    {
        let n: usize = out.len();
        if n < ADDRESS_LEN || at > n - ADDRESS_LEN {
            return None;
        }
        let mut i: usize = 0;
        while i < ADDRESS_LEN
            invariant
                i <= ADDRESS_LEN,
                n == out@.len(),
                n == old(out)@.len(),
                at + ADDRESS_LEN <= n,
                out@ == bytes::patched(old(out)@, at as int, shifted(self@).take(i as int)),
            decreases ADDRESS_LEN - i,
        {
            out[at + i] = self.octet(i);
            i = i + 1;
            assert(out@ =~= bytes::patched(
                old(out)@,
                at as int,
                shifted(self@).take(i as int),
            ));
        }
        assert(shifted(self@).take(7) =~= shifted(self@));
        Some(())
    }

    /// Appends the octets of the address.
    pub fn append_to(&self, out: &mut Vec<u8>)
        ensures
            final(out)@ == old(out)@ + shifted(self@),
            self.callsign@.valid(),
    {
        let mut i: usize = 0;
        assert(old(out)@ + shifted(self@).take(0) =~= old(out)@);
        while i < ADDRESS_LEN
            invariant
                i <= ADDRESS_LEN,
                out@ == old(out)@ + shifted(self@).take(i as int),
                i > 0 ==> self.callsign@.valid(),
            decreases ADDRESS_LEN - i,
        {
            let b: u8 = self.octet(i);
            out.push(b);
            i = i + 1;
            assert(out@ =~= old(out)@ + shifted(self@).take(i as int));
        }
        assert(shifted(self@).take(7) =~= shifted(self@));
    }

    /// Reads an address off the first seven octets of `source`. `None` if there
    /// are fewer, or if the characters before the padding are not those of a
    /// callsign. A blank base is permitted.
    pub fn decode(source: &[u8]) -> (r: Option<Address>)
        ensures
            match r {
                Some(a) => unshifted(source@) == Some(a@),
                None => unshifted(source@) is None,
            },
    {
        if source.len() < ADDRESS_LEN {
            return None;
        }
        let chars: [u8; 6] = [
            source[0] / 2,
            source[1] / 2,
            source[2] / 2,
            source[3] / 2,
            source[4] / 2,
            source[5] / 2,
        ];
        assert(chars@ =~= unshifted_chars(source@));
        let n: usize = trimmed_len(chars.as_slice());
        let octet: u8 = source[6];
        assert(chars@.subrange(0, n as int) =~= chars@.take(n as int));
        match Callsign::new(bytes::part(chars.as_slice(), 0, n), (octet / 2) % 16) {
            None => None,
            Some(callsign) => Some(
                Address { callsign, crh: octet >= 128, extension: octet % 2 == 1 },
            ),
        }
    }
}

} // verus!
