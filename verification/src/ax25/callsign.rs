//! Amateur callsigns with a secondary station identifier.

use vstd::prelude::*;
use vstd::slice::slice_subrange;
use vstd::string::StringSliceAdditionalSpecFns;

use crate::numbers;
use crate::numbers::parse_number;

verus! {

/// The most characters that the base of a callsign has.
pub const MAX_BASE: usize = 6;

/// The greatest secondary station identifier.
pub const MAX_SSID: u8 = 15;

/// A callsign: a base of up to six capitals and digits, and a secondary station
/// identifier. The base may be empty: some nodes leave a callsign field blank.
#[derive(Debug, Clone, Copy, Eq)]
pub struct Callsign {
    base: [u8; 6],
    len: u8,
    ssid: u8,
}

/// What a [`Callsign`] holds.
pub struct CallsignView {
    pub base: Seq<u8>,
    pub ssid: u8,
}

/// A capital letter or a digit.
pub open spec fn is_call_char(b: u8) -> bool {
    0x41 <= b <= 0x5A || 0x30 <= b <= 0x39
}

impl CallsignView {
    /// The base is made of at most six capitals and digits, and the identifier is
    /// in range.
    pub open spec fn valid(self) -> bool {
        &&& self.base.len() <= MAX_BASE
        &&& forall|i: int| 0 <= i < self.base.len() ==> is_call_char(#[trigger] self.base[i])
        &&& self.ssid <= MAX_SSID
    }
}

impl View for Callsign {
    type V = CallsignView;

    closed spec fn view(&self) -> CallsignView {
        CallsignView { base: self.base@.take(self.len as int), ssid: self.ssid }
    }
}

/// The callsign made of a base and an identifier, if they are valid.
pub open spec fn callsign_of(base: Seq<u8>, ssid: u8) -> Option<CallsignView> {
    let c: CallsignView = CallsignView { base, ssid };
    if c.valid() {
        Some(c)
    } else {
        None
    }
}

/// The index of the first hyphen at or after `i`, or the length if there is none.
pub open spec fn hyphen_from(s: Seq<u8>, i: int) -> int
    decreases s.len() - i,
{
    if i < 0 || i >= s.len() {
        s.len() as int
    } else if s[i] == 0x2D {
        i
    } else {
        hyphen_from(s, i + 1)
    }
}

/// The identifier that one or two digits write.
pub open spec fn ssid_of(s: Seq<u8>) -> Option<u8> {
    match numbers::number_in(s, MAX_SSID as nat) {
        Some(n) if s.len() <= 2 => Some(n as u8),
        _ => None,
    }
}

/// The callsign that a text writes: a base that is not empty, then optionally a
/// hyphen and an identifier.
pub open spec fn callsign_in(s: Seq<u8>) -> Option<CallsignView> {
    let at: int = hyphen_from(s, 0);
    if at == 0 {
        None
    } else if at >= s.len() {
        callsign_of(s, 0)
    } else {
        match ssid_of(s.skip(at + 1)) {
            Some(ssid) => callsign_of(s.take(at), ssid),
            None => None,
        }
    }
}

fn read_ssid(s: &[u8]) -> (r: Option<u8>)
    ensures
        r == ssid_of(s@),
{
    match parse_number(s, MAX_SSID as u64) {
        Some(n) => if s.len() <= 2 {
            Some(n as u8)
        } else {
            None
        },
        None => None,
    }
}

fn call_char(b: u8) -> (r: bool)
    ensures
        r == is_call_char(b),
{
    (0x41 <= b && b <= 0x5A) || (0x30 <= b && b <= 0x39)
}

impl Callsign {
    #[verifier::type_invariant]
    spec fn inv(self) -> bool {
        self.len <= 6 && self@.valid()
    }

    /// A callsign from a base and an identifier. `None` if the base is longer than
    /// six characters or holds anything but capitals and digits, or if the
    /// identifier is above 15.
    pub fn new(base: &[u8], ssid: u8) -> (r: Option<Callsign>)
        ensures
            match r {
                Some(c) => callsign_of(base@, ssid) == Some(c@),
                None => callsign_of(base@, ssid) is None,
            },
    {
        if base.len() > MAX_BASE || ssid > MAX_SSID {
            return None;
        }
        let mut buf: [u8; 6] = [0;6];
        let mut i: usize = 0;
        while i < base.len()
            invariant
                i <= base@.len(),
                base@.len() <= 6,
                buf@.len() == 6,
                forall|j: int| 0 <= j < i ==> buf@[j] == base@[j],
                forall|j: int| 0 <= j < i ==> is_call_char(#[trigger] base@[j]),
            decreases base@.len() - i,
        {
            if !call_char(base[i]) {
                assert(!callsign_of(base@, ssid).is_some() || is_call_char(base@[i as int]));
                return None;
            }
            buf[i] = base[i];
            i = i + 1;
        }
        assert(buf@.take(base@.len() as int) =~= base@);
        Some(Callsign { base: buf, len: base.len() as u8, ssid })
    }

    /// A callsign from its text: the base, then optionally a hyphen and the
    /// identifier.
    pub fn parse(text: &str) -> (r: Option<Callsign>)
        ensures
            match r {
                Some(c) => callsign_in(text.spec_bytes()) == Some(c@),
                None => callsign_in(text.spec_bytes()) is None,
            },
    {
        let s: &[u8] = text.as_bytes();
        let mut at: usize = 0;
        while at < s.len() && s[at] != 0x2D
            invariant
                at <= s@.len(),
                hyphen_from(s@, 0) == hyphen_from(s@, at as int),
            decreases s@.len() - at,
        {
            at = at + 1;
        }
        if at == 0 {
            return None;
        }
        if at >= s.len() {
            return Callsign::new(s, 0);
        }
        assert(s@.subrange(at + 1, s@.len() as int) =~= s@.skip(at + 1));
        assert(s@.subrange(0, at as int) =~= s@.take(at as int));
        match read_ssid(slice_subrange(s, at + 1, s.len())) {
            Some(ssid) => Callsign::new(slice_subrange(s, 0, at), ssid),
            None => None,
        }
    }

    /// The base.
    pub fn base(&self) -> (r: &[u8])
        ensures
            r@ == self@.base,
            self@.valid(),
    {
        proof {
            use_type_invariant(self);
        }
        slice_subrange(self.base.as_slice(), 0, self.len as usize)
    }

    /// The secondary station identifier.
    pub fn ssid(&self) -> (r: u8)
        ensures
            r == self@.ssid,
            self@.valid(),
    {
        proof {
            use_type_invariant(self);
        }
        self.ssid
    }
}

impl PartialEq for Callsign {
    fn eq(&self, other: &Callsign) -> (r: bool) {
        self.ssid == other.ssid && crate::text::same_bytes(self.base(), other.base())
    }
}

impl vstd::std_specs::cmp::PartialEqSpecImpl for Callsign {
    open spec fn obeys_eq_spec() -> bool {
        true
    }

    open spec fn eq_spec(&self, other: &Callsign) -> bool {
        self@ == other@
    }
}

} // verus!
