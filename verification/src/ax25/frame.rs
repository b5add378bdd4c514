//! An AX.25 frame: the address field, the control field, the protocol identifier where
//! there is one, and the information field.

use vstd::prelude::*;
use vstd::slice::slice_subrange;

use super::address;
use super::address::{Address, AddressView, ADDRESS_LEN};
use crate::bytes;

verus! {

/// The control octet of an unnumbered information frame, the poll bit clear.
pub const CONTROL_UI: u8 = 0x03;

/// The protocol identifier of plain text without a network layer.
pub const PID_NO_LAYER3: u8 = 0xF0;

/// A frame with one control octet.
#[derive(Debug, Clone, PartialEq, Eq)]
pub struct Frame {
    /// The station that the frame goes to.
    pub destination: Address,
    /// The station that it comes from.
    pub source: Address,
    /// The stations that repeat it on the way.
    pub digipeaters: Vec<Address>,
    /// The control octet.
    pub control: u8,
    /// The protocol identifier, in frames that carry one.
    pub pid: Option<u8>,
    /// The information field.
    pub info: Vec<u8>,
}

/// What a frame holds.
pub struct WireFrame {
    pub destination: AddressView,
    pub source: AddressView,
    pub digipeaters: Seq<AddressView>,
    pub control: u8,
    pub pid: Option<u8>,
    pub info: Seq<u8>,
}

/// What a run of addresses holds.
pub open spec fn address_views(a: Seq<Address>) -> Seq<AddressView> {
    a.map_values(|x: Address| x@)
}

impl View for Frame {
    type V = WireFrame;

    open spec fn view(&self) -> WireFrame {
        WireFrame {
            destination: self.destination@,
            source: self.source@,
            digipeaters: address_views(self.digipeaters@),
            control: self.control,
            pid: self.pid,
            info: self.info@,
        }
    }
}

/// A frame with this control octet carries a protocol identifier: an information
/// frame, numbered or not.
pub open spec fn carries_pid(control: u8) -> bool {
    control % 2 == 0 || control == 0x03 || control == 0x13
}

/// The frame is numbered: an information or a supervisory frame.
pub open spec fn is_numbered(control: u8) -> bool {
    control % 4 != 3
}

/// A run of addresses in which only the last has its extension bit up.
pub open spec fn closed_path(path: Seq<AddressView>) -> Seq<AddressView> {
    Seq::new(
        path.len(),
        |i: int| AddressView { extension: i == path.len() - 1, ..path[i] },
    )
}

/// The octets of a run of addresses.
pub open spec fn path_octets(path: Seq<AddressView>) -> Seq<u8>
    decreases path.len(),
{
    if path.len() == 0 {
        Seq::empty()
    } else {
        path_octets(path.drop_last()) + address::shifted(path.last())
    }
}

/// The addresses at the front of `s`, up to the one that closes the address field.
pub open spec fn path_in(s: Seq<u8>) -> Option<Seq<AddressView>>
    decreases s.len(),
{
    if s.len() < 7 {
        None
    } else {
        match address::unshifted(s.take(7)) {
            Some(a) => if a.extension {
                Some(seq![a])
            } else {
                match path_in(s.skip(7)) {
                    Some(rest) => Some(seq![a] + rest),
                    None => None,
                }
            },
            None => None,
        }
    }
}

/// The protocol identifier as octets.
pub open spec fn pid_octets(pid: Option<u8>) -> Seq<u8> {
    match pid {
        Some(p) => seq![p],
        None => Seq::empty(),
    }
}

impl WireFrame {
    /// The addresses of the frame, in order.
    pub open spec fn path(self) -> Seq<AddressView> {
        seq![self.destination, self.source] + self.digipeaters
    }

    /// The frame with the extension bit up on its last address alone.
    pub open spec fn closed(self) -> WireFrame {
        let path: Seq<AddressView> = closed_path(self.path());
        WireFrame {
            destination: path[0],
            source: path[1],
            digipeaters: path.skip(2),
            ..self
        }
    }

    /// The callsigns are valid, and there is a protocol identifier exactly where the
    /// control octet asks for one.
    pub open spec fn valid(self) -> bool {
        &&& forall|i: int|
            0 <= i < self.path().len() ==> (#[trigger] self.path()[i]).callsign.valid()
        &&& carries_pid(self.control) == (self.pid is Some)
    }

    /// The octets of the frame, with a second control octet where there is one.
    pub open spec fn octets_with(self, second: Option<u8>) -> Seq<u8> {
        path_octets(closed_path(self.path())) + seq![self.control] + pid_octets(second)
            + pid_octets(self.pid) + self.info
    }

    /// The octets of the frame.
    pub open spec fn octets(self) -> Seq<u8> {
        self.octets_with(None)
    }

    /// The address bits say that this is a command.
    pub open spec fn commands(self) -> bool {
        self.destination.crh && !self.source.crh
    }

    /// The address bits say that this is a response.
    pub open spec fn responds(self) -> bool {
        !self.destination.crh && self.source.crh
    }
}

/// The frame that the octets after an address field hold, the second control octet
/// with it where there is one.
pub open spec fn body_in(path: Seq<AddressView>, s: Seq<u8>, extended: bool) -> Option<
    (WireFrame, Option<u8>),
> {
    let second: int = if extended && s.len() > 0 && is_numbered(s[0]) {
        1
    } else {
        0
    };
    let pid: int = if s.len() > 0 && carries_pid(s[0]) {
        1
    } else {
        0
    };
    if path.len() < 2 || s.len() < 1 + second + pid {
        None
    } else {
        Some(
            (
                WireFrame {
                    destination: path[0],
                    source: path[1],
                    digipeaters: path.skip(2),
                    control: s[0],
                    pid: if pid == 1 {
                        Some(s[1 + second])
                    } else {
                        None
                    },
                    info: s.skip(1 + second + pid),
                },
                if second == 1 {
                    Some(s[1])
                } else {
                    None
                },
            ),
        )
    }
}

/// The frame that octets hold. Where the link counts to 127, a numbered frame has a
/// second control octet.
pub open spec fn frame_in(s: Seq<u8>, extended: bool) -> Option<(WireFrame, Option<u8>)> {
    match path_in(s) {
        Some(path) => body_in(path, s.skip(7 * path.len() as int), extended),
        None => None,
    }
}

proof fn lemma_path_length(path: Seq<AddressView>)
    ensures
        path_octets(path).len() == 7 * path.len(),
    decreases path.len(),
{
    if path.len() > 0 {
        lemma_path_length(path.drop_last());
    }
}

proof fn lemma_path_joins(a: Seq<AddressView>, b: Seq<AddressView>)
    ensures
        path_octets(a + b) == path_octets(a) + path_octets(b),
    decreases b.len(),
{
    if b.len() == 0 {
        assert(a + b =~= a);
        assert(path_octets(a) + path_octets(b) =~= path_octets(a));
    } else {
        lemma_path_joins(a, b.drop_last());
        assert((a + b).drop_last() =~= a + b.drop_last());
        assert(path_octets(a + b) =~= path_octets(a) + path_octets(b));
    }
}

proof fn lemma_path_one(a: AddressView)
    ensures
        path_octets(seq![a]) == address::shifted(a),
{
    assert(seq![a].drop_last() =~= Seq::<AddressView>::empty());
    assert(path_octets(Seq::<AddressView>::empty()) =~= Seq::<u8>::empty());
    assert(path_octets(seq![a]) =~= address::shifted(a));
}

proof fn lemma_path_reads(path: Seq<AddressView>, rest: Seq<u8>)
    requires
        path.len() > 0,
        forall|i: int| 0 <= i < path.len() ==> (#[trigger] path[i]).callsign.valid(),
        forall|i: int| 0 <= i < path.len() ==> (#[trigger] path[i]).extension == (i == path.len()
            - 1),
    ensures
        path_in(path_octets(path) + rest) == Some(path),
    decreases path.len(),
{
    let s: Seq<u8> = path_octets(path) + rest;
    let first: AddressView = path[0];
    let others: Seq<AddressView> = path.skip(1);
    lemma_path_joins(seq![first], others);
    lemma_path_one(first);
    assert(seq![first] + others =~= path);
    assert(first.callsign.valid());
    address::law_address_round_trip(first);
    assert(s.take(7) =~= address::shifted(first));
    if path.len() == 1 {
        assert(path =~= seq![first]);
    } else {
        assert(!first.extension);
        assert(s.skip(7) =~= path_octets(others) + rest);
        assert forall|i: int| 0 <= i < others.len() implies (#[trigger] others[i]).callsign.valid()
            && others[i].extension == (i == others.len() - 1) by {
            assert(others[i] == path[i + 1]);
        }
        lemma_path_reads(others, rest);
    }
}

proof fn lemma_path_in_length(s: Seq<u8>)
    ensures
        path_in(s) matches Some(path) ==> 7 * path.len() <= s.len() && path.len() > 0,
    decreases s.len(),
{
    if s.len() >= 7 {
        lemma_path_in_length(s.skip(7));
    }
}

/// A frame is read back from the octets that it is written as, and so is the second
/// control octet of a numbered frame. What differs is the extension bits: the last
/// address alone has it up.
pub proof fn law_frame_round_trip(f: WireFrame, second: Option<u8>)
    requires
        f.valid(),
        second is Some ==> is_numbered(f.control),
    ensures
        frame_in(f.octets_with(second), second is Some) == Some((f.closed(), second)),
{
    let path: Seq<AddressView> = closed_path(f.path());
    let body: Seq<u8> = seq![f.control] + pid_octets(second) + pid_octets(f.pid) + f.info;
    let s: Seq<u8> = f.octets_with(second);
    assert(s =~= path_octets(path) + body);
    assert forall|i: int| 0 <= i < path.len() implies (#[trigger] path[i]).callsign.valid() by {
        assert(f.path()[i].callsign.valid());
    }
    lemma_path_reads(path, body);
    lemma_path_length(path);
    assert(s.skip(7 * path.len() as int) =~= body);
    let k: int = 1 + pid_octets(second).len() as int + pid_octets(f.pid).len();
    assert(body.skip(k) =~= f.info);
}

/// An unnumbered frame reads the same whatever the link counts to.
pub proof fn law_unnumbered_frames_read_alike(s: Seq<u8>, extended: bool)
    ensures
        frame_in(s, false) matches Some((f, _)) && !is_numbered(f.control) ==> frame_in(s, extended)
            == frame_in(s, false),
{
}

impl Frame {
    /// Appends the octets of the address field to `out`.
    fn append_path(&self, out: &mut Vec<u8>)
        ensures
            final(out)@ == old(out)@ + path_octets(closed_path(self@.path())),
    {
        let ghost path = closed_path(self@.path());
        let n: usize = self.digipeaters.len();
        let destination = Address { extension: false, ..self.destination };
        destination.append_to(out);
        let source = Address { extension: n == 0, ..self.source };
        source.append_to(out);
        proof {
            lemma_path_joins(seq![path[0]], seq![path[1]]);
            lemma_path_one(path[0]);
            lemma_path_one(path[1]);
            assert(seq![path[0]] + seq![path[1]] =~= path.take(2));
            assert(out@ =~= old(out)@ + path_octets(path.take(2)));
        }
        let mut i: usize = 0;
        while i < n
            invariant
                i <= n,
                n == self.digipeaters@.len(),
                path == closed_path(self@.path()),
                out@ == old(out)@ + path_octets(path.take(2 + i)),
            decreases n - i,
        {
            let hop = Address { extension: i == n - 1, ..self.digipeaters[i] };
            let ghost before = out@;
            hop.append_to(out);
            proof {
                let k: int = 2 + i;
                assert(hop@ == path[k]);
                lemma_path_joins(path.take(k), seq![path[k]]);
                lemma_path_one(path[k]);
                assert(path.take(k) + seq![path[k]] =~= path.take(k + 1));
                assert(out@ =~= old(out)@ + path_octets(path.take(k + 1)));
            }
            i = i + 1;
        }
        assert(path.take(2 + n) =~= path);
    }

    /// The octets of the frame, with a second control octet where there is one.
    pub(crate) fn encode_with(&self, second: Option<u8>) -> (r: Vec<u8>)
        ensures
            r@ == self@.octets_with(second),
    {
        let mut out: Vec<u8> = Vec::new();
        self.append_path(&mut out);
        out.push(self.control);
        match second {
            Some(c) => out.push(c),
            None => {},
        }
        match self.pid {
            Some(p) => out.push(p),
            None => {},
        }
        bytes::append(&mut out, self.info.as_slice());
        assert(out@ =~= self@.octets_with(second));
        out
    }

    /// The octets of the frame.
    pub fn encode(&self) -> (r: Vec<u8>)
        ensures
            r@ == self@.octets(),
    {
        self.encode_with(None)
    }

    /// Reads a frame with one control octet. `None` if the address field is not whole,
    /// an address does not decode, or the control octet or the protocol identifier is
    /// missing.
    pub fn decode(octets: &[u8]) -> (r: Option<Frame>)
        ensures
            match r {
                Some(f) => frame_in(octets@, false) == Some((f@, None::<u8>)),
                None => frame_in(octets@, false) is None,
            },
    {
        match Frame::decode_with_modulo(octets, false) {
            Some((f, _)) => Some(f),
            None => None,
        }
    }

    /// Reads a frame. Where the link counts to 127, a numbered frame has a second
    /// control octet, which is handed out beside it.
    pub fn decode_with_modulo(octets: &[u8], extended: bool) -> (r: Option<(Frame, Option<u8>)>)
        ensures
            match r {
                Some((f, second)) => frame_in(octets@, extended) == Some((f@, second)),
                None => frame_in(octets@, extended) is None,
            },
    {
        let mut path: Vec<Address> = Vec::new();
        let mut at: usize = 0;
        let mut open: bool = true;
        assert(address_views(path@) =~= Seq::<AddressView>::empty());
        assert(octets@.skip(0) =~= octets@);
        proof {
            lemma_path_in_length(octets@);
            if let Some(rest) = path_in(octets@) {
                assert(address_views(path@) + rest =~= rest);
            }
        }
        while open
            invariant
                at <= octets@.len(),
                at == 7 * path@.len(),
                path_in(octets@) matches Some(p) ==> 7 * p.len() <= octets@.len(),
                open ==> path_in(octets@) == match path_in(octets@.skip(at as int)) {
                    Some(rest) => Some(address_views(path@) + rest),
                    None => None,
                },
                !open ==> path_in(octets@) == Some(address_views(path@)),
            decreases octets@.len() - at + if open {
                1int
            } else {
                0
            },
        {
            let ghost left = octets@.skip(at as int);
            if octets.len() - at < ADDRESS_LEN {
                return None;
            }
            let field = slice_subrange(octets, at, at + ADDRESS_LEN);
            assert(field@ =~= left.take(7));
            match Address::decode(field) {
                Some(a) => {
                    let ghost before = address_views(path@);
                    path.push(a);
                    proof {
                        assert(address_views(path@) =~= before.push(a@));
                        assert(left.skip(7) =~= octets@.skip(at + 7));
                        assert(before + seq![a@] =~= before.push(a@));
                        if let Some(rest) = path_in(left.skip(7)) {
                            assert(before + (seq![a@] + rest) =~= before.push(a@) + rest);
                        }
                    }
                    open = !a.extension;
                },
                None => {
                    return None;
                },
            }
            at = at + ADDRESS_LEN;
        }
        let ghost views = address_views(path@);
        let ghost body = octets@.skip(at as int);
        let left: usize = octets.len() - at;
        if path.len() < 2 || left == 0 {
            return None;
        }
        let control: u8 = octets[at];
        let two: bool = extended && control % 4 != 3;
        let has_pid: bool = control % 2 == 0 || control == 0x03 || control == 0x13;
        let mut next: usize = 1;
        let mut second: Option<u8> = None;
        if two {
            if left < 2 {
                return None;
            }
            second = Some(octets[at + 1]);
            next = 2;
        }
        let mut pid: Option<u8> = None;
        if has_pid {
            if left <= next {
                return None;
            }
            pid = Some(octets[at + next]);
            next = next + 1;
        }
        let mut info: Vec<u8> = Vec::new();
        bytes::append(&mut info, slice_subrange(octets, at + next, octets.len()));
        assert(info@ =~= body.skip(next as int));
        let destination = path[0];
        let source = path[1];
        let mut digipeaters: Vec<Address> = Vec::new();
        let mut i: usize = 2;
        while i < path.len()
            invariant
                2 <= i <= path@.len(),
                digipeaters@ == path@.subrange(2, i as int),
            decreases path@.len() - i,
        {
            digipeaters.push(path[i]);
            i = i + 1;
            assert(digipeaters@ =~= path@.subrange(2, i as int));
        }
        assert(address_views(digipeaters@) =~= views.skip(2));
        Some((Frame { destination, source, digipeaters, control, pid, info }, second))
    }

    /// Whether the address bits say that this is a command.
    pub fn is_command(&self) -> (r: bool)
        ensures
            r == self@.commands(),
    {
        self.destination.crh && !self.source.crh
    }

    /// Whether the address bits say that this is a response.
    pub fn is_response(&self) -> (r: bool)
        ensures
            r == self@.responds(),
    {
        !self.destination.crh && self.source.crh
    }

    /// The poll or final bit of a frame with one control octet.
    pub fn poll_final(&self) -> (r: bool)
        ensures
            r == (self.control / 16 % 2 == 1),
    {
        self.control / 16 % 2 == 1
    }
}

} // verus!
