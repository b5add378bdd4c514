//! A CCDI message as a line: `[IDENT][SIZE][PARAMETERS][CHECKSUM]`, closed by a
//! carriage return. The size counts the parameters in two hexadecimal digits.

use vstd::prelude::*;
use vstd::slice::slice_subrange;

use super::checksum;
use super::{hex_upper, parse_hex_u8};
use crate::bytes;

verus! {

/// The most parameter octets of a message.
pub const MAX_PARAMS: usize = 255;

/// The longest line, without the carriage return.
pub const MAX_LINE: usize = 260;

/// A message: its identifier and its parameters.
#[derive(Debug, PartialEq, Eq)]
pub struct CcdiFrame {
    ident: u8,
    params: Vec<u8>,
}

/// What a message holds.
pub struct CcdiView {
    pub ident: u8,
    pub params: Seq<u8>,
}

impl View for CcdiFrame {
    type V = CcdiView;

    closed spec fn view(&self) -> CcdiView {
        CcdiView { ident: self.ident, params: self.params@ }
    }
}

impl CcdiView {
    /// The size can be written.
    pub open spec fn valid(self) -> bool {
        self.params.len() <= MAX_PARAMS
    }

    /// The line without its checksum.
    pub open spec fn body(self) -> Seq<u8> {
        seq![self.ident] + super::hex_pair(self.params.len() as u8) + self.params
    }

    /// The line, without the carriage return.
    pub open spec fn line(self) -> Seq<u8> {
        self.body() + checksum::checksum_of(self.body())
    }

    /// The line with the carriage return.
    pub open spec fn sent(self) -> Seq<u8> {
        self.line().push(0x0D)
    }
}

/// The message that a line holds, if its size and its checksum are right.
pub open spec fn frame_in(line: Seq<u8>) -> Option<CcdiView> {
    let n: int = line.len() as int;
    if n < 5 {
        None
    } else {
        match super::hex_in(line.subrange(1, 3)) {
            Some(size) => if n == 5 + size && line.skip(n - 2) == checksum::checksum_of(
                line.take(n - 2),
            ) {
                Some(CcdiView { ident: line[0], params: line.subrange(3, n - 2) })
            } else {
                None
            },
            None => None,
        }
    }
}

/// A message is read back from the line that it is written as.
pub proof fn law_frame_round_trip(f: CcdiView)
    requires
        f.valid(),
    ensures
        f.line().len() == 5 + f.params.len(),
        frame_in(f.line()) == Some(f),
{
    let line: Seq<u8> = f.line();
    let n: int = line.len() as int;
    super::law_hex_round_trip(f.params.len() as u8);
    assert(line.subrange(1, 3) =~= super::hex_pair(f.params.len() as u8));
    assert(line.take(n - 2) =~= f.body());
    assert(line.skip(n - 2) =~= checksum::checksum_of(f.body()));
    assert(line.subrange(3, n - 2) =~= f.params);
}

/// A line that holds a message, its size in upper-case digits, is the line that the
/// message is written as.
pub proof fn law_lines_are_canonical(line: Seq<u8>)
    requires
        frame_in(line) is Some,
        line.subrange(1, 3) == super::hex_pair((line.len() - 5) as u8),
    ensures
        frame_in(line)->0.line() == line,
        frame_in(line)->0.valid(),
{
    let f: CcdiView = frame_in(line)->0;
    let n: int = line.len() as int;
    assert(f.body() =~= line.take(n - 2));
    assert(f.line() =~= line);
}

/// Noise that changes one parameter octet of a line is noticed.
pub proof fn law_noise_is_noticed(line: Seq<u8>, i: int, b: u8)
    requires
        frame_in(line) is Some,
        3 <= i < line.len() - 2,
        b != line[i],
    ensures
        frame_in(line.update(i, b)) is None,
{
    let n: int = line.len() as int;
    let noisy: Seq<u8> = line.update(i, b);
    checksum::law_one_changed_octet_shows(line.take(n - 2), i, b);
    assert(noisy.take(n - 2) =~= line.take(n - 2).update(i, b));
    assert(noisy.skip(n - 2) =~= line.skip(n - 2));
}

impl Clone for CcdiFrame {
    fn clone(&self) -> (r: CcdiFrame)
        ensures
            r@ == self@,
    {
        proof {
            use_type_invariant(self);
        }
        let mut params: Vec<u8> = Vec::new();
        bytes::append(&mut params, self.params.as_slice());
        assert(params@ =~= self.params@);
        CcdiFrame { ident: self.ident, params }
    }
}

/// A message of at most 255 parameter octets.
pub fn frame_with(ident: u8, params: &[u8]) -> (f: CcdiFrame)
    requires
        params@.len() <= MAX_PARAMS,
    ensures
        f@ == (CcdiView { ident, params: params@ }),
{
    let mut v: Vec<u8> = Vec::new();
    bytes::append(&mut v, params);
    assert(v@ =~= params@);
    CcdiFrame { ident, params: v }
}

impl CcdiFrame {
    #[verifier::type_invariant]
    spec fn inv(self) -> bool {
        self.params@.len() <= MAX_PARAMS
    }

    /// A message. `None` if there are more than 255 parameter octets.
    pub fn new(ident: u8, params: &[u8]) -> (r: Option<CcdiFrame>)
        ensures
            match r {
                Some(f) => f@ == (CcdiView { ident, params: params@ }) && f@.valid(),
                None => params@.len() > MAX_PARAMS,
            },
    {
        if params.len() > MAX_PARAMS {
            return None;
        }
        Some(frame_with(ident, params))
    }

    /// The identifier.
    pub fn ident(&self) -> (r: u8)
        ensures
            r == self@.ident,
    {
        self.ident
    }

    /// The parameters.
    pub fn params(&self) -> (r: &[u8])
        ensures
            r@ == self@.params,
            self@.valid(),
    {
        proof {
            use_type_invariant(self);
        }
        self.params.as_slice()
    }

    /// Octets of the line, without the carriage return.
    pub fn encoded_len(&self) -> (n: usize)
        ensures
            n == self@.line().len(),
    {
        proof {
            use_type_invariant(self);
        }
        5 + self.params.len()
    }

    /// The line, without the carriage return.
    pub fn encode(&self) -> (r: Vec<u8>)
        ensures
            r@ == self@.line(),
            self@.valid(),
    {
        proof {
            use_type_invariant(self);
        }
        let size: u8 = self.params.len() as u8;
        let mut out: Vec<u8> = Vec::new();
        out.push(self.ident);
        out.push(hex_upper(size / 16));
        out.push(hex_upper(size % 16));
        bytes::append(&mut out, self.params.as_slice());
        assert(out@ =~= self@.body());
        let sum = checksum::compute(out.as_slice());
        out.push(sum[0]);
        out.push(sum[1]);
        assert(out@ =~= self@.line());
        out
    }

    /// The line with the carriage return, ready to send.
    pub fn encode_to_bytes(&self) -> (r: Vec<u8>)
        ensures
            r@ == self@.sent(),
    {
        let mut out = self.encode();
        out.push(0x0D);
        out
    }

    /// Writes the line, without the carriage return, over the front of `dst`. `None`
    /// if `dst` is too short.
    pub fn encode_into(&self, dst: &mut [u8]) -> (r: Option<usize>)
        ensures
            bytes::written(old(dst)@, final(dst)@, self@.line(), r is Some),
            r matches Some(n) ==> n == self@.line().len(),
    {
        let line = self.encode();
        bytes::put_front(dst, line.as_slice())
    }

    /// Writes the line with the carriage return over the front of `dst`. `None` if
    /// `dst` is too short; the line without the carriage return is written if that
    /// alone does not fit.
    pub fn encode_to_bytes_into(&self, dst: &mut [u8]) -> (r: Option<usize>)
        ensures
            match r {
                Some(n) => {
                    &&& n == self@.sent().len()
                    &&& n <= old(dst)@.len()
                    &&& final(dst)@ == bytes::patched(old(dst)@, 0, self@.sent())
                },
                None => {
                    &&& old(dst)@.len() < self@.sent().len()
                    &&& final(dst)@ == if old(dst)@.len() == self@.line().len() {
                        self@.line()
                    } else {
                        old(dst)@
                    }
                },
            },
    {
        let room: usize = dst.len();
        match self.encode_into(dst) {
            Some(n) => {
                if room == n {
                    assert(dst@ =~= self@.line());
                    return None;
                }
                dst[n] = 0x0D;
                assert(dst@ =~= bytes::patched(old(dst)@, 0, self@.sent()));
                Some(n + 1)
            },
            None => None,
        }
    }

    /// Reads a line, without the carriage return. `None` if the size is not that of
    /// the parameters or the checksum is wrong: the line is noise.
    pub fn try_parse(line: &[u8]) -> (r: Option<CcdiFrame>)
        ensures
            match r {
                Some(f) => frame_in(line@) == Some(f@),
                None => frame_in(line@) is None,
            },
    {
        let n: usize = line.len();
        if n < 5 {
            return None;
        }
        let size: u8 = match parse_hex_u8(slice_subrange(line, 1, 3)) {
            Some(size) => size,
            None => {
                return None;
            },
        };
        if n != 5 + size as usize {
            return None;
        }
        let body = slice_subrange(line, 0, n - 2);
        let sum = slice_subrange(line, n - 2, n);
        assert(body@ =~= line@.take(n - 2));
        assert(sum@ =~= line@.skip(n - 2));
        if !checksum::is_valid(body, sum) {
            return None;
        }
        CcdiFrame::new(line[0], slice_subrange(line, 3, n - 2))
    }
}

} // verus!
