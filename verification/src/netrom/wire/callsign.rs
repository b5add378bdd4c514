//! The two text encodings of a NODES broadcast: callsigns in the shifted form of
//! AX.25, and aliases in plain space-padded ASCII.

use vstd::prelude::*;
use vstd::slice::slice_subrange;
use vstd::string::StringSliceAdditionalSpecFns;

use crate::ax25::address;
use crate::ax25::address::{Address, AddressView};
use crate::ax25::callsign::{Callsign, CallsignView};
use crate::bytes;
use crate::text;
use crate::text::text_of;

verus! {

/// Octets of a shifted callsign field.
pub const SHIFTED_LENGTH: usize = 7;

/// Octets of an alias field.
pub const ALIAS_LENGTH: usize = 6;

/// A node's alias: up to six printable ASCII characters, without spaces at the end.
#[derive(Debug, Clone, Copy, PartialEq, Eq)]
pub struct Alias {
    buf: [u8; 6],
    len: u8,
}

/// A printable ASCII character, the space included.
pub open spec fn is_printable(b: u8) -> bool {
    0x20 <= b <= 0x7E
}

/// The printable characters of `s`, in order.
pub open spec fn printable(s: Seq<u8>) -> Seq<u8>
    decreases s.len(),
{
    if s.len() == 0 {
        Seq::empty()
    } else if is_printable(s.last()) {
        printable(s.drop_last()).push(s.last())
    } else {
        printable(s.drop_last())
    }
}

/// At most six printable characters, the last of them no space.
pub open spec fn valid_alias(a: Seq<u8>) -> bool {
    &&& a.len() <= ALIAS_LENGTH
    &&& forall|i: int| 0 <= i < a.len() ==> is_printable(#[trigger] a[i])
    &&& a.len() > 0 ==> a.last() != 0x20
}

/// The alias that the first six octets of a field hold. Octets that are not
/// printable are dropped. A field that is too short holds the empty alias.
pub open spec fn alias_in(s: Seq<u8>) -> Seq<u8> {
    if s.len() < ALIAS_LENGTH {
        Seq::empty()
    } else {
        bytes::trimmed(printable(s.take(6)))
    }
}

/// The alias made of the first six printable characters of a text.
pub open spec fn alias_from(s: Seq<u8>) -> Seq<u8> {
    let p: Seq<u8> = printable(s);
    bytes::trimmed(p.take(if p.len() < 6 {
        p.len() as int
    } else {
        6
    }))
}

/// The six octets of an alias field.
pub open spec fn alias_field(a: Seq<u8>) -> Seq<u8> {
    a + bytes::spaces((6 - a.len()) as nat)
}

proof fn lemma_printable_is_printable(s: Seq<u8>)
    ensures
        printable(s).len() <= s.len(),
        forall|i: int| 0 <= i < printable(s).len() ==> is_printable(#[trigger] printable(s)[i]),
    decreases s.len(),
{
    if s.len() > 0 {
        lemma_printable_is_printable(s.drop_last());
    }
}

proof fn lemma_printable_all(s: Seq<u8>)
    requires
        forall|i: int| 0 <= i < s.len() ==> is_printable(#[trigger] s[i]),
    ensures
        printable(s) == s,
    decreases s.len(),
{
    if s.len() > 0 {
        lemma_printable_all(s.drop_last());
        assert(s.drop_last().push(s.last()) =~= s);
    } else {
        assert(printable(s) =~= s);
    }
}

/// Whatever a field or a text holds, the alias read from it is valid.
pub proof fn law_aliases_are_valid(s: Seq<u8>)
    ensures
        valid_alias(alias_in(s)),
        valid_alias(alias_from(s)),
{
    let p: Seq<u8> = printable(s);
    let n: int = if p.len() < 6 {
        p.len() as int
    } else {
        6
    };
    lemma_printable_is_printable(s);
    bytes::lemma_trimmed_prefix(p.take(n));
    if s.len() >= 6 {
        lemma_printable_is_printable(s.take(6));
        bytes::lemma_trimmed_prefix(printable(s.take(6)));
    }
}

/// An alias is read back from the field that it is written as.
pub proof fn law_alias_round_trip(a: Seq<u8>)
    requires
        valid_alias(a),
    ensures
        alias_field(a).len() == ALIAS_LENGTH,
        alias_in(alias_field(a)) == a,
{
    let f: Seq<u8> = alias_field(a);
    assert(f.take(6) =~= f);
    lemma_printable_all(f);
    bytes::lemma_trim_undoes_padding(a, (6 - a.len()) as nat);
}

/// What an alias decodes from depends on its first six octets only.
pub proof fn law_alias_reads_six_octets(s: Seq<u8>)
    requires
        s.len() >= ALIAS_LENGTH,
    ensures
        alias_in(s) == alias_in(s.take(6)),
{
    assert(s.take(6).take(6) =~= s.take(6));
}

impl View for Alias {
    type V = Seq<u8>;

    closed spec fn view(&self) -> Seq<u8> {
        self.buf@.take(self.len as int)
    }
}

impl Alias {
    #[verifier::type_invariant]
    spec fn inv(self) -> bool {
        &&& self.len <= 6
        &&& valid_alias(self@)
        &&& forall|i: int| self.len <= i < 6 ==> #[trigger] self.buf@[i] == 0
    }

    /// The empty alias.
    pub fn empty() -> (a: Alias)
        ensures
            a@ == Seq::<u8>::empty(),
    {
        let buf: [u8; 6] = [0;6];
        assert(buf@.take(0) =~= Seq::<u8>::empty());
        Alias { buf, len: 0 }
    }

    /// The alias made of the first printable characters of `s`.
    fn collect(s: &[u8]) -> (a: Alias)
        ensures
            a@ == alias_from(s@),
    {
        let mut buf: [u8; 6] = [0;6];
        let mut len: usize = 0;
        let mut i: usize = 0;
        assert(s@.take(0) =~= Seq::<u8>::empty());
        assert(buf@.take(0) =~= Seq::<u8>::empty());
        while i < s.len() && len < 6
            invariant
                i <= s@.len(),
                len <= 6,
                buf@.len() == 6,
                buf@.take(len as int) == printable(s@.take(i as int)),
                forall|j: int| len <= j < 6 ==> #[trigger] buf@[j] == 0,
            decreases s@.len() - i,
        {
            let b: u8 = s[i];
            assert(s@.take(i + 1).drop_last() =~= s@.take(i as int));
            if 0x20 <= b && b <= 0x7E {
                let ghost before = buf@;
                buf[len] = b;
                len = len + 1;
                assert(buf@.take(len as int) =~= before.take(len - 1).push(b));
            }
            i = i + 1;
        }
        proof {
            lemma_first_printable(s@, i as int);
            assert(s@.take(s@.len() as int) =~= s@);
        }
        let kept: usize = bytes::trimmed_len(slice_subrange(buf.as_slice(), 0, len));
        assert(buf@.subrange(0, len as int) =~= buf@.take(len as int));
        let ghost collected = buf@;
        let mut k: usize = kept;
        while k < 6
            invariant
                kept <= k <= 6,
                kept <= len <= 6,
                buf@.len() == 6,
                collected.len() == 6,
                forall|j: int| 0 <= j < kept ==> buf@[j] == collected[j],
                forall|j: int| kept <= j < k ==> #[trigger] buf@[j] == 0,
            decreases 6 - k,
        {
            buf[k] = 0;
            k = k + 1;
        }
        proof {
            assert(buf@.take(kept as int) =~= collected.take(len as int).take(kept as int));
            law_aliases_are_valid(s@);
        }
        Alias { buf, len: kept as u8 }
    }

    /// The alias made of the first six printable characters of a text.
    pub fn from_str_lossy(s: &str) -> (a: Alias)
        ensures
            a@ == alias_from(s.spec_bytes()),
    {
        Alias::collect(s.as_bytes())
    }

    /// The characters of the alias.
    pub fn as_bytes(&self) -> (r: &[u8])
        ensures
            r@ == self@,
            valid_alias(self@),
    {
        proof {
            use_type_invariant(self);
            assert(self.buf@.subrange(0, self.len as int) =~= self.buf@.take(self.len as int));
        }
        slice_subrange(self.buf.as_slice(), 0, self.len as usize)
    }

    /// Appends the six octets of the alias field to `out`.
    pub(crate) fn append_to(&self, out: &mut Vec<u8>)
        ensures
            final(out)@ == old(out)@ + alias_field(self@),
    {
        let b = self.as_bytes();
        let mut i: usize = 0;
        assert(out@ =~= old(out)@ + alias_field(self@).take(0));
        while i < ALIAS_LENGTH
            invariant
                i <= ALIAS_LENGTH,
                b@ == self@,
                b@.len() <= ALIAS_LENGTH,
                out@ == old(out)@ + alias_field(self@).take(i as int),
            decreases ALIAS_LENGTH - i,
        {
            out.push(
                if i < b.len() {
                    b[i]
                } else {
                    0x20
                },
            );
            i = i + 1;
            assert(out@ =~= old(out)@ + alias_field(self@).take(i as int));
        }
        assert(alias_field(self@).take(6) =~= alias_field(self@));
    }

    /// The alias as text.
    pub fn as_str(&self) -> (r: &str)
        ensures
            r.spec_bytes() == self@,
            r@ == text::chars_of(self@),
    {
        let b = self.as_bytes();
        proof {
            text::lemma_ascii_is_utf8(b@);
        }
        match text_of(b) {
            Some(s) => {
                proof {
                    vstd::utf8::encode_utf8_decode_utf8(s@);
                    vstd::utf8::encode_utf8_decode_utf8(text::chars_of(self@));
                }
                s
            },
            None => "",
        }
    }

    /// Whether the alias is empty.
    pub fn is_empty(&self) -> (r: bool)
        ensures
            r == (self@.len() == 0),
    {
        proof {
            use_type_invariant(self);
        }
        self.len == 0
    }
}

impl Default for Alias {
    fn default() -> (a: Alias)
        ensures
            a@ == Seq::<u8>::empty(),
    {
        Alias::empty()
    }
}

/// The printable characters of a prefix are a prefix of the printable characters.
pub proof fn lemma_printable_extends(s: Seq<u8>, i: int, j: int)
    requires
        0 <= i <= j <= s.len(),
    ensures
        printable(s.take(i)).len() <= printable(s.take(j)).len(),
        printable(s.take(j)).take(printable(s.take(i)).len() as int) == printable(s.take(i)),
    decreases j - i,
{
    if i == j {
        assert(printable(s.take(j)).take(printable(s.take(i)).len() as int) =~= printable(
            s.take(i),
        ));
    } else {
        lemma_printable_extends(s, i, j - 1);
        assert(s.take(j).drop_last() =~= s.take(j - 1));
        assert(printable(s.take(j)).take(printable(s.take(i)).len() as int) =~= printable(
            s.take(j - 1),
        ).take(printable(s.take(i)).len() as int));
    }
}

proof fn lemma_first_printable(s: Seq<u8>, i: int)
    requires
        0 <= i <= s.len(),
        printable(s.take(i)).len() <= 6,
        i == s.len() || printable(s.take(i)).len() == 6,
    ensures
        ({
            let p: Seq<u8> = printable(s);
            printable(s.take(i)) == p.take(if p.len() < 6 {
                p.len() as int
            } else {
                6
            })
        }),
{
    lemma_printable_extends(s, i, s.len() as int);
    assert(s.take(s.len() as int) =~= s);
    if i == s.len() {
        assert(printable(s).take(printable(s).len() as int) =~= printable(s));
    }
}

/// Reads a callsign off the first seven octets of `source`. The flags in the last
/// octet are not significant here. `None` if there are fewer octets or they do not
/// hold a callsign; a blank base is permitted.
pub fn try_read_shifted(source: &[u8]) -> (r: Option<Callsign>)
    ensures
        match r {
            Some(c) => address::unshifted(source@) matches Some(a) && a.callsign == c@,
            None => address::unshifted(source@) is None,
        },
{
    match Address::decode(source) {
        Some(a) => Some(a.callsign),
        None => None,
    }
}

/// Reads an alias off the first six octets of `source`.
pub fn read_alias(source: &[u8]) -> (a: Alias)
    ensures
        a@ == alias_in(source@),
{
    if source.len() < ALIAS_LENGTH {
        return Alias::empty();
    }
    let field = slice_subrange(source, 0, ALIAS_LENGTH);
    proof {
        assert(source@.subrange(0, 6) =~= source@.take(6));
        let p: Seq<u8> = printable(source@.take(6));
        lemma_printable_is_printable(source@.take(6));
        assert(p.take(p.len() as int) =~= p);
    }
    Alias::collect(field)
}

/// The seven octets of a callsign with both flags clear.
pub open spec fn plain_shifted(c: CallsignView) -> Seq<u8> {
    address::shifted(AddressView { callsign: c, crh: false, extension: false })
}

/// A callsign is read back from the field that it is written as.
pub proof fn law_callsign_field_round_trip(c: CallsignView)
    requires
        c.valid(),
    ensures
        plain_shifted(c).len() == SHIFTED_LENGTH,
        address::unshifted(plain_shifted(c)) matches Some(a) && a.callsign == c,
{
    address::law_address_round_trip(AddressView { callsign: c, crh: false, extension: false });
}

/// Writes a callsign over the first seven octets of `dst`, both flags clear. `None`
/// if there are fewer.
pub fn write_shifted(callsign: &Callsign, dst: &mut [u8]) -> (r: Option<()>)
    ensures
        r is Some <==> old(dst)@.len() >= SHIFTED_LENGTH,
        final(dst)@ == if old(dst)@.len() >= SHIFTED_LENGTH {
            bytes::patched(old(dst)@, 0, plain_shifted(callsign@))
        } else {
            old(dst)@
        },
{
    Address { callsign: *callsign, crh: false, extension: false }.encode(dst)
}

/// Appends the seven octets of a callsign to `out`, both flags clear.
pub(crate) fn append_shifted(callsign: &Callsign, out: &mut Vec<u8>)
    ensures
        final(out)@ == old(out)@ + plain_shifted(callsign@),
{
    Address { callsign: *callsign, crh: false, extension: false }.append_to(out);
}

/// Writes an alias over the first six octets of `dst`, padded with spaces. `None` if
/// there are fewer.
pub fn write_alias(alias: &Alias, dst: &mut [u8]) -> (r: Option<()>)
    ensures
        r is Some <==> old(dst)@.len() >= ALIAS_LENGTH,
        final(dst)@ == if old(dst)@.len() >= ALIAS_LENGTH {
            bytes::patched(old(dst)@, 0, alias_field(alias@))
        } else {
            old(dst)@
        },
{
    if dst.len() < ALIAS_LENGTH {
        return None;
    }
    let mut out: Vec<u8> = Vec::new();
    alias.append_to(&mut out);
    assert(out@ =~= alias_field(alias@));
    let _ = alias.as_bytes();
    bytes::put(dst, 0, out.as_slice());
    Some(())
}

} // verus!
