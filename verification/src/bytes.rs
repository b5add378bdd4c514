//! Octet strings: reading and writing fields at an offset.

use vstd::prelude::*;
use vstd::slice::slice_subrange;

verus! {

/// `s` with the octets of `w` written over it from index `at` on.
pub open spec fn patched(s: Seq<u8>, at: int, w: Seq<u8>) -> Seq<u8> {
    Seq::new(
        s.len(),
        |i: int| {
            if at <= i < at + w.len() {
                w[i - at]
            } else {
                s[i]
            }
        },
    )
}

/// Writes `w` over `dst` from index `at` on.
pub fn put(dst: &mut [u8], at: usize, w: &[u8])
    requires
        at + w@.len() <= old(dst)@.len(),
    ensures
        final(dst)@ == patched(old(dst)@, at as int, w@),
{
    let n: usize = dst.len();
    let mut i: usize = 0;
    while i < w.len()
        invariant
            i <= w@.len(),
            n == dst@.len(),
            n == old(dst)@.len(),
            at + w@.len() <= n,
            dst@ == patched(old(dst)@, at as int, w@.take(i as int)),
        decreases w@.len() - i,
    {
        dst[at + i] = w[i];
        i = i + 1;
        assert(dst@ =~= patched(old(dst)@, at as int, w@.take(i as int)));
    }
    assert(w@.take(i as int) =~= w@);
}

/// `s` without the spaces at its end.
pub open spec fn trimmed(s: Seq<u8>) -> Seq<u8>
    decreases s.len(),
{
    if s.len() > 0 && s.last() == 0x20 {
        trimmed(s.drop_last())
    } else {
        s
    }
}

/// `n` spaces.
pub open spec fn spaces(n: nat) -> Seq<u8> {
    Seq::new(n, |i: int| 0x20u8)
}

/// Padding a text that does not end in a space and trimming it again changes
/// nothing.
pub proof fn lemma_trim_undoes_padding(s: Seq<u8>, n: nat)
    requires
        s.len() > 0 ==> s.last() != 0x20,
    ensures
        trimmed(s + spaces(n)) == s,
    decreases n,
{
    let padded: Seq<u8> = s + spaces(n);
    if n == 0 {
        assert(padded =~= s);
    } else {
        assert(padded.last() == 0x20);
        assert(padded.drop_last() =~= s + spaces((n - 1) as nat));
        lemma_trim_undoes_padding(s, (n - 1) as nat);
    }
}

/// What trimming leaves is a prefix that does not end in a space, and the rest
/// are spaces.
pub proof fn lemma_trimmed_prefix(s: Seq<u8>)
    ensures
        trimmed(s).len() <= s.len(),
        trimmed(s) == s.take(trimmed(s).len() as int),
        trimmed(s).len() > 0 ==> trimmed(s).last() != 0x20,
        s == trimmed(s) + spaces((s.len() - trimmed(s).len()) as nat),
    decreases s.len(),
{
    if s.len() > 0 && s.last() == 0x20 {
        lemma_trimmed_prefix(s.drop_last());
        let t: Seq<u8> = trimmed(s);
        assert(s.drop_last().take(t.len() as int) =~= s.take(t.len() as int));
        assert(s =~= s.drop_last().push(0x20));
        assert(s =~= t + spaces((s.len() - t.len()) as nat));
    } else {
        assert(s.take(s.len() as int) =~= s);
        assert(s =~= s + spaces(0));
    }
}

/// The length of `s` without the spaces at its end.
pub fn trimmed_len(s: &[u8]) -> (n: usize)
    ensures
        n <= s@.len(),
        n == trimmed(s@).len(),
        s@.take(n as int) == trimmed(s@),
{
    let mut n: usize = s.len();
    assert(s@.take(n as int) =~= s@);
    while n > 0 && s[n - 1] == 0x20
        invariant
            n <= s@.len(),
            trimmed(s@.take(n as int)) == trimmed(s@),
        decreases n,
    {
        assert(s@.take(n as int).drop_last() =~= s@.take(n - 1));
        n = n - 1;
    }
    n
}

/// The low and the high half of an octet, and its three highest bits, in arithmetic.
pub proof fn lemma_octet_masks(b: u8)
    ensures
        b & 0x0F == b % 16,
        b & 0xF0 == b - b % 16,
        b & 0x80 != 0 <==> b >= 128,
        b & 0x40 != 0 <==> b / 64 % 2 == 1,
        b & 0x20 != 0 <==> b / 32 % 2 == 1,
{
    assert(b & 0x0F == b % 16) by (bit_vector);
    assert(b & 0xF0 == b - b % 16) by (bit_vector);
    assert(b & 0x80 != 0 <==> b >= 128) by (bit_vector);
    assert(b & 0x40 != 0 <==> b / 64 % 2 == 1) by (bit_vector);
    assert(b & 0x20 != 0 <==> b / 32 % 2 == 1) by (bit_vector);
}

/// Joining a low half and a high half adds them.
pub proof fn lemma_join_halves(lo: u8, hi: u8)
    ensures
        (lo & 0x0F) | (hi & 0xF0) == lo % 16 + (hi - hi % 16),
{
    assert((lo & 0x0F) | (hi & 0xF0) == lo % 16 + (hi - hi % 16)) by (bit_vector);
}

/// Writes `w` over the front of `dst` and says so, or leaves `dst` as it is if `w` is
/// longer.
pub fn put_front(dst: &mut [u8], w: &[u8]) -> (r: Option<usize>)
    ensures
        written(old(dst)@, final(dst)@, w@, r is Some),
        r matches Some(n) ==> n == w@.len(),
{
    if dst.len() < w.len() {
        return None;
    }
    put(dst, 0, w);
    Some(w.len())
}

/// `w` was written over the front of what was `before`, and that is `done`; or it is
/// longer, and nothing was written.
pub open spec fn written(before: Seq<u8>, after: Seq<u8>, w: Seq<u8>, done: bool) -> bool {
    if w.len() <= before.len() {
        done && after == patched(before, 0, w)
    } else {
        !done && after == before
    }
}

/// Appends `w` to `out`.
pub fn append(out: &mut Vec<u8>, w: &[u8])
    ensures
        final(out)@ == old(out)@ + w@,
{
    let mut i: usize = 0;
    assert(out@ =~= old(out)@ + w@.take(0));
    while i < w.len()
        invariant
            i <= w@.len(),
            out@ == old(out)@ + w@.take(i as int),
        decreases w@.len() - i,
    {
        out.push(w[i]);
        i = i + 1;
        assert(out@ =~= old(out)@ + w@.take(i as int));
    }
    assert(w@.take(i as int) =~= w@);
}

/// The octets of `s` from `from` up to `to`.
pub fn part(s: &[u8], from: usize, to: usize) -> (r: &[u8])
    requires
        from <= to <= s@.len(),
    ensures
        r@ == s@.subrange(from as int, to as int),
{
    slice_subrange(s, from, to)
}

} // verus!
