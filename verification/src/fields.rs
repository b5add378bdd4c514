//! Fields of an octet string between separators.

use vstd::prelude::*;
use vstd::slice::slice_subrange;

verus! {

/// Where octet `b` first occurs from index `from` on, or the length.
pub open spec fn found(s: Seq<u8>, b: u8, from: int) -> int
    decreases s.len() - from,
{
    if from >= s.len() {
        s.len() as int
    } else if s[from] == b {
        from
    } else {
        found(s, b, from + 1)
    }
}

/// Where octet `b` first occurs, or the length.
pub open spec fn first_of(s: Seq<u8>, b: u8) -> int {
    found(s, b, 0)
}

/// What stands before the first `b`.
pub open spec fn head(s: Seq<u8>, b: u8) -> Seq<u8> {
    s.take(first_of(s, b))
}

/// What stands behind the first `b`, if there is one.
pub open spec fn tail(s: Seq<u8>, b: u8) -> Option<Seq<u8>> {
    if first_of(s, b) < s.len() {
        Some(s.skip(first_of(s, b) + 1))
    } else {
        None
    }
}

/// Octet `b` does not occur.
pub open spec fn is_free_of(s: Seq<u8>, b: u8) -> bool {
    forall|i: int| 0 <= i < s.len() ==> #[trigger] s[i] != b
}

/// What `found` gives is the first.
pub proof fn lemma_found(s: Seq<u8>, b: u8, from: int)
    requires
        0 <= from <= s.len(),
    ensures
        from <= found(s, b, from) <= s.len(),
        found(s, b, from) < s.len() ==> s[found(s, b, from)] == b,
        forall|i: int| from <= i < found(s, b, from) ==> #[trigger] s[i] != b,
    decreases s.len() - from,
{
    if from < s.len() && s[from] != b {
        lemma_found(s, b, from + 1);
    }
}

/// The first place is known by what stands there and before it.
pub proof fn lemma_first_is(s: Seq<u8>, b: u8, at: int)
    requires
        0 <= at <= s.len(),
        at < s.len() ==> s[at] == b,
        forall|i: int| 0 <= i < at ==> #[trigger] s[i] != b,
    ensures
        first_of(s, b) == at,
{
    lemma_found(s, b, 0);
}

/// Of a field, a separator and a rest, the field is the head and the rest the tail.
pub proof fn lemma_head_and_tail(field: Seq<u8>, b: u8, rest: Seq<u8>)
    requires
        is_free_of(field, b),
    ensures
        head(field.push(b) + rest, b) == field,
        tail(field.push(b) + rest, b) == Some(rest),
{
    let s: Seq<u8> = field.push(b) + rest;
    assert forall|i: int| 0 <= i < field.len() implies #[trigger] s[i] != b by {
        assert(field[i] != b);
    }
    lemma_first_is(s, b, field.len() as int);
    assert(s.take(field.len() as int) =~= field);
    assert(s.skip(field.len() as int + 1) =~= rest);
}

/// A field alone is the head, and has no tail.
pub proof fn lemma_no_tail(field: Seq<u8>, b: u8)
    requires
        is_free_of(field, b),
    ensures
        head(field, b) == field,
        tail(field, b) is None,
{
    lemma_first_is(field, b, field.len() as int);
    assert(field.take(field.len() as int) =~= field);
}

/// What stands behind the first `b` is the end of the whole, and `b` stands before it.
pub proof fn lemma_tail_is_the_end(s: Seq<u8>, b: u8)
    requires
        tail(s, b) is Some,
    ensures
        tail(s, b)->0.len() < s.len(),
        tail(s, b)->0 == s.skip(s.len() - tail(s, b)->0.len()),
        s[s.len() - tail(s, b)->0.len() - 1] == b,
{
    lemma_found(s, b, 0);
}

/// Where octet `b` first occurs, or the length.
pub fn find(s: &[u8], b: u8) -> (r: usize)
    ensures
        r == first_of(s@, b),
        r <= s@.len(),
        r < s@.len() ==> s@[r as int] == b,
{
    let mut i: usize = 0;
    while i < s.len()
        invariant
            i <= s@.len(),
            found(s@, b, i as int) == first_of(s@, b),
        decreases s@.len() - i,
    {
        if s[i] == b {
            return i;
        }
        i = i + 1;
    }
    i
}

/// What stands before the first `b`, and what stands behind it if there is one.
pub fn split<'a>(s: &'a [u8], b: u8) -> (r: (&'a [u8], Option<&'a [u8]>))
    ensures
        r.0@ == head(s@, b),
        match r.1 {
            Some(t) => tail(s@, b) == Some(t@) && t@.len() < s@.len(),
            None => tail(s@, b) is None,
        },
{
    let i: usize = find(s, b);
    let before = slice_subrange(s, 0, i);
    assert(before@ =~= s@.take(i as int));
    if i < s.len() {
        let after = slice_subrange(s, i + 1, s.len());
        assert(after@ =~= s@.skip(i + 1));
        (before, Some(after))
    } else {
        (before, None)
    }
}

} // verus!
