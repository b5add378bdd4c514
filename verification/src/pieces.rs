//! Text that goes into a buffer piece by piece.

use vstd::prelude::*;

use crate::bytes;
use crate::numbers;
use crate::numbers::append_digits;

verus! {

/// The text that pieces make.
pub open spec fn whole(pieces: Seq<Seq<u8>>) -> Seq<u8>
    decreases pieces.len(),
{
    if pieces.len() == 0 {
        Seq::empty()
    } else {
        whole(pieces.drop_last()) + pieces.last()
    }
}

/// How many octets the longest front of the pieces has that fits the room.
pub open spec fn fitting(pieces: Seq<Seq<u8>>, room: int) -> nat
    decreases pieces.len(),
{
    if pieces.len() == 0 || whole(pieces).len() <= room {
        whole(pieces).len()
    } else {
        fitting(pieces.drop_last(), room)
    }
}

/// Pieces went over the front of what was `before`, one by one, and the first that did not
/// fit ended it. `r` is how long the text is if all of it fitted.
pub open spec fn went_in(
    before: Seq<u8>,
    after: Seq<u8>,
    pieces: Seq<Seq<u8>>,
    r: Option<usize>,
) -> bool {
    let text: Seq<u8> = whole(pieces);
    &&& after == bytes::patched(
        before,
        0,
        text.take(fitting(pieces, before.len() as int) as int),
    )
    &&& match r {
        Some(n) => text.len() <= before.len() && n == text.len(),
        None => text.len() > before.len(),
    }
}

/// The pieces of a signed number: a minus sign where it is negative, and the digits of its
/// magnitude.
pub open spec fn signed_pieces(n: int) -> Seq<Seq<u8>> {
    if n < 0 {
        seq![seq![0x2Du8], numbers::digits_of((-n) as nat)]
    } else {
        seq![numbers::digits_of(n as nat)]
    }
}

/// What pieces behind pieces make.
pub proof fn lemma_whole_of_both(a: Seq<Seq<u8>>, b: Seq<Seq<u8>>)
    ensures
        whole(a + b) == whole(a) + whole(b),
    decreases b.len(),
{
    if b.len() == 0 {
        assert(a + b =~= a);
        assert(whole(a) + whole(b) =~= whole(a));
    } else {
        assert((a + b).drop_last() =~= a + b.drop_last());
        lemma_whole_of_both(a, b.drop_last());
        assert(whole(a) + (whole(b.drop_last()) + b.last()) =~= whole(a) + whole(b.drop_last())
            + b.last());
    }
}

/// What one piece makes, and one more behind others.
pub proof fn lemma_whole_of_one(a: Seq<Seq<u8>>, piece: Seq<u8>)
    ensures
        whole(seq![piece]) == piece,
        whole(a.push(piece)) == whole(a) + piece,
{
    let one: Seq<Seq<u8>> = seq![piece];
    reveal_with_fuel(whole, 2);
    assert(one.drop_last() =~= Seq::<Seq<u8>>::empty());
    assert(whole(one) =~= piece);
    assert(a.push(piece).drop_last() =~= a);
}

/// The pieces of a signed number make the number.
pub proof fn lemma_signed_pieces(n: int)
    ensures
        whole(signed_pieces(n)) == numbers::signed_digits_of(n),
{
    if n < 0 {
        let sign: Seq<u8> = seq![0x2Du8];
        let digits: Seq<u8> = numbers::digits_of((-n) as nat);
        lemma_whole_of_one(Seq::empty(), sign);
        lemma_whole_of_one(seq![sign], digits);
        assert(seq![sign].push(digits) =~= seq![sign, digits]);
    } else {
        lemma_whole_of_one(Seq::empty(), numbers::digits_of(n as nat));
    }
}

/// A front of the pieces makes a front of the text.
proof fn lemma_front(pieces: Seq<Seq<u8>>, k: int)
    requires
        0 <= k <= pieces.len(),
    ensures
        whole(pieces.take(k)).len() <= whole(pieces).len(),
        whole(pieces).take(whole(pieces.take(k)).len() as int) == whole(pieces.take(k)),
{
    let front: Seq<u8> = whole(pieces.take(k));
    lemma_whole_of_both(pieces.take(k), pieces.skip(k));
    assert(pieces.take(k) + pieces.skip(k) =~= pieces);
    assert((front + whole(pieces.skip(k))).take(front.len() as int) =~= front);
}

/// A front that fits, while the front with one piece more does not, is the longest.
proof fn lemma_longest(pieces: Seq<Seq<u8>>, k: int, room: int)
    requires
        0 <= k < pieces.len(),
        whole(pieces.take(k)).len() <= room < whole(pieces.take(k + 1)).len(),
    ensures
        fitting(pieces, room) == whole(pieces.take(k)).len(),
    decreases pieces.len(),
{
    lemma_front(pieces, k + 1);
    if k + 1 == pieces.len() {
        assert(pieces.take(k + 1) =~= pieces);
        assert(pieces.drop_last() =~= pieces.take(k));
        reveal_with_fuel(fitting, 2);
    } else {
        assert(pieces.drop_last().take(k) =~= pieces.take(k));
        assert(pieces.drop_last().take(k + 1) =~= pieces.take(k + 1));
        lemma_longest(pieces.drop_last(), k, room);
    }
}

/// A buffer that is too short holds a front of the text and, behind it, what it held.
pub proof fn law_a_short_buffer_holds_whole_pieces(
    before: Seq<u8>,
    after: Seq<u8>,
    pieces: Seq<Seq<u8>>,
    r: Option<usize>,
)
    requires
        went_in(before, after, pieces, r),
    ensures
        ({
            let n: int = fitting(pieces, before.len() as int) as int;
            &&& after.len() == before.len()
            &&& n <= before.len()
            &&& n <= whole(pieces).len()
            &&& after.take(n) == whole(pieces).take(n)
            &&& after.skip(n) == before.skip(n)
            &&& exists|k: int|
                0 <= k <= pieces.len() && whole(pieces).take(n) == whole(#[trigger] pieces.take(k))
            &&& r is Some ==> n == whole(pieces).len()
        }),
{
    let n: int = fitting(pieces, before.len() as int) as int;
    let k: int = lemma_fitting_is_a_front(pieces, before.len() as int);
    lemma_front(pieces, k);
    assert(after.take(n) =~= whole(pieces).take(n));
    assert(after.skip(n) =~= before.skip(n));
}

/// What fits is a front of the pieces.
proof fn lemma_fitting_is_a_front(pieces: Seq<Seq<u8>>, room: int) -> (k: int)
    requires
        0 <= room,
    ensures
        0 <= k <= pieces.len(),
        fitting(pieces, room) == whole(pieces.take(k)).len(),
        fitting(pieces, room) <= room,
    decreases pieces.len(),
{
    if pieces.len() == 0 || whole(pieces).len() <= room {
        assert(pieces.take(pieces.len() as int) =~= pieces);
        pieces.len() as int
    } else {
        let k: int = lemma_fitting_is_a_front(pieces.drop_last(), room);
        assert(pieces.drop_last().take(k) =~= pieces.take(k));
        k
    }
}

/// Pieces of text.
pub struct Pieces {
    list: Vec<Vec<u8>>,
}

impl View for Pieces {
    type V = Seq<Seq<u8>>;

    closed spec fn view(&self) -> Seq<Seq<u8>> {
        self.list@.map_values(|p: Vec<u8>| p@)
    }
}

impl Pieces {
    /// No pieces.
    pub fn new() -> (p: Pieces)
        ensures
            p@ == Seq::<Seq<u8>>::empty(),
    {
        let p = Pieces { list: Vec::new() };
        assert(p@ =~= Seq::<Seq<u8>>::empty());
        p
    }

    /// Adds a piece.
    pub fn push(&mut self, piece: &[u8])
        ensures
            final(self)@ == old(self)@.push(piece@),
    {
        let mut octets: Vec<u8> = Vec::new();
        bytes::append(&mut octets, piece);
        self.list.push(octets);
        assert(octets@ =~= piece@);
        assert(self@ =~= old(self)@.push(piece@));
    }

    /// Adds the digits of a number.
    pub fn push_digits(&mut self, n: u64)
        ensures
            final(self)@ == old(self)@.push(numbers::digits_of(n as nat)),
    {
        let mut octets: Vec<u8> = Vec::new();
        append_digits(&mut octets, n);
        assert(octets@ =~= numbers::digits_of(n as nat));
        self.push(octets.as_slice());
    }

    /// Adds a signed number.
    pub fn push_signed(&mut self, n: i64)
        ensures
            final(self)@ == old(self)@ + signed_pieces(n as int),
    {
        if n < 0 {
            let sign: [u8; 1] = [0x2D];
            assert(sign@ =~= seq![0x2Du8]);
            self.push(sign.as_slice());
            self.push_digits((-(n as i128)) as u64);
        } else {
            self.push_digits(n as u64);
        }
        assert(self@ =~= old(self)@ + signed_pieces(n as int));
    }

    /// Adds other pieces.
    pub fn extend(&mut self, more: &Pieces)
        ensures
            final(self)@ == old(self)@ + more@,
    {
        let mut i: usize = 0;
        assert(self@ =~= old(self)@ + more@.take(0));
        while i < more.list.len()
            invariant
                i <= more.list@.len(),
                more@.len() == more.list@.len(),
                self@ == old(self)@ + more@.take(i as int),
            decreases more.list@.len() - i,
        {
            let ghost before = self@;
            self.push(more.list[i].as_slice());
            assert(more@.take(i + 1) =~= more@.take(i as int).push(more@[i as int]));
            assert(self@ =~= old(self)@ + more@.take(i + 1));
            i = i + 1;
        }
        assert(more@.take(i as int) =~= more@);
    }

    /// The text that the pieces make.
    pub fn text(&self) -> (r: Vec<u8>)
        ensures
            r@ == whole(self@),
    {
        let mut out: Vec<u8> = Vec::new();
        let mut i: usize = 0;
        assert(self@.take(0) =~= Seq::<Seq<u8>>::empty());
        while i < self.list.len()
            invariant
                i <= self.list@.len(),
                self@.len() == self.list@.len(),
                out@ == whole(self@.take(i as int)),
            decreases self.list@.len() - i,
        {
            bytes::append(&mut out, self.list[i].as_slice());
            proof {
                lemma_whole_of_one(self@.take(i as int), self@[i as int]);
                assert(self@.take(i + 1) =~= self@.take(i as int).push(self@[i as int]));
            }
            i = i + 1;
        }
        assert(self@.take(i as int) =~= self@);
        out
    }

    /// Writes the pieces over the front of `buf`, one by one, and says how long the text
    /// is. The first piece that does not fit ends it, and the answer is `None`: those in
    /// front of it have been written by then.
    pub fn put(&self, buf: &mut [u8]) -> (r: Option<usize>)
        ensures
            went_in(old(buf)@, final(buf)@, self@, r),
    {
        let room: usize = buf.len();
        let mut at: usize = 0;
        let mut i: usize = 0;
        proof {
            assert(self@.take(0) =~= Seq::<Seq<u8>>::empty());
            assert(buf@ =~= bytes::patched(buf@, 0, whole(self@.take(0))));
        }
        while i < self.list.len()
            invariant
                i <= self.list@.len(),
                self@.len() == self.list@.len(),
                room == old(buf)@.len(),
                buf@.len() == room,
                at <= room,
                at == whole(self@.take(i as int)).len(),
                buf@ == bytes::patched(old(buf)@, 0, whole(self@.take(i as int))),
            decreases self.list@.len() - i,
        {
            let piece = self.list[i].as_slice();
            let ghost front: Seq<u8> = whole(self@.take(i as int));
            proof {
                lemma_whole_of_one(self@.take(i as int), self@[i as int]);
                assert(self@.take(i + 1) =~= self@.take(i as int).push(self@[i as int]));
                lemma_front(self@, i + 1);
                lemma_front(self@, i as int);
            }
            if room - at < piece.len() {
                proof {
                    lemma_longest(self@, i as int, room as int);
                }
                return None;
            }
            bytes::put(buf, at, piece);
            assert(buf@ =~= bytes::patched(old(buf)@, 0, front + piece@));
            at = at + piece.len();
            i = i + 1;
        }
        proof {
            assert(self@.take(i as int) =~= self@);
            assert(whole(self@).take(whole(self@).len() as int) =~= whole(self@));
        }
        Some(at)
    }
}

} // verus!
