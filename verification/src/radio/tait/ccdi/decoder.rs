//! Lines out of a stream of octets.
//!
//! A line ends in a carriage return. A dot at the start of a line is a prompt. Line
//! feeds and flow-control octets are passed over. A line that is longer than any
//! message is noise, and is dropped whole.

use vstd::prelude::*;

use super::frame::MAX_LINE;

verus! {

/// What the stream brought.
#[derive(Debug, Clone, PartialEq, Eq)]
pub enum CcdiEvent {
    /// A prompt: the radio is ready.
    Prompt,
    /// A line, without the carriage return.
    Line(Vec<u8>),
}

/// What an event says.
pub enum CcdiEventView {
    Prompt,
    Line(Seq<u8>),
}

impl View for CcdiEvent {
    type V = CcdiEventView;

    open spec fn view(&self) -> CcdiEventView {
        match *self {
            CcdiEvent::Prompt => CcdiEventView::Prompt,
            CcdiEvent::Line(v) => CcdiEventView::Line(v@),
        }
    }
}

/// What a run of events says.
pub open spec fn event_views(v: Seq<CcdiEvent>) -> Seq<CcdiEventView> {
    v.map_values(|e: CcdiEvent| e@)
}

/// The line so far.
#[derive(Debug)]
pub struct LineDecoder {
    line: Vec<u8>,
    overflow: bool,
}

/// What a decoder holds: the line so far, and whether it is too long.
pub struct LineView {
    pub line: Seq<u8>,
    pub overflow: bool,
}

impl View for LineDecoder {
    type V = LineView;

    closed spec fn view(&self) -> LineView {
        LineView { line: self.line@, overflow: self.overflow }
    }
}

impl LineView {
    /// Nothing so far.
    pub open spec fn fresh() -> LineView {
        LineView { line: Seq::empty(), overflow: false }
    }

    /// The decoder after one octet.
    pub open spec fn after(self, c: u8) -> LineView {
        if c == 0x0D {
            LineView::fresh()
        } else if c == 0x0A || c == 0x11 || c == 0x13 || c == 0x2E && self.line.len() == 0 {
            self
        } else if self.line.len() < MAX_LINE {
            LineView { line: self.line.push(c), ..self }
        } else {
            LineView { overflow: true, ..self }
        }
    }

    /// What one octet completes, if anything.
    pub open spec fn completes(self, c: u8) -> Option<CcdiEventView> {
        if c == 0x0D && self.line.len() > 0 && !self.overflow {
            Some(CcdiEventView::Line(self.line))
        } else if c == 0x2E && self.line.len() == 0 {
            Some(CcdiEventView::Prompt)
        } else {
            None
        }
    }

    /// The decoder after a run of octets.
    pub open spec fn after_all(self, octets: Seq<u8>) -> LineView
        decreases octets.len(),
    {
        if octets.len() == 0 {
            self
        } else {
            self.after_all(octets.drop_last()).after(octets.last())
        }
    }

    /// What a run of octets completes.
    pub open spec fn events(self, octets: Seq<u8>) -> Seq<CcdiEventView>
        decreases octets.len(),
    {
        if octets.len() == 0 {
            Seq::empty()
        } else {
            let before: Seq<CcdiEventView> = self.events(octets.drop_last());
            match self.after_all(octets.drop_last()).completes(octets.last()) {
                Some(e) => before.push(e),
                None => before,
            }
        }
    }

    /// A line that is too long is as long as any that is kept.
    pub open spec fn valid(self) -> bool {
        &&& self.line.len() <= MAX_LINE
        &&& self.overflow ==> self.line.len() == MAX_LINE
    }
}

/// How the stream is cut into pieces makes no difference.
pub proof fn law_chunks_do_not_matter(d: LineView, a: Seq<u8>, b: Seq<u8>)
    ensures
        d.after_all(a + b) == d.after_all(a).after_all(b),
        d.events(a + b) == d.events(a) + d.after_all(a).events(b),
    decreases b.len(),
{
    if b.len() == 0 {
        assert(a + b =~= a);
        assert(d.events(a) + d.after_all(a).events(b) =~= d.events(a));
    } else {
        law_chunks_do_not_matter(d, a, b.drop_last());
        assert((a + b).drop_last() =~= a + b.drop_last());
        assert((a + b).last() == b.last());
        let e: Option<CcdiEventView> = d.after_all(a + b.drop_last()).completes(b.last());
        if e is Some {
            assert((d.events(a) + d.after_all(a).events(b.drop_last())).push(e->0) =~= d.events(a)
                + d.after_all(a).events(b.drop_last()).push(e->0));
        }
    }
}

/// No line outgrows the longest that is kept, whatever comes.
pub proof fn law_lines_stay_bounded(d: LineView, octets: Seq<u8>)
    requires
        d.valid(),
    ensures
        d.after_all(octets).valid(),
    decreases octets.len(),
{
    if octets.len() > 0 {
        law_lines_stay_bounded(d, octets.drop_last());
    }
}

/// A carriage return ends the line: whatever came before, the decoder starts afresh.
pub proof fn law_carriage_return_resynchronises(d: LineView, noise: Seq<u8>)
    ensures
        d.after_all(noise.push(0x0D)) == LineView::fresh(),
{
    assert(noise.push(0x0D).last() == 0x0D);
}

/// An octet of a line that is not passed over.
pub open spec fn is_plain(c: u8) -> bool {
    c != 0x0D && c != 0x0A && c != 0x11 && c != 0x13
}

proof fn lemma_plain_line(line: Seq<u8>)
    requires
        line.len() <= MAX_LINE,
        forall|i: int| 0 <= i < line.len() ==> is_plain(#[trigger] line[i]),
        line.len() > 0 ==> line[0] != 0x2E,
    ensures
        LineView::fresh().after_all(line) == (LineView { line, overflow: false }),
        LineView::fresh().events(line) == Seq::<CcdiEventView>::empty(),
    decreases line.len(),
{
    if line.len() > 0 {
        let before: Seq<u8> = line.drop_last();
        lemma_plain_line(before);
        assert(is_plain(line[line.len() - 1]));
        assert(before.push(line.last()) =~= line);
    } else {
        assert(line =~= Seq::<u8>::empty());
    }
}

/// A line of plain octets that does not start with a dot, once ended, comes out as it
/// is, and alone.
pub proof fn law_lines_come_out_whole(line: Seq<u8>)
    requires
        0 < line.len() <= MAX_LINE,
        forall|i: int| 0 <= i < line.len() ==> is_plain(#[trigger] line[i]),
        line[0] != 0x2E,
    ensures
        LineView::fresh().events(line.push(0x0D)) == seq![CcdiEventView::Line(line)],
{
    lemma_plain_line(line);
    assert(line.push(0x0D).drop_last() =~= line);
    assert(Seq::<CcdiEventView>::empty().push(CcdiEventView::Line(line)) =~= seq![
        CcdiEventView::Line(line),
    ]);
}

impl Default for LineDecoder {
    fn default() -> (d: LineDecoder)
        ensures
            d@ == LineView::fresh(),
    {
        LineDecoder::new()
    }
}

impl LineDecoder {
    /// A decoder with nothing so far.
    pub fn new() -> (d: LineDecoder)
        ensures
            d@ == LineView::fresh(),
    {
        let d = LineDecoder { line: Vec::new(), overflow: false };
        assert(d@.line =~= Seq::<u8>::empty());
        d
    }

    /// Takes octets as they come, and hands out what they complete.
    pub fn push(&mut self, octets: &[u8]) -> (r: Vec<CcdiEvent>)
        ensures
            event_views(r@) == old(self)@.events(octets@),
            final(self)@ == old(self)@.after_all(octets@),
    {
        let mut events: Vec<CcdiEvent> = Vec::new();
        let mut i: usize = 0;
        assert(event_views(events@) =~= Seq::<CcdiEventView>::empty());
        assert(octets@.take(0) =~= Seq::<u8>::empty());
        while i < octets.len()
            invariant
                i <= octets@.len(),
                self@ == old(self)@.after_all(octets@.take(i as int)),
                event_views(events@) == old(self)@.events(octets@.take(i as int)),
            decreases octets@.len() - i,
        {
            let c: u8 = octets[i];
            let ghost before = self@;
            let ghost said = event_views(events@);
            proof {
                assert(octets@.take(i + 1).drop_last() =~= octets@.take(i as int));
                assert(octets@.take(i + 1).last() == c);
            }
            if c == 0x0D {
                if self.line.len() > 0 && !self.overflow {
                    let mut line: Vec<u8> = Vec::new();
                    std::mem::swap(&mut line, &mut self.line);
                    events.push(CcdiEvent::Line(line));
                    assert(event_views(events@) =~= said.push(CcdiEventView::Line(before.line)));
                }
                self.reset();
            } else if c == 0x0A || c == 0x11 || c == 0x13 {
            } else if c == 0x2E && self.line.len() == 0 {
                events.push(CcdiEvent::Prompt);
                assert(event_views(events@) =~= said.push(CcdiEventView::Prompt));
            } else if self.line.len() < MAX_LINE {
                self.line.push(c);
            } else {
                self.overflow = true;
            }
            i = i + 1;
        }
        assert(octets@.take(i as int) =~= octets@);
        events
    }

    /// Drops the line so far.
    pub fn reset(&mut self)
        ensures
            final(self)@ == LineView::fresh(),
    {
        self.line.clear();
        self.overflow = false;
        assert(self@.line =~= Seq::<u8>::empty());
    }
}

} // verus!
