//! The context of one transition, threaded through guard evaluation, action
//! dispatch and subroutine walking.

use ax25sdl::SubroutineSpec;
use vstd::prelude::*;

use super::context::{Link, SessionContext};
use super::event::Event;
use super::signal;
use super::signal::{
    DataLinkSignal, FrameSpec, InternalSignal, LinkMultiplexerSignal, SessionSink,
    Signal,
};
use super::tables;
use super::tables::{figure_subroutines, SubroutineFigure};
use super::timer::{TimerService, TimerSnapshot};

verus! {

/// Fields that a chain of actions sets for the next outgoing frame. `None` means
/// that the default applies: N(R) is V(R), N(S) is V(S), P/F is clear.
#[derive(Debug, Clone, Copy, PartialEq, Eq, Structural)]
pub struct PendingFrame {
    /// N(R) of the next frame.
    pub nr: Option<u8>,
    /// N(S) of the next I frame.
    pub ns: Option<u8>,
    /// The poll/final bit of the next frame.
    pub pf: Option<bool>,
}

impl PendingFrame {
    /// Nothing set.
    pub open spec fn unset() -> PendingFrame {
        PendingFrame { nr: None, ns: None, pf: None }
    }
}

impl Default for PendingFrame {
    fn default() -> (p: PendingFrame)
        ensures
            p == PendingFrame::unset(),
    {
        PendingFrame { nr: None, ns: None, pf: None }
    }
}

/// The state that a transition works on: the link, the timers, the fields of the
/// next frame, the staged stored frame and everything emitted so far.
pub struct Machine {
    pub link: Link,
    pub timers: TimerSnapshot,
    pub pending: PendingFrame,
    pub staged: Option<(u8, Seq<u8>)>,
    pub out: Seq<Signal>,
}

impl Machine {
    /// A machine at the start of a transition.
    pub open spec fn start(link: Link, timers: TimerSnapshot) -> Machine {
        Machine {
            link,
            timers,
            pending: PendingFrame::unset(),
            staged: None,
            out: Seq::empty(),
        }
    }

    /// The same machine with another link.
    pub open spec fn with_link(self, link: Link) -> Machine {
        Machine { link, ..self }
    }

    /// The same machine with other timers.
    pub open spec fn with_timers(self, timers: TimerSnapshot) -> Machine {
        Machine { timers, ..self }
    }

    /// The same machine with other fields for the next frame.
    pub open spec fn with_pending(self, pending: PendingFrame) -> Machine {
        Machine { pending, ..self }
    }

    /// The same machine with another staged frame.
    pub open spec fn with_staged(self, staged: Option<(u8, Seq<u8>)>) -> Machine {
        Machine { staged, ..self }
    }

    /// The machine after it emitted one more signal.
    pub open spec fn emit(self, signal: Signal) -> Machine {
        Machine { out: self.out.push(signal), ..self }
    }
}

/// The context of one transition. It borrows the link, the timers and the sink,
/// and owns the scratch fields.
pub struct Tx<'a, T: TimerService, S: SessionSink> {
    /// The link.
    pub session: &'a mut SessionContext,
    /// The timers.
    pub timers: &'a mut T,
    /// Where signals go.
    pub sink: &'a mut S,
    /// The event that triggered the transition.
    pub trigger: Event,
    /// Fields for the next outgoing frame.
    pub pending: PendingFrame,
    /// A stored frame that the next data indication delivers: PID and data.
    pub retrieved_stored_frame: Option<(u8, Vec<u8>)>,
    /// The subroutines that actions may call.
    pub subroutines: &'a [SubroutineSpec],
    /// Everything emitted through this context.
    pub emitted: Ghost<Seq<Signal>>,
    /// The sink as it was when this context was built.
    pub origin: Ghost<S>,
}

impl<'a, T: TimerService, S: SessionSink> Tx<'a, T, S> {
    /// The state that the transition works on.
    pub open spec fn machine(&self) -> Machine {
        Machine {
            link: self.session@,
            timers: self.timers.slots(),
            pending: self.pending,
            staged: match self.retrieved_stored_frame {
                Some((pid, data)) => Some((pid, data@)),
                None => None,
            },
            out: self.emitted@,
        }
    }

    /// The sink took exactly what was emitted.
    pub open spec fn wf(&self) -> bool {
        signal::takes_all(self.origin@, self.emitted@, *self.sink)
    }

    /// `self` is `before` some steps later in the same transition.
    pub open spec fn continues(&self, before: Tx<'a, T, S>) -> bool {
        &&& self.wf()
        &&& self.trigger == before.trigger
        &&& self.subroutines == before.subroutines
        &&& self.origin == before.origin
    }

    /// A context for `trigger` that calls the generated subroutines.
    pub fn new(
        session: &'a mut SessionContext,
        timers: &'a mut T,
        sink: &'a mut S,
        trigger: Event,
    ) -> (tx: Tx<'a, T, S>)
        ensures
            tx.wf(),
            tx.machine() == Machine::start(old(session)@, old(timers).slots()),
            tx.trigger == trigger,
            tx.subroutines@ == tables::subroutine_page(SubroutineFigure::DataLink),
            tx.origin@ == *old(sink),
            *final(tx.session) == *final(session),
            *final(tx.timers) == *final(timers),
            *final(tx.sink) == *final(sink),
    {
        Tx::over(session, timers, sink, trigger, figure_subroutines(SubroutineFigure::DataLink))
    }

    /// A context for `trigger` that calls the given subroutines.
    pub fn over(
        session: &'a mut SessionContext,
        timers: &'a mut T,
        sink: &'a mut S,
        trigger: Event,
        subroutines: &'a [SubroutineSpec],
    ) -> (tx: Tx<'a, T, S>)
        ensures
            tx.wf(),
            tx.machine() == Machine::start(old(session)@, old(timers).slots()),
            tx.trigger == trigger,
            tx.subroutines@ == subroutines@,
            tx.origin@ == *old(sink),
            *final(tx.session) == *final(session),
            *final(tx.timers) == *final(timers),
            *final(tx.sink) == *final(sink),
    {
        Tx {
            origin: Ghost(*sink),
            session,
            timers,
            sink,
            trigger,
            pending: PendingFrame::default(),
            retrieved_stored_frame: None,
            subroutines,
            emitted: Ghost(Seq::empty()),
        }
    }

    /// Puts a frame on the wire.
    pub fn emit_frame(&mut self, spec: FrameSpec)
        requires
            old(self).wf(),
        ensures
            *final(final(self).session) == *final(old(self).session),
            *final(final(self).timers) == *final(old(self).timers),
            *final(final(self).sink) == *final(old(self).sink),
            final(self).continues(*old(self)),
            final(self).machine() == old(self).machine().emit(Signal::Frame(spec@)),
    {
        let ghost before = *self.sink;
        let ghost emitted = Signal::Frame(spec@);
        self.sink.send_frame(spec);
        proof {
            signal::lemma_takes_one_more(
                self.origin@,
                self.emitted@,
                before,
                emitted,
                *self.sink,
            );
            self.emitted@ = self.emitted@.push(emitted);
        }
    }

    /// Raises a signal to Layer 3.
    pub fn emit_upward(&mut self, up: DataLinkSignal)
        requires
            old(self).wf(),
        ensures
            *final(final(self).session) == *final(old(self).session),
            *final(final(self).timers) == *final(old(self).timers),
            *final(final(self).sink) == *final(old(self).sink),
            final(self).continues(*old(self)),
            final(self).machine() == old(self).machine().emit(Signal::Upward(up@)),
    {
        let ghost before = *self.sink;
        let ghost emitted = Signal::Upward(up@);
        self.sink.send_upward(up);
        proof {
            signal::lemma_takes_one_more(
                self.origin@,
                self.emitted@,
                before,
                emitted,
                *self.sink,
            );
            self.emitted@ = self.emitted@.push(emitted);
        }
    }

    /// Raises a signal to the link multiplexer.
    pub fn emit_link_mux(&mut self, mux: LinkMultiplexerSignal)
        requires
            old(self).wf(),
        ensures
            *final(final(self).session) == *final(old(self).session),
            *final(final(self).timers) == *final(old(self).timers),
            *final(final(self).sink) == *final(old(self).sink),
            final(self).continues(*old(self)),
            final(self).machine() == old(self).machine().emit(Signal::LinkMux(mux)),
    {
        let ghost before = *self.sink;
        let ghost emitted = Signal::LinkMux(mux);
        self.sink.send_link_mux(mux);
        proof {
            signal::lemma_takes_one_more(
                self.origin@,
                self.emitted@,
                before,
                emitted,
                *self.sink,
            );
            self.emitted@ = self.emitted@.push(emitted);
        }
    }

    /// Raises an internal signal.
    pub fn emit_internal(&mut self, internal: InternalSignal)
        requires
            old(self).wf(),
        ensures
            *final(final(self).session) == *final(old(self).session),
            *final(final(self).timers) == *final(old(self).timers),
            *final(final(self).sink) == *final(old(self).sink),
            final(self).continues(*old(self)),
            final(self).machine() == old(self).machine().emit(Signal::Internal(internal@)),
    {
        let ghost before = *self.sink;
        let ghost emitted = Signal::Internal(internal@);
        self.sink.send_internal(internal);
        proof {
            signal::lemma_takes_one_more(
                self.origin@,
                self.emitted@,
                before,
                emitted,
                *self.sink,
            );
            self.emitted@ = self.emitted@.push(emitted);
        }
    }
}

} // verus!
