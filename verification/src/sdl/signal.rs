//! The signals that a session emits, and the sink that receives them.
//!
//! A [`FrameSpec`] is an intent ("send an RR response, N(R) = 3, F = 1"), not
//! octets. Turning it into octets is the sink's work.

use vstd::prelude::*;

verus! {

/// A supervisory frame type.
#[derive(Debug, Clone, Copy, PartialEq, Eq, Structural)]
pub enum SupervisoryKind {
    /// Receive Ready.
    Rr,
    /// Receive Not Ready.
    Rnr,
    /// Reject.
    Rej,
    /// Selective Reject.
    Srej,
}

/// An unnumbered frame type.
#[derive(Debug, Clone, Copy, PartialEq, Eq, Structural)]
pub enum UnnumberedKind {
    /// Set Asynchronous Balanced Mode, the modulo-8 connect.
    Sabm,
    /// SABM Extended, the modulo-128 connect.
    Sabme,
    /// Disconnect.
    Disc,
    /// Unnumbered Acknowledge.
    Ua,
    /// Disconnected Mode.
    Dm,
}

/// An outgoing frame that the runtime asks the sink to put on the wire.
#[derive(Debug, Clone, PartialEq, Eq)]
pub enum FrameSpec {
    /// A supervisory frame.
    Supervisory {
        /// Which supervisory frame.
        kind: SupervisoryKind,
        /// Command or response.
        is_command: bool,
        /// Receive sequence number N(R).
        nr: u8,
        /// Poll/final bit.
        pf: bool,
    },
    /// An unnumbered frame.
    Unnumbered {
        /// Which unnumbered frame.
        kind: UnnumberedKind,
        /// Command or response.
        is_command: bool,
        /// Poll/final bit.
        pf: bool,
        /// Whether the frame should jump the transmit queue.
        expedited: bool,
    },
    /// A UI frame with connectionless data.
    Ui {
        /// Command or response.
        is_command: bool,
        /// Poll/final bit.
        pf: bool,
        /// PID octet.
        pid: u8,
        /// Information field.
        info: Vec<u8>,
    },
    /// An information frame.
    Information {
        /// Poll bit.
        p: bool,
        /// Receive sequence number N(R).
        nr: u8,
        /// Send sequence number N(S).
        ns: u8,
        /// PID octet.
        pid: u8,
        /// Information field.
        info: Vec<u8>,
    },
    /// An XID frame: parameter negotiation, without a PID.
    Xid {
        /// Command or response.
        is_command: bool,
        /// Poll/final bit.
        pf: bool,
        /// The encoded XID parameters.
        info: Vec<u8>,
    },
}

/// What a [`FrameSpec`] asks for.
pub enum FrameSpecView {
    Supervisory { kind: SupervisoryKind, is_command: bool, nr: u8, pf: bool },
    Unnumbered { kind: UnnumberedKind, is_command: bool, pf: bool, expedited: bool },
    Ui { is_command: bool, pf: bool, pid: u8, info: Seq<u8> },
    Information { p: bool, nr: u8, ns: u8, pid: u8, info: Seq<u8> },
    Xid { is_command: bool, pf: bool, info: Seq<u8> },
}

impl View for FrameSpec {
    type V = FrameSpecView;

    open spec fn view(&self) -> FrameSpecView {
        match *self {
            FrameSpec::Supervisory { kind, is_command, nr, pf } => FrameSpecView::Supervisory {
                kind,
                is_command,
                nr,
                pf,
            },
            FrameSpec::Unnumbered { kind, is_command, pf, expedited } => {
                FrameSpecView::Unnumbered { kind, is_command, pf, expedited }
            },
            FrameSpec::Ui { is_command, pf, pid, info } => FrameSpecView::Ui {
                is_command,
                pf,
                pid,
                info: info@,
            },
            FrameSpec::Information { p, nr, ns, pid, info } => FrameSpecView::Information {
                p,
                nr,
                ns,
                pid,
                info: info@,
            },
            FrameSpec::Xid { is_command, pf, info } => FrameSpecView::Xid {
                is_command,
                pf,
                info: info@,
            },
        }
    }
}

/// A signal raised to Layer 3.
#[derive(Debug, Clone, PartialEq, Eq)]
pub enum DataLinkSignal {
    /// An inbound connection was established.
    ConnectIndication,
    /// Our connect request succeeded.
    ConnectConfirm,
    /// The peer or the link tore the connection down.
    DisconnectIndication,
    /// Our disconnect request completed.
    DisconnectConfirm,
    /// Delivered data: PID and information field.
    DataIndication(u8, Vec<u8>),
    /// Delivered connectionless data: PID and information field.
    UnitDataIndication(u8, Vec<u8>),
    /// An error, by its letter code.
    ErrorIndication(&'static str),
}

/// What a [`DataLinkSignal`] says.
pub enum DataLinkSignalView {
    ConnectIndication,
    ConnectConfirm,
    DisconnectIndication,
    DisconnectConfirm,
    DataIndication(u8, Seq<u8>),
    UnitDataIndication(u8, Seq<u8>),
    ErrorIndication(Seq<char>),
}

impl View for DataLinkSignal {
    type V = DataLinkSignalView;

    open spec fn view(&self) -> DataLinkSignalView {
        match *self {
            DataLinkSignal::ConnectIndication => DataLinkSignalView::ConnectIndication,
            DataLinkSignal::ConnectConfirm => DataLinkSignalView::ConnectConfirm,
            DataLinkSignal::DisconnectIndication => DataLinkSignalView::DisconnectIndication,
            DataLinkSignal::DisconnectConfirm => DataLinkSignalView::DisconnectConfirm,
            DataLinkSignal::DataIndication(pid, info) => DataLinkSignalView::DataIndication(
                pid,
                info@,
            ),
            DataLinkSignal::UnitDataIndication(pid, info) => {
                DataLinkSignalView::UnitDataIndication(pid, info@)
            },
            DataLinkSignal::ErrorIndication(code) => DataLinkSignalView::ErrorIndication(code@),
        }
    }
}

/// A signal to the link multiplexer, which arbitrates the channel.
#[derive(Debug, Clone, Copy, PartialEq, Eq, Structural)]
pub enum LinkMultiplexerSignal {
    /// Ask for the channel.
    SeizeRequest,
    /// Give the channel back.
    ReleaseRequest,
    /// Offer data.
    DataRequest,
}

/// A signal to the management machine or to the transmit queue.
#[derive(Debug, Clone, PartialEq, Eq)]
pub enum InternalSignal {
    /// Start an XID negotiation.
    MdlNegotiateRequest,
    /// A payload was pushed onto the transmit queue.
    PushIFrameQueue(Vec<u8>),
}

/// What an [`InternalSignal`] says.
pub enum InternalSignalView {
    MdlNegotiateRequest,
    PushIFrameQueue(Seq<u8>),
}

impl View for InternalSignal {
    type V = InternalSignalView;

    open spec fn view(&self) -> InternalSignalView {
        match *self {
            InternalSignal::MdlNegotiateRequest => InternalSignalView::MdlNegotiateRequest,
            InternalSignal::PushIFrameQueue(data) => InternalSignalView::PushIFrameQueue(data@),
        }
    }
}

/// Anything that a session emits.
pub enum Signal {
    Frame(FrameSpecView),
    Upward(DataLinkSignalView),
    LinkMux(LinkMultiplexerSignal),
    Internal(InternalSignalView),
}

/// The sink that a session emits through.
pub trait SessionSink: Sized {
    /// What one signal makes of the sink. A sink that says no more may become anything.
    open spec fn takes(before: Self, signal: Signal, after: Self) -> bool {
        true
    }

    /// Puts a frame on the wire.
    fn send_frame(&mut self, spec: FrameSpec)
        ensures
            Self::takes(*old(self), Signal::Frame(spec@), *final(self)),
    ;

    /// Raises a signal to Layer 3.
    fn send_upward(&mut self, signal: DataLinkSignal)
        ensures
            Self::takes(*old(self), Signal::Upward(signal@), *final(self)),
    ;

    /// Raises a signal to the link multiplexer.
    fn send_link_mux(&mut self, signal: LinkMultiplexerSignal)
        ensures
            Self::takes(*old(self), Signal::LinkMux(signal), *final(self)),
    ;

    /// Raises an internal signal.
    fn send_internal(&mut self, signal: InternalSignal)
        ensures
            Self::takes(*old(self), Signal::Internal(signal@), *final(self)),
    ;
}

/// What a run of signals makes of a sink.
pub open spec fn takes_all<S: SessionSink>(before: S, signals: Seq<Signal>, after: S) -> bool
    decreases signals.len(),
{
    if signals.len() == 0 {
        before == after
    } else {
        exists|mid: S|
            #[trigger] S::takes(mid, signals.last(), after) && takes_all(
                before,
                signals.drop_last(),
                mid,
            )
    }
}

/// One more signal after a run of signals.
pub proof fn lemma_takes_one_more<S: SessionSink>(
    before: S,
    signals: Seq<Signal>,
    mid: S,
    signal: Signal,
    after: S,
)
    requires
        takes_all(before, signals, mid),
        S::takes(mid, signal, after),
    ensures
        takes_all(before, signals.push(signal), after),
{
    assert(signals.push(signal).drop_last() =~= signals);
    assert(S::takes(mid, signals.push(signal).last(), after));
}

/// Two runs of signals, one after the other, are one run.
pub proof fn law_takes_all_concatenates<S: SessionSink>(
    before: S,
    first: Seq<Signal>,
    mid: S,
    second: Seq<Signal>,
    after: S,
)
    requires
        takes_all(before, first, mid),
        takes_all(mid, second, after),
    ensures
        takes_all(before, first + second, after),
    decreases second.len(),
{
    if second.len() == 0 {
        assert(first + second =~= first);
    } else {
        let last: S = choose|last: S|
            #[trigger] S::takes(last, second.last(), after) && takes_all(
                mid,
                second.drop_last(),
                last,
            );
        law_takes_all_concatenates(before, first, mid, second.drop_last(), last);
        lemma_takes_one_more(before, first + second.drop_last(), last, second.last(), after);
        assert((first + second.drop_last()).push(second.last()) =~= first + second);
    }
}

/// A sink that drops every signal.
#[derive(Debug, Clone, Copy)]
pub struct NullSink;

impl Default for NullSink {
    fn default() -> (s: NullSink) {
        NullSink
    }
}

impl SessionSink for NullSink {
    open spec fn takes(before: NullSink, signal: Signal, after: NullSink) -> bool {
        before == after
    }

    fn send_frame(&mut self, _spec: FrameSpec) {
    }

    fn send_upward(&mut self, _signal: DataLinkSignal) {
    }

    fn send_link_mux(&mut self, _signal: LinkMultiplexerSignal) {
    }

    fn send_internal(&mut self, _signal: InternalSignal) {
    }
}

} // verus!
