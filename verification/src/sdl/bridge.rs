//! The frames that a session asks for, as octets, and received frames as events.

use ax25sdl::Ax25Event;
use vstd::prelude::*;

use super::context::copied;
use super::event::{Event, FrameInfo, FrameView, Trigger};
use super::signal;
use super::signal::{
    DataLinkSignal, DataLinkSignalView, FrameSpec, FrameSpecView, InternalSignal,
    LinkMultiplexerSignal, SessionSink, Signal, SupervisoryKind, UnnumberedKind,
};
use crate::ax25::address::{Address, AddressView};
use crate::ax25::callsign::{Callsign, CallsignView};
use crate::ax25::frame;
use crate::ax25::frame::{Frame, WireFrame, PID_NO_LAYER3};

verus! {

/// The protocol identifier of data that names none.
pub const DEFAULT_PID: u8 = PID_NO_LAYER3;

/// Turns the frames that a session asks for into octets, and gathers them and the
/// signals to Layer 3.
#[derive(Debug, Clone)]
pub struct WireSink {
    /// Our station.
    pub local: Callsign,
    /// The peer.
    pub remote: Callsign,
    /// The stations on the way.
    pub digipeaters: Vec<Callsign>,
    /// The octets of the frames sent, in order.
    pub sent: Vec<Vec<u8>>,
    /// The signals raised to Layer 3, in order.
    pub upward: Vec<DataLinkSignal>,
    /// The session asked for the channel and waits for it.
    pub seize_pending: bool,
    /// The link counts to 127: numbered frames have two control octets.
    pub extended: bool,
}

/// What a sink holds.
pub struct SinkView {
    pub local: CallsignView,
    pub remote: CallsignView,
    pub digipeaters: Seq<CallsignView>,
    pub sent: Seq<Seq<u8>>,
    pub upward: Seq<DataLinkSignalView>,
    pub seize_pending: bool,
    pub extended: bool,
}

/// What a run of octet strings holds.
pub open spec fn octet_views(v: Seq<Vec<u8>>) -> Seq<Seq<u8>> {
    v.map_values(|x: Vec<u8>| x@)
}

/// What a run of signals to Layer 3 says.
pub open spec fn upward_views(v: Seq<DataLinkSignal>) -> Seq<DataLinkSignalView> {
    v.map_values(|x: DataLinkSignal| x@)
}

/// What a run of callsigns holds.
pub open spec fn callsign_views(v: Seq<Callsign>) -> Seq<CallsignView> {
    v.map_values(|x: Callsign| x@)
}

impl View for WireSink {
    type V = SinkView;

    open spec fn view(&self) -> SinkView {
        SinkView {
            local: self.local@,
            remote: self.remote@,
            digipeaters: callsign_views(self.digipeaters@),
            sent: octet_views(self.sent@),
            upward: upward_views(self.upward@),
            seize_pending: self.seize_pending,
            extended: self.extended,
        }
    }
}

/// The control octet of a supervisory frame, all numbers clear.
pub open spec fn supervisory_base(kind: SupervisoryKind) -> u8 {
    match kind {
        SupervisoryKind::Rr => 0x01,
        SupervisoryKind::Rnr => 0x05,
        SupervisoryKind::Rej => 0x09,
        SupervisoryKind::Srej => 0x0D,
    }
}

/// The control octet of an unnumbered frame, the poll bit clear.
pub open spec fn unnumbered_base(kind: UnnumberedKind) -> u8 {
    match kind {
        UnnumberedKind::Sabm => 0x2F,
        UnnumberedKind::Sabme => 0x6F,
        UnnumberedKind::Disc => 0x43,
        UnnumberedKind::Ua => 0x63,
        UnnumberedKind::Dm => 0x0F,
    }
}

/// A bit as a number.
pub open spec fn bit(b: bool, value: int) -> int {
    if b {
        value
    } else {
        0
    }
}

/// The control octet of a frame on a link that counts to 7.
pub open spec fn control_of(spec: FrameSpecView) -> u8 {
    match spec {
        FrameSpecView::Supervisory { kind, is_command, nr, pf } => (supervisory_base(kind) + nr % 8
            * 32 + bit(pf, 16)) as u8,
        FrameSpecView::Unnumbered { kind, is_command, pf, expedited } => (unnumbered_base(kind)
            + bit(pf, 16)) as u8,
        FrameSpecView::Ui { is_command, pf, pid, info } => (0x03 + bit(pf, 16)) as u8,
        FrameSpecView::Information { p, nr, ns, pid, info } => (nr % 8 * 32 + bit(p, 16) + ns % 8
            * 2) as u8,
        FrameSpecView::Xid { is_command, pf, info } => (0xAF + bit(pf, 16)) as u8,
    }
}

/// The two control octets of a numbered frame on a link that counts to 127.
pub open spec fn extended_control_of(spec: FrameSpecView) -> Option<(u8, u8)> {
    match spec {
        FrameSpecView::Supervisory { kind, is_command, nr, pf } => Some(
            (supervisory_base(kind), (nr % 128 * 2 + bit(pf, 1)) as u8),
        ),
        FrameSpecView::Information { p, nr, ns, pid, info } => Some(
            ((ns % 128 * 2) as u8, (nr % 128 * 2 + bit(p, 1)) as u8),
        ),
        _ => None,
    }
}

/// Whether a frame is a command.
pub open spec fn commands(spec: FrameSpecView) -> bool {
    match spec {
        FrameSpecView::Supervisory { kind, is_command, nr, pf } => is_command,
        FrameSpecView::Unnumbered { kind, is_command, pf, expedited } => is_command,
        FrameSpecView::Ui { is_command, pf, pid, info } => is_command,
        FrameSpecView::Information { p, nr, ns, pid, info } => true,
        FrameSpecView::Xid { is_command, pf, info } => is_command,
    }
}

/// The poll or final bit of a frame.
pub open spec fn polls(spec: FrameSpecView) -> bool {
    match spec {
        FrameSpecView::Supervisory { kind, is_command, nr, pf } => pf,
        FrameSpecView::Unnumbered { kind, is_command, pf, expedited } => pf,
        FrameSpecView::Ui { is_command, pf, pid, info } => pf,
        FrameSpecView::Information { p, nr, ns, pid, info } => p,
        FrameSpecView::Xid { is_command, pf, info } => pf,
    }
}

/// The protocol identifier of a frame.
pub open spec fn pid_of(spec: FrameSpecView) -> Option<u8> {
    match spec {
        FrameSpecView::Ui { is_command, pf, pid, info } => Some(pid),
        FrameSpecView::Information { p, nr, ns, pid, info } => Some(pid),
        _ => None,
    }
}

/// The information field of a frame.
pub open spec fn info_of(spec: FrameSpecView) -> Seq<u8> {
    match spec {
        FrameSpecView::Ui { is_command, pf, pid, info } => info,
        FrameSpecView::Information { p, nr, ns, pid, info } => info,
        FrameSpecView::Xid { is_command, pf, info } => info,
        _ => Seq::empty(),
    }
}

/// The event that a frame is to the station that receives it.
pub open spec fn event_of(spec: FrameSpecView) -> Ax25Event {
    match spec {
        FrameSpecView::Supervisory { kind, is_command, nr, pf } => match kind {
            SupervisoryKind::Rr => Ax25Event::RRReceived,
            SupervisoryKind::Rnr => Ax25Event::RNRReceived,
            SupervisoryKind::Rej => Ax25Event::REJReceived,
            SupervisoryKind::Srej => Ax25Event::SREJReceived,
        },
        FrameSpecView::Unnumbered { kind, is_command, pf, expedited } => match kind {
            UnnumberedKind::Sabm => Ax25Event::SABMReceived,
            UnnumberedKind::Sabme => Ax25Event::SABMEReceived,
            UnnumberedKind::Disc => Ax25Event::DISCReceived,
            UnnumberedKind::Ua => Ax25Event::UAReceived,
            UnnumberedKind::Dm => Ax25Event::DMReceived,
        },
        FrameSpecView::Ui { is_command, pf, pid, info } => Ax25Event::UIReceived,
        FrameSpecView::Information { p, nr, ns, pid, info } => Ax25Event::IReceived,
        FrameSpecView::Xid { is_command, pf, info } => Ax25Event::XIDReceived,
    }
}

impl SinkView {
    /// The frame from our station to the peer with the given fields.
    pub open spec fn addressed(
        self,
        is_command: bool,
        control: u8,
        pid: Option<u8>,
        info: Seq<u8>,
    ) -> WireFrame {
        WireFrame {
            destination: AddressView { callsign: self.remote, crh: is_command, extension: false },
            source: AddressView { callsign: self.local, crh: !is_command, extension: false },
            digipeaters: self.digipeaters.map_values(
                |c: CallsignView| AddressView { callsign: c, crh: false, extension: false },
            ),
            control,
            pid,
            info,
        }
    }

    /// The frame, with one control octet, that a session asks for.
    pub open spec fn framed(self, spec: FrameSpecView) -> WireFrame {
        self.addressed(commands(spec), control_of(spec), pid_of(spec), info_of(spec))
    }

    /// The octets of the frame that a session asks for.
    pub open spec fn encoded(self, spec: FrameSpecView) -> Seq<u8> {
        match extended_control_of(spec) {
            Some((first, second)) => if self.extended {
                self.addressed(commands(spec), first, pid_of(spec), info_of(spec)).octets_with(
                    Some(second),
                )
            } else {
                self.framed(spec).octets()
            },
            None => self.framed(spec).octets(),
        }
    }

    /// The sink after one signal.
    pub open spec fn after(self, signal: Signal) -> SinkView {
        match signal {
            Signal::Frame(spec) => SinkView { sent: self.sent.push(self.encoded(spec)), ..self },
            Signal::Upward(u) => SinkView { upward: self.upward.push(u), ..self },
            Signal::LinkMux(m) => SinkView {
                seize_pending: self.seize_pending || m is SeizeRequest,
                ..self
            },
            Signal::Internal(_) => self,
        }
    }

    /// The sink after a run of signals.
    pub open spec fn after_all(self, signals: Seq<Signal>) -> SinkView
        decreases signals.len(),
    {
        if signals.len() == 0 {
            self
        } else {
            self.after_all(signals.drop_last()).after(signals.last())
        }
    }

    /// The frames among a run of signals, as they go out.
    pub open spec fn frames(self, signals: Seq<Signal>) -> Seq<Seq<u8>>
        decreases signals.len(),
    {
        if signals.len() == 0 {
            Seq::empty()
        } else {
            match signals.last() {
                Signal::Frame(spec) => self.frames(signals.drop_last()).push(self.encoded(spec)),
                _ => self.frames(signals.drop_last()),
            }
        }
    }

    /// The callsigns of the link are valid.
    pub open spec fn valid(self) -> bool {
        &&& self.local.valid()
        &&& self.remote.valid()
        &&& forall|i: int|
            0 <= i < self.digipeaters.len() ==> (#[trigger] self.digipeaters[i]).valid()
    }
}

/// Which event a control octet stands for, if it stands for one.
pub open spec fn kind_of(control: u8) -> Option<Ax25Event> {
    if control % 2 == 0 {
        Some(Ax25Event::IReceived)
    } else if control % 4 == 1 {
        if control % 16 == 0x01 {
            Some(Ax25Event::RRReceived)
        } else if control % 16 == 0x05 {
            Some(Ax25Event::RNRReceived)
        } else if control % 16 == 0x09 {
            Some(Ax25Event::REJReceived)
        } else {
            Some(Ax25Event::SREJReceived)
        }
    } else {
        let u: int = control - bit(control / 16 % 2 == 1, 16);
        if u == 0x2F {
            Some(Ax25Event::SABMReceived)
        } else if u == 0x6F {
            Some(Ax25Event::SABMEReceived)
        } else if u == 0x43 {
            Some(Ax25Event::DISCReceived)
        } else if u == 0x63 {
            Some(Ax25Event::UAReceived)
        } else if u == 0x0F {
            Some(Ax25Event::DMReceived)
        } else if u == 0x03 {
            Some(Ax25Event::UIReceived)
        } else if u == 0xAF {
            Some(Ax25Event::XIDReceived)
        } else {
            None
        }
    }
}

/// The fields of a received frame that the session reads. A numbered frame may have a
/// second control octet.
pub open spec fn fields_of(f: WireFrame, second: Option<u8>) -> FrameView {
    match second {
        Some(c) => FrameView {
            nr: (c / 2) as u8,
            ns: (f.control / 2) as u8,
            poll_final: c % 2 == 1,
            is_command: f.commands(),
            is_unmarked: !f.commands() && !f.responds(),
            info: f.info,
            pid: f.pid,
        },
        None => FrameView {
            nr: (f.control / 32) as u8,
            ns: (f.control / 2 % 8) as u8,
            poll_final: f.control / 16 % 2 == 1,
            is_command: f.commands(),
            is_unmarked: !f.commands() && !f.responds(),
            info: f.info,
            pid: f.pid,
        },
    }
}

/// The event that a received frame is, if it is one.
pub open spec fn classified(f: WireFrame, second: Option<u8>) -> Option<Trigger> {
    let numbered: Option<u8> = if frame::is_numbered(f.control) {
        second
    } else {
        None
    };
    match kind_of(f.control) {
        Some(on) => Some(Trigger { on, frame: Some(fields_of(f, numbered)), data: None }),
        None => None,
    }
}

/// The sequence numbers of a frame can be counted on the link.
pub open spec fn countable(spec: FrameSpecView, extended: bool) -> bool {
    let modulus: int = if extended {
        128
    } else {
        8
    };
    match spec {
        FrameSpecView::Supervisory { kind, is_command, nr, pf } => nr < modulus,
        FrameSpecView::Information { p, nr, ns, pid, info } => nr < modulus && ns < modulus,
        _ => true,
    }
}

/// The numbers of a frame are those of the fields that were read.
pub open spec fn numbers_match(spec: FrameSpecView, f: FrameView) -> bool {
    match spec {
        FrameSpecView::Supervisory { kind, is_command, nr, pf } => f.nr == nr,
        FrameSpecView::Information { p, nr, ns, pid, info } => f.nr == nr && f.ns == ns,
        _ => true,
    }
}

proof fn lemma_closed_fields(f: WireFrame)
    ensures
        f.closed().control == f.control,
        f.closed().pid == f.pid,
        f.closed().info == f.info,
        f.closed().commands() == f.commands(),
        f.closed().responds() == f.responds(),
{
}

proof fn lemma_addressed_valid(
    sink: SinkView,
    is_command: bool,
    control: u8,
    pid: Option<u8>,
    info: Seq<u8>,
)
    requires
        sink.valid(),
        frame::carries_pid(control) == (pid is Some),
    ensures
        sink.addressed(is_command, control, pid, info).valid(),
{
    let f: WireFrame = sink.addressed(is_command, control, pid, info);
    assert forall|i: int| 0 <= i < f.path().len() implies (#[trigger] f.path()[i]).callsign.valid() by {
        if i >= 2 {
            assert(f.path()[i].callsign == sink.digipeaters[i - 2]);
        }
    }
}

proof fn lemma_control(spec: FrameSpecView)
    requires
        countable(spec, false),
    ensures
        kind_of(control_of(spec)) == Some(event_of(spec)),
        frame::carries_pid(control_of(spec)) == (pid_of(spec) is Some),
        frame::is_numbered(control_of(spec)) == (extended_control_of(spec) is Some),
        control_of(spec) / 16 % 2 == 1 <==> polls(spec),
        spec matches FrameSpecView::Supervisory { kind, is_command, nr, pf } ==> control_of(spec)
            / 32 == nr,
        spec matches FrameSpecView::Information { p, nr, ns, pid, info } ==> control_of(spec) / 32
            == nr && control_of(spec) / 2 % 8 == ns,
{
}

proof fn lemma_extended_control(spec: FrameSpecView)
    requires
        countable(spec, true),
    ensures
        extended_control_of(spec) matches Some((first, second)) ==> {
            &&& kind_of(first) == Some(event_of(spec))
            &&& frame::carries_pid(first) == (pid_of(spec) is Some)
            &&& frame::is_numbered(first)
            &&& second % 2 == 1 <==> polls(spec)
            &&& spec matches FrameSpecView::Supervisory { kind, is_command, nr, pf } ==> second / 2
                == nr
            &&& spec matches FrameSpecView::Information { p, nr, ns, pid, info } ==> second / 2
                == nr && first / 2 == ns
        },
{
}

/// Of a frame that was sent, the peer reads what was meant.
pub open spec fn understood(spec: FrameSpecView, heard: Option<Trigger>) -> bool {
    heard matches Some(t) && t.frame matches Some(v) && {
        &&& t.on == event_of(spec)
        &&& numbers_match(spec, v)
        &&& v.poll_final == polls(spec)
        &&& v.is_command == commands(spec)
        &&& v.responds() == !commands(spec)
        &&& v.info == info_of(spec)
        &&& v.pid == pid_of(spec)
    }
}

proof fn lemma_one_octet_understood(sink: SinkView, spec: FrameSpecView)
    requires
        sink.valid(),
        countable(spec, false),
    ensures
        sink.framed(spec).valid(),
        understood(spec, classified(sink.framed(spec).closed(), None)),
{
    lemma_control(spec);
    lemma_addressed_valid(sink, commands(spec), control_of(spec), pid_of(spec), info_of(spec));
    lemma_closed_fields(sink.framed(spec));
}

proof fn lemma_two_octets_understood(sink: SinkView, spec: FrameSpecView)
    requires
        sink.valid(),
        countable(spec, true),
        extended_control_of(spec) is Some,
    ensures
        ({
            let (first, second) = extended_control_of(spec)->0;
            let f: WireFrame = sink.addressed(commands(spec), first, pid_of(spec), info_of(spec));
            &&& f.valid()
            &&& frame::is_numbered(f.control)
            &&& understood(spec, classified(f.closed(), Some(second)))
        }),
{
    let (first, second) = extended_control_of(spec)->0;
    lemma_extended_control(spec);
    lemma_addressed_valid(sink, commands(spec), first, pid_of(spec), info_of(spec));
    lemma_closed_fields(sink.addressed(commands(spec), first, pid_of(spec), info_of(spec)));
}

/// What the peer makes of a frame: the octets that the sink sends decode to a frame
/// that classifies to the same event, with the same numbers, bits, identifier and
/// information.
pub proof fn law_sent_frames_are_understood(sink: SinkView, spec: FrameSpecView)
    requires
        sink.valid(),
        countable(spec, sink.extended),
    ensures
        frame::frame_in(sink.encoded(spec), sink.extended) matches Some((f, second)) && understood(
            spec,
            classified(f, second),
        ),
{
    if sink.extended && extended_control_of(spec) is Some {
        let (first, second) = extended_control_of(spec)->0;
        let f: WireFrame = sink.addressed(commands(spec), first, pid_of(spec), info_of(spec));
        lemma_two_octets_understood(sink, spec);
        frame::law_frame_round_trip(f, Some(second));
    } else {
        lemma_one_octet_understood(sink, spec);
        let f: WireFrame = sink.framed(spec);
        frame::law_frame_round_trip(f, None);
        if sink.extended {
            lemma_control(spec);
            lemma_closed_fields(f);
            frame::law_unnumbered_frames_read_alike(f.octets(), true);
        }
    }
}

/// The stations that a frame is written for are those of the link.
proof fn lemma_stations(
    sink: SinkView,
    is_command: bool,
    control: u8,
    pid: Option<u8>,
    info: Seq<u8>,
)
    ensures
        ({
            let f: WireFrame = sink.addressed(is_command, control, pid, info).closed();
            &&& f.destination.callsign == sink.remote
            &&& f.source.callsign == sink.local
            &&& f.digipeaters.len() == sink.digipeaters.len()
            &&& forall|i: int|
                0 <= i < f.digipeaters.len() ==> (#[trigger] f.digipeaters[i]).callsign
                    == sink.digipeaters[i]
        }),
{
    let f: WireFrame = sink.addressed(is_command, control, pid, info);
    assert(f.path()[0] == f.destination);
    assert(f.path()[1] == f.source);
    assert forall|i: int| 0 <= i < f.closed().digipeaters.len() implies (
    #[trigger] f.closed().digipeaters[i]).callsign == sink.digipeaters[i] by {
        assert(f.path()[i + 2] == f.digipeaters[i]);
    }
}

/// The frame that a station reads says what the frame said that was sent.
pub open spec fn says(spec: FrameSpecView, t: Trigger, v: FrameView) -> bool {
    match spec {
        FrameSpecView::Information { p, nr, ns, pid, info } => {
            &&& t.on == Ax25Event::IReceived
            &&& v.is_command
            &&& v.poll_final == p
            &&& v.nr == nr
            &&& v.ns == ns
            &&& v.pid == Some(pid)
            &&& v.info == info
        },
        FrameSpecView::Ui { is_command, pf, pid, info } => {
            &&& t.on == Ax25Event::UIReceived
            &&& v.is_command == is_command
            &&& v.poll_final == pf
            &&& v.pid == Some(pid)
            &&& v.info == info
        },
        FrameSpecView::Xid { is_command, pf, info } => {
            &&& t.on == Ax25Event::XIDReceived
            &&& v.is_command == is_command
            &&& v.poll_final == pf
            &&& v.info == info
        },
        FrameSpecView::Supervisory { kind, is_command, nr, pf } => {
            &&& t.on == match kind {
                SupervisoryKind::Rr => Ax25Event::RRReceived,
                SupervisoryKind::Rnr => Ax25Event::RNRReceived,
                SupervisoryKind::Rej => Ax25Event::REJReceived,
                SupervisoryKind::Srej => Ax25Event::SREJReceived,
            }
            &&& v.is_command == is_command
            &&& v.poll_final == pf
            &&& v.nr == nr
            &&& v.info.len() == 0
        },
        FrameSpecView::Unnumbered { kind, is_command, pf, expedited } => {
            &&& t.on == match kind {
                UnnumberedKind::Sabm => Ax25Event::SABMReceived,
                UnnumberedKind::Sabme => Ax25Event::SABMEReceived,
                UnnumberedKind::Disc => Ax25Event::DISCReceived,
                UnnumberedKind::Ua => Ax25Event::UAReceived,
                UnnumberedKind::Dm => Ax25Event::DMReceived,
            }
            &&& v.is_command == is_command
            &&& v.poll_final == pf
            &&& v.info.len() == 0
        },
    }
}

/// What one station sends, the other reads: the kind of the frame, its P/F bit, its numbers,
/// its protocol identifier and its octets, from our station to the peer by way of the
/// digipeaters.
pub proof fn law_frames_arrive_as_they_were_sent(sink: SinkView, spec: FrameSpecView)
    requires
        sink.valid(),
        countable(spec, sink.extended),
    ensures
        frame::frame_in(sink.encoded(spec), sink.extended) matches Some((f, second)) && {
            &&& f.destination.callsign == sink.remote
            &&& f.source.callsign == sink.local
            &&& f.digipeaters.len() == sink.digipeaters.len()
            &&& forall|i: int|
                0 <= i < f.digipeaters.len() ==> (#[trigger] f.digipeaters[i]).callsign
                    == sink.digipeaters[i]
            &&& classified(f, second) matches Some(t) && t.frame matches Some(v) && says(
                spec,
                t,
                v,
            )
        },
{
    law_sent_frames_are_understood(sink, spec);
    if sink.extended && extended_control_of(spec) is Some {
        let (first, second) = extended_control_of(spec)->0;
        let f: WireFrame = sink.addressed(commands(spec), first, pid_of(spec), info_of(spec));
        lemma_two_octets_understood(sink, spec);
        frame::law_frame_round_trip(f, Some(second));
        lemma_stations(sink, commands(spec), first, pid_of(spec), info_of(spec));
    } else {
        lemma_one_octet_understood(sink, spec);
        let f: WireFrame = sink.framed(spec);
        frame::law_frame_round_trip(f, None);
        lemma_stations(sink, commands(spec), control_of(spec), pid_of(spec), info_of(spec));
        if sink.extended {
            lemma_control(spec);
            lemma_closed_fields(f);
            frame::law_unnumbered_frames_read_alike(f.octets(), true);
        }
    }
}

/// A run of signals makes of a sink what they make of it one by one.
pub proof fn lemma_takes_all_view(before: WireSink, signals: Seq<Signal>, after: WireSink)
    requires
        signal::takes_all(before, signals, after),
    ensures
        after@ == before@.after_all(signals),
    decreases signals.len(),
{
    if signals.len() > 0 {
        let mid: WireSink = choose|mid: WireSink|
            #[trigger] WireSink::takes(mid, signals.last(), after) && signal::takes_all(
                before,
                signals.drop_last(),
                mid,
            );
        lemma_takes_all_view(before, signals.drop_last(), mid);
    }
}

/// A run of signals asks for the channel.
pub open spec fn asks_for_channel(signals: Seq<Signal>) -> bool {
    signals.contains(Signal::LinkMux(LinkMultiplexerSignal::SeizeRequest))
}

/// The frames of a run of signals go out behind those that went out before, each of
/// them, in order. The channel is awaited from then on if it was awaited before or the
/// run asks for it: no signal takes the wait back. The link of the sink stays the same.
pub proof fn law_signals_are_taken_in_order(sink: SinkView, signals: Seq<Signal>)
    ensures
        ({
            let after: SinkView = sink.after_all(signals);
            &&& after.sent == sink.sent + sink.frames(signals)
            &&& after.seize_pending == (sink.seize_pending || asks_for_channel(signals))
            &&& after == SinkView {
                sent: after.sent,
                upward: after.upward,
                seize_pending: after.seize_pending,
                ..sink
            }
        }),
        forall|spec: FrameSpecView| #[trigger]
            signals.contains(Signal::Frame(spec)) ==> sink.frames(signals).contains(
                sink.encoded(spec),
            ),
    decreases signals.len(),
{
    if signals.len() > 0 {
        let before: Seq<Signal> = signals.drop_last();
        law_signals_are_taken_in_order(sink, before);
        assert(signals =~= before.push(signals.last()));
        assert forall|x: Signal| #[trigger] signals.contains(x) implies before.contains(x) || x
            == signals.last() by {
            let k: int = choose|k: int| 0 <= k < signals.len() && signals[k] == x;
            if k < before.len() {
                assert(before[k] == x);
            }
        }
        assert forall|x: Signal| #[trigger] before.contains(x) implies signals.contains(x) by {
            let k: int = choose|k: int| 0 <= k < before.len() && before[k] == x;
            assert(signals[k] == x);
        }
        assert(signals.contains(signals.last())) by {
            assert(signals[signals.len() - 1] == signals.last());
        }
        if let Signal::Frame(last) = signals.last() {
            let mid: SinkView = sink.after_all(before);
            assert(mid.encoded(last) == sink.encoded(last));
            let frames: Seq<Seq<u8>> = sink.frames(before);
            assert(sink.sent + frames.push(sink.encoded(last)) =~= (sink.sent + frames).push(
                sink.encoded(last),
            ));
            assert(frames.push(sink.encoded(last))[frames.len() as int] == sink.encoded(last));
            assert forall|spec: FrameSpecView| #[trigger]
                signals.contains(Signal::Frame(spec)) implies sink.frames(signals).contains(
                sink.encoded(spec),
            ) by {
                if before.contains(Signal::Frame(spec)) {
                    let k: int = choose|k: int|
                        0 <= k < frames.len() && frames[k] == sink.encoded(spec);
                    assert(frames.push(sink.encoded(last))[k] == sink.encoded(spec));
                }
            }
        }
    }
}

/// What a run of signals tells Layer 3.
pub open spec fn told(signals: Seq<Signal>) -> Seq<DataLinkSignalView>
    decreases signals.len(),
{
    if signals.len() == 0 {
        Seq::empty()
    } else if let Signal::Upward(u) = signals.last() {
        told(signals.drop_last()).push(u)
    } else {
        told(signals.drop_last())
    }
}

/// Layer 3 is told everything that a run of signals tells it, and nothing else, in order and
/// behind what it was told before.
pub proof fn law_layer_3_is_told_everything(sink: SinkView, signals: Seq<Signal>)
    ensures
        sink.after_all(signals).upward == sink.upward + told(signals),
    decreases signals.len(),
{
    if signals.len() > 0 {
        law_layer_3_is_told_everything(sink, signals.drop_last());
    }
    assert(sink.after_all(signals).upward =~= sink.upward + told(signals));
}

impl WireSink {
    /// A sink for the link between `local` and `remote`, by way of `digipeaters`.
    pub fn new(local: Callsign, remote: Callsign, digipeaters: Vec<Callsign>) -> (s: WireSink)
        ensures
            s@ == (SinkView {
                local: local@,
                remote: remote@,
                digipeaters: callsign_views(digipeaters@),
                sent: Seq::empty(),
                upward: Seq::empty(),
                seize_pending: false,
                extended: false,
            }),
    {
        let s = WireSink {
            local,
            remote,
            digipeaters,
            sent: Vec::new(),
            upward: Vec::new(),
            seize_pending: false,
            extended: false,
        };
        assert(s@.sent =~= Seq::empty());
        assert(s@.upward =~= Seq::empty());
        s
    }

    /// The frame, with one control octet, that a session asks for.
    pub fn build_frame(&self, spec: &FrameSpec) -> (f: Frame)
        ensures
            f@ == self@.framed(spec@),
    {
        match spec {
            FrameSpec::Supervisory { kind, is_command, nr, pf } => {
                let control: u8 = supervisory_octet(*kind) + *nr % 8 * 32 + poll(*pf);
                self.frame(*is_command, control, None, Vec::new())
            },
            FrameSpec::Unnumbered { kind, is_command, pf, .. } => {
                let control: u8 = unnumbered_octet(*kind) + poll(*pf);
                self.frame(*is_command, control, None, Vec::new())
            },
            FrameSpec::Ui { is_command, pf, pid, info } => {
                self.frame(*is_command, frame::CONTROL_UI + poll(*pf), Some(*pid), copied(info))
            },
            FrameSpec::Information { p, nr, ns, pid, info } => {
                let control: u8 = *nr % 8 * 32 + poll(*p) + *ns % 8 * 2;
                self.frame(true, control, Some(*pid), copied(info))
            },
            FrameSpec::Xid { is_command, pf, info } => {
                self.frame(*is_command, 0xAF + poll(*pf), None, copied(info))
            },
        }
    }

    /// The octets of the frame that a session asks for. On a link that counts to 127
    /// a numbered frame has two control octets.
    pub fn encode_spec(&self, spec: &FrameSpec) -> (r: Vec<u8>)
        ensures
            r@ == self@.encoded(spec@),
    {
        if self.extended {
            match spec {
                FrameSpec::Supervisory { kind, is_command, nr, pf } => {
                    let second: u8 = *nr % 128 * 2 + if *pf {
                        1
                    } else {
                        0
                    };
                    let f = self.frame(*is_command, supervisory_octet(*kind), None, Vec::new());
                    return f.encode_with(Some(second));
                },
                FrameSpec::Information { p, nr, ns, pid, info } => {
                    let second: u8 = *nr % 128 * 2 + if *p {
                        1
                    } else {
                        0
                    };
                    let f = self.frame(true, *ns % 128 * 2, Some(*pid), copied(info));
                    return f.encode_with(Some(second));
                },
                _ => {},
            }
        }
        self.build_frame(spec).encode()
    }

    /// The frame from our station to the peer with the given fields.
    fn frame(&self, is_command: bool, control: u8, pid: Option<u8>, info: Vec<u8>) -> (f: Frame)
        ensures
            f@ == self@.addressed(is_command, control, pid, info@),
    {
        let mut digipeaters: Vec<Address> = Vec::new();
        let mut i: usize = 0;
        while i < self.digipeaters.len()
            invariant
                i <= self.digipeaters@.len(),
                digipeaters@.len() == i,
                forall|k: int|
                    0 <= k < i ==> (#[trigger] digipeaters@[k])@ == (AddressView {
                        callsign: self.digipeaters@[k]@,
                        crh: false,
                        extension: false,
                    }),
            decreases self.digipeaters@.len() - i,
        {
            digipeaters.push(
                Address { callsign: self.digipeaters[i], crh: false, extension: false },
            );
            i = i + 1;
        }
        let f = Frame {
            destination: Address { callsign: self.remote, crh: is_command, extension: false },
            source: Address { callsign: self.local, crh: !is_command, extension: false },
            digipeaters,
            control,
            pid,
            info,
        };
        assert(f@.digipeaters =~= self@.addressed(
            is_command,
            control,
            pid,
            info@,
        ).digipeaters);
        f
    }
}

fn supervisory_octet(kind: SupervisoryKind) -> (r: u8)
    ensures
        r == supervisory_base(kind),
        r <= 0x0D,
{
    match kind {
        SupervisoryKind::Rr => 0x01,
        SupervisoryKind::Rnr => 0x05,
        SupervisoryKind::Rej => 0x09,
        SupervisoryKind::Srej => 0x0D,
    }
}

fn unnumbered_octet(kind: UnnumberedKind) -> (r: u8)
    ensures
        r == unnumbered_base(kind),
        r <= 0x6F,
{
    match kind {
        UnnumberedKind::Sabm => 0x2F,
        UnnumberedKind::Sabme => 0x6F,
        UnnumberedKind::Disc => 0x43,
        UnnumberedKind::Ua => 0x63,
        UnnumberedKind::Dm => 0x0F,
    }
}

fn poll(pf: bool) -> (r: u8)
    ensures
        r == bit(pf, 16),
{
    if pf {
        0x10
    } else {
        0
    }
}

impl SessionSink for WireSink {
    open spec fn takes(before: WireSink, signal: Signal, after: WireSink) -> bool {
        after@ == before@.after(signal)
    }

    fn send_frame(&mut self, spec: FrameSpec) {
        let octets = self.encode_spec(&spec);
        self.sent.push(octets);
        assert(self@.sent =~= old(self)@.sent.push(octets@));
    }

    fn send_upward(&mut self, signal: DataLinkSignal) {
        self.upward.push(signal);
        assert(self@.upward =~= old(self)@.upward.push(signal@));
    }

    fn send_link_mux(&mut self, signal: LinkMultiplexerSignal) {
        match signal {
            LinkMultiplexerSignal::SeizeRequest => {
                self.seize_pending = true;
            },
            _ => {},
        }
    }

    fn send_internal(&mut self, _signal: InternalSignal) {
    }
}

/// The event that a received frame with one control octet is. `None` if the control
/// octet stands for none.
pub fn classify_incoming(frame: &Frame) -> (r: Option<Event>)
    ensures
        match r {
            Some(e) => classified(frame@, None) == Some(e@),
            None => classified(frame@, None) is None,
        },
{
    classify_incoming_modulo(frame, None)
}

/// The event that a received frame is. A second control octet counts for a numbered
/// frame only. `None` if the control octet stands for no event.
pub fn classify_incoming_modulo(frame: &Frame, second: Option<u8>) -> (r: Option<Event>)
    ensures
        match r {
            Some(e) => classified(frame@, second) == Some(e@),
            None => classified(frame@, second) is None,
        },
{
    let control: u8 = frame.control;
    let is_command: bool = frame.is_command();
    let mut nr: u8 = control / 32;
    let mut ns: u8 = control / 2 % 8;
    let mut poll_final: bool = control / 16 % 2 == 1;
    match second {
        Some(c) => {
            if control % 4 != 3 {
                nr = c / 2;
                ns = control / 2;
                poll_final = c % 2 == 1;
            }
        },
        None => {},
    }
    let info = FrameInfo {
        nr,
        ns,
        poll_final,
        is_command,
        is_unmarked: !is_command && !frame.is_response(),
        info: copied(&frame.info),
        pid: frame.pid,
    };
    if control % 2 == 0 {
        return Some(Event::IReceived(info));
    }
    if control % 4 == 1 {
        let s: u8 = control % 16;
        return Some(
            if s == 0x01 {
                Event::RrReceived(info)
            } else if s == 0x05 {
                Event::RnrReceived(info)
            } else if s == 0x09 {
                Event::RejReceived(info)
            } else {
                Event::SrejReceived(info)
            },
        );
    }
    let u: u8 = control - if control / 16 % 2 == 1 {
        16
    } else {
        0
    };
    if u == 0x2F {
        Some(Event::SabmReceived(info))
    } else if u == 0x6F {
        Some(Event::SabmeReceived(info))
    } else if u == 0x43 {
        Some(Event::DiscReceived(info))
    } else if u == 0x63 {
        Some(Event::UaReceived(info))
    } else if u == 0x0F {
        Some(Event::DmReceived(info))
    } else if u == frame::CONTROL_UI {
        Some(Event::UiReceived(info))
    } else if u == 0xAF {
        Some(Event::XidReceived(info))
    } else {
        None
    }
}

} // verus!
