//! The management data link: negotiating the parameters of a link by XID.
//!
//! - [`apply_negotiated`] settles the link on what two offers have in common.
//! - [`respond_pre_session_xid`] answers an XID command that comes before any link.
//! - [`MdlMachine`] drives the exchange through the generated tables. It has its own
//!   retry count and its own timer, and leaves those of the session alone.

use ax25sdl::{Ax25ActionVerb, Ax25Event, Ax25Guard, GuardTerm, TransitionSpec};
use vstd::prelude::*;

use super::context;
use super::context::{Edit, Link, SessionContext};
use super::tables;
use super::tables::{management_transitions, same_event};
use super::timer::{TimerId, TimerService, TimerSnapshot};
use crate::ax25::xid;
use crate::ax25::xid::info_field;
use crate::ax25::xid::{ClassesOfProcedures, HdlcOptionalFunctions, RejectMode, XidParameters};
use crate::text::same_text;

verus! {

// ─── Offers and what two offers have in common ──────────────────────────────

/// The parameters that a station with the given link offers.
pub open spec fn offer_of(link: Link) -> XidParameters {
    XidParameters {
        classes_of_procedures: Some(ClassesOfProcedures { half_duplex: link.half_duplex }),
        hdlc_optional_functions: Some(
            HdlcOptionalFunctions {
                reject: if link.srej_enabled {
                    RejectMode::SelectiveReject
                } else {
                    RejectMode::ImplicitReject
                },
                modulo128: link.is_extended,
                srej_multiframe: link.srej_enabled,
                segmenter_reassembler: link.segmenter_reassembler_enabled,
            },
        ),
        i_field_length_rx_bits: Some(xid::bits_of(link.n1)),
        window_size_rx: Some(link.k),
        ack_timer_millis: Some(link.t1v_ms),
        retries: Some(link.n2),
    }
}

/// What two stations settle on.
pub struct Terms {
    pub selective_reject: bool,
    pub modulo128: bool,
    pub segmenter: bool,
    pub half_duplex: bool,
    pub window: Option<u32>,
    pub n1: Option<u32>,
    pub t1_ms: Option<u32>,
    pub retries: Option<u32>,
}

/// The lesser of two values, where one that is absent sets no limit.
pub open spec fn lesser(a: Option<u32>, b: Option<u32>) -> Option<u32> {
    match (a, b) {
        (Some(x), Some(y)) => Some(
            if x <= y {
                x
            } else {
                y
            },
        ),
        (Some(x), None) => Some(x),
        (None, other) => other,
    }
}

/// The greater of two values, where one that is absent has no preference.
pub open spec fn greater(a: Option<u32>, b: Option<u32>) -> Option<u32> {
    match (a, b) {
        (Some(x), Some(y)) => Some(
            if x >= y {
                x
            } else {
                y
            },
        ),
        (Some(x), None) => Some(x),
        (None, other) => other,
    }
}

/// The optional functions that an offer comes to.
pub open spec fn functions_of(p: XidParameters) -> HdlcOptionalFunctions {
    match p.hdlc_optional_functions {
        Some(h) => h,
        None => HdlcOptionalFunctions::preset(),
    }
}

/// Whether an offer comes to half duplex.
pub open spec fn half_duplex_of(p: XidParameters) -> bool {
    match p.classes_of_procedures {
        Some(c) => c.half_duplex,
        None => true,
    }
}

/// What two offers have in common: a function that both offer, the smaller window and
/// frame, and the longer timer and greater patience.
pub open spec fn terms_of(a: XidParameters, b: XidParameters) -> Terms {
    let (f, g) = (functions_of(a), functions_of(b));
    Terms {
        selective_reject: f.reject is SelectiveReject && g.reject is SelectiveReject,
        modulo128: f.modulo128 && g.modulo128,
        segmenter: f.segmenter_reassembler && g.segmenter_reassembler,
        half_duplex: half_duplex_of(a) || half_duplex_of(b),
        window: lesser(a.window_size_rx, b.window_size_rx),
        n1: lesser(a.octets_rx(), b.octets_rx()),
        t1_ms: greater(a.ack_timer_millis, b.ack_timer_millis),
        retries: greater(a.retries, b.retries),
    }
}

/// A value, or what it was.
pub open spec fn or_kept(v: Option<u32>, kept: u32) -> u32 {
    match v {
        Some(x) => x,
        None => kept,
    }
}

/// The link on the given terms. What they leave open stays as it was.
#[verifier::opaque]
pub open spec fn settled_on(link: Link, t: Terms) -> Link {
    Link {
        srej_enabled: t.selective_reject,
        implicit_reject: !t.selective_reject,
        is_extended: t.modulo128,
        segmenter_reassembler_enabled: t.segmenter,
        half_duplex: t.half_duplex,
        k: or_kept(t.window, link.k),
        n1: or_kept(t.n1, link.n1),
        t1v_ms: or_kept(t.t1_ms, link.t1v_ms),
        srt_ms: match t.t1_ms {
            Some(ms) => (ms / 2) as u32,
            None => link.srt_ms,
        },
        n2: or_kept(t.retries, link.n2),
        ..link
    }
}

/// The link with the parameters of version 2.0.
#[verifier::opaque]
pub open spec fn version_20(link: Link) -> Link {
    Link {
        half_duplex: true,
        implicit_reject: true,
        srej_enabled: false,
        is_extended: false,
        n1: 256,
        k: 7,
        t1v_ms: 3000,
        srt_ms: 1500,
        n2: 10,
        segmenter_reassembler_enabled: false,
        ..link
    }
}

/// The parameters that a field offers. A field that is not well formed offers none.
pub open spec fn offered_in(info: Seq<u8>) -> XidParameters {
    match info_field::parameters_in(info) {
        Some(p) => p,
        None => XidParameters::silent(),
    }
}

/// The link of a station that answered an XID command.
pub open spec fn answered(link: Link, command: XidParameters) -> Link {
    settled_on(link, terms_of(offer_of(link), command))
}

/// A link that offers selective reject.
pub open spec fn seeded(link: Link) -> Link {
    link.edited(Edit::SelectiveReject(true))
}

/// What two offers have in common does not depend on which is whose.
pub proof fn law_terms_are_symmetric(a: XidParameters, b: XidParameters)
    ensures
        terms_of(a, b) == terms_of(b, a),
{
}

/// Neither side is taken further than it offered: a function is in force only if both
/// offered it, and the window and the frame are no larger than either offer.
pub proof fn law_terms_exceed_no_offer(a: XidParameters, b: XidParameters)
    ensures
        ({
            let t: Terms = terms_of(a, b);
            &&& t.selective_reject ==> functions_of(a).reject is SelectiveReject
            &&& t.modulo128 ==> functions_of(a).modulo128
            &&& t.segmenter ==> functions_of(a).segmenter_reassembler
            &&& half_duplex_of(a) ==> t.half_duplex
            &&& a.window_size_rx matches Some(k) ==> t.window is Some && t.window->0 <= k
            &&& a.octets_rx() matches Some(n) ==> t.n1 is Some && t.n1->0 <= n
            &&& a.ack_timer_millis matches Some(ms) ==> t.t1_ms is Some && t.t1_ms->0 >= ms
            &&& a.retries matches Some(n) ==> t.retries is Some && t.retries->0 >= n
        }),
{
}

/// The parameters on which two links agree.
pub open spec fn agree(a: Link, b: Link) -> bool {
    &&& a.srej_enabled == b.srej_enabled
    &&& a.implicit_reject == b.implicit_reject
    &&& a.is_extended == b.is_extended
    &&& a.segmenter_reassembler_enabled == b.segmenter_reassembler_enabled
    &&& a.half_duplex == b.half_duplex
    &&& a.k == b.k
    &&& a.n1 == b.n1
    &&& a.t1v_ms == b.t1v_ms
    &&& a.srt_ms == b.srt_ms
    &&& a.n2 == b.n2
}

/// Both stations end with the same parameters: the one that sent its offer and settled
/// on the answer, and the one that answered with what it settled on.
pub proof fn law_both_stations_converge(initiator: Link, responder: Link)
    ensures
        ({
            let offer: XidParameters = offer_of(initiator);
            let theirs: Link = answered(responder, offer);
            let ours: Link = settled_on(initiator, terms_of(offer, offer_of(theirs)));
            agree(ours, theirs)
        }),
{
    reveal(settled_on);
}

/// The same, with the offers carried as octets.
pub proof fn law_both_stations_converge_over_the_wire(initiator: Link, responder: Link)
    ensures
        ({
            let command: Seq<u8> = info_field::field(offer_of(initiator));
            let theirs: Link = answered(responder, offered_in(command));
            let response: Seq<u8> = info_field::field(offer_of(theirs));
            let ours: Link = settled_on(
                initiator,
                terms_of(offer_of(initiator), offered_in(response)),
            );
            agree(ours, theirs)
        }),
{
    let theirs: Link = answered(responder, offer_of(initiator));
    info_field::law_xid_round_trip(offer_of(initiator));
    info_field::law_xid_round_trip(offer_of(theirs));
    law_both_stations_converge(initiator, responder);
}

/// A second exchange on settled parameters changes nothing more.
pub proof fn law_settling_is_stable(link: Link, command: XidParameters)
    ensures
        ({
            let once: Link = answered(link, command);
            agree(answered(once, offer_of(once)), once)
        }),
{
    reveal(settled_on);
}

/// The parameters that a station with the given context offers. Selective reject is
/// offered for several frames at once.
pub fn default_offer_for(context: &SessionContext) -> (p: XidParameters)
    ensures
        p == offer_of(context@),
{
    proof {
        context::lemma_fields(*context);
    }
    XidParameters {
        classes_of_procedures: Some(ClassesOfProcedures { half_duplex: context.half_duplex }),
        hdlc_optional_functions: Some(
            HdlcOptionalFunctions {
                reject: if context.srej_enabled {
                    RejectMode::SelectiveReject
                } else {
                    RejectMode::ImplicitReject
                },
                modulo128: context.is_extended,
                srej_multiframe: context.srej_enabled,
                segmenter_reassembler: context.segmenter_reassembler_enabled,
            },
        ),
        i_field_length_rx_bits: Some(XidParameters::octets_to_bits(context.n1)),
        window_size_rx: Some(context.k),
        ack_timer_millis: Some(context.t1v_ms),
        retries: Some(context.n2),
    }
}

fn min_present(a: Option<u32>, b: Option<u32>) -> (r: Option<u32>)
    ensures
        r == lesser(a, b),
{
    match (a, b) {
        (Some(x), Some(y)) => Some(
            if x <= y {
                x
            } else {
                y
            },
        ),
        (Some(x), None) => Some(x),
        (None, other) => other,
    }
}

fn max_present(a: Option<u32>, b: Option<u32>) -> (r: Option<u32>)
    ensures
        r == greater(a, b),
{
    match (a, b) {
        (Some(x), Some(y)) => Some(
            if x >= y {
                x
            } else {
                y
            },
        ),
        (Some(x), None) => Some(x),
        (None, other) => other,
    }
}

fn kept_or(v: Option<u32>, kept: u32) -> (r: u32)
    ensures
        r == or_kept(v, kept),
{
    match v {
        Some(x) => x,
        None => kept,
    }
}

fn functions(p: &XidParameters) -> (h: HdlcOptionalFunctions)
    ensures
        h == functions_of(*p),
{
    match p.hdlc_optional_functions {
        Some(h) => h,
        None => HdlcOptionalFunctions::default(),
    }
}

fn half_duplex(p: &XidParameters) -> (r: bool)
    ensures
        r == half_duplex_of(*p),
{
    match p.classes_of_procedures {
        Some(c) => c.half_duplex,
        None => true,
    }
}

fn is_selective(mode: RejectMode) -> (r: bool)
    ensures
        r == (mode is SelectiveReject),
{
    match mode {
        RejectMode::SelectiveReject => true,
        RejectMode::ImplicitReject => false,
    }
}

/// Settles the link on what the two offers have in common. A parameter that neither
/// offers stays as it is; the optional functions have defaults of their own.
pub fn apply_negotiated(
    context: &mut SessionContext,
    offered: &XidParameters,
    response: &XidParameters,
)
    ensures
        final(context)@ == settled_on(old(context)@, terms_of(*offered, *response)),
{
    let ours = functions(offered);
    let theirs = functions(response);
    let selective: bool = is_selective(ours.reject) && is_selective(theirs.reject);
    let modulo128: bool = ours.modulo128 && theirs.modulo128;
    let segmenter: bool = ours.segmenter_reassembler && theirs.segmenter_reassembler;
    let half: bool = half_duplex(offered) || half_duplex(response);
    let k: u32 = kept_or(min_present(offered.window_size_rx, response.window_size_rx), context.k);
    let n1: u32 = kept_or(
        min_present(offered.i_field_length_rx_octets(), response.i_field_length_rx_octets()),
        context.n1,
    );
    let t1: Option<u32> = max_present(offered.ack_timer_millis, response.ack_timer_millis);
    let t1v: u32 = kept_or(t1, context.t1v_ms);
    let srt: u32 = match t1 {
        Some(ms) => ms / 2,
        None => context.srt_ms,
    };
    let n2: u32 = kept_or(max_present(offered.retries, response.retries), context.n2);
    context.srej_enabled = selective;
    context.implicit_reject = !selective;
    context.is_extended = modulo128;
    context.segmenter_reassembler_enabled = segmenter;
    context.half_duplex = half;
    context.k = k;
    context.n1 = n1;
    context.t1v_ms = t1v;
    context.srt_ms = srt;
    context.n2 = n2;
    proof {
        reveal(SessionContext::link);
        reveal(settled_on);
    }
}

/// Installs the parameters of version 2.0, all of them: the peer does not know later
/// ones.
pub fn apply_version_20_defaults(context: &mut SessionContext)
    ensures
        final(context)@ == version_20(old(context)@),
{
    context.half_duplex = true;
    context.implicit_reject = true;
    context.srej_enabled = false;
    context.is_extended = false;
    context.n1 = 256;
    context.k = 7;
    context.t1v_ms = 3000;
    context.srt_ms = 1500;
    context.n2 = 10;
    context.segmenter_reassembler_enabled = false;
    proof {
        reveal(SessionContext::link);
        reveal(version_20);
    }
}

/// Answers an XID command: settles the link on what the command and our offer have in
/// common, and hands back what to send, which is what was settled on.
pub fn respond_to_xid_command(context: &mut SessionContext, command: &XidParameters) -> (r:
    XidParameters)
    ensures
        final(context)@ == answered(old(context)@, *command),
        r == offer_of(final(context)@),
{
    let offered = default_offer_for(context);
    apply_negotiated(context, &offered, command);
    default_offer_for(context)
}

pub(crate) fn parse_or_silent(info: &[u8]) -> (p: XidParameters)
    ensures
        p == offered_in(info@),
{
    match info_field::parse(info) {
        Some(p) => p,
        None => XidParameters::default(),
    }
}

/// Answers an XID command that comes before any link, offering selective reject. Hands
/// back the information field of the response.
pub fn respond_pre_session_xid(context: &mut SessionContext, command_info: &[u8]) -> (r: Vec<u8>)
    ensures
        final(context)@ == answered(seeded(old(context)@), offered_in(command_info@)),
        r@ == info_field::field(offer_of(final(context)@)),
{
    context.edit(Edit::SelectiveReject(true));
    let command = parse_or_silent(command_info);
    let agreed = respond_to_xid_command(context, &command);
    info_field::encode(&agreed)
}

/// Makes the link offer selective reject and hands back the offer, to be sent in an
/// XID command before the connect request.
pub fn begin_pre_connect_xid(context: &mut SessionContext) -> (p: XidParameters)
    ensures
        final(context)@ == seeded(old(context)@),
        p == offer_of(final(context)@),
{
    context.edit(Edit::SelectiveReject(true));
    default_offer_for(context)
}

/// Takes back the offer of selective reject: nobody answered it.
pub fn revert_pre_connect_xid(context: &mut SessionContext)
    ensures
        final(context)@ == old(context)@.edited(Edit::SelectiveReject(false)),
{
    context.edit(Edit::SelectiveReject(false));
}

/// A silent peer leaves the link without selective reject, and otherwise as it was.
pub proof fn law_unanswered_probe_leaves_no_selective_reject(link: Link)
    ensures
        ({
            let after: Link = seeded(link).edited(Edit::SelectiveReject(false));
            &&& !after.srej_enabled
            &&& after.implicit_reject
            &&& after == link.edited(Edit::SelectiveReject(false))
        }),
{
    reveal(Link::edited);
    reveal(Link::with_selective_reject);
}

/// A peer whose offer lacks selective reject turns it off, whatever we offered.
pub proof fn law_selective_reject_needs_both(link: Link, command: XidParameters)
    requires
        !(functions_of(command).reject is SelectiveReject),
    ensures
        !answered(seeded(link), command).srej_enabled,
        answered(seeded(link), command).implicit_reject,
{
    reveal(settled_on);
}

// ─── The machine ────────────────────────────────────────────────────────────

/// Duration of TM201, the timer of the exchange, in ms.
pub const TM201_MS: u32 = 3000;

/// The states of the management machine.
#[derive(Debug, Clone, Copy, PartialEq, Eq, Structural)]
pub enum MdlState {
    /// No XID command is outstanding.
    Ready,
    /// Our XID command is out and awaits an answer.
    Negotiating,
}

/// The state that the tables call `name`.
pub open spec fn state_called(name: Seq<char>) -> Option<MdlState> {
    if name == "Ready"@ {
        Some(MdlState::Ready)
    } else if name == "Negotiating"@ {
        Some(MdlState::Negotiating)
    } else {
        None
    }
}

/// The events of the management machine.
#[derive(Debug, Clone, PartialEq, Eq)]
pub enum MdlEvent {
    /// Open the exchange.
    NegotiateRequest,
    /// The peer's XID response.
    XidResponseReceived {
        /// Its final bit.
        final_bit: bool,
        /// Its information field.
        info: Vec<u8>,
    },
    /// A FRMR in answer to our XID command: the peer does not know XID.
    FrmrReceived,
    /// TM201 expired without an answer.
    Tm201Expiry,
}

/// What an event is to the machine: the typed event that selects transitions, its
/// final bit, and the parameters that it offers.
pub struct MdlTrigger {
    pub on: Ax25Event,
    pub final_bit: bool,
    pub offer: XidParameters,
}

impl View for MdlEvent {
    type V = MdlTrigger;

    open spec fn view(&self) -> MdlTrigger {
        match *self {
            MdlEvent::NegotiateRequest => MdlTrigger {
                on: Ax25Event::MDLNEGOTIATERequest,
                final_bit: false,
                offer: XidParameters::silent(),
            },
            MdlEvent::XidResponseReceived { final_bit, info } => MdlTrigger {
                on: Ax25Event::XIDResponseReceived,
                final_bit,
                offer: offered_in(info@),
            },
            MdlEvent::FrmrReceived => MdlTrigger {
                on: Ax25Event::FRMRReceived,
                final_bit: false,
                offer: XidParameters::silent(),
            },
            MdlEvent::Tm201Expiry => MdlTrigger {
                on: Ax25Event::TM201Expiry,
                final_bit: false,
                offer: XidParameters::silent(),
            },
        }
    }
}

impl MdlEvent {
    fn to_sdl(&self) -> (on: Ax25Event)
        ensures
            on == self@.on,
    {
        match self {
            MdlEvent::NegotiateRequest => Ax25Event::MDLNEGOTIATERequest,
            MdlEvent::XidResponseReceived { .. } => Ax25Event::XIDResponseReceived,
            MdlEvent::FrmrReceived => Ax25Event::FRMRReceived,
            MdlEvent::Tm201Expiry => Ax25Event::TM201Expiry,
        }
    }

    fn final_bit(&self) -> (r: bool)
        ensures
            r == self@.final_bit,
    {
        match self {
            MdlEvent::XidResponseReceived { final_bit, .. } => *final_bit,
            _ => false,
        }
    }

    fn offer(&self) -> (p: XidParameters)
        ensures
            p == self@.offer,
    {
        match self {
            MdlEvent::XidResponseReceived { info, .. } => parse_or_silent(info.as_slice()),
            _ => XidParameters::default(),
        }
    }
}

/// The signals that the machine raises to Layer 3.
#[derive(Debug, Clone, Copy, PartialEq, Eq)]
pub enum MdlSignal {
    /// The exchange is complete.
    NegotiateConfirm,
    /// An error: "B" for a response that nobody asked for, "C" for no answer after
    /// every retry, "D" for a response without the final bit.
    ErrorIndicate(&'static str),
}

/// What a signal says.
pub enum MdlSignalView {
    NegotiateConfirm,
    ErrorIndicate(Seq<char>),
}

impl View for MdlSignal {
    type V = MdlSignalView;

    open spec fn view(&self) -> MdlSignalView {
        match *self {
            MdlSignal::NegotiateConfirm => MdlSignalView::NegotiateConfirm,
            MdlSignal::ErrorIndicate(code) => MdlSignalView::ErrorIndicate(code@),
        }
    }
}

/// What a run of signals says.
pub open spec fn mdl_signal_views(v: Seq<MdlSignal>) -> Seq<MdlSignalView> {
    v.map_values(|s: MdlSignal| s@)
}

/// Why a transition could not be carried out: the tables ask for something that the
/// management machine does not have.
#[derive(Debug, Clone, Copy, PartialEq, Eq, Structural)]
pub enum MdlFault {
    /// A guard reads something that is not part of the machine.
    ForeignGuard,
    /// An action does something that is not part of the machine.
    ForeignVerb,
    /// A transition has a loop.
    UnexpectedLoop,
    /// A transition leads to a state that the machine does not have.
    UnknownState,
}

/// What one event produced.
#[derive(Debug, Clone, PartialEq, Eq)]
pub struct MdlOutcome {
    /// The information field of an XID command to send, with the poll bit.
    pub xid_command: Option<Vec<u8>>,
    /// The signals raised to Layer 3, in order.
    pub signals: Vec<MdlSignal>,
}

impl Default for MdlOutcome {
    fn default() -> (o: MdlOutcome)
        ensures
            o.xid_command is None,
            o.signals@.len() == 0,
    {
        MdlOutcome { xid_command: None, signals: Vec::new() }
    }
}

/// The management machine.
#[derive(Debug, Clone, PartialEq, Eq)]
pub struct MdlMachine {
    /// The current state.
    pub state: MdlState,
    /// The count of retries.
    pub rc: u32,
    /// The most retries.
    pub nm201: u32,
    /// The offer of our last XID command.
    pub offered: Option<XidParameters>,
}

/// The machine, the link, the timers and what has been produced, in the middle of an
/// event, and what stopped it if anything did.
pub struct MdlRun {
    pub state: MdlState,
    pub rc: u32,
    pub nm201: u32,
    pub offered: Option<XidParameters>,
    pub link: Link,
    pub timers: TimerSnapshot,
    pub xid_command: Option<Seq<u8>>,
    pub signals: Seq<MdlSignalView>,
    pub fault: Option<MdlFault>,
}

/// Whether an atom holds, if it is part of the machine.
pub open spec fn mdl_atom(atom: Ax25Guard, m: MdlRun, t: MdlTrigger) -> Option<bool> {
    match atom {
        Ax25Guard::FEq1 => Some(t.final_bit),
        Ax25Guard::RCEqNM201 => Some(m.rc == m.nm201),
        _ => None,
    }
}

/// Whether the terms of a guard from index `i` on hold, if those that were read are
/// part of the machine. The first that fails ends the reading.
pub open spec fn mdl_guard(guard: Seq<GuardTerm>, i: int, m: MdlRun, t: MdlTrigger) -> Option<bool>
    decreases guard.len() - i,
{
    if i < 0 || i >= guard.len() {
        Some(true)
    } else {
        match mdl_atom(guard[i].atom, m, t) {
            None => None,
            Some(holds) => if holds != guard[i].negate {
                mdl_guard(guard, i + 1, m, t)
            } else {
                Some(false)
            },
        }
    }
}

/// The first transition from index `i` on that is keyed on the event and whose guard
/// holds, if the guards that were read are part of the machine.
pub open spec fn mdl_match(page: Seq<TransitionSpec>, i: int, m: MdlRun, t: MdlTrigger) -> Result<
    Option<TransitionSpec>,
    MdlFault,
>
    decreases page.len() - i,
{
    if i < 0 || i >= page.len() {
        Ok(None)
    } else if page[i].on == t.on {
        match mdl_guard(page[i].guard@, 0, m, t) {
            None => Err(MdlFault::ForeignGuard),
            Some(true) => Ok(Some(page[i])),
            Some(false) => mdl_match(page, i + 1, m, t),
        }
    } else {
        mdl_match(page, i + 1, m, t)
    }
}

/// The error that a verb indicates, if it indicates one.
pub open spec fn mdl_error(verb: Ax25ActionVerb) -> Option<Seq<char>> {
    match verb {
        Ax25ActionVerb::MDLERRORIndicateB => Some("B"@),
        Ax25ActionVerb::MDLERRORIndicateC => Some("C"@),
        Ax25ActionVerb::MDLERRORIndicateD => Some("D"@),
        _ => None,
    }
}

/// What one action does.
pub open spec fn mdl_step(verb: Ax25ActionVerb, m: MdlRun, t: MdlTrigger) -> MdlRun {
    match verb {
        Ax25ActionVerb::RCAssign0 => MdlRun { rc: 0, ..m },
        Ax25ActionVerb::RCAssignRCPlus1 => MdlRun {
            rc: if m.rc == u32::MAX {
                m.rc
            } else {
                (m.rc + 1) as u32
            },
            ..m
        },
        Ax25ActionVerb::XIDCommand => MdlRun {
            xid_command: Some(info_field::field(offer_of(m.link))),
            offered: Some(offer_of(m.link)),
            ..m
        },
        Ax25ActionVerb::StartTM201 => MdlRun {
            timers: m.timers.with(TimerId::Tm201, Some(TM201_MS)),
            ..m
        },
        Ax25ActionVerb::StopTM201 => MdlRun {
            timers: m.timers.with(TimerId::Tm201, None),
            ..m
        },
        Ax25ActionVerb::ApplyNegotiatedParameters => MdlRun {
            link: settled_on(
                m.link,
                terms_of(
                    match m.offered {
                        Some(p) => p,
                        None => offer_of(m.link),
                    },
                    t.offer,
                ),
            ),
            ..m
        },
        Ax25ActionVerb::SetVersion20 => MdlRun { link: version_20(m.link), ..m },
        Ax25ActionVerb::MDLNEGOTIATEConfirm => MdlRun {
            signals: m.signals.push(MdlSignalView::NegotiateConfirm),
            ..m
        },
        _ => match mdl_error(verb) {
            Some(code) => MdlRun {
                signals: m.signals.push(MdlSignalView::ErrorIndicate(code)),
                ..m
            },
            None => MdlRun { fault: Some(MdlFault::ForeignVerb), ..m },
        },
    }
}

/// What the actions from index `i` on do, up to the first that is not part of the
/// machine.
pub open spec fn mdl_actions(
    steps: Seq<ax25sdl::ActionStep>,
    i: int,
    m: MdlRun,
    t: MdlTrigger,
) -> MdlRun
    decreases steps.len() - i,
{
    if i < 0 || i >= steps.len() || m.fault is Some {
        m
    } else {
        mdl_actions(steps, i + 1, mdl_step(steps[i].verb, m, t), t)
    }
}

/// What one event does: the first transition that matches runs, and without one the
/// event is dropped.
pub open spec fn mdl_driven(page: Seq<TransitionSpec>, m: MdlRun, t: MdlTrigger) -> MdlRun {
    match mdl_match(page, 0, m, t) {
        Err(fault) => MdlRun { fault: Some(fault), ..m },
        Ok(None) => m,
        Ok(Some(tr)) => if tr.loops@.len() > 0 {
            MdlRun { fault: Some(MdlFault::UnexpectedLoop), ..m }
        } else {
            let ran: MdlRun = mdl_actions(tr.actions@, 0, m, t);
            if ran.fault is Some {
                ran
            } else {
                match state_called(tr.next@) {
                    Some(state) => MdlRun { state, ..ran },
                    None => MdlRun { fault: Some(MdlFault::UnknownState), ..ran },
                }
            }
        },
    }
}

/// The run of an event at its start.
pub open spec fn mdl_start(m: MdlMachine, link: Link, timers: TimerSnapshot) -> MdlRun {
    MdlRun {
        state: m.state,
        rc: m.rc,
        nm201: m.nm201,
        offered: m.offered,
        link,
        timers,
        xid_command: None,
        signals: Seq::empty(),
        fault: None,
    }
}

/// The machine, the link and the timers are those of a run.
pub open spec fn mdl_matches(m: MdlMachine, link: Link, timers: TimerSnapshot, run: MdlRun) -> bool {
    &&& m.state == run.state
    &&& m.rc == run.rc
    &&& m.nm201 == run.nm201
    &&& m.offered == run.offered
    &&& link == run.link
    &&& timers == run.timers
}

/// The outcome is that of a run.
pub open spec fn outcome_matches(o: MdlOutcome, run: MdlRun) -> bool {
    &&& match o.xid_command {
        Some(v) => run.xid_command == Some(v@),
        None => run.xid_command is None,
    }
    &&& mdl_signal_views(o.signals@) == run.signals
}

impl MdlMachine {
    /// A machine in `Ready` that retries `nm201` times.
    pub fn new(nm201: u32) -> (m: MdlMachine)
        ensures
            m.state == MdlState::Ready,
            m.rc == 0,
            m.nm201 == nm201,
            m.offered is None,
    {
        MdlMachine { state: MdlState::Ready, rc: 0, nm201, offered: None }
    }

    /// Whether an exchange is in progress.
    pub fn is_negotiating(&self) -> (r: bool)
        ensures
            r == (self.state == MdlState::Negotiating),
    {
        self.state == MdlState::Negotiating
    }

    /// Drives one event through the generated tables. An event without a transition is
    /// dropped.
    pub fn post_event<T: TimerService>(
        &mut self,
        event: MdlEvent,
        link: &mut SessionContext,
        timers: &mut T,
    ) -> (r: Result<MdlOutcome, MdlFault>)
        ensures
            ({
                let run: MdlRun = mdl_driven(
                    tables::management_page(old(self).state),
                    mdl_start(*old(self), old(link)@, old(timers).slots()),
                    event@,
                );
                &&& mdl_matches(*final(self), final(link)@, final(timers).slots(), run)
                &&& match r {
                    Ok(o) => run.fault is None && outcome_matches(o, run),
                    Err(fault) => run.fault == Some(fault),
                }
            }),
    {
        let page = management_transitions(self.state);
        self.post_event_over(page, event, link, timers)
    }

    /// Drives one event through the given page.
    pub fn post_event_over<T: TimerService>(
        &mut self,
        page: &[TransitionSpec],
        event: MdlEvent,
        link: &mut SessionContext,
        timers: &mut T,
    ) -> (r: Result<MdlOutcome, MdlFault>)
        ensures
            ({
                let run: MdlRun = mdl_driven(
                    page@,
                    mdl_start(*old(self), old(link)@, old(timers).slots()),
                    event@,
                );
                &&& mdl_matches(*final(self), final(link)@, final(timers).slots(), run)
                &&& match r {
                    Ok(o) => run.fault is None && outcome_matches(o, run),
                    Err(fault) => run.fault == Some(fault),
                }
            }),
    {
        let ghost start: MdlRun = mdl_start(*self, link@, timers.slots());
        let mut outcome = MdlOutcome::default();
        assert(mdl_signal_views(outcome.signals@) =~= Seq::empty());
        let tr = match self.find(page, &event, Ghost(start)) {
            Ok(Some(tr)) => tr,
            Ok(None) => {
                return Ok(outcome);
            },
            Err(fault) => {
                return Err(fault);
            },
        };
        if tr.loops.len() > 0 {
            return Err(MdlFault::UnexpectedLoop);
        }
        let ghost end: MdlRun = mdl_actions(tr.actions@, 0, start, event@);
        let ghost mut run: MdlRun = start;
        let mut i: usize = 0;
        while i < tr.actions.len()
            invariant
                i <= tr.actions@.len(),
                end == mdl_actions(tr.actions@, 0, start, event@),
                end == mdl_actions(tr.actions@, i as int, run, event@),
                run.fault is None,
                run.state == start.state,
                start == mdl_start(*old(self), old(link)@, old(timers).slots()),
                mdl_match(page@, 0, start, event@) == Ok::<_, MdlFault>(Some(tr)),
                tr.loops@.len() == 0,
                mdl_matches(*self, link@, timers.slots(), run),
                outcome_matches(outcome, run),
            decreases tr.actions@.len() - i,
        {
            let verb = tr.actions[i].verb;
            let ghost before: MdlRun = run;
            let done: bool = self.execute_verb(
                verb,
                &event,
                link,
                timers,
                &mut outcome,
                Ghost(before),
            );
            proof {
                run = mdl_step(verb, before, event@);
            }
            if !done {
                assert(mdl_actions(tr.actions@, i + 1, run, event@) == run);
                return Err(MdlFault::ForeignVerb);
            }
            i = i + 1;
        }
        if same_text(tr.next, "Ready") {
            self.state = MdlState::Ready;
        } else if same_text(tr.next, "Negotiating") {
            self.state = MdlState::Negotiating;
        } else {
            return Err(MdlFault::UnknownState);
        }
        Ok(outcome)
    }

    /// The first transition that is keyed on the event and whose guard holds.
    fn find(&self, page: &[TransitionSpec], event: &MdlEvent, Ghost(m): Ghost<MdlRun>) -> (r: Result<
        Option<TransitionSpec>,
        MdlFault,
    >)
        requires
            m.rc == self.rc,
            m.nm201 == self.nm201,
        ensures
            r == mdl_match(page@, 0, m, event@),
    {
        let on = event.to_sdl();
        let mut i: usize = 0;
        while i < page.len()
            invariant
                on == event@.on,
                i <= page@.len(),
                m.rc == self.rc,
                m.nm201 == self.nm201,
                mdl_match(page@, 0, m, event@) == mdl_match(page@, i as int, m, event@),
            decreases page@.len() - i,
        {
            if same_event(page[i].on, on) {
                match self.guards_hold(page[i].guard, event, Ghost(m)) {
                    None => {
                        return Err(MdlFault::ForeignGuard);
                    },
                    Some(holds) => {
                        if holds {
                            return Ok(Some(page[i]));
                        }
                    },
                }
            }
            i = i + 1;
        }
        Ok(None)
    }

    /// Whether a guard holds, if the terms that were read are part of the machine.
    fn guards_hold(&self, guard: &[GuardTerm], event: &MdlEvent, Ghost(m): Ghost<MdlRun>) -> (r:
        Option<bool>)
        requires
            m.rc == self.rc,
            m.nm201 == self.nm201,
        ensures
            r == mdl_guard(guard@, 0, m, event@),
    {
        let mut i: usize = 0;
        while i < guard.len()
            invariant
                i <= guard@.len(),
                m.rc == self.rc,
                m.nm201 == self.nm201,
                mdl_guard(guard@, 0, m, event@) == mdl_guard(guard@, i as int, m, event@),
            decreases guard@.len() - i,
        {
            let holds: bool = match guard[i].atom {
                Ax25Guard::FEq1 => event.final_bit(),
                Ax25Guard::RCEqNM201 => self.rc == self.nm201,
                _ => {
                    return None;
                },
            };
            if holds == guard[i].negate {
                return Some(false);
            }
            i = i + 1;
        }
        Some(true)
    }

    /// Carries out one action, and says whether it is part of the machine.
    fn execute_verb<T: TimerService>(
        &mut self,
        verb: Ax25ActionVerb,
        event: &MdlEvent,
        link: &mut SessionContext,
        timers: &mut T,
        outcome: &mut MdlOutcome,
        Ghost(m): Ghost<MdlRun>,
    ) -> (r: bool)
        requires
            m.fault is None,
            mdl_matches(*old(self), old(link)@, old(timers).slots(), m),
            outcome_matches(*old(outcome), m),
        ensures
            ({
                let run: MdlRun = mdl_step(verb, m, event@);
                &&& mdl_matches(*final(self), final(link)@, final(timers).slots(), run)
                &&& outcome_matches(*final(outcome), run)
                &&& r == (run.fault is None)
                &&& !r ==> run.fault == Some(MdlFault::ForeignVerb)
                &&& run.state == m.state
            }),
    {
        match verb {
            Ax25ActionVerb::RCAssign0 => {
                self.rc = 0;
            },
            Ax25ActionVerb::RCAssignRCPlus1 => {
                if self.rc != 0xFFFF_FFFF {
                    self.rc = self.rc + 1;
                }
            },
            Ax25ActionVerb::XIDCommand => {
                let offer = default_offer_for(link);
                outcome.xid_command = Some(info_field::encode(&offer));
                self.offered = Some(offer);
            },
            Ax25ActionVerb::StartTM201 => {
                timers.arm(TimerId::Tm201, TM201_MS);
            },
            Ax25ActionVerb::StopTM201 => {
                timers.cancel(TimerId::Tm201);
            },
            Ax25ActionVerb::ApplyNegotiatedParameters => {
                let response = event.offer();
                let offered = match self.offered {
                    Some(p) => p,
                    None => default_offer_for(link),
                };
                apply_negotiated(link, &offered, &response);
            },
            Ax25ActionVerb::SetVersion20 => {
                apply_version_20_defaults(link);
            },
            Ax25ActionVerb::MDLNEGOTIATEConfirm => {
                raise(outcome, MdlSignal::NegotiateConfirm);
            },
            Ax25ActionVerb::MDLERRORIndicateB => {
                raise(outcome, MdlSignal::ErrorIndicate("B"));
            },
            Ax25ActionVerb::MDLERRORIndicateC => {
                raise(outcome, MdlSignal::ErrorIndicate("C"));
            },
            Ax25ActionVerb::MDLERRORIndicateD => {
                raise(outcome, MdlSignal::ErrorIndicate("D"));
            },
            _ => {
                return false;
            },
        }
        true
    }
}

fn raise(outcome: &mut MdlOutcome, signal: MdlSignal)
    ensures
        mdl_signal_views(final(outcome).signals@) == mdl_signal_views(old(outcome).signals@).push(
            signal@,
        ),
        final(outcome).xid_command == old(outcome).xid_command,
{
    outcome.signals.push(signal);
    assert(mdl_signal_views(outcome.signals@) =~= mdl_signal_views(old(outcome).signals@).push(
        signal@,
    ));
}

// ─── Laws of the machine ────────────────────────────────────────────────────

/// What the machine leaves alone: the sequence numbers, the retry count and the
/// payloads of the session, and every timer but its own.
pub open spec fn spares(a: MdlRun, b: MdlRun) -> bool {
    &&& a.link.vs == b.link.vs
    &&& a.link.va == b.link.va
    &&& a.link.vr == b.link.vr
    &&& a.link.rc == b.link.rc
    &&& a.link.i_frame_queue == b.link.i_frame_queue
    &&& a.link.sent_i_frames == b.link.sent_i_frames
    &&& a.link.stored_received_i_frames == b.link.stored_received_i_frames
    &&& a.timers.t1 == b.timers.t1
    &&& a.timers.t2 == b.timers.t2
    &&& a.timers.t3 == b.timers.t3
    &&& a.nm201 == b.nm201
}

proof fn lemma_step_spares(verb: Ax25ActionVerb, m: MdlRun, t: MdlTrigger)
    ensures
        spares(m, mdl_step(verb, m, t)),
{
    reveal(settled_on);
    reveal(version_20);
}

proof fn lemma_actions_spare(
    steps: Seq<ax25sdl::ActionStep>,
    i: int,
    m: MdlRun,
    t: MdlTrigger,
)
    ensures
        spares(m, mdl_actions(steps, i, m, t)),
    decreases steps.len() - i,
{
    if 0 <= i < steps.len() && m.fault is None {
        lemma_step_spares(steps[i].verb, m, t);
        lemma_actions_spare(steps, i + 1, mdl_step(steps[i].verb, m, t), t);
    }
}

/// An exchange never disturbs the session, whatever the tables say: its sequence
/// numbers, its retry count, its payloads and its timers stay as they are.
pub proof fn law_the_session_is_spared(page: Seq<TransitionSpec>, m: MdlRun, t: MdlTrigger)
    ensures
        spares(m, mdl_driven(page, m, t)),
{
    if let Ok(Some(tr)) = mdl_match(page, 0, m, t) {
        lemma_actions_spare(tr.actions@, 0, m, t);
    }
}

proof fn lemma_no_mdl_match(page: Seq<TransitionSpec>, i: int, m: MdlRun, t: MdlTrigger)
    requires
        0 <= i,
        forall|k: int| 0 <= k < page.len() ==> (#[trigger] page[k]).on != t.on,
    ensures
        mdl_match(page, i, m, t) == Ok::<Option<TransitionSpec>, MdlFault>(None),
    decreases page.len() - i,
{
    if i < page.len() {
        assert(page[i].on != t.on);
        lemma_no_mdl_match(page, i + 1, m, t);
    }
}

/// An event that the page of the state does not list is dropped: nothing changes.
pub proof fn law_unlisted_mdl_events_are_dropped(
    page: Seq<TransitionSpec>,
    m: MdlRun,
    t: MdlTrigger,
)
    requires
        forall|k: int| 0 <= k < page.len() ==> (#[trigger] page[k]).on != t.on,
    ensures
        mdl_driven(page, m, t) == m,
{
    lemma_no_mdl_match(page, 0, m, t);
}

} // verus!
