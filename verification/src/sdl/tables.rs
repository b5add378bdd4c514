//! The generated state-machine tables and how the runtime reads them.
//!
//! The tables are constant data of the `ax25sdl` crate. Its types are declared
//! here with all their fields, so the runtime reads them like its own.

use ax25sdl::LoopRange as TableLoop;
use ax25sdl::{Ax25Event, SubroutineSpec, TransitionSpec};
use vstd::prelude::*;

use super::drawn;
use super::mdl::MdlState;
use super::session::State;

verus! {

/// `ax25sdl::Ax25ActionVerb`, the closed set of action verbs.
#[verifier::external_type_specification]
pub struct ExAx25ActionVerb(ax25sdl::Ax25ActionVerb);

/// `ax25sdl::Ax25Guard`, the closed set of decision predicates.
#[verifier::external_type_specification]
pub struct ExAx25Guard(ax25sdl::Ax25Guard);

/// `ax25sdl::Ax25Event`, the closed set of events.
#[verifier::external_type_specification]
pub struct ExAx25Event(ax25sdl::Ax25Event);

/// `ax25sdl::ActionKind`, the classifier that each action step carries.
#[verifier::external_type_specification]
pub struct ExActionKind(ax25sdl::ActionKind);

/// `ax25sdl::GuardTerm`, one conjunct of a guard.
#[verifier::external_type_specification]
pub struct ExGuardTerm(ax25sdl::GuardTerm);

/// `ax25sdl::ActionStep`, one step of an action chain.
#[verifier::external_type_specification]
pub struct ExActionStep(ax25sdl::ActionStep);

/// `ax25sdl::LoopRange`, a loop as a slice over an action chain.
#[verifier::external_type_specification]
pub struct ExTableLoop(TableLoop);

/// `ax25sdl::ImplementationReference`, a citation that the tables carry along.
#[verifier::external_type_specification]
pub struct ExImplementationReference(ax25sdl::ImplementationReference);

/// `ax25sdl::TransitionSpec`, one transition of a state page.
#[verifier::external_type_specification]
pub struct ExTransitionSpec(ax25sdl::TransitionSpec);

/// `ax25sdl::SubroutinePath`, one path through a subroutine.
#[verifier::external_type_specification]
pub struct ExSubroutinePath(ax25sdl::SubroutinePath);

/// `ax25sdl::SubroutineSpec`, one named subroutine.
#[verifier::external_type_specification]
pub struct ExSubroutineSpec(ax25sdl::SubroutineSpec);

/// The figure that draws the subroutines of a machine. Only the data-link
/// machine has one.
#[derive(Debug, Clone, Copy, PartialEq, Eq, Structural)]
pub enum SubroutineFigure {
    /// The subroutines of the data-link machine.
    DataLink,
}

/// The transitions that the tables list for a state of the data-link machine.
pub uninterp spec fn data_link_page(state: State) -> Seq<TransitionSpec>;

/// The transitions that the tables list for a state of the management machine.
pub uninterp spec fn management_page(state: MdlState) -> Seq<TransitionSpec>;

/// The subroutines that the tables list for a figure.
pub uninterp spec fn subroutine_page(figure: SubroutineFigure) -> Seq<SubroutineSpec>;

/// Reads the `transitions` of the page that `ax25sdl` publishes for `state`:
/// `DATA_LINK_DISCONNECTED`, `DATA_LINK_AWAITING_CONNECTION`,
/// `DATA_LINK_AWAITING_V_22_CONNECTION`, `DATA_LINK_AWAITING_RELEASE`,
/// `DATA_LINK_CONNECTED` or `DATA_LINK_TIMER_RECOVERY`. These are constants, so
/// the same state always gives the same transitions. Of what they are, it is
/// claimed that each starts from `state`, and what [`drawn::draws_page`] spells
/// out of UI frames in every state, of a link that is down and of one in
/// information transfer.
#[verifier::external_body]
pub(crate) fn data_link_transitions(state: State) -> (r: &'static [TransitionSpec])
    ensures
        r@ == data_link_page(state),
        drawn::draws_page(state, r@),
{
    match state {
        State::Disconnected => ax25sdl::DATA_LINK_DISCONNECTED.transitions,
        State::AwaitingConnection => ax25sdl::DATA_LINK_AWAITING_CONNECTION.transitions,
        State::AwaitingV22Connection => ax25sdl::DATA_LINK_AWAITING_V_22_CONNECTION.transitions,
        State::AwaitingRelease => ax25sdl::DATA_LINK_AWAITING_RELEASE.transitions,
        State::Connected => ax25sdl::DATA_LINK_CONNECTED.transitions,
        State::TimerRecovery => ax25sdl::DATA_LINK_TIMER_RECOVERY.transitions,
    }
}

/// Reads the `transitions` of `MANAGEMENT_DATA_LINK_READY` or of
/// `MANAGEMENT_DATA_LINK_NEGOTIATING` in `ax25sdl`, two constants. Of what they are,
/// it is claimed that each starts from `state`.
#[verifier::external_body]
pub(crate) fn management_transitions(state: MdlState) -> (r: &'static [TransitionSpec])
    ensures
        r@ == management_page(state),
        forall|i: int|
            0 <= i < r@.len() ==> (#[trigger] r@[i]).from@ == match state {
                MdlState::Ready => "Ready"@,
                MdlState::Negotiating => "Negotiating"@,
            },
{
    match state {
        MdlState::Ready => ax25sdl::MANAGEMENT_DATA_LINK_READY.transitions,
        MdlState::Negotiating => ax25sdl::MANAGEMENT_DATA_LINK_NEGOTIATING.transitions,
    }
}

/// Reads the `subroutines` of the constant `DATA_LINK_SUBROUTINES` in `ax25sdl`.
/// Of what they are, [`drawn::draws_routines`] spells out what is claimed.
#[verifier::external_body]
pub(crate) fn figure_subroutines(figure: SubroutineFigure) -> (r: &'static [SubroutineSpec])
    ensures
        r@ == subroutine_page(figure),
        drawn::draws_routines(r@),
{
    match figure {
        SubroutineFigure::DataLink => ax25sdl::DATA_LINK_SUBROUTINES.subroutines,
    }
}

/// Compares two events by the `PartialEq` that `ax25sdl` derives for
/// `Ax25Event`. The enum has no fields, so the derived comparison says whether
/// the two are the same variant.
#[verifier::external_body]
pub(crate) fn same_event(a: Ax25Event, b: Ax25Event) -> (r: bool)
    ensures
        r == (a == b),
{
    a == b
}

/// The tables that a data-link session runs on.
#[derive(Clone, Copy)]
pub struct SdlTables {
    /// The page of `Disconnected`.
    pub disconnected: &'static [TransitionSpec],
    /// The page of `AwaitingConnection`.
    pub awaiting_connection: &'static [TransitionSpec],
    /// The page of `AwaitingV22Connection`.
    pub awaiting_v22_connection: &'static [TransitionSpec],
    /// The page of `AwaitingRelease`.
    pub awaiting_release: &'static [TransitionSpec],
    /// The page of `Connected`.
    pub connected: &'static [TransitionSpec],
    /// The page of `TimerRecovery`.
    pub timer_recovery: &'static [TransitionSpec],
    /// The subroutines that the pages call.
    pub subroutines: &'static [SubroutineSpec],
}

/// What the tables of a data-link session list.
pub struct Charts {
    pub disconnected: Seq<TransitionSpec>,
    pub awaiting_connection: Seq<TransitionSpec>,
    pub awaiting_v22_connection: Seq<TransitionSpec>,
    pub awaiting_release: Seq<TransitionSpec>,
    pub connected: Seq<TransitionSpec>,
    pub timer_recovery: Seq<TransitionSpec>,
    pub subroutines: Seq<SubroutineSpec>,
}

impl Charts {
    /// The transitions of a state.
    pub open spec fn page(self, state: State) -> Seq<TransitionSpec> {
        match state {
            State::Disconnected => self.disconnected,
            State::AwaitingConnection => self.awaiting_connection,
            State::AwaitingV22Connection => self.awaiting_v22_connection,
            State::AwaitingRelease => self.awaiting_release,
            State::Connected => self.connected,
            State::TimerRecovery => self.timer_recovery,
        }
    }

    /// The generated tables.
    pub open spec fn generated() -> Charts {
        Charts {
            disconnected: data_link_page(State::Disconnected),
            awaiting_connection: data_link_page(State::AwaitingConnection),
            awaiting_v22_connection: data_link_page(State::AwaitingV22Connection),
            awaiting_release: data_link_page(State::AwaitingRelease),
            connected: data_link_page(State::Connected),
            timer_recovery: data_link_page(State::TimerRecovery),
            subroutines: subroutine_page(SubroutineFigure::DataLink),
        }
    }
}

impl View for SdlTables {
    type V = Charts;

    open spec fn view(&self) -> Charts {
        Charts {
            disconnected: self.disconnected@,
            awaiting_connection: self.awaiting_connection@,
            awaiting_v22_connection: self.awaiting_v22_connection@,
            awaiting_release: self.awaiting_release@,
            connected: self.connected@,
            timer_recovery: self.timer_recovery@,
            subroutines: self.subroutines@,
        }
    }
}

impl SdlTables {
    /// The generated tables.
    pub fn new() -> (t: SdlTables)
        ensures
            t@ == Charts::generated(),
            drawn::drawn(t@),
    {
        proof {
            reveal(drawn::drawn);
        }
        SdlTables {
            disconnected: data_link_transitions(State::Disconnected),
            awaiting_connection: data_link_transitions(State::AwaitingConnection),
            awaiting_v22_connection: data_link_transitions(State::AwaitingV22Connection),
            awaiting_release: data_link_transitions(State::AwaitingRelease),
            connected: data_link_transitions(State::Connected),
            timer_recovery: data_link_transitions(State::TimerRecovery),
            subroutines: figure_subroutines(SubroutineFigure::DataLink),
        }
    }

    /// The transitions of a state.
    pub fn transitions(&self, state: State) -> (r: &'static [TransitionSpec])
        ensures
            r@ == self@.page(state),
    {
        match state {
            State::Disconnected => self.disconnected,
            State::AwaitingConnection => self.awaiting_connection,
            State::AwaitingV22Connection => self.awaiting_v22_connection,
            State::AwaitingRelease => self.awaiting_release,
            State::Connected => self.connected,
            State::TimerRecovery => self.timer_recovery,
        }
    }
}

} // verus!
