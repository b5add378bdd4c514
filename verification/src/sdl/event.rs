//! The events that drive a session.

use ax25sdl::Ax25Event;
use vstd::prelude::*;

verus! {

/// The fields of a received frame that guards and actions read. N(S) and N(R)
/// are already resolved at the modulus of the link.
#[derive(Debug, Clone, PartialEq, Eq)]
pub struct FrameInfo {
    /// Receive sequence number N(R), meaningful on I and S frames.
    pub nr: u8,
    /// Send sequence number N(S), meaningful on I frames.
    pub ns: u8,
    /// The poll/final bit.
    pub poll_final: bool,
    /// Whether the frame is a command.
    pub is_command: bool,
    /// Whether the address bits mark the frame as neither a command nor a response: both
    /// are up, or none is.
    pub is_unmarked: bool,
    /// The information field, empty if there is none.
    pub info: Vec<u8>,
    /// The PID octet of I and UI frames.
    pub pid: Option<u8>,
}

/// What a [`FrameInfo`] holds.
pub struct FrameView {
    pub nr: u8,
    pub ns: u8,
    pub poll_final: bool,
    pub is_command: bool,
    pub is_unmarked: bool,
    pub info: Seq<u8>,
    pub pid: Option<u8>,
}

impl FrameView {
    /// The frame is a response.
    pub open spec fn responds(self) -> bool {
        !self.is_command && !self.is_unmarked
    }
}

impl View for FrameInfo {
    type V = FrameView;

    open spec fn view(&self) -> FrameView {
        FrameView {
            nr: self.nr,
            ns: self.ns,
            poll_final: self.poll_final,
            is_command: self.is_command,
            is_unmarked: self.is_unmarked,
            info: self.info@,
            pid: self.pid,
        }
    }
}

impl Default for FrameInfo {
    fn default() -> (f: FrameInfo)
        ensures
            f@ == (FrameView {
                nr: 0,
                ns: 0,
                poll_final: false,
                is_command: false,
                is_unmarked: false,
                info: Seq::empty(),
                pid: None,
            }),
    {
        FrameInfo {
            nr: 0,
            ns: 0,
            poll_final: false,
            is_command: false,
            is_unmarked: false,
            info: Vec::new(),
            pid: None,
        }
    }
}

impl FrameInfo {
    /// Whether the frame is a response: the complement of a command, but for a frame that
    /// is marked as neither.
    pub fn is_response(&self) -> (r: bool)
        ensures
            r == self@.responds(),
    {
        !self.is_command && !self.is_unmarked
    }
}

/// A runtime event posted into a session.
#[derive(Debug, Clone, PartialEq, Eq)]
pub enum Event {
    /// DL-CONNECT request.
    DlConnectRequest,
    /// DL-DISCONNECT request.
    DlDisconnectRequest,
    /// DL-DATA request with the PID and the payload to send.
    DlDataRequest(u8, Vec<u8>),
    /// DL-UNIT-DATA request with the PID and the payload to send.
    DlUnitDataRequest(u8, Vec<u8>),
    /// DL-FLOW-OFF request.
    DlFlowOffRequest,
    /// DL-FLOW-ON request.
    DlFlowOnRequest,
    /// Information frame received.
    IReceived(FrameInfo),
    /// RR received.
    RrReceived(FrameInfo),
    /// RNR received.
    RnrReceived(FrameInfo),
    /// REJ received.
    RejReceived(FrameInfo),
    /// SREJ received.
    SrejReceived(FrameInfo),
    /// UI received.
    UiReceived(FrameInfo),
    /// SABM received.
    SabmReceived(FrameInfo),
    /// SABME received.
    SabmeReceived(FrameInfo),
    /// DISC received.
    DiscReceived(FrameInfo),
    /// UA received.
    UaReceived(FrameInfo),
    /// DM received.
    DmReceived(FrameInfo),
    /// FRMR received.
    FrmrReceived(FrameInfo),
    /// XID received.
    XidReceived(FrameInfo),
    /// XID response received.
    XidResponseReceived(FrameInfo),
    /// TEST received.
    TestReceived(FrameInfo),
    /// The link multiplexer granted the channel.
    LmSeizeConfirm,
    /// An I frame popped off the transmit queue, with its PID and payload.
    IFramePopsOffQueue(u8, Vec<u8>),
    /// Any other command frame.
    AllOtherCommands(FrameInfo),
    /// Any other primitive from the lower layer.
    AllOtherPrimitivesFromLowerLayer,
    /// Any other primitive from the upper layer.
    AllOtherPrimitivesFromUpperLayer,
    /// Unrecognised control field.
    ControlFieldError,
    /// Information field not permitted in this frame type.
    InfoNotPermittedInFrame,
    /// U or S frame length error.
    UOrSFrameLengthError,
    /// T1 expiry.
    T1Expiry,
    /// T2 expiry.
    T2Expiry,
    /// T3 expiry.
    T3Expiry,
}

/// What an event is to the runtime: the typed event that selects transitions, the
/// frame it carries and the upper-layer data it carries.
pub struct Trigger {
    pub on: Ax25Event,
    pub frame: Option<FrameView>,
    pub data: Option<(u8, Seq<u8>)>,
}

impl Event {
    /// The typed event of the tables.
    pub open spec fn sdl(self) -> Ax25Event {
        match self {
            Event::DlConnectRequest => Ax25Event::DLCONNECTRequest,
            Event::DlDisconnectRequest => Ax25Event::DLDISCONNECTRequest,
            Event::DlDataRequest(..) => Ax25Event::DLDATARequest,
            Event::DlUnitDataRequest(..) => Ax25Event::DLUNITDATARequest,
            Event::DlFlowOffRequest => Ax25Event::DLFLOWOFFRequest,
            Event::DlFlowOnRequest => Ax25Event::DLFLOWONRequest,
            Event::IReceived(_) => Ax25Event::IReceived,
            Event::RrReceived(_) => Ax25Event::RRReceived,
            Event::RnrReceived(_) => Ax25Event::RNRReceived,
            Event::RejReceived(_) => Ax25Event::REJReceived,
            Event::SrejReceived(_) => Ax25Event::SREJReceived,
            Event::UiReceived(_) => Ax25Event::UIReceived,
            Event::SabmReceived(_) => Ax25Event::SABMReceived,
            Event::SabmeReceived(_) => Ax25Event::SABMEReceived,
            Event::DiscReceived(_) => Ax25Event::DISCReceived,
            Event::UaReceived(_) => Ax25Event::UAReceived,
            Event::DmReceived(_) => Ax25Event::DMReceived,
            Event::FrmrReceived(_) => Ax25Event::FRMRReceived,
            Event::XidReceived(_) => Ax25Event::XIDReceived,
            Event::XidResponseReceived(_) => Ax25Event::XIDResponseReceived,
            Event::TestReceived(_) => Ax25Event::TESTReceived,
            Event::LmSeizeConfirm => Ax25Event::LMSEIZEConfirm,
            Event::IFramePopsOffQueue(..) => Ax25Event::IFramePopsOffQueue,
            Event::AllOtherCommands(_) => Ax25Event::AllOtherCommands,
            Event::AllOtherPrimitivesFromLowerLayer => Ax25Event::AllOtherPrimitivesFromLowerLayer,
            Event::AllOtherPrimitivesFromUpperLayer => Ax25Event::AllOtherPrimitivesFromUpperLayer,
            Event::ControlFieldError => Ax25Event::ControlFieldError,
            Event::InfoNotPermittedInFrame => Ax25Event::InfoNotPermittedInFrame,
            Event::UOrSFrameLengthError => Ax25Event::UOrSFrameLengthError,
            Event::T1Expiry => Ax25Event::T1Expiry,
            Event::T2Expiry => Ax25Event::T2Expiry,
            Event::T3Expiry => Ax25Event::T3Expiry,
        }
    }

    /// The frame that a frame-receipt event carries.
    pub open spec fn attached(self) -> Option<FrameInfo> {
        match self {
            Event::IReceived(f) => Some(f),
            Event::RrReceived(f) => Some(f),
            Event::RnrReceived(f) => Some(f),
            Event::RejReceived(f) => Some(f),
            Event::SrejReceived(f) => Some(f),
            Event::UiReceived(f) => Some(f),
            Event::SabmReceived(f) => Some(f),
            Event::SabmeReceived(f) => Some(f),
            Event::DiscReceived(f) => Some(f),
            Event::UaReceived(f) => Some(f),
            Event::DmReceived(f) => Some(f),
            Event::FrmrReceived(f) => Some(f),
            Event::XidReceived(f) => Some(f),
            Event::XidResponseReceived(f) => Some(f),
            Event::TestReceived(f) => Some(f),
            Event::AllOtherCommands(f) => Some(f),
            _ => None,
        }
    }

    /// The PID and payload that a data event carries.
    pub open spec fn carried(self) -> Option<(u8, Seq<u8>)> {
        match self {
            Event::DlDataRequest(pid, data) => Some((pid, data@)),
            Event::DlUnitDataRequest(pid, data) => Some((pid, data@)),
            Event::IFramePopsOffQueue(pid, data) => Some((pid, data@)),
            _ => None,
        }
    }

    /// Maps this event onto the typed event of the tables.
    pub fn to_sdl(&self) -> (r: Ax25Event)
        ensures
            r == self.sdl(),
    {
        match self {
            Event::DlConnectRequest => Ax25Event::DLCONNECTRequest,
            Event::DlDisconnectRequest => Ax25Event::DLDISCONNECTRequest,
            Event::DlDataRequest(..) => Ax25Event::DLDATARequest,
            Event::DlUnitDataRequest(..) => Ax25Event::DLUNITDATARequest,
            Event::DlFlowOffRequest => Ax25Event::DLFLOWOFFRequest,
            Event::DlFlowOnRequest => Ax25Event::DLFLOWONRequest,
            Event::IReceived(_) => Ax25Event::IReceived,
            Event::RrReceived(_) => Ax25Event::RRReceived,
            Event::RnrReceived(_) => Ax25Event::RNRReceived,
            Event::RejReceived(_) => Ax25Event::REJReceived,
            Event::SrejReceived(_) => Ax25Event::SREJReceived,
            Event::UiReceived(_) => Ax25Event::UIReceived,
            Event::SabmReceived(_) => Ax25Event::SABMReceived,
            Event::SabmeReceived(_) => Ax25Event::SABMEReceived,
            Event::DiscReceived(_) => Ax25Event::DISCReceived,
            Event::UaReceived(_) => Ax25Event::UAReceived,
            Event::DmReceived(_) => Ax25Event::DMReceived,
            Event::FrmrReceived(_) => Ax25Event::FRMRReceived,
            Event::XidReceived(_) => Ax25Event::XIDReceived,
            Event::XidResponseReceived(_) => Ax25Event::XIDResponseReceived,
            Event::TestReceived(_) => Ax25Event::TESTReceived,
            Event::LmSeizeConfirm => Ax25Event::LMSEIZEConfirm,
            Event::IFramePopsOffQueue(..) => Ax25Event::IFramePopsOffQueue,
            Event::AllOtherCommands(_) => Ax25Event::AllOtherCommands,
            Event::AllOtherPrimitivesFromLowerLayer => Ax25Event::AllOtherPrimitivesFromLowerLayer,
            Event::AllOtherPrimitivesFromUpperLayer => Ax25Event::AllOtherPrimitivesFromUpperLayer,
            Event::ControlFieldError => Ax25Event::ControlFieldError,
            Event::InfoNotPermittedInFrame => Ax25Event::InfoNotPermittedInFrame,
            Event::UOrSFrameLengthError => Ax25Event::UOrSFrameLengthError,
            Event::T1Expiry => Ax25Event::T1Expiry,
            Event::T2Expiry => Ax25Event::T2Expiry,
            Event::T3Expiry => Ax25Event::T3Expiry,
        }
    }

    /// The attached frame of a frame-receipt event, else `None`.
    pub fn frame(&self) -> (r: Option<&FrameInfo>)
        ensures
            match r {
                Some(f) => self.attached() == Some(*f),
                None => self.attached() is None,
            },
    {
        match self {
            Event::IReceived(f) => Some(f),
            Event::RrReceived(f) => Some(f),
            Event::RnrReceived(f) => Some(f),
            Event::RejReceived(f) => Some(f),
            Event::SrejReceived(f) => Some(f),
            Event::UiReceived(f) => Some(f),
            Event::SabmReceived(f) => Some(f),
            Event::SabmeReceived(f) => Some(f),
            Event::DiscReceived(f) => Some(f),
            Event::UaReceived(f) => Some(f),
            Event::DmReceived(f) => Some(f),
            Event::FrmrReceived(f) => Some(f),
            Event::XidReceived(f) => Some(f),
            Event::XidResponseReceived(f) => Some(f),
            Event::TestReceived(f) => Some(f),
            Event::AllOtherCommands(f) => Some(f),
            _ => None,
        }
    }
}

impl View for Event {
    type V = Trigger;

    open spec fn view(&self) -> Trigger {
        Trigger {
            on: self.sdl(),
            frame: match self.attached() {
                Some(f) => Some(f@),
                None => None,
            },
            data: self.carried(),
        }
    }
}

} // verus!
