//! What a CCDI message says.

use vstd::prelude::*;
use vstd::slice::slice_subrange;

use super::frame::CcdiFrame;
use super::{parse_dec_u16, parse_hex_u8, parse_signed_i32};
use crate::numbers;

verus! {

/// The kinds of progress report.
#[derive(Debug, Clone, Copy, PartialEq, Eq, Structural)]
pub enum CcdiProgressType {
    /// A call was answered.
    CallAnswered,
    /// Deferred calling is in progress.
    DeferredCalling,
    /// A transmission was asked for and is inhibited.
    TxInhibited,
    /// Emergency mode began.
    EmergencyModeInitiated,
    /// Emergency mode ended.
    EmergencyModeTerminated,
    /// A signal appeared on the channel.
    ReceiverBusy,
    /// The signal on the channel went away.
    ReceiverNotBusy,
    /// The radio began to transmit.
    PttActivated,
    /// The radio stopped transmitting.
    PttDeactivated,
    /// A selective call is retried.
    SelcallRetry,
    /// The radio was stunned.
    RadioStunned,
    /// The radio was revived.
    RadioRevived,
    /// Data was received in command mode.
    FfskDataReceived,
    /// A selective call was acknowledged.
    SelcallAutoAcknowledge,
    /// A short message was acknowledged over the air.
    SdmAutoAcknowledge,
    /// A short message with a position was received.
    SdmGpsDataReceived,
    /// The radio restarted.
    RadioRestarted,
    /// A single tone was received.
    SingleInBandToneReceived,
    /// The user changed the channel.
    UserInitiatedChannelChange,
    /// A time-slot event.
    TdmaChannel,
    /// A key was used.
    KeyAction,
    /// The name of the channel.
    ChannelName,
    /// Any other.
    Other(u8),
}

impl CcdiProgressType {
    /// The number of a kind.
    pub open spec fn number(self) -> u8 {
        match self {
            CcdiProgressType::CallAnswered => 0x00,
            CcdiProgressType::DeferredCalling => 0x01,
            CcdiProgressType::TxInhibited => 0x02,
            CcdiProgressType::EmergencyModeInitiated => 0x03,
            CcdiProgressType::EmergencyModeTerminated => 0x04,
            CcdiProgressType::ReceiverBusy => 0x05,
            CcdiProgressType::ReceiverNotBusy => 0x06,
            CcdiProgressType::PttActivated => 0x07,
            CcdiProgressType::PttDeactivated => 0x08,
            CcdiProgressType::SelcallRetry => 0x16,
            CcdiProgressType::RadioStunned => 0x17,
            CcdiProgressType::RadioRevived => 0x18,
            CcdiProgressType::FfskDataReceived => 0x19,
            CcdiProgressType::SelcallAutoAcknowledge => 0x1C,
            CcdiProgressType::SdmAutoAcknowledge => 0x1D,
            CcdiProgressType::SdmGpsDataReceived => 0x1E,
            CcdiProgressType::RadioRestarted => 0x1F,
            CcdiProgressType::SingleInBandToneReceived => 0x20,
            CcdiProgressType::UserInitiatedChannelChange => 0x21,
            CcdiProgressType::TdmaChannel => 0x22,
            CcdiProgressType::KeyAction => 0x23,
            CcdiProgressType::ChannelName => 0x31,
            CcdiProgressType::Other(value) => value,
        }
    }

    /// The kind with a number.
    pub open spec fn numbered(value: u8) -> CcdiProgressType {
        if value == 0x00 {
            CcdiProgressType::CallAnswered
        } else if value == 0x01 {
            CcdiProgressType::DeferredCalling
        } else if value == 0x02 {
            CcdiProgressType::TxInhibited
        } else if value == 0x03 {
            CcdiProgressType::EmergencyModeInitiated
        } else if value == 0x04 {
            CcdiProgressType::EmergencyModeTerminated
        } else if value == 0x05 {
            CcdiProgressType::ReceiverBusy
        } else if value == 0x06 {
            CcdiProgressType::ReceiverNotBusy
        } else if value == 0x07 {
            CcdiProgressType::PttActivated
        } else if value == 0x08 {
            CcdiProgressType::PttDeactivated
        } else if value == 0x16 {
            CcdiProgressType::SelcallRetry
        } else if value == 0x17 {
            CcdiProgressType::RadioStunned
        } else if value == 0x18 {
            CcdiProgressType::RadioRevived
        } else if value == 0x19 {
            CcdiProgressType::FfskDataReceived
        } else if value == 0x1C {
            CcdiProgressType::SelcallAutoAcknowledge
        } else if value == 0x1D {
            CcdiProgressType::SdmAutoAcknowledge
        } else if value == 0x1E {
            CcdiProgressType::SdmGpsDataReceived
        } else if value == 0x1F {
            CcdiProgressType::RadioRestarted
        } else if value == 0x20 {
            CcdiProgressType::SingleInBandToneReceived
        } else if value == 0x21 {
            CcdiProgressType::UserInitiatedChannelChange
        } else if value == 0x22 {
            CcdiProgressType::TdmaChannel
        } else if value == 0x23 {
            CcdiProgressType::KeyAction
        } else if value == 0x31 {
            CcdiProgressType::ChannelName
        } else {
            CcdiProgressType::Other(value)
        }
    }

    /// The kind with a number.
    pub fn from_u8(value: u8) -> (r: CcdiProgressType)
        ensures
            r == CcdiProgressType::numbered(value),
    {
        match value {
            0x00 => CcdiProgressType::CallAnswered,
            0x01 => CcdiProgressType::DeferredCalling,
            0x02 => CcdiProgressType::TxInhibited,
            0x03 => CcdiProgressType::EmergencyModeInitiated,
            0x04 => CcdiProgressType::EmergencyModeTerminated,
            0x05 => CcdiProgressType::ReceiverBusy,
            0x06 => CcdiProgressType::ReceiverNotBusy,
            0x07 => CcdiProgressType::PttActivated,
            0x08 => CcdiProgressType::PttDeactivated,
            0x16 => CcdiProgressType::SelcallRetry,
            0x17 => CcdiProgressType::RadioStunned,
            0x18 => CcdiProgressType::RadioRevived,
            0x19 => CcdiProgressType::FfskDataReceived,
            0x1C => CcdiProgressType::SelcallAutoAcknowledge,
            0x1D => CcdiProgressType::SdmAutoAcknowledge,
            0x1E => CcdiProgressType::SdmGpsDataReceived,
            0x1F => CcdiProgressType::RadioRestarted,
            0x20 => CcdiProgressType::SingleInBandToneReceived,
            0x21 => CcdiProgressType::UserInitiatedChannelChange,
            0x22 => CcdiProgressType::TdmaChannel,
            0x23 => CcdiProgressType::KeyAction,
            0x31 => CcdiProgressType::ChannelName,
            other => CcdiProgressType::Other(other),
        }
    }

    /// The number of the kind.
    pub fn to_u8(self) -> (r: u8)
        ensures
            r == self.number(),
    {
        match self {
            CcdiProgressType::CallAnswered => 0x00,
            CcdiProgressType::DeferredCalling => 0x01,
            CcdiProgressType::TxInhibited => 0x02,
            CcdiProgressType::EmergencyModeInitiated => 0x03,
            CcdiProgressType::EmergencyModeTerminated => 0x04,
            CcdiProgressType::ReceiverBusy => 0x05,
            CcdiProgressType::ReceiverNotBusy => 0x06,
            CcdiProgressType::PttActivated => 0x07,
            CcdiProgressType::PttDeactivated => 0x08,
            CcdiProgressType::SelcallRetry => 0x16,
            CcdiProgressType::RadioStunned => 0x17,
            CcdiProgressType::RadioRevived => 0x18,
            CcdiProgressType::FfskDataReceived => 0x19,
            CcdiProgressType::SelcallAutoAcknowledge => 0x1C,
            CcdiProgressType::SdmAutoAcknowledge => 0x1D,
            CcdiProgressType::SdmGpsDataReceived => 0x1E,
            CcdiProgressType::RadioRestarted => 0x1F,
            CcdiProgressType::SingleInBandToneReceived => 0x20,
            CcdiProgressType::UserInitiatedChannelChange => 0x21,
            CcdiProgressType::TdmaChannel => 0x22,
            CcdiProgressType::KeyAction => 0x23,
            CcdiProgressType::ChannelName => 0x31,
            CcdiProgressType::Other(value) => value,
        }
    }
}

/// Every number is that of its kind.
pub proof fn law_progress_numbers_round_trip(value: u8)
    ensures
        CcdiProgressType::numbered(value).number() == value,
{
}

/// What a message says. It borrows from the message.
#[derive(Debug, Clone, PartialEq, Eq)]
pub enum CcdiMessage<'a> {
    /// What the radio is.
    Model {
        /// The type.
        ru_type: u8,
        /// The model.
        ru_model: u8,
        /// The tier.
        ru_tier: u8,
        /// The version of the protocol.
        ccdi_version: &'a [u8],
    },
    /// The serial number.
    Serial(&'a [u8]),
    /// One record of the versions.
    Version {
        /// Which record this is.
        record_number: &'a [u8],
        /// The version.
        version: &'a [u8],
    },
    /// The answer to a query.
    QueryResult {
        /// The command that was asked.
        cctm_command: u16,
        /// The value, as text.
        value: &'a [u8],
    },
    /// A change of the radio's state.
    Progress {
        /// The kind of report.
        ptype: CcdiProgressType,
        /// What comes with it.
        para: &'a [u8],
    },
    /// An error.
    Error {
        /// `0` for a command that was refused, `1` for a fault.
        category: u8,
        /// The number of the error.
        error_number: u8,
    },
    /// An incoming call.
    Ring {
        /// The category.
        category: u8,
        /// The type, four characters.
        ring_type: &'a [u8],
        /// The status, two characters.
        status: &'a [u8],
        /// The caller.
        caller_id: &'a [u8],
    },
    /// The short message that was buffered, empty if there is none.
    Sdm(&'a [u8]),
    /// One element of the display.
    Display {
        /// Which kind of element this is.
        kind: u8,
        /// The element.
        payload: &'a [u8],
    },
    /// Time-slot data.
    TdmaData(&'a [u8]),
    /// A command was accepted.
    CcrAck {
        /// The command.
        echoed_command: u8,
    },
    /// A command was refused.
    CcrNak {
        /// Why.
        reason: u8,
        /// The command, if its checksum was right.
        echoed_command: Option<u8>,
    },
    /// Tones that were decoded.
    CcrSelcallDecode(&'a [u8]),
    /// A notice.
    CcrNotification {
        /// Which kind of notice this is.
        kind: u8,
    },
    /// Whether the radio holds its configuration.
    CcrPulseResult {
        /// Whether it does.
        has_minimum_configuration: bool,
    },
    /// Any other message, as it came.
    Unknown {
        /// The identifier.
        ident: u8,
        /// The parameters.
        params: &'a [u8],
    },
}

/// What a message says.
pub enum MessageView {
    Model { ru_type: u8, ru_model: u8, ru_tier: u8, ccdi_version: Seq<u8> },
    Serial(Seq<u8>),
    Version { record_number: Seq<u8>, version: Seq<u8> },
    QueryResult { cctm_command: u16, value: Seq<u8> },
    Progress { ptype: CcdiProgressType, para: Seq<u8> },
    Error { category: u8, error_number: u8 },
    Ring { category: u8, ring_type: Seq<u8>, status: Seq<u8>, caller_id: Seq<u8> },
    Sdm(Seq<u8>),
    Display { kind: u8, payload: Seq<u8> },
    TdmaData(Seq<u8>),
    CcrAck { echoed_command: u8 },
    CcrNak { reason: u8, echoed_command: Option<u8> },
    CcrSelcallDecode(Seq<u8>),
    CcrNotification { kind: u8 },
    CcrPulseResult { has_minimum_configuration: bool },
    Unknown { ident: u8, params: Seq<u8> },
}

impl<'a> View for CcdiMessage<'a> {
    type V = MessageView;

    open spec fn view(&self) -> MessageView {
        match *self {
            CcdiMessage::Model { ru_type, ru_model, ru_tier, ccdi_version } => MessageView::Model {
                ru_type,
                ru_model,
                ru_tier,
                ccdi_version: ccdi_version@,
            },
            CcdiMessage::Serial(v) => MessageView::Serial(v@),
            CcdiMessage::Version { record_number, version } => MessageView::Version {
                record_number: record_number@,
                version: version@,
            },
            CcdiMessage::QueryResult { cctm_command, value } => MessageView::QueryResult {
                cctm_command,
                value: value@,
            },
            CcdiMessage::Progress { ptype, para } => MessageView::Progress {
                ptype,
                para: para@,
            },
            CcdiMessage::Error { category, error_number } => MessageView::Error {
                category,
                error_number,
            },
            CcdiMessage::Ring { category, ring_type, status, caller_id } => MessageView::Ring {
                category,
                ring_type: ring_type@,
                status: status@,
                caller_id: caller_id@,
            },
            CcdiMessage::Sdm(v) => MessageView::Sdm(v@),
            CcdiMessage::Display { kind, payload } => MessageView::Display {
                kind,
                payload: payload@,
            },
            CcdiMessage::TdmaData(v) => MessageView::TdmaData(v@),
            CcdiMessage::CcrAck { echoed_command } => MessageView::CcrAck {
                echoed_command,
            },
            CcdiMessage::CcrNak { reason, echoed_command } => MessageView::CcrNak {
                reason,
                echoed_command,
            },
            CcdiMessage::CcrSelcallDecode(v) => MessageView::CcrSelcallDecode(v@),
            CcdiMessage::CcrNotification { kind } => MessageView::CcrNotification {
                kind,
            },
            CcdiMessage::CcrPulseResult { has_minimum_configuration } => MessageView::CcrPulseResult {
                has_minimum_configuration,
            },
            CcdiMessage::Unknown { ident, params } => MessageView::Unknown {
                ident,
                params: params@,
            },
        }
    }
}

/// What a message with the given identifier and parameters says. One that is too short
/// or holds no number where one belongs is kept as it came.
pub open spec fn message_of(ident: u8, p: Seq<u8>) -> MessageView {
    let unknown: MessageView = MessageView::Unknown { ident, params: p };
    if ident == 0x6D && p.len() >= 3 {
        MessageView::Model {
            ru_type: p[0],
            ru_model: p[1],
            ru_tier: p[2],
            ccdi_version: p.skip(3),
        }
    } else if ident == 0x6E {
        MessageView::Serial(p)
    } else if ident == 0x76 && p.len() >= 2 {
        MessageView::Version { record_number: p.take(2), version: p.skip(2) }
    } else if ident == 0x6A && p.len() >= 3 {
        match numbers::number_in(p.take(3), 65535) {
            Some(n) => MessageView::QueryResult { cctm_command: n as u16, value: p.skip(3) },
            None => unknown,
        }
    } else if ident == 0x70 && p.len() >= 2 {
        match super::hex_in(p.take(2)) {
            Some(n) => MessageView::Progress {
                ptype: CcdiProgressType::numbered(n),
                para: p.skip(2),
            },
            None => unknown,
        }
    } else if ident == 0x65 && p.len() >= 3 {
        match super::hex_in(p.subrange(1, 3)) {
            Some(n) => MessageView::Error { category: p[0], error_number: n },
            None => unknown,
        }
    } else if ident == 0x72 && p.len() >= 7 {
        MessageView::Ring {
            category: p[0],
            ring_type: p.subrange(1, 5),
            status: p.subrange(5, 7),
            caller_id: p.skip(7),
        }
    } else if ident == 0x73 {
        MessageView::Sdm(p)
    } else if ident == 0x64 && p.len() > 0 {
        MessageView::Display { kind: p[0], payload: p.skip(1) }
    } else if ident == 0x7A {
        MessageView::TdmaData(p)
    } else if ident == 0x2B && p.len() > 0 {
        MessageView::CcrAck { echoed_command: p[0] }
    } else if ident == 0x2D && p.len() >= 2 {
        match super::hex_in(p.take(2)) {
            Some(n) => MessageView::CcrNak {
                reason: n,
                echoed_command: if p.len() >= 3 {
                    Some(p[2])
                } else {
                    None
                },
            },
            None => unknown,
        }
    } else if ident == 0x56 {
        MessageView::CcrSelcallDecode(p)
    } else if ident == 0x4D && p.len() > 0 {
        MessageView::CcrNotification { kind: p[0] }
    } else if ident == 0x51 && p.len() > 0 {
        MessageView::CcrPulseResult { has_minimum_configuration: p[0] == 0x50 }
    } else {
        unknown
    }
}

/// The octets of `p` from `i` on.
fn from_on(p: &[u8], i: usize) -> (r: &[u8])
    requires
        i <= p@.len(),
    ensures
        r@ == p@.skip(i as int),
{
    let r = slice_subrange(p, i, p.len());
    assert(r@ =~= p@.skip(i as int));
    r
}

/// The first `n` octets of `p`.
fn up_to(p: &[u8], n: usize) -> (r: &[u8])
    requires
        n <= p@.len(),
    ensures
        r@ == p@.take(n as int),
{
    let r = slice_subrange(p, 0, n);
    assert(r@ =~= p@.take(n as int));
    r
}

impl<'a> CcdiMessage<'a> {
    /// What a message says. Whatever is not known is kept as it came.
    pub fn decode(frame: &'a CcdiFrame) -> (m: CcdiMessage<'a>)
        ensures
            m@ == message_of(frame@.ident, frame@.params),
    {
        let ident: u8 = frame.ident();
        let p = frame.params();
        match ident {
            0x6D if p.len() >= 3 => CcdiMessage::Model {
                ru_type: p[0],
                ru_model: p[1],
                ru_tier: p[2],
                ccdi_version: from_on(p, 3),
            },
            0x6E => CcdiMessage::Serial(p),
            0x76 if p.len() >= 2 => CcdiMessage::Version {
                record_number: up_to(p, 2),
                version: from_on(p, 2),
            },
            0x6A if p.len() >= 3 => match parse_dec_u16(up_to(p, 3)) {
                Some(n) => CcdiMessage::QueryResult { cctm_command: n, value: from_on(p, 3) },
                None => CcdiMessage::Unknown { ident, params: p },
            },
            0x70 if p.len() >= 2 => match parse_hex_u8(up_to(p, 2)) {
                Some(n) => CcdiMessage::Progress {
                    ptype: CcdiProgressType::from_u8(n),
                    para: from_on(p, 2),
                },
                None => CcdiMessage::Unknown { ident, params: p },
            },
            0x65 if p.len() >= 3 => match parse_hex_u8(slice_subrange(p, 1, 3)) {
                Some(n) => CcdiMessage::Error { category: p[0], error_number: n },
                None => CcdiMessage::Unknown { ident, params: p },
            },
            0x72 if p.len() >= 7 => CcdiMessage::Ring {
                category: p[0],
                ring_type: slice_subrange(p, 1, 5),
                status: slice_subrange(p, 5, 7),
                caller_id: from_on(p, 7),
            },
            0x73 => CcdiMessage::Sdm(p),
            0x64 if p.len() > 0 => CcdiMessage::Display { kind: p[0], payload: from_on(p, 1) },
            0x7A => CcdiMessage::TdmaData(p),
            0x2B if p.len() > 0 => CcdiMessage::CcrAck { echoed_command: p[0] },
            0x2D if p.len() >= 2 => match parse_hex_u8(up_to(p, 2)) {
                Some(reason) => CcdiMessage::CcrNak {
                    reason,
                    echoed_command: if p.len() >= 3 {
                        Some(p[2])
                    } else {
                        None
                    },
                },
                None => CcdiMessage::Unknown { ident, params: p },
            },
            0x56 => CcdiMessage::CcrSelcallDecode(p),
            0x4D if p.len() > 0 => CcdiMessage::CcrNotification { kind: p[0] },
            0x51 if p.len() > 0 => CcdiMessage::CcrPulseResult {
                has_minimum_configuration: p[0] == 0x50,
            },
            _ => CcdiMessage::Unknown { ident, params: p },
        }
    }

    /// The signal level that a query gave, in tenths of a dBm, if this is the answer to
    /// one and its value is a number that fits.
    pub fn query_rssi_tenths(&self) -> (r: Option<i16>)
        ensures
            match r {
                Some(v) => level_of(self@) == Some(v as int),
                None => level_of(self@) is None,
            },
    {
        match self.query_value_int() {
            Some(v) => if -32768 <= v && v <= 32767 {
                Some(v as i16)
            } else {
                None
            },
            None => None,
        }
    }

    /// The value that a query gave, if this is the answer to one and its value is a
    /// number.
    pub fn query_value_int(&self) -> (r: Option<i32>)
        ensures
            match r {
                Some(v) => value_of(self@) == Some(v as int),
                None => value_of(self@) is None,
            },
    {
        match self {
            CcdiMessage::QueryResult { value, .. } => parse_signed_i32(value),
            _ => None,
        }
    }
}

/// The value that a query gave.
pub open spec fn value_of(m: MessageView) -> Option<int> {
    match m {
        MessageView::QueryResult { cctm_command, value } => numbers::signed_in(value),
        _ => None,
    }
}

/// The signal level that a query gave.
pub open spec fn level_of(m: MessageView) -> Option<int> {
    match value_of(m) {
        Some(v) => if i16::MIN <= v <= i16::MAX {
            Some(v)
        } else {
            None
        },
        None => None,
    }
}

/// Nothing of a message is lost: its parts, put together again, are its parameters, and each
/// kind has its own identifier. Numbers are read from the digits that stand for them.
pub proof fn law_parts_make_up_the_message(ident: u8, p: Seq<u8>)
    ensures
        match message_of(ident, p) {
            MessageView::Model { ru_type, ru_model, ru_tier, ccdi_version } => ident == 0x6D && p
                == seq![ru_type, ru_model, ru_tier] + ccdi_version,
            MessageView::Serial(number) => ident == 0x6E && p == number,
            MessageView::Version { record_number, version } => ident == 0x76
                && record_number.len() == 2 && p == record_number + version,
            MessageView::QueryResult { cctm_command, value } => ident == 0x6A
                && numbers::number_in(p.take(3), 65535) == Some(cctm_command as nat) && p
                == p.take(3) + value,
            MessageView::Progress { ptype, para } => ident == 0x70 && super::hex_in(p.take(2))
                == Some(ptype.number()) && p == p.take(2) + para,
            MessageView::Error { category, error_number } => ident == 0x65 && p.len() >= 3
                && super::hex_in(p.subrange(1, 3)) == Some(error_number) && p[0] == category,
            MessageView::Ring { category, ring_type, status, caller_id } => ident == 0x72
                && ring_type.len() == 4 && status.len() == 2 && p == seq![category] + ring_type
                + status + caller_id,
            MessageView::Sdm(text) => ident == 0x73 && p == text,
            MessageView::Display { kind, payload } => ident == 0x64 && p == seq![kind] + payload,
            MessageView::TdmaData(data) => ident == 0x7A && p == data,
            MessageView::CcrAck { echoed_command } => ident == 0x2B && p.len() > 0 && p[0]
                == echoed_command,
            MessageView::CcrNak { reason, echoed_command } => ident == 0x2D && super::hex_in(
                p.take(2),
            ) == Some(reason) && (p.len() >= 3 <==> echoed_command is Some) && (
            echoed_command is Some ==> p[2] == echoed_command->0),
            MessageView::CcrSelcallDecode(tones) => ident == 0x56 && p == tones,
            MessageView::CcrNotification { kind } => ident == 0x4D && p.len() > 0 && p[0] == kind,
            MessageView::CcrPulseResult { has_minimum_configuration } => ident == 0x51 && p.len()
                > 0 && (has_minimum_configuration <==> p[0] == 0x50),
            MessageView::Unknown { ident: kept, params } => kept == ident && params == p,
        },
{
    match message_of(ident, p) {
        MessageView::Model { ru_type, ru_model, ru_tier, ccdi_version } => {
            assert(p =~= seq![ru_type, ru_model, ru_tier] + ccdi_version);
        },
        MessageView::Version { record_number, version } => {
            assert(p =~= record_number + version);
        },
        MessageView::QueryResult { cctm_command, value } => {
            assert(p =~= p.take(3) + value);
        },
        MessageView::Progress { ptype, para } => {
            law_progress_numbers_round_trip(super::hex_in(p.take(2))->0);
            assert(p =~= p.take(2) + para);
        },
        MessageView::Ring { category, ring_type, status, caller_id } => {
            assert(p =~= seq![category] + ring_type + status + caller_id);
        },
        MessageView::Display { kind, payload } => {
            assert(p =~= seq![kind] + payload);
        },
        _ => {},
    }
}

} // verus!
