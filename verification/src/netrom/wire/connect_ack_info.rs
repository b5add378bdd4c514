//! The information field of a Connect Acknowledge: the window that was accepted and,
//! as an extension, a time-to-live octet whose highest bit agrees to compression.
//!
//! A refusal carries no such field.

use vstd::prelude::*;

use crate::bytes;

verus! {

/// Octets of the field: the accepted window alone.
pub const CONNECT_ACK_INFO_VANILLA_LEN: usize = 1;

/// Octets of the field with the time-to-live.
pub const CONNECT_ACK_INFO_EXTENDED_LEN: usize = 2;

/// The largest window that a peer may accept.
pub const CONNECT_ACK_MAX_WINDOW: u8 = 127;

/// The bit of the time-to-live octet that agrees to compression.
pub const CONNECT_ACK_COMPRESS_BIT: u8 = 0x80;

/// The codec of the field.
pub struct ConnectAckInfo;

/// The octets of the field.
pub open spec fn ack_octets(window: u8, time_to_live: u8, agree: bool) -> Seq<u8> {
    if agree {
        seq![window, (time_to_live % 128 + 128) as u8]
    } else {
        seq![window]
    }
}

/// The window that a field reports, if it reports one that makes sense.
pub open spec fn accepted_window(info: Seq<u8>) -> Option<u8> {
    if info.len() > 0 && 0 < info[0] <= CONNECT_ACK_MAX_WINDOW {
        Some(info[0])
    } else {
        None
    }
}

/// The field agrees to compression.
pub open spec fn agrees(info: Seq<u8>) -> bool {
    info.len() >= CONNECT_ACK_INFO_EXTENDED_LEN && info[1] >= 128
}

/// The originator reads the window that was accepted, and that compression was agreed
/// to exactly when it was.
pub proof fn law_connect_ack_round_trip(window: u8, time_to_live: u8, agree: bool)
    requires
        0 < window <= CONNECT_ACK_MAX_WINDOW,
    ensures
        accepted_window(ack_octets(window, time_to_live, agree)) == Some(window),
        agrees(ack_octets(window, time_to_live, agree)) == agree,
        agree ==> ack_octets(window, time_to_live, agree)[1] % 128 == time_to_live % 128,
{
}

impl ConnectAckInfo {
    /// The field and its length: the accepted window and, if compression is agreed to,
    /// the time-to-live octet with the bit up.
    pub fn encode(accepted_window: u8, time_to_live: u8, agree_compression: bool) -> (r: (
        [u8; 2],
        usize,
    ))
        ensures
            r.1 <= 2,
            r.0@.take(r.1 as int) == ack_octets(accepted_window, time_to_live, agree_compression),
            r.1 == 1 ==> r.0@[1] == 0,
    {
        if !agree_compression {
            let field: [u8; 2] = [accepted_window, 0];
            assert(field@.take(1) =~= seq![accepted_window]);
            return (field, CONNECT_ACK_INFO_VANILLA_LEN);
        }
        assert(time_to_live | 0x80 == time_to_live % 128 + 128) by (bit_vector);
        let field: [u8; 2] = [accepted_window, time_to_live | CONNECT_ACK_COMPRESS_BIT];
        assert(field@.take(2) =~= ack_octets(accepted_window, time_to_live, true));
        (field, CONNECT_ACK_INFO_EXTENDED_LEN)
    }

    /// The window that an acknowledging peer reports. `None` if there is no octet, or
    /// one out of range; the originator then keeps the window that it proposed.
    pub fn try_read_accepted_window(info: &[u8]) -> (r: Option<u8>)
        ensures
            r == accepted_window(info@),
    {
        if info.len() > 0 && info[0] != 0 && info[0] <= CONNECT_ACK_MAX_WINDOW {
            Some(info[0])
        } else {
            None
        }
    }

    /// Whether a field agrees to compression.
    pub fn agrees_compression(info: &[u8]) -> (r: bool)
        ensures
            r == agrees(info@),
    {
        if info.len() < CONNECT_ACK_INFO_EXTENDED_LEN {
            return false;
        }
        proof {
            bytes::lemma_octet_masks(info@[1]);
        }
        info[1] & CONNECT_ACK_COMPRESS_BIT != 0
    }
}

} // verus!
