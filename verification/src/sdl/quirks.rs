//! Named deviations from the SDL figures.
//!
//! Each flag gates one correction of a figure that is a confirmed defect. The
//! generated tables stay faithful to the figures; the runtime applies the
//! correction. [`Quirks::strictly_faithful`] runs the figures exactly as drawn.

use vstd::prelude::*;

verus! {

/// The set of figure corrections. `Default` switches every correction on.
#[derive(Debug, Clone, Copy, PartialEq, Eq, Structural)]
pub struct Quirks {
    /// On an SREJ trigger retransmit the single requested frame instead of the
    /// generic go-back-N push followed by `Invoke_Retransmission`.
    pub srej_selective_retransmit: bool,
    /// An out-of-sequence I frame whose N(S) lies outside the receive window
    /// takes the discard branch rather than provoking another reject.
    pub discard_out_of_window_i_frames: bool,
    /// Karn's algorithm: skip the smoothed round-trip update unless T1 was
    /// stopped by an acknowledgement.
    pub karn_srt_sampling: bool,
    /// An SREJ sent for an out-of-sequence I frame asks for V(R), the next
    /// missing frame, not for the frame that just arrived.
    pub srej_targets_gap: bool,
    /// DL-FLOW-OFF makes a station that is not busy enter the busy condition.
    pub dl_flow_off_enters_busy: bool,
    /// A modulo-128 connect request is routed to `AwaitingV22Connection`.
    pub mod128_connect_routes_to_v22: bool,
    /// Version 2.0 is forced before the FRMR fallback re-establishes the link.
    pub frmr_fallback_reestablishes_v20: bool,
    /// A DM refusing a SABME degrades the link to version 2.0 like a FRMR does.
    pub dm_rejection_degrades_to_v20: bool,
    /// The stored-frame drain of timer recovery advances V(R).
    pub timer_recovery_drain_advances_vr: bool,
    /// An advance of V(A) since the last T1 expiry keeps the retry counter
    /// below N2 at the next one: a link that makes progress is not dead.
    pub ack_progress_resets_rc: bool,
    /// With SREJ enabled the window is at most half the modulus, so that two
    /// frames in flight never share a sequence number.
    pub clamp_srej_window_to_half_modulus: bool,
}

impl Quirks {
    /// Every correction on.
    pub open spec fn all_on() -> Quirks {
        Quirks {
            srej_selective_retransmit: true,
            discard_out_of_window_i_frames: true,
            karn_srt_sampling: true,
            srej_targets_gap: true,
            dl_flow_off_enters_busy: true,
            mod128_connect_routes_to_v22: true,
            frmr_fallback_reestablishes_v20: true,
            dm_rejection_degrades_to_v20: true,
            timer_recovery_drain_advances_vr: true,
            ack_progress_resets_rc: true,
            clamp_srej_window_to_half_modulus: true,
        }
    }

    /// Every correction off.
    pub open spec fn all_off() -> Quirks {
        Quirks {
            srej_selective_retransmit: false,
            discard_out_of_window_i_frames: false,
            karn_srt_sampling: false,
            srej_targets_gap: false,
            dl_flow_off_enters_busy: false,
            mod128_connect_routes_to_v22: false,
            frmr_fallback_reestablishes_v20: false,
            dm_rejection_degrades_to_v20: false,
            timer_recovery_drain_advances_vr: false,
            ack_progress_resets_rc: false,
            clamp_srej_window_to_half_modulus: false,
        }
    }

    /// Every correction off: run the figures exactly as drawn.
    pub fn strictly_faithful() -> (q: Quirks)
        ensures
            q == Quirks::all_off(),
    {
        Quirks {
            srej_selective_retransmit: false,
            discard_out_of_window_i_frames: false,
            karn_srt_sampling: false,
            srej_targets_gap: false,
            dl_flow_off_enters_busy: false,
            mod128_connect_routes_to_v22: false,
            frmr_fallback_reestablishes_v20: false,
            dm_rejection_degrades_to_v20: false,
            timer_recovery_drain_advances_vr: false,
            ack_progress_resets_rc: false,
            clamp_srej_window_to_half_modulus: false,
        }
    }
}

impl Default for Quirks {
    /// Every correction on.
    fn default() -> (q: Quirks)
        ensures
            q == Quirks::all_on(),
    {
        Quirks {
            srej_selective_retransmit: true,
            discard_out_of_window_i_frames: true,
            karn_srt_sampling: true,
            srej_targets_gap: true,
            dl_flow_off_enters_busy: true,
            mod128_connect_routes_to_v22: true,
            frmr_fallback_reestablishes_v20: true,
            dm_rejection_degrades_to_v20: true,
            timer_recovery_drain_advances_vr: true,
            ack_progress_resets_rc: true,
            clamp_srej_window_to_half_modulus: true,
        }
    }
}

} // verus!
