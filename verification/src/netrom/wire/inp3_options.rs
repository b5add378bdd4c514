//! The knobs of the INP3 link-timing overlay. Times are in milliseconds.

use vstd::prelude::*;

verus! {

/// The width to which the text of a probe is padded.
pub const INP3_DEFAULT_CAPABILITY_TEXT_WIDTH: u32 = 8;

/// The knobs of the overlay.
#[derive(Debug, Clone, Copy, PartialEq, Eq, Structural)]
pub struct NetRomInp3Options {
    /// How often each neighbour is probed.
    pub l3_rtt_interval_ms: u32,
    /// How long a neighbour may go without sending a probe back before its state is
    /// dropped. Longer than the probe interval.
    pub l3_rtt_reset_window_ms: u32,
    /// The gain of the time smoother is one over two to this power (1 to 8).
    pub sntt_gain_shift: u8,
    /// Probe neighbours that are not yet known to speak INP3.
    pub probe_unknown_capability: bool,
    /// The IP version to advertise, a single digit.
    pub advertise_ip_accept: Option<u8>,
    /// The width to which the text of a probe is padded.
    pub capability_text_width: u32,
    /// Prefer measured times over route qualities.
    pub prefer_inp3_routes: bool,
    /// The master switch of the overlay.
    pub enabled: bool,
    /// A route over more hops than this is not learned. At least 1.
    pub hop_limit: u8,
    /// How often all routes are sent.
    pub rif_interval_ms: u32,
    /// How long changes for the better are gathered before they are sent. Shorter than
    /// the interval at which all routes are sent.
    pub positive_debounce_ms: u32,
    /// A route that gets slower by as much as this is sent at once.
    pub worsen_threshold_ms: u32,
}

impl NetRomInp3Options {
    /// The defaults.
    pub open spec fn preset() -> NetRomInp3Options {
        NetRomInp3Options {
            l3_rtt_interval_ms: 60_000,
            l3_rtt_reset_window_ms: 180_000,
            sntt_gain_shift: 3,
            probe_unknown_capability: true,
            advertise_ip_accept: None,
            capability_text_width: INP3_DEFAULT_CAPABILITY_TEXT_WIDTH,
            prefer_inp3_routes: false,
            enabled: false,
            hop_limit: 30,
            rif_interval_ms: 300_000,
            positive_debounce_ms: 5_000,
            worsen_threshold_ms: 1_000,
        }
    }

    /// Every knob is in its range.
    pub open spec fn in_range(self) -> bool {
        &&& 0 < self.l3_rtt_interval_ms < self.l3_rtt_reset_window_ms
        &&& 1 <= self.sntt_gain_shift <= 8
        &&& self.advertise_ip_accept matches Some(ip) ==> ip <= 9
        &&& 1 <= self.hop_limit
        &&& 0 < self.positive_debounce_ms < self.rif_interval_ms
    }

    /// What is said of the first knob that is out of its range.
    pub open spec fn complaint(self) -> Option<Seq<char>> {
        if self.l3_rtt_interval_ms == 0 {
            Some("L3RTT probe interval must be positive"@)
        } else if self.l3_rtt_reset_window_ms <= self.l3_rtt_interval_ms {
            Some(
                "L3RTT reset window must exceed the probe interval (a shorter window tears down a live neighbour before it can answer)"@,
            )
        } else if self.sntt_gain_shift < 1 || self.sntt_gain_shift > 8 {
            Some("SNTT gain shift must be in [1, 8] (gain 1/2 .. 1/256)"@)
        } else if self.advertise_ip_accept is Some && self.advertise_ip_accept->0 > 9 {
            Some("advertised IP-accept version must be a single decimal digit 0\u{2013}9"@)
        } else if self.hop_limit < 1 {
            Some("INP3 hop limit must be at least 1"@)
        } else if self.rif_interval_ms == 0 {
            Some("periodic RIF interval must be positive"@)
        } else if self.positive_debounce_ms == 0 {
            Some("positive-update debounce must be positive"@)
        } else if self.positive_debounce_ms >= self.rif_interval_ms {
            Some(
                "positive-update debounce must be less than the periodic RIF interval (a debounce >= the interval is pointless — the periodic emit would always drain the batch first)"@,
            )
        } else {
            None
        }
    }

    /// The defaults: probe every minute, drop after three, gain one eighth, probe
    /// unknown neighbours, overlay off.
    pub fn canonical() -> (r: NetRomInp3Options)
        ensures
            r == NetRomInp3Options::preset(),
    {
        NetRomInp3Options {
            l3_rtt_interval_ms: 60_000,
            l3_rtt_reset_window_ms: 180_000,
            sntt_gain_shift: 3,
            probe_unknown_capability: true,
            advertise_ip_accept: None,
            capability_text_width: INP3_DEFAULT_CAPABILITY_TEXT_WIDTH,
            prefer_inp3_routes: false,
            enabled: false,
            hop_limit: 30,
            rif_interval_ms: 300_000,
            positive_debounce_ms: 5_000,
            worsen_threshold_ms: 1_000,
        }
    }

    /// Checks the ranges, and says which is the first that a knob is out of.
    pub fn validate(&self) -> (r: Result<(), &'static str>)
        ensures
            r is Ok <==> self.in_range(),
            match r {
                Ok(_) => self.complaint() is None,
                Err(m) => self.complaint() == Some(m@),
            },
    {
        if self.l3_rtt_interval_ms == 0 {
            return Err("L3RTT probe interval must be positive");
        }
        if self.l3_rtt_reset_window_ms <= self.l3_rtt_interval_ms {
            return Err(
                "L3RTT reset window must exceed the probe interval (a shorter window tears down a live neighbour before it can answer)",
            );
        }
        if self.sntt_gain_shift < 1 || self.sntt_gain_shift > 8 {
            return Err("SNTT gain shift must be in [1, 8] (gain 1/2 .. 1/256)");
        }
        match self.advertise_ip_accept {
            Some(ip) => {
                if ip > 9 {
                    return Err(
                        "advertised IP-accept version must be a single decimal digit 0\u{2013}9",
                    );
                }
            },
            None => {},
        }
        if self.hop_limit < 1 {
            return Err("INP3 hop limit must be at least 1");
        }
        if self.rif_interval_ms == 0 {
            return Err("periodic RIF interval must be positive");
        }
        if self.positive_debounce_ms == 0 {
            return Err("positive-update debounce must be positive");
        }
        if self.positive_debounce_ms >= self.rif_interval_ms {
            return Err(
                "positive-update debounce must be less than the periodic RIF interval (a debounce >= the interval is pointless — the periodic emit would always drain the batch first)",
            );
        }
        Ok(())
    }
}

impl Default for NetRomInp3Options {
    fn default() -> (r: NetRomInp3Options)
        ensures
            r == NetRomInp3Options::preset(),
    {
        NetRomInp3Options::canonical()
    }
}

/// The defaults are in range.
pub proof fn law_preset_is_in_range()
    ensures
        NetRomInp3Options::preset().in_range(),
{
}

} // verus!
