//! Attribution of signal levels to received frames.
//!
//! A tagger is told of level samples and of carrier edges as they happen, and is asked
//! for each frame as it arrives. Where the radio reports its carrier, a frame belongs to
//! the transmission in which it arrived: its level is the median of the samples taken
//! while the carrier was up. Otherwise whatever stands clear of the noise floor shortly
//! before the frame is taken for its signal.

use vstd::prelude::*;

use super::levels;
use super::levels::{stats, LevelStats};
use super::RadioMetadata;

verus! {

/// How many samples are kept.
pub const SAMPLE_CAPACITY: usize = 256;

/// How many transmissions that are over are kept.
pub const WINDOW_CAPACITY: usize = 8;

/// How samples are attributed.
#[derive(Debug, Clone, Copy, PartialEq, Eq, Structural)]
pub struct RssiTaggingConfig {
    /// How far back from a frame a sample may be taken for its signal.
    pub attribution_lookback_us: u64,
    /// How long after the carrier fell a frame still belongs to the transmission.
    pub window_attribution_slack_us: u64,
    /// How far above the noise floor a level is taken for a signal.
    pub signal_threshold_tenths: i16,
    /// How far the noise floor follows an idle sample: the numerator.
    pub noise_floor_smoothing_num: i32,
    /// How far the noise floor follows an idle sample: the denominator.
    pub noise_floor_smoothing_den: i32,
}

impl RssiTaggingConfig {
    /// The preset: a lookback of 5 s, a slack of half a second, 6 dB, about a fifth.
    pub open spec fn preset() -> RssiTaggingConfig {
        RssiTaggingConfig {
            attribution_lookback_us: 5_000_000,
            window_attribution_slack_us: 500_000,
            signal_threshold_tenths: 60,
            noise_floor_smoothing_num: 205,
            noise_floor_smoothing_den: 1024,
        }
    }

    /// The noise floor follows by a part between nothing and all, in 16 bits.
    pub open spec fn gentle(self) -> bool {
        &&& 0 <= self.noise_floor_smoothing_num <= self.noise_floor_smoothing_den
        &&& 0 < self.noise_floor_smoothing_den
        &&& self.noise_floor_smoothing_num <= 0x7FFF
    }
}

impl Default for RssiTaggingConfig {
    fn default() -> (r: RssiTaggingConfig)
        ensures
            r == RssiTaggingConfig::preset(),
    {
        RssiTaggingConfig {
            attribution_lookback_us: 5_000_000,
            window_attribution_slack_us: 500_000,
            signal_threshold_tenths: 60,
            noise_floor_smoothing_num: 205,
            noise_floor_smoothing_den: 1024,
        }
    }
}

/// One sample of the level.
#[derive(Debug, Clone, Copy, PartialEq, Eq, Structural)]
pub struct Sample {
    /// When it was taken.
    pub at_us: u64,
    /// The level.
    pub dbm_tenths: i16,
}

/// One transmission: the time for which the carrier is up.
#[derive(Debug, Clone, Copy, PartialEq, Eq, Structural)]
pub struct CarrierWindow {
    /// When the carrier rose.
    pub rise_at_us: u64,
    /// When it fell, if it has.
    pub fall_at_us: Option<u64>,
    /// How many frames of it have been attributed.
    pub frames_delivered: u16,
}

/// Where a transmission is kept.
#[derive(Debug, Clone, Copy, PartialEq, Eq, Structural)]
enum WindowRef {
    /// It is the one that is going on.
    Current,
    /// It is over, and has this place among those that are.
    Closed(usize),
}

/// Where a transmission is kept.
pub enum Place {
    Current,
    Closed(int),
}

/// What has been sampled and sensed so far.
#[derive(Debug)]
pub struct RssiTagger {
    config: RssiTaggingConfig,
    carrier_sense: bool,
    samples: Vec<Sample>,
    windows: Vec<CarrierWindow>,
    current_window: Option<CarrierWindow>,
    noise_floor_tenths: Option<i16>,
}

/// What has been sampled and sensed so far, the oldest first.
pub struct TaggerView {
    pub config: RssiTaggingConfig,
    pub carrier_sense: bool,
    pub samples: Seq<Sample>,
    pub windows: Seq<CarrierWindow>,
    pub current: Option<CarrierWindow>,
    pub floor: Option<i16>,
}

impl View for RssiTagger {
    type V = TaggerView;

    closed spec fn view(&self) -> TaggerView {
        TaggerView {
            config: self.config,
            carrier_sense: self.carrier_sense,
            samples: self.samples@,
            windows: self.windows@,
            current: self.current_window,
            floor: self.noise_floor_tenths,
        }
    }
}

/// `a` less `b`, but not below 0.
pub open spec fn less(a: int, b: int) -> int {
    if a >= b {
        a - b
    } else {
        0
    }
}

/// `level` raised by `by`, as far as 16 bits go.
pub open spec fn raised(level: i16, by: i16) -> i16 {
    if level + by > i16::MAX {
        i16::MAX
    } else if level + by < i16::MIN {
        i16::MIN
    } else {
        (level + by) as i16
    }
}

/// The magnitude of a number.
pub open spec fn magnitude(a: int) -> int {
    if a < 0 {
        -a
    } else {
        a
    }
}

/// `a` over `b`, rounded towards 0.
pub open spec fn quotient(a: int, b: int) -> int {
    let q: int = magnitude(a) / magnitude(b);
    if (a < 0) != (b < 0) {
        -q
    } else {
        q
    }
}

/// How far the noise floor moves on an idle sample.
pub open spec fn step(config: RssiTaggingConfig, floor: i16, level: i16) -> int {
    quotient((level - floor) * config.noise_floor_smoothing_num, config.noise_floor_smoothing_den
        as int)
}

/// The samples once `s` is added and, if they are then too many, the oldest is gone.
pub open spec fn with_sample(samples: Seq<Sample>, s: Sample) -> Seq<Sample> {
    if samples.len() >= SAMPLE_CAPACITY {
        samples.drop_first().push(s)
    } else {
        samples.push(s)
    }
}

/// The transmissions once `w` is added and, if they are then too many, the oldest is
/// gone.
pub open spec fn with_window(windows: Seq<CarrierWindow>, w: CarrierWindow) -> Seq<CarrierWindow> {
    if windows.len() >= WINDOW_CAPACITY {
        windows.drop_first().push(w)
    } else {
        windows.push(w)
    }
}

/// The samples from the first that is not older than `horizon` on.
pub open spec fn pruned(samples: Seq<Sample>, horizon: int) -> Seq<Sample>
    decreases samples.len(),
{
    if samples.len() > 0 && samples[0].at_us < horizon {
        pruned(samples.drop_first(), horizon)
    } else {
        samples
    }
}

/// The levels of the samples taken between two times, both included, and no weaker than
/// `least` if that is given.
pub open spec fn levels_between(
    samples: Seq<Sample>,
    from: int,
    to: int,
    least: Option<i16>,
) -> Seq<i16>
    decreases samples.len(),
{
    if samples.len() == 0 {
        Seq::empty()
    } else {
        let before: Seq<i16> = levels_between(samples.drop_last(), from, to, least);
        let s: Sample = samples.last();
        if from <= s.at_us <= to && (least is Some ==> s.dbm_tenths >= least->0) {
            before.push(s.dbm_tenths)
        } else {
            before
        }
    }
}

/// A frame that arrived at `at` belongs to transmission `w`, which is over.
pub open spec fn holds_arrival(w: CarrierWindow, at: u64, slack: u64) -> bool {
    w.fall_at_us matches Some(fall) && w.rise_at_us <= at && at <= fall + slack
}

/// The last transmission that a frame belongs to.
pub open spec fn last_holding(windows: Seq<CarrierWindow>, at: u64, slack: u64) -> Option<int>
    decreases windows.len(),
{
    if windows.len() == 0 {
        None
    } else if holds_arrival(windows.last(), at, slack) {
        Some(windows.len() - 1)
    } else {
        last_holding(windows.drop_last(), at, slack)
    }
}

/// How long a frame of `len` octets is on the air at `rate` bits a second: the frame,
/// its check sequence and a flag. Nothing is known at rate 0.
pub open spec fn airtime(len: nat, rate: u32) -> Option<int> {
    if rate == 0 {
        None
    } else {
        Some(((len + 3) * 8 * 1_000_000) as int / rate as int)
    }
}

/// The difference of two optional levels.
pub open spec fn above(level: Option<i16>, floor: Option<i16>) -> Option<i16> {
    match (level, floor) {
        (Some(a), Some(b)) => Some((a - b) as i16),
        _ => None,
    }
}

impl TaggerView {
    /// No more is kept than there is room for.
    pub open spec fn valid(self) -> bool {
        &&& self.samples.len() <= SAMPLE_CAPACITY
        &&& self.windows.len() <= WINDOW_CAPACITY
    }

    /// The level from which on a sample is taken for a signal.
    pub open spec fn least_signal(self) -> Option<i16> {
        match self.floor {
            Some(f) => Some(raised(f, self.config.signal_threshold_tenths)),
            None => None,
        }
    }

    /// A sample of the idle channel: the radio says so or, if it cannot tell, the level
    /// is no signal. The first sample of all is taken for one.
    pub open spec fn is_idle(self, level: i16, busy: Option<bool>) -> bool {
        match busy {
            Some(b) => !b,
            None => self.least_signal() is Some ==> level < self.least_signal()->0,
        }
    }

    /// The noise floor can follow a sample within 32 bits.
    pub open spec fn can_follow(self, level: i16, busy: Option<bool>) -> bool {
        self.is_idle(level, busy) ==> (self.floor matches Some(f) ==> {
            &&& self.config.noise_floor_smoothing_den != 0
            &&& i32::MIN <= (level - f) * self.config.noise_floor_smoothing_num <= i32::MAX
            &&& step(self.config, f, level) <= i32::MAX
            &&& i32::MIN <= f + step(self.config, f, level) <= i32::MAX
        })
    }

    /// The noise floor after a sample.
    pub open spec fn floor_after(self, level: i16, busy: Option<bool>) -> Option<i16> {
        if self.is_idle(level, busy) {
            match self.floor {
                None => Some(level),
                Some(f) => Some((f + step(self.config, f, level)) as i16),
            }
        } else {
            self.floor
        }
    }

    /// The tagger after a sample.
    pub open spec fn sampled(self, at: u64, level: i16, busy: Option<bool>) -> TaggerView {
        TaggerView {
            samples: pruned(
                with_sample(self.samples, Sample { at_us: at, dbm_tenths: level }),
                less(at as int, 2 * self.config.attribution_lookback_us),
            ),
            floor: self.floor_after(level, busy),
            ..self
        }
    }

    /// The tagger after an edge of the carrier.
    pub open spec fn edged(self, busy: bool, at: u64) -> TaggerView {
        if busy {
            TaggerView {
                current: Some(
                    CarrierWindow { rise_at_us: at, fall_at_us: None, frames_delivered: 0 },
                ),
                ..self
            }
        } else {
            match self.current {
                Some(w) => TaggerView {
                    current: None,
                    windows: with_window(
                        self.windows,
                        CarrierWindow { fall_at_us: Some(at), ..w },
                    ),
                    ..self
                },
                None => self,
            }
        }
    }

    /// The transmission that a frame belongs to: the one that is going on if the frame
    /// arrived in it, or else the last that is over.
    pub open spec fn place_of(self, at: u64) -> Option<Place> {
        if self.current matches Some(w) && w.rise_at_us <= at {
            Some(Place::Current)
        } else {
            match last_holding(self.windows, at, self.config.window_attribution_slack_us) {
                Some(i) => Some(Place::Closed(i)),
                None => None,
            }
        }
    }

    /// The transmission that a frame is attributed to, if the radio reports its carrier.
    pub open spec fn attributed_to(self, at: u64) -> Option<Place> {
        if self.carrier_sense {
            self.place_of(at)
        } else {
            None
        }
    }

    /// The transmission at a place.
    pub open spec fn window(self, place: Place) -> CarrierWindow {
        match place {
            Place::Current => self.current->0,
            Place::Closed(i) => self.windows[i],
        }
    }

    /// The tagger once a frame has been attributed to the transmission at a place.
    pub open spec fn claimed(self, place: Place) -> TaggerView {
        let w: CarrierWindow = self.window(place);
        let counted: CarrierWindow = CarrierWindow {
            frames_delivered: (w.frames_delivered + 1) as u16,
            ..w
        };
        match place {
            Place::Current => TaggerView { current: Some(counted), ..self },
            Place::Closed(i) => TaggerView { windows: self.windows.update(i, counted), ..self },
        }
    }

    /// The levels while the carrier was up, until a frame arrived.
    pub open spec fn levels_in(self, w: CarrierWindow, at: u64) -> Seq<i16> {
        let to: u64 = match w.fall_at_us {
            Some(fall) => if fall < at {
                fall
            } else {
                at
            },
            None => at,
        };
        levels_between(self.samples, w.rise_at_us as int, to as int, None)
    }

    /// The levels that are taken for the signal of a frame without carrier sense.
    pub open spec fn signal_levels(self, at: u64) -> Seq<i16> {
        levels_between(
            self.samples,
            less(at as int, self.config.attribution_lookback_us as int),
            at as int,
            self.least_signal(),
        )
    }

    /// What is known of a frame that belongs to transmission `w`.
    pub open spec fn in_window(self, w: CarrierWindow, at: u64, air: Option<u64>) -> RadioMetadata {
        let s: Option<LevelStats> = levels::stats_of(self.levels_in(w, at));
        let first: bool = w.frames_delivered == 0;
        RadioMetadata {
            rssi_dbm_tenths: if s is Some {
                Some(s->0.median)
            } else {
                None
            },
            snr_db_tenths: if s is Some {
                above(Some(s->0.median), self.floor)
            } else {
                None
            },
            noise_floor_dbm_tenths: self.floor,
            rssi_min_dbm_tenths: if s is Some {
                Some(s->0.min)
            } else {
                None
            },
            rssi_max_dbm_tenths: if s is Some {
                Some(s->0.max)
            } else {
                None
            },
            rssi_sample_count: if s is Some {
                s->0.count
            } else {
                0
            },
            carrier_rise_at_us: Some(w.rise_at_us),
            burst_index: Some(w.frames_delivered),
            estimated_airtime_us: air,
            pre_data_carrier_us: if first && air is Some {
                Some((at - air->0 - w.rise_at_us) as i64)
            } else {
                None
            },
        }
    }

    /// What is known of a frame that belongs to no transmission.
    pub open spec fn by_threshold(self, at: u64, air: Option<u64>) -> Option<RadioMetadata> {
        match levels::stats_of(self.signal_levels(at)) {
            Some(s) => Some(
                RadioMetadata {
                    rssi_dbm_tenths: Some(s.median),
                    snr_db_tenths: above(Some(s.median), self.floor),
                    noise_floor_dbm_tenths: self.floor,
                    rssi_min_dbm_tenths: Some(s.min),
                    rssi_max_dbm_tenths: Some(s.max),
                    rssi_sample_count: s.count,
                    estimated_airtime_us: air,
                    ..RadioMetadata::blank()
                },
            ),
            None => if air is Some {
                Some(RadioMetadata { estimated_airtime_us: air, ..RadioMetadata::blank() })
            } else {
                None
            },
        }
    }

    /// What is known of a frame.
    pub open spec fn metadata(self, at: u64, air: Option<u64>) -> Option<RadioMetadata> {
        match self.attributed_to(at) {
            Some(place) => Some(self.in_window(self.window(place), at, air)),
            None => self.by_threshold(at, air),
        }
    }

    /// The tagger once a frame has been attributed.
    pub open spec fn after_frame(self, at: u64) -> TaggerView {
        match self.attributed_to(at) {
            Some(place) => self.claimed(place),
            None => self,
        }
    }

    /// The levels that are compared with the noise floor for a frame.
    pub open spec fn levels_for(self, at: u64) -> Seq<i16> {
        match self.attributed_to(at) {
            Some(place) => self.levels_in(self.window(place), at),
            None => self.signal_levels(at),
        }
    }

    /// What is known of a frame can be written in the numbers that hold it: the level
    /// above the noise floor in 16 bits, the frames of a transmission in 16 bits, the
    /// time before the data in 64 bits.
    pub open spec fn can_attribute(self, at: u64, air: Option<u64>) -> bool {
        &&& levels::stats_of(self.levels_for(at)) matches Some(s) ==> (self.floor matches Some(f)
            ==> i16::MIN <= s.median - f <= i16::MAX)
        &&& self.attributed_to(at) matches Some(place) ==> {
            let w: CarrierWindow = self.window(place);
            &&& w.frames_delivered < u16::MAX
            &&& w.frames_delivered == 0 && air is Some ==> {
                &&& at <= i64::MAX
                &&& air->0 <= i64::MAX
                &&& i64::MIN <= at - air->0 - w.rise_at_us
            }
        }
    }
}

proof fn lemma_last_holding(windows: Seq<CarrierWindow>, at: u64, slack: u64)
    ensures
        last_holding(windows, at, slack) matches Some(i) ==> {
            &&& 0 <= i < windows.len()
            &&& holds_arrival(windows[i], at, slack)
        },
    decreases windows.len(),
{
    if windows.len() > 0 && !holds_arrival(windows.last(), at, slack) {
        lemma_last_holding(windows.drop_last(), at, slack);
    }
}

proof fn lemma_levels_are_few(samples: Seq<Sample>, from: int, to: int, least: Option<i16>)
    ensures
        levels_between(samples, from, to, least).len() <= samples.len(),
    decreases samples.len(),
{
    if samples.len() > 0 {
        lemma_levels_are_few(samples.drop_last(), from, to, least);
    }
}

proof fn lemma_pruned_is_shorter(samples: Seq<Sample>, horizon: int)
    ensures
        pruned(samples, horizon).len() <= samples.len(),
    decreases samples.len(),
{
    if samples.len() > 0 && samples[0].at_us < horizon {
        lemma_pruned_is_shorter(samples.drop_first(), horizon);
    }
}

/// `level` raised by `by`, as far as 16 bits go.
fn raise(level: i16, by: i16) -> (r: i16)
    ensures
        r == raised(level, by),
{
    let v: i32 = level as i32 + by as i32;
    if v > 32767 {
        32767
    } else if v < -32768 {
        -32768
    } else {
        v as i16
    }
}

/// The magnitude of a number.
fn size(a: i32) -> (r: u32)
    ensures
        r == magnitude(a as int),
{
    if a < 0 {
        (-(a as i64)) as u32
    } else {
        a as u32
    }
}

/// `a` over `b`, rounded towards 0.
fn divide(a: i32, b: i32) -> (r: i64)
    requires
        b != 0,
    ensures
        r == quotient(a as int, b as int),
        -0x8000_0000 <= r <= 0x8000_0000,
{
    let x: u32 = size(a);
    let y: u32 = size(b);
    let q: u32 = x / y;
    proof {
        assert(x as int / y as int <= x) by (nonlinear_arith)
            requires
                y >= 1,
        ;
    }
    if (a < 0) != (b < 0) {
        -(q as i64)
    } else {
        q as i64
    }
}

impl RssiTagger {
    /// A tagger with no samples. `carrier_sense` says whether the radio reports its
    /// carrier.
    pub fn new(config: RssiTaggingConfig, carrier_sense: bool) -> (t: RssiTagger)
        ensures
            t@ == (TaggerView {
                config,
                carrier_sense,
                samples: Seq::empty(),
                windows: Seq::empty(),
                current: None,
                floor: None,
            }),
            t@.valid(),
    {
        let t = RssiTagger {
            config,
            carrier_sense,
            samples: Vec::new(),
            windows: Vec::new(),
            current_window: None,
            noise_floor_tenths: None,
        };
        assert(t@.samples =~= Seq::<Sample>::empty());
        assert(t@.windows =~= Seq::<CarrierWindow>::empty());
        t
    }

    /// The noise floor, once there has been a sample of the idle channel.
    pub fn noise_floor_tenths(&self) -> (r: Option<i16>)
        ensures
            r == self@.floor,
    {
        self.noise_floor_tenths
    }

    /// How many samples are kept.
    pub fn sample_len(&self) -> (n: usize)
        ensures
            n == self@.samples.len(),
    {
        self.samples.len()
    }

    /// How many transmissions that are over are kept.
    pub fn window_len(&self) -> (n: usize)
        ensures
            n == self@.windows.len(),
    {
        self.windows.len()
    }

    /// Takes a sample. `channel_busy` says whether the carrier was up, if the radio can
    /// tell. A sample of the idle channel moves the noise floor.
    pub fn record_sample(&mut self, at_us: u64, dbm_tenths: i16, channel_busy: Option<bool>)
        requires
            old(self)@.valid(),
            old(self)@.can_follow(dbm_tenths, channel_busy),
        ensures
            final(self)@ == old(self)@.sampled(at_us, dbm_tenths, channel_busy),
            final(self)@.valid(),
    {
        self.push_sample(Sample { at_us, dbm_tenths });
        let lookback: u64 = self.config.attribution_lookback_us;
        let once: u64 = if at_us >= lookback {
            at_us - lookback
        } else {
            0
        };
        let horizon: u64 = if once >= lookback {
            once - lookback
        } else {
            0
        };
        proof {
            lemma_pruned_is_shorter(self@.samples, horizon as int);
        }
        self.prune(horizon);
        let idle: bool = match channel_busy {
            Some(busy) => !busy,
            None => match self.least_signal() {
                Some(least) => dbm_tenths < least,
                None => true,
            },
        };
        if idle {
            self.noise_floor_tenths = Some(
                match self.noise_floor_tenths {
                    None => dbm_tenths,
                    Some(floor) => {
                        let delta: i32 = dbm_tenths as i32 - floor as i32;
                        let num: i32 = self.config.noise_floor_smoothing_num;
                        let moved: i64 = divide(
                            delta * num,
                            self.config.noise_floor_smoothing_den,
                        );
                        #[verifier::truncate]
                        ((floor as i64 + moved) as i16)
                    },
                },
            );
        }
    }

    /// Takes an edge of the carrier: a rise starts a transmission, a fall ends it.
    pub fn carrier_edge(&mut self, busy: bool, at_us: u64)
        requires
            old(self)@.valid(),
        ensures
            final(self)@ == old(self)@.edged(busy, at_us),
            final(self)@.valid(),
    {
        if busy {
            self.current_window = Some(
                CarrierWindow { rise_at_us: at_us, fall_at_us: None, frames_delivered: 0 },
            );
        } else {
            match self.current_window {
                Some(w) => {
                    self.current_window = None;
                    self.push_window(
                        CarrierWindow {
                            rise_at_us: w.rise_at_us,
                            fall_at_us: Some(at_us),
                            frames_delivered: w.frames_delivered,
                        },
                    );
                },
                None => {},
            }
        }
    }

    /// What is known of a frame of `ax25_len` octets that arrived at `received_at_us`,
    /// sent at `bit_rate_hz` if that is known. `None` if nothing is.
    pub fn attribute(
        &mut self,
        received_at_us: u64,
        ax25_len: usize,
        bit_rate_hz: Option<u32>,
    ) -> (r: Option<RadioMetadata>)
        requires
            old(self)@.valid(),
            bit_rate_hz matches Some(rate) ==> rate == 0 || (ax25_len + 3) * 8_000_000 <= u64::MAX,
            old(self)@.can_attribute(received_at_us, on_air(ax25_len, bit_rate_hz)),
        ensures
            r == old(self)@.metadata(received_at_us, on_air(ax25_len, bit_rate_hz)),
            final(self)@ == old(self)@.after_frame(received_at_us),
            final(self)@.valid(),
    {
        let air: Option<u64> = match bit_rate_hz {
            Some(rate) => airtime_us(ax25_len, rate),
            None => None,
        };
        let floor: Option<i16> = self.noise_floor_tenths;
        if self.carrier_sense {
            match self.find_window(received_at_us) {
                Some(chosen) => {
                    proof {
                        lemma_last_holding(
                            self@.windows,
                            received_at_us,
                            self@.config.window_attribution_slack_us,
                        );
                    }
                    let (rise, fall, burst_index) = self.claim_window(chosen);
                    let to: u64 = match fall {
                        Some(f) => if f < received_at_us {
                            f
                        } else {
                            received_at_us
                        },
                        None => received_at_us,
                    };
                    assert(rise <= received_at_us);
                    let stats = self.stats_between(rise, to, None);
                    let pre_data: Option<i64> = match air {
                        Some(air) => if burst_index == 0 {
                            Some(received_at_us as i64 - air as i64 - rise as i64)
                        } else {
                            None
                        },
                        None => None,
                    };
                    let (rssi, min, max, count) = match stats {
                        Some(s) => (Some(s.median), Some(s.min), Some(s.max), s.count),
                        None => (None, None, None, 0),
                    };
                    return Some(
                        RadioMetadata {
                            rssi_dbm_tenths: rssi,
                            snr_db_tenths: difference(rssi, floor),
                            noise_floor_dbm_tenths: floor,
                            rssi_min_dbm_tenths: min,
                            rssi_max_dbm_tenths: max,
                            rssi_sample_count: count,
                            carrier_rise_at_us: Some(rise),
                            burst_index: Some(burst_index),
                            estimated_airtime_us: air,
                            pre_data_carrier_us: pre_data,
                        },
                    );
                },
                None => {},
            }
        }
        self.threshold_attribution(received_at_us, floor, air)
    }

    /// What is known of a frame from the samples shortly before it that stand clear of
    /// the noise floor.
    fn threshold_attribution(
        &self,
        received_at_us: u64,
        floor: Option<i16>,
        air: Option<u64>,
    ) -> (r: Option<RadioMetadata>)
        requires
            self@.valid(),
            floor == self@.floor,
            levels::stats_of(self@.signal_levels(received_at_us)) matches Some(s) ==> (
            floor matches Some(f) ==> i16::MIN <= s.median - f <= i16::MAX),
        ensures
            r == self@.by_threshold(received_at_us, air),
    {
        let lookback: u64 = self.config.attribution_lookback_us;
        let from: u64 = if received_at_us >= lookback {
            received_at_us - lookback
        } else {
            0
        };
        match self.stats_between(from, received_at_us, self.least_signal()) {
            Some(s) => {
                let mut m = RadioMetadata::default();
                m.rssi_dbm_tenths = Some(s.median);
                m.snr_db_tenths = difference(Some(s.median), floor);
                m.noise_floor_dbm_tenths = floor;
                m.rssi_min_dbm_tenths = Some(s.min);
                m.rssi_max_dbm_tenths = Some(s.max);
                m.rssi_sample_count = s.count;
                m.estimated_airtime_us = air;
                Some(m)
            },
            None => match air {
                Some(_) => {
                    let mut m = RadioMetadata::default();
                    m.estimated_airtime_us = air;
                    Some(m)
                },
                None => None,
            },
        }
    }

    /// The level from which on a sample is taken for a signal.
    fn least_signal(&self) -> (r: Option<i16>)
        ensures
            r == self@.least_signal(),
    {
        match self.noise_floor_tenths {
            Some(f) => Some(raise(f, self.config.signal_threshold_tenths)),
            None => None,
        }
    }

    /// The transmission that a frame belongs to.
    fn find_window(&self, received_at_us: u64) -> (r: Option<WindowRef>)
        ensures
            match r {
                Some(WindowRef::Current) => self@.place_of(received_at_us) == Some(Place::Current)
                    && self@.current is Some,
                Some(WindowRef::Closed(i)) => self@.place_of(received_at_us) == Some(
                    Place::Closed(i as int),
                ) && i < self@.windows.len(),
                None => self@.place_of(received_at_us) is None,
            },
    {
        match self.current_window {
            Some(w) => {
                if w.rise_at_us <= received_at_us {
                    return Some(WindowRef::Current);
                }
            },
            None => {},
        }
        let slack: u64 = self.config.window_attribution_slack_us;
        let mut best: Option<WindowRef> = None;
        let mut i: usize = 0;
        while i < self.windows.len()
            invariant
                i <= self.windows@.len(),
                match best {
                    Some(WindowRef::Closed(k)) => last_holding(
                        self.windows@.take(i as int),
                        received_at_us,
                        slack,
                    ) == Some(k as int) && k < i,
                    Some(WindowRef::Current) => false,
                    None => last_holding(self.windows@.take(i as int), received_at_us, slack)
                        is None,
                },
            decreases self.windows@.len() - i,
        {
            let w: CarrierWindow = self.windows[i];
            proof {
                assert(self.windows@.take(i + 1).drop_last() =~= self.windows@.take(i as int));
            }
            match w.fall_at_us {
                Some(fall) => {
                    if w.rise_at_us <= received_at_us && (received_at_us <= fall || received_at_us
                        - fall <= slack) {
                        best = Some(WindowRef::Closed(i));
                    }
                },
                None => {},
            }
            i = i + 1;
        }
        assert(self.windows@.take(i as int) =~= self.windows@);
        best
    }

    /// Counts one more frame of a transmission, and gives its rise, its fall and how
    /// many frames there were before.
    fn claim_window(&mut self, chosen: WindowRef) -> (r: (u64, Option<u64>, u16))
        requires
            old(self)@.valid(),
            match chosen {
                WindowRef::Current => old(self)@.current is Some
                    && old(self)@.current->0.frames_delivered < u16::MAX,
                WindowRef::Closed(i) => i < old(self)@.windows.len()
                    && old(self)@.windows[i as int].frames_delivered < u16::MAX,
            },
        ensures
            ({
                let place: Place = match chosen {
                    WindowRef::Current => Place::Current,
                    WindowRef::Closed(i) => Place::Closed(i as int),
                };
                let w: CarrierWindow = old(self)@.window(place);
                &&& r == (w.rise_at_us, w.fall_at_us, w.frames_delivered)
                &&& final(self)@ == old(self)@.claimed(place)
                &&& final(self)@.valid()
            }),
    {
        match chosen {
            WindowRef::Current => match self.current_window {
                Some(w) => {
                    self.current_window = Some(
                        CarrierWindow {
                            rise_at_us: w.rise_at_us,
                            fall_at_us: w.fall_at_us,
                            frames_delivered: w.frames_delivered + 1,
                        },
                    );
                    (w.rise_at_us, w.fall_at_us, w.frames_delivered)
                },
                None => (0, None, 0),
            },
            WindowRef::Closed(i) => {
                let w: CarrierWindow = self.windows[i];
                self.windows.set(
                    i,
                    CarrierWindow {
                        rise_at_us: w.rise_at_us,
                        fall_at_us: w.fall_at_us,
                        frames_delivered: w.frames_delivered + 1,
                    },
                );
                (w.rise_at_us, w.fall_at_us, w.frames_delivered)
            },
        }
    }

    /// The statistics of the samples taken between two times, both included, and no
    /// weaker than `least` if that is given.
    fn stats_between(&self, from_us: u64, to_us: u64, least: Option<i16>) -> (r: Option<LevelStats>)
        requires
            self@.valid(),
        ensures
            r == levels::stats_of(
                levels_between(self@.samples, from_us as int, to_us as int, least),
            ),
    {
        let mut found: Vec<i16> = Vec::new();
        let mut i: usize = 0;
        assert(self.samples@.take(0) =~= Seq::<Sample>::empty());
        assert(found@ =~= Seq::<i16>::empty());
        while i < self.samples.len()
            invariant
                i <= self.samples@.len(),
                found@ == levels_between(
                    self.samples@.take(i as int),
                    from_us as int,
                    to_us as int,
                    least,
                ),
            decreases self.samples@.len() - i,
        {
            let s: Sample = self.samples[i];
            proof {
                assert(self.samples@.take(i + 1).drop_last() =~= self.samples@.take(i as int));
            }
            let strong: bool = match least {
                Some(least) => s.dbm_tenths >= least,
                None => true,
            };
            if from_us <= s.at_us && s.at_us <= to_us && strong {
                found.push(s.dbm_tenths);
            }
            i = i + 1;
        }
        proof {
            assert(self.samples@.take(i as int) =~= self.samples@);
            lemma_levels_are_few(self.samples@, from_us as int, to_us as int, least);
        }
        stats(found.as_slice())
    }

    fn push_sample(&mut self, s: Sample)
        requires
            old(self)@.valid(),
        ensures
            final(self)@ == (TaggerView {
                samples: with_sample(old(self)@.samples, s),
                ..old(self)@
            }),
            final(self)@.valid(),
    {
        if self.samples.len() == SAMPLE_CAPACITY {
            self.samples.remove(0);
            assert(self.samples@ =~= old(self)@.samples.drop_first());
        }
        self.samples.push(s);
    }

    /// Drops the samples before the first that is not older than `horizon`.
    fn prune(&mut self, horizon: u64)
        ensures
            final(self)@ == (TaggerView {
                samples: pruned(old(self)@.samples, horizon as int),
                ..old(self)@
            }),
    {
        while self.samples.len() > 0 && self.samples[0].at_us < horizon
            invariant
                pruned(self@.samples, horizon as int) == pruned(
                    old(self)@.samples,
                    horizon as int,
                ),
                self@ == (TaggerView { samples: self@.samples, ..old(self)@ }),
            decreases self@.samples.len(),
        {
            let ghost before = self@.samples;
            self.samples.remove(0);
            assert(self@.samples =~= before.drop_first());
        }
    }

    fn push_window(&mut self, w: CarrierWindow)
        requires
            old(self)@.valid(),
        ensures
            final(self)@ == (TaggerView {
                windows: with_window(old(self)@.windows, w),
                ..old(self)@
            }),
            final(self)@.valid(),
    {
        if self.windows.len() == WINDOW_CAPACITY {
            self.windows.remove(0);
            assert(self.windows@ =~= old(self)@.windows.drop_first());
        }
        self.windows.push(w);
    }
}

/// How long a frame is on the air, if its rate is known.
pub open spec fn on_air(len: usize, rate: Option<u32>) -> Option<u64> {
    match rate {
        Some(rate) => match airtime(len as nat, rate) {
            Some(us) => Some(us as u64),
            None => None,
        },
        None => None,
    }
}

/// The difference of two levels, if both are known.
fn difference(level: Option<i16>, floor: Option<i16>) -> (r: Option<i16>)
    requires
        level is Some && floor is Some ==> i16::MIN <= level->0 - floor->0 <= i16::MAX,
    ensures
        r == above(level, floor),
{
    match (level, floor) {
        (Some(a), Some(b)) => Some(a - b),
        _ => None,
    }
}

/// How long a frame of `ax25_len` octets is on the air, in microseconds: with its check
/// sequence and a flag, without stuffed bits. `None` at rate 0.
pub fn airtime_us(ax25_len: usize, bit_rate_hz: u32) -> (r: Option<u64>)
    requires
        bit_rate_hz == 0 || (ax25_len + 3) * 8_000_000 <= u64::MAX,
    ensures
        r == on_air(ax25_len, Some(bit_rate_hz)),
        match r {
            Some(us) => airtime(ax25_len as nat, bit_rate_hz) == Some(us as int),
            None => airtime(ax25_len as nat, bit_rate_hz) is None,
        },
{
    if bit_rate_hz == 0 {
        return None;
    }
    let bits: u64 = (ax25_len as u64 + 3) * 8 * 1_000_000;
    proof {
        assert(bits as int / bit_rate_hz as int <= bits) by (nonlinear_arith)
            requires
                bit_rate_hz >= 1,
        ;
    }
    Some(bits / bit_rate_hz as u64)
}

/// A gentle tagger can follow every sample, and its noise floor then moves towards an
/// idle sample and not past it.
pub proof fn law_noise_floor_moves_towards_the_sample(
    t: TaggerView,
    level: i16,
    busy: Option<bool>,
)
    requires
        t.config.gentle(),
    ensures
        t.can_follow(level, busy),
        t.floor matches Some(f) ==> (t.floor_after(level, busy) matches Some(g) && {
            ||| f <= g <= level
            ||| level <= g <= f
            ||| !t.is_idle(level, busy) && g == f
        }),
        t.floor is None && t.is_idle(level, busy) ==> t.floor_after(level, busy) == Some(level),
{
    if t.floor is Some {
        let f: int = t.floor->0 as int;
        let num: int = t.config.noise_floor_smoothing_num as int;
        let den: int = t.config.noise_floor_smoothing_den as int;
        let d: int = level - f;
        assert(-65535 * 0x7FFF <= d * num <= 65535 * 0x7FFF) by (nonlinear_arith)
            requires
                -65535 <= d <= 65535,
                0 <= num <= 0x7FFF,
        ;
        let m: int = magnitude(d * num);
        assert(m == magnitude(d) * num) by (nonlinear_arith)
            requires
                m == (if d * num < 0 { -(d * num) } else { d * num }),
                magnitude(d) == (if d < 0 { -d } else { d }),
                0 <= num,
        ;
        assert(0 <= m / den <= magnitude(d)) by (nonlinear_arith)
            requires
                m == magnitude(d) * num,
                0 <= num <= den,
                0 < den,
                0 <= magnitude(d),
        ;
        assert(d >= 0 ==> d * num >= 0) by (nonlinear_arith)
            requires
                0 <= num,
        ;
        assert(d < 0 && d * num >= 0 ==> m / den == 0) by {
            if d < 0 && d * num >= 0 {
                assert(num == 0) by (nonlinear_arith)
                    requires
                        d < 0,
                        d * num >= 0,
                        0 <= num,
                ;
                assert(d * num == 0) by (nonlinear_arith)
                    requires
                        num == 0,
                ;
                vstd::arithmetic::div_mod::lemma_div_of0(den);
            }
        }
    }
}

/// The preset is gentle.
pub proof fn law_the_preset_is_gentle()
    ensures
        RssiTaggingConfig::preset().gentle(),
{
}

/// While levels stay within 1600 dB, times within 62 bits and fewer than 65535 frames of
/// one transmission have come, a frame of up to a million octets can be attributed.
pub proof fn law_ordinary_frames_can_be_attributed(t: TaggerView, at: u64, air: Option<u64>)
    requires
        forall|i: int|
            0 <= i < t.samples.len() ==> -16000 <= (#[trigger] t.samples[i]).dbm_tenths <= 16000,
        t.floor matches Some(f) ==> -16000 <= f <= 16000,
        t.current matches Some(w) ==> w.frames_delivered < u16::MAX,
        forall|i: int|
            0 <= i < t.windows.len() ==> (#[trigger] t.windows[i]).frames_delivered < u16::MAX,
        at < 0x4000_0000_0000_0000,
        air matches Some(us) ==> us <= 8_000_024_000_000,
    ensures
        t.can_attribute(at, air),
{
    lemma_last_holding(t.windows, at, t.config.window_attribution_slack_us);
    let picked: Seq<i16> = t.levels_for(at);
    match t.attributed_to(at) {
        Some(place) => {
            let w: CarrierWindow = t.window(place);
            let to: u64 = match w.fall_at_us {
                Some(fall) => if fall < at {
                    fall
                } else {
                    at
                },
                None => at,
            };
            lemma_levels_come_from_samples(t.samples, w.rise_at_us as int, to as int, None);
        },
        None => {
            lemma_levels_come_from_samples(
                t.samples,
                less(at as int, t.config.attribution_lookback_us as int),
                at as int,
                t.least_signal(),
            );
        },
    }
    if picked.len() > 0 {
        levels::law_statistics_bound_the_levels(picked);
        let s: LevelStats = levels::stats_of(picked)->0;
        let k: int = choose|k: int| 0 <= k < picked.len() && picked[k] == s.median;
        assert(-16000 <= picked[k] <= 16000);
    }
}

proof fn lemma_levels_come_from_samples(
    samples: Seq<Sample>,
    from: int,
    to: int,
    least: Option<i16>,
)
    requires
        forall|i: int|
            0 <= i < samples.len() ==> -16000 <= (#[trigger] samples[i]).dbm_tenths <= 16000,
    ensures
        forall|k: int|
            0 <= k < levels_between(samples, from, to, least).len() ==> -16000
                <= #[trigger] levels_between(samples, from, to, least)[k] <= 16000,
    decreases samples.len(),
{
    if samples.len() > 0 {
        let before: Seq<i16> = levels_between(samples.drop_last(), from, to, least);
        lemma_levels_come_from_samples(samples.drop_last(), from, to, least);
        let last: i16 = samples[samples.len() - 1].dbm_tenths;
        assert(-16000 <= last <= 16000);
        assert(levels_between(samples, from, to, least) == before || levels_between(
            samples,
            from,
            to,
            least,
        ) == before.push(last));
    }
}

/// Of two frames of one transmission, the second has the next number, and says nothing
/// of the time before the data.
pub proof fn law_frames_of_a_transmission_count_up(
    t: TaggerView,
    a: u64,
    b: u64,
    air: Option<u64>,
)
    requires
        t.attributed_to(a) is Some,
        t.attributed_to(b) == t.attributed_to(a),
        t.window(t.attributed_to(a)->0).frames_delivered < u16::MAX,
    ensures
        t.after_frame(a).attributed_to(b) == t.attributed_to(a),
        t.metadata(a, air) matches Some(x) && (t.after_frame(a).metadata(b, air) matches Some(y)
            && (x.burst_index matches Some(i) && y.burst_index == Some((i + 1) as u16))
            && y.carrier_rise_at_us == x.carrier_rise_at_us && y.pre_data_carrier_us is None),
{
    let slack: u64 = t.config.window_attribution_slack_us;
    lemma_last_holding(t.windows, a, slack);
    lemma_last_holding(t.windows, b, slack);
    let place: Place = t.attributed_to(a)->0;
    match place {
        Place::Current => {},
        Place::Closed(i) => {
            lemma_counting_moves_nothing(t.windows, i, t.after_frame(a).windows[i], b, slack);
        },
    }
}

proof fn lemma_counting_moves_nothing(
    windows: Seq<CarrierWindow>,
    i: int,
    w: CarrierWindow,
    at: u64,
    slack: u64,
)
    requires
        0 <= i < windows.len(),
        w.rise_at_us == windows[i].rise_at_us,
        w.fall_at_us == windows[i].fall_at_us,
    ensures
        last_holding(windows.update(i, w), at, slack) == last_holding(windows, at, slack),
    decreases windows.len(),
{
    let n: int = windows.len() as int;
    if i < n - 1 {
        assert(windows.update(i, w).drop_last() =~= windows.drop_last().update(i, w));
        lemma_counting_moves_nothing(windows.drop_last(), i, w, at, slack);
    } else {
        assert(windows.update(i, w).drop_last() =~= windows.drop_last());
    }
}

/// A frame that arrives while the carrier is up is the first of that transmission.
pub proof fn law_a_rise_starts_a_transmission(t: TaggerView, rise: u64, at: u64, air: Option<u64>)
    requires
        t.carrier_sense,
        rise <= at,
    ensures
        t.edged(true, rise).metadata(at, air) matches Some(m) && m.carrier_rise_at_us == Some(rise)
            && m.burst_index == Some(0u16),
{
}

/// A transmission that is over takes the frames that arrive within the slack, unless
/// another has begun.
pub proof fn law_a_transmission_takes_late_frames(
    t: TaggerView,
    rise: u64,
    fall: u64,
    at: u64,
    air: Option<u64>,
)
    requires
        t.carrier_sense,
        t.valid(),
        rise <= at <= fall + t.config.window_attribution_slack_us,
    ensures
        t.edged(true, rise).edged(false, fall).metadata(at, air) matches Some(m)
            && m.carrier_rise_at_us == Some(rise) && m.burst_index == Some(0u16),
{
    let after: TaggerView = t.edged(true, rise).edged(false, fall);
    assert(after.windows.last() == CarrierWindow {
        rise_at_us: rise,
        fall_at_us: Some(fall),
        frames_delivered: 0,
    });
}

/// Samples that come in the order of time stay in it, and none of them is older than
/// twice the lookback.
pub proof fn law_old_samples_are_dropped(t: TaggerView, at: u64, level: i16, busy: Option<bool>)
    requires
        in_time(t.samples),
        t.samples.len() > 0 ==> t.samples.last().at_us <= at,
    ensures
        in_time(t.sampled(at, level, busy).samples),
        t.sampled(at, level, busy).samples.len() > 0,
        t.sampled(at, level, busy).samples.last() == (Sample { at_us: at, dbm_tenths: level }),
        forall|i: int|
            0 <= i < t.sampled(at, level, busy).samples.len() ==> at - (
            #[trigger] t.sampled(at, level, busy).samples[i]).at_us <= 2
                * t.config.attribution_lookback_us,
{
    let s: Sample = Sample { at_us: at, dbm_tenths: level };
    let added: Seq<Sample> = with_sample(t.samples, s);
    if t.samples.len() > 0 {
        assert forall|i: int| 0 <= i < t.samples.len() implies #[trigger] t.samples[i].at_us
            <= at by {
            assert(t.samples[i].at_us <= t.samples[t.samples.len() - 1].at_us);
        }
    }
    assert(added.last() == s);
    assert(in_time(added));
    lemma_pruned_in_time(added, less(at as int, 2 * t.config.attribution_lookback_us));
}

/// The times never decrease.
pub open spec fn in_time(samples: Seq<Sample>) -> bool {
    forall|i: int, j: int|
        0 <= i <= j < samples.len() ==> #[trigger] samples[i].at_us <= #[trigger] samples[j].at_us
}

proof fn lemma_pruned_in_time(samples: Seq<Sample>, horizon: int)
    requires
        in_time(samples),
        samples.len() > 0,
        samples.last().at_us >= horizon,
    ensures
        in_time(pruned(samples, horizon)),
        pruned(samples, horizon).len() > 0,
        pruned(samples, horizon).last() == samples.last(),
        forall|i: int|
            0 <= i < pruned(samples, horizon).len() ==> (#[trigger] pruned(
                samples,
                horizon,
            )[i]).at_us >= horizon,
    decreases samples.len(),
{
    if samples[0].at_us < horizon {
        let rest: Seq<Sample> = samples.drop_first();
        assert(samples.len() > 1);
        assert(rest.last() == samples.last());
        assert forall|i: int, j: int| 0 <= i <= j < rest.len() implies #[trigger] rest[i].at_us
            <= #[trigger] rest[j].at_us by {
            assert(samples[i + 1].at_us <= samples[j + 1].at_us);
        }
        lemma_pruned_in_time(rest, horizon);
    }
}

/// The carrier of a transmission was up at a time, as far as a frame that arrived at `until`
/// can tell.
pub open spec fn was_up(w: CarrierWindow, until: u64, at: u64) -> bool {
    &&& w.rise_at_us <= at <= until
    &&& w.fall_at_us matches Some(fall) ==> at <= fall
}

/// The samples that were taken while the carrier of a transmission was up.
pub open spec fn taken_up(samples: Seq<Sample>, w: CarrierWindow, until: u64) -> Seq<Sample> {
    samples.filter(|s: Sample| was_up(w, until, s.at_us))
}

/// The levels of a transmission are those of the samples taken while its carrier was up.
proof fn lemma_levels_in(t: TaggerView, w: CarrierWindow, at: u64)
    ensures
        t.levels_in(w, at) == taken_up(t.samples, w, at).map_values(|s: Sample| s.dbm_tenths),
    decreases t.samples.len(),
{
    reveal(Seq::filter);
    let level = |s: Sample| s.dbm_tenths;
    let up = |s: Sample| was_up(w, at, s.at_us);
    if t.samples.len() > 0 {
        let before: TaggerView = TaggerView { samples: t.samples.drop_last(), ..t };
        lemma_levels_in(before, w, at);
        let picked: Seq<Sample> = t.samples.drop_last().filter(up);
        assert(picked.push(t.samples.last()).map_values(level) =~= picked.map_values(level).push(
            t.samples.last().dbm_tenths,
        ));
    } else {
        assert(t.samples.filter(up).map_values(level) =~= Seq::<i16>::empty());
    }
}

/// What is kept of the samples of a transmission is a sample of it.
proof fn lemma_taken_up(samples: Seq<Sample>, w: CarrierWindow, until: u64)
    ensures
        forall|k: int|
            0 <= k < taken_up(samples, w, until).len() ==> samples.contains(
                #[trigger] taken_up(samples, w, until)[k],
            ) && was_up(w, until, taken_up(samples, w, until)[k].at_us),
        forall|s: Sample| #[trigger]
            samples.contains(s) && was_up(w, until, s.at_us) ==> taken_up(
                samples,
                w,
                until,
            ).contains(s),
    decreases samples.len(),
{
    reveal(Seq::filter);
    if samples.len() > 0 {
        let before: Seq<Sample> = samples.drop_last();
        let last: Sample = samples.last();
        let kept: Seq<Sample> = taken_up(before, w, until);
        lemma_taken_up(before, w, until);
        assert(samples =~= before.push(last));
        assert forall|k: int| 0 <= k < taken_up(samples, w, until).len() implies samples.contains(
            #[trigger] taken_up(samples, w, until)[k],
        ) && was_up(w, until, taken_up(samples, w, until)[k].at_us) by {
            if k < kept.len() {
                let i: int = choose|i: int| 0 <= i < before.len() && before[i] == kept[k];
                assert(before.contains(kept[k]));
                assert(samples[i] == kept[k]);
            } else {
                assert(samples[samples.len() - 1] == last);
            }
        }
        assert forall|s: Sample| #[trigger]
            samples.contains(s) && was_up(w, until, s.at_us) implies taken_up(
            samples,
            w,
            until,
        ).contains(s) by {
            let i: int = choose|i: int| 0 <= i < samples.len() && samples[i] == s;
            if i < before.len() {
                assert(before[i] == s);
                assert(before.contains(s));
                let k: int = choose|k: int| 0 <= k < kept.len() && kept[k] == s;
                assert(taken_up(samples, w, until)[k] == s);
            } else {
                assert(taken_up(samples, w, until)[kept.len() as int] == s);
            }
        }
    }
}

/// What is told of a frame is what was heard while the carrier of its transmission was up:
/// the number of such samples; the weakest and the strongest of them, which bound every
/// other; and their median, than which no more than half are weaker and more than half are
/// no stronger. Without such a sample there is no level.
pub proof fn law_a_level_is_heard_while_the_carrier_is_up(t: TaggerView, at: u64, air: Option<u64>)
    requires
        t.valid(),
        t.attributed_to(at) is Some,
    ensures
        ({
            let w: CarrierWindow = t.window(t.attributed_to(at)->0);
            let heard: Seq<Sample> = taken_up(t.samples, w, at);
            let m: RadioMetadata = t.metadata(at, air)->0;
            let levels: vstd::multiset::Multiset<i16> = heard.map_values(
                |s: Sample| s.dbm_tenths,
            ).to_multiset();
            &&& t.metadata(at, air) is Some
            &&& m.carrier_rise_at_us == Some(w.rise_at_us)
            &&& m.rssi_sample_count == heard.len()
            &&& heard.len() == 0 ==> {
                &&& m.rssi_dbm_tenths is None
                &&& m.rssi_min_dbm_tenths is None
                &&& m.rssi_max_dbm_tenths is None
                &&& m.snr_db_tenths is None
            }
            &&& heard.len() > 0 ==> {
                &&& m.rssi_dbm_tenths is Some
                &&& m.rssi_min_dbm_tenths is Some
                &&& m.rssi_max_dbm_tenths is Some
                &&& exists|s: Sample| #[trigger]
                    t.samples.contains(s) && was_up(w, at, s.at_us) && s.dbm_tenths
                        == m.rssi_dbm_tenths->0
                &&& exists|s: Sample| #[trigger]
                    t.samples.contains(s) && was_up(w, at, s.at_us) && s.dbm_tenths
                        == m.rssi_min_dbm_tenths->0
                &&& exists|s: Sample| #[trigger]
                    t.samples.contains(s) && was_up(w, at, s.at_us) && s.dbm_tenths
                        == m.rssi_max_dbm_tenths->0
                &&& forall|s: Sample| #[trigger]
                    t.samples.contains(s) && was_up(w, at, s.at_us) ==> m.rssi_min_dbm_tenths->0
                        <= s.dbm_tenths <= m.rssi_max_dbm_tenths->0
                &&& levels.filter(|x: i16| x < m.rssi_dbm_tenths->0).len() <= heard.len() / 2
                &&& levels.filter(|x: i16| x <= m.rssi_dbm_tenths->0).len() > heard.len() / 2
            }
        }),
{
    let w: CarrierWindow = t.window(t.attributed_to(at)->0);
    let heard: Seq<Sample> = taken_up(t.samples, w, at);
    let levels: Seq<i16> = t.levels_in(w, at);
    let m: RadioMetadata = t.metadata(at, air)->0;
    lemma_levels_in(t, w, at);
    lemma_taken_up(t.samples, w, at);
    t.samples.lemma_filter_len(|s: Sample| was_up(w, at, s.at_us));
    if heard.len() > 0 {
        levels::law_statistics_bound_the_levels(levels);
        levels::law_the_median_stands_in_the_middle(levels);
        let a: int = choose|k: int| 0 <= k < levels.len() && levels[k] == m.rssi_dbm_tenths->0;
        let b: int = choose|k: int| 0 <= k < levels.len() && levels[k] == m.rssi_min_dbm_tenths->0;
        let c: int = choose|k: int| 0 <= k < levels.len() && levels[k] == m.rssi_max_dbm_tenths->0;
        assert(t.samples.contains(heard[a]));
        assert(t.samples.contains(heard[b]));
        assert(t.samples.contains(heard[c]));
        assert forall|s: Sample| #[trigger]
            t.samples.contains(s) && was_up(w, at, s.at_us) implies m.rssi_min_dbm_tenths->0
            <= s.dbm_tenths <= m.rssi_max_dbm_tenths->0 by {
            let k: int = choose|k: int| 0 <= k < heard.len() && heard[k] == s;
            assert(levels[k] == s.dbm_tenths);
        }
    }
}

/// What the samples of a transmission are does not change by a sample that is none.
proof fn lemma_taken_up_insert(
    samples: Seq<Sample>,
    i: int,
    s: Sample,
    w: CarrierWindow,
    until: u64,
)
    requires
        0 <= i <= samples.len(),
        !was_up(w, until, s.at_us),
    ensures
        taken_up(samples.insert(i, s), w, until) == taken_up(samples, w, until),
    decreases samples.len() - i,
{
    reveal(Seq::filter);
    let more: Seq<Sample> = samples.insert(i, s);
    if i == samples.len() {
        assert(more.drop_last() =~= samples);
    } else {
        assert(more.drop_last() =~= samples.drop_last().insert(i, s));
        assert(more.last() == samples.last());
        lemma_taken_up_insert(samples.drop_last(), i, s, w, until);
    }
}

/// A sample that was not taken while the carrier of its transmission was up, such as one of
/// the idle channel after it fell, changes no level of a frame: whether it is among the
/// samples or not, the level, the extremes and the number of samples are the same.
pub proof fn law_other_samples_change_no_level(
    t: TaggerView,
    i: int,
    s: Sample,
    at: u64,
    air: Option<u64>,
)
    requires
        0 <= i <= t.samples.len(),
        t.attributed_to(at) is Some,
        ({
            let w: CarrierWindow = t.window(t.attributed_to(at)->0);
            ||| s.at_us < w.rise_at_us
            ||| s.at_us > at
            ||| w.fall_at_us matches Some(fall) && s.at_us > fall
        }),
    ensures
        ({
            let with: RadioMetadata = TaggerView {
                samples: t.samples.insert(i, s),
                ..t
            }.metadata(at, air)->0;
            let without: RadioMetadata = t.metadata(at, air)->0;
            &&& with.rssi_dbm_tenths == without.rssi_dbm_tenths
            &&& with.rssi_min_dbm_tenths == without.rssi_min_dbm_tenths
            &&& with.rssi_max_dbm_tenths == without.rssi_max_dbm_tenths
            &&& with.rssi_sample_count == without.rssi_sample_count
            &&& with.snr_db_tenths == without.snr_db_tenths
            &&& with.carrier_rise_at_us == without.carrier_rise_at_us
        }),
{
    let w: CarrierWindow = t.window(t.attributed_to(at)->0);
    let more: TaggerView = TaggerView { samples: t.samples.insert(i, s), ..t };
    lemma_levels_in(t, w, at);
    lemma_levels_in(more, w, at);
    lemma_taken_up_insert(t.samples, i, s, w, at);
}

/// A sample that is taken after the carrier fell changes no level of a frame that is
/// delivered after it: neither the level nor the extremes nor the number of samples, as
/// long as no older sample has to go for it.
pub proof fn law_the_idle_channel_is_no_signal(
    t: TaggerView,
    rise: u64,
    fall: u64,
    later: u64,
    level: i16,
    busy: Option<bool>,
    at: u64,
    air: Option<u64>,
)
    requires
        t.carrier_sense,
        t.valid(),
        t.samples.len() < SAMPLE_CAPACITY,
        forall|i: int|
            0 <= i < t.samples.len() ==> later - (#[trigger] t.samples[i]).at_us <= 2
                * t.config.attribution_lookback_us,
        rise <= at <= fall + t.config.window_attribution_slack_us,
        fall < later,
    ensures
        ({
            let over: TaggerView = t.edged(true, rise).edged(false, fall);
            let before: RadioMetadata = over.metadata(at, air)->0;
            let after: RadioMetadata = over.sampled(later, level, busy).metadata(at, air)->0;
            &&& before.carrier_rise_at_us == Some(rise)
            &&& after.carrier_rise_at_us == Some(rise)
            &&& after.rssi_dbm_tenths == before.rssi_dbm_tenths
            &&& after.rssi_min_dbm_tenths == before.rssi_min_dbm_tenths
            &&& after.rssi_max_dbm_tenths == before.rssi_max_dbm_tenths
            &&& after.rssi_sample_count == before.rssi_sample_count
        }),
{
    let over: TaggerView = t.edged(true, rise).edged(false, fall);
    let s: Sample = Sample { at_us: later, dbm_tenths: level };
    let w: CarrierWindow = CarrierWindow {
        rise_at_us: rise,
        fall_at_us: Some(fall),
        frames_delivered: 0,
    };
    let after: TaggerView = over.sampled(later, level, busy);
    assert(over.windows.last() == w);
    assert(after.windows == over.windows);
    let more: Seq<Sample> = t.samples.push(s);
    assert(more =~= t.samples.insert(t.samples.len() as int, s));
    assert(more.len() > 0 && more[0] == if t.samples.len() > 0 {
        t.samples[0]
    } else {
        s
    });
    assert(after.samples == more);
    lemma_levels_in(over, w, at);
    lemma_levels_in(after, w, at);
    lemma_taken_up_insert(t.samples, t.samples.len() as int, s, w, at);
}

/// What is told of a frame agrees with itself: the level is the noise floor and the distance
/// to it, the distance is told exactly where both are known, and a frame that is attributed
/// to a transmission carries its rise, its own place in it, and, if it is the first and its
/// time on the air is known, the time from the rise to the first bit of its data.
pub proof fn law_what_is_told_of_a_frame_agrees(t: TaggerView, at: u64, air: Option<u64>)
    requires
        t.valid(),
        t.can_attribute(at, air),
    ensures
        t.metadata(at, air) matches Some(m) ==> {
            &&& m.estimated_airtime_us == air
            &&& m.noise_floor_dbm_tenths is Some ==> m.noise_floor_dbm_tenths == t.floor
            &&& m.rssi_dbm_tenths is Some ==> m.noise_floor_dbm_tenths == t.floor
            &&& m.snr_db_tenths is Some <==> m.rssi_dbm_tenths is Some && t.floor is Some
            &&& m.snr_db_tenths matches Some(snr) ==> t.floor->0 + snr == m.rssi_dbm_tenths->0
        },
        t.attributed_to(at) matches Some(place) ==> {
            let w: CarrierWindow = t.window(place);
            let m: RadioMetadata = t.metadata(at, air)->0;
            &&& t.metadata(at, air) is Some
            &&& m.carrier_rise_at_us == Some(w.rise_at_us)
            &&& m.burst_index == Some(w.frames_delivered)
            &&& m.pre_data_carrier_us is Some <==> w.frames_delivered == 0 && air is Some
            &&& m.pre_data_carrier_us matches Some(lead) ==> w.rise_at_us + lead + air->0 == at
        },
{
}

/// A sample is taken for the signal of a frame that arrived at `at` and belongs to no
/// transmission: it was taken shortly before, and its level stands out of the noise floor by
/// the threshold.
pub open spec fn stands_out(t: TaggerView, at: u64, s: Sample) -> bool {
    &&& s.at_us <= at <= s.at_us + t.config.attribution_lookback_us
    &&& t.floor matches Some(floor) ==> floor + t.config.signal_threshold_tenths <= s.dbm_tenths
        || s.dbm_tenths == i16::MAX
}

/// A sample between two times, and of no less than a level if one is given, has this level.
spec fn was_sampled(
    samples: Seq<Sample>,
    from: int,
    to: int,
    least: Option<i16>,
    level: i16,
) -> bool {
    exists|s: Sample| #[trigger]
        samples.contains(s) && s.dbm_tenths == level && from <= s.at_us <= to && (least is Some
            ==> s.dbm_tenths >= least->0)
}

/// The levels between two times are those of the samples between them.
proof fn lemma_between(samples: Seq<Sample>, from: int, to: int, least: Option<i16>)
    ensures
        levels_between(samples, from, to, least).len() <= samples.len(),
        forall|k: int|
            0 <= k < levels_between(samples, from, to, least).len() ==> was_sampled(
                samples,
                from,
                to,
                least,
                #[trigger] levels_between(samples, from, to, least)[k],
            ),
    decreases samples.len(),
{
    if samples.len() > 0 {
        let rest: Seq<Sample> = samples.drop_last();
        let last: Sample = samples.last();
        lemma_between(rest, from, to, least);
        let before: Seq<i16> = levels_between(rest, from, to, least);
        let levels: Seq<i16> = levels_between(samples, from, to, least);
        assert forall|k: int| 0 <= k < levels.len() implies was_sampled(
            samples,
            from,
            to,
            least,
            #[trigger] levels[k],
        ) by {
            if k < before.len() {
                assert(was_sampled(rest, from, to, least, before[k]));
                let s: Sample = choose|s: Sample| #[trigger]
                    rest.contains(s) && s.dbm_tenths == before[k] && from <= s.at_us <= to && (
                    least is Some ==> s.dbm_tenths >= least->0);
                let j: int = choose|j: int| 0 <= j < rest.len() && rest[j] == s;
                assert(samples[j] == s);
                assert(samples.contains(s));
            } else {
                assert(samples[samples.len() - 1] == last);
                assert(samples.contains(last));
            }
        }
    }
}

/// The level of a frame that belongs to no transmission is that of a sample which was taken
/// shortly before it and stands out of the noise floor, and so are the weakest and the
/// strongest. No more samples are counted than there are.
pub proof fn law_a_level_without_a_carrier_stands_out(t: TaggerView, at: u64, air: Option<u64>)
    requires
        t.valid(),
        t.attributed_to(at) is None,
    ensures
        t.metadata(at, air) matches Some(m) ==> {
            &&& m.carrier_rise_at_us is None
            &&& m.burst_index is None
            &&& m.pre_data_carrier_us is None
            &&& m.rssi_sample_count <= t.samples.len()
            &&& m.rssi_dbm_tenths matches Some(level) ==> exists|s: Sample| #[trigger]
                t.samples.contains(s) && stands_out(t, at, s) && s.dbm_tenths == level
            &&& m.rssi_min_dbm_tenths matches Some(level) ==> exists|s: Sample| #[trigger]
                t.samples.contains(s) && stands_out(t, at, s) && s.dbm_tenths == level
            &&& m.rssi_max_dbm_tenths matches Some(level) ==> exists|s: Sample| #[trigger]
                t.samples.contains(s) && stands_out(t, at, s) && s.dbm_tenths == level
        },
{
    let from: int = less(at as int, t.config.attribution_lookback_us as int);
    let levels: Seq<i16> = t.signal_levels(at);
    lemma_between(t.samples, from, at as int, t.least_signal());
    if levels.len() > 0 {
        levels::law_statistics_bound_the_levels(levels);
        let stat: LevelStats = levels::stats_of(levels)->0;
        assert forall|level: i16| #[trigger] levels.contains(level) implies exists|s: Sample|
            #[trigger]
            t.samples.contains(s) && stands_out(t, at, s) && s.dbm_tenths == level by {
            let k: int = choose|k: int| 0 <= k < levels.len() && levels[k] == level;
            assert(was_sampled(t.samples, from, at as int, t.least_signal(), levels[k]));
            let s: Sample = choose|s: Sample| #[trigger]
                t.samples.contains(s) && s.dbm_tenths == levels[k] && from <= s.at_us <= at && (
                t.least_signal() is Some ==> s.dbm_tenths >= t.least_signal()->0);
            assert(t.samples.contains(s) && stands_out(t, at, s) && s.dbm_tenths == level);
        }
        assert(levels.contains(stat.median));
        assert(levels.contains(stat.min));
        assert(levels.contains(stat.max));
    }
}

} // verus!
