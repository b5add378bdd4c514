//! The mutable state of one link: sequence variables, flags, negotiated link
//! parameters, queues and stores.

use std::collections::{BTreeMap, BTreeSet, VecDeque};

use vstd::prelude::*;

use super::quirks::Quirks;

verus! {

/// One payload with its PID, queued for or retained from transmission.
#[derive(Debug, Clone, PartialEq, Eq)]
pub struct Payload {
    /// The information field.
    pub data: Vec<u8>,
    /// The PID octet that goes with it.
    pub pid: u8,
}

/// What a [`Payload`] holds.
pub struct PayloadView {
    pub data: Seq<u8>,
    pub pid: u8,
}

impl View for Payload {
    type V = PayloadView;

    open spec fn view(&self) -> PayloadView {
        PayloadView { data: self.data@, pid: self.pid }
    }
}

impl Payload {
    /// A payload of `data` under `pid`.
    pub fn new(data: Vec<u8>, pid: u8) -> (p: Payload)
        ensures
            p@ == (PayloadView { data: data@, pid }),
    {
        Payload { data, pid }
    }
}

/// A copy of an octet string.
pub fn copied(data: &Vec<u8>) -> (r: Vec<u8>)
    ensures
        r@ == data@,
{
    let r = data.clone();
    assert(r@ =~= data@);
    r
}

/// What a queue of payloads holds.
#[verifier::opaque]
pub open spec fn payload_views(queue: Seq<Payload>) -> Seq<PayloadView> {
    queue.map_values(|p: Payload| p@)
}

proof fn lemma_views_drop_first(queue: Seq<Payload>)
    ensures
        payload_views(queue).len() == queue.len(),
        queue.len() > 0 ==> payload_views(queue)[0] == queue[0]@,
        queue.len() > 0 ==> payload_views(queue.subrange(1, queue.len() as int))
            == payload_views(queue).drop_first(),
{
    reveal(payload_views);
    if queue.len() > 0 {
        assert(payload_views(queue.subrange(1, queue.len() as int)) =~= payload_views(
            queue,
        ).drop_first());
    }
}

/// A queue without its first element, if it has one.
pub open spec fn without_first(queue: Seq<PayloadView>) -> Seq<PayloadView> {
    if queue.len() == 0 {
        queue
    } else {
        queue.drop_first()
    }
}

fn pop_payload(queue: &mut VecDeque<Payload>) -> (r: Option<Payload>)
    ensures
        match r {
            Some(p) => {
                &&& payload_views(old(queue)@).len() > 0
                &&& p@ == payload_views(old(queue)@)[0]
            },
            None => payload_views(old(queue)@).len() == 0,
        },
        payload_views(final(queue)@) == without_first(payload_views(old(queue)@)),
{
    proof {
        lemma_views_drop_first(queue@);
    }
    queue.pop_front()
}

/// The data-link state of one connection. V(S), V(A) and V(R) hold the plain
/// value; the modulus is applied when they are compared or moved.
#[derive(Debug, Clone)]
pub struct SessionContext {
    /// Send state variable V(S): N(S) of the next I frame to send.
    pub vs: u8,
    /// Acknowledge state variable V(A).
    pub va: u8,
    /// Receive state variable V(R): N(S) of the next I frame expected.
    pub vr: u8,
    /// Retry counter.
    pub rc: u32,
    /// Layer 3 is busy and cannot take I frames.
    pub own_receiver_busy: bool,
    /// The peer is busy and cannot take I frames.
    pub peer_receiver_busy: bool,
    /// I frames were received and not yet acknowledged.
    pub acknowledge_pending: bool,
    /// A REJ is outstanding.
    pub reject_exception: bool,
    /// An SREJ is outstanding.
    pub selective_reject_exception: bool,
    /// How many SREJ exceptions are outstanding.
    pub srej_exception_count: u32,
    /// SABM(E) was sent at the request of Layer 3.
    pub layer3_initiated: bool,
    /// Whether inbound connections are accepted.
    pub accept_incoming: bool,
    /// V(S) at entry to `Invoke_Retransmission`.
    pub x: Option<u8>,
    /// T1 expired at least once since the last `Select_T1_Value`.
    pub t1_had_expired: bool,
    /// What remained of T1 when it was last stopped, in ms.
    pub t1_remaining_when_last_stopped_ms: u32,
    /// V(A) advanced since the last T1 expiry.
    pub ack_progress: bool,
    /// Maximum information field length in octets, N1.
    pub n1: u32,
    /// Maximum number of retries, N2.
    pub n2: u32,
    /// Maximum number of outstanding I frames, k.
    pub k: u32,
    /// Modulo 128 rather than modulo 8.
    pub is_extended: bool,
    /// SREJ was negotiated.
    pub srej_enabled: bool,
    /// The segmenter/reassembler was negotiated.
    pub segmenter_reassembler_enabled: bool,
    /// Half-duplex operation.
    pub half_duplex: bool,
    /// Implicit reject is selected rather than selective reject.
    pub implicit_reject: bool,
    /// Duration of T2 in ms.
    pub t2_ms: u32,
    /// Smoothed round-trip time in ms.
    pub srt_ms: u32,
    /// Duration of T1 in ms.
    pub t1v_ms: u32,
    /// Corrections of the figures.
    pub quirks: Quirks,
    /// Payloads that wait for transmission, first in first out.
    pub i_frame_queue: VecDeque<Payload>,
    /// Payloads that were sent, by N(S), kept for retransmission.
    pub sent_i_frames: BTreeMap<u8, Payload>,
    /// Payloads received out of sequence, by N(S).
    pub stored_received_i_frames: BTreeMap<u8, Payload>,
    /// N(S) values that were selectively retransmitted since V(A) last advanced.
    pub selectively_retransmitted_since_ack: BTreeSet<u8>,
}

/// What a [`SessionContext`] holds.
pub struct Link {
    pub vs: u8,
    pub va: u8,
    pub vr: u8,
    pub rc: u32,
    pub own_receiver_busy: bool,
    pub peer_receiver_busy: bool,
    pub acknowledge_pending: bool,
    pub reject_exception: bool,
    pub selective_reject_exception: bool,
    pub srej_exception_count: u32,
    pub layer3_initiated: bool,
    pub accept_incoming: bool,
    pub x: Option<u8>,
    pub t1_had_expired: bool,
    pub t1_remaining_when_last_stopped_ms: u32,
    pub ack_progress: bool,
    pub n1: u32,
    pub n2: u32,
    pub k: u32,
    pub is_extended: bool,
    pub srej_enabled: bool,
    pub segmenter_reassembler_enabled: bool,
    pub half_duplex: bool,
    pub implicit_reject: bool,
    pub t2_ms: u32,
    pub srt_ms: u32,
    pub t1v_ms: u32,
    pub quirks: Quirks,
    pub i_frame_queue: Seq<PayloadView>,
    pub sent_i_frames: Map<u8, PayloadView>,
    pub stored_received_i_frames: Map<u8, PayloadView>,
    pub selectively_retransmitted_since_ack: Set<u8>,
}

/// What a store of payloads holds.
#[verifier::opaque]
pub open spec fn payloads(store: Map<u8, Payload>) -> Map<u8, PayloadView> {
    store.map_values(|p: Payload| p@)
}

/// What the calls on a store of payloads do to what it holds.
pub proof fn lemma_payloads(store: Map<u8, Payload>, key: u8, value: Payload)
    ensures
        payloads(store.insert(key, value)) == payloads(store).insert(key, value@),
        payloads(store.remove(key)) == payloads(store).remove(key),
        payloads(store).contains_key(key) == store.contains_key(key),
        store.contains_key(key) ==> payloads(store)[key] == store[key]@,
        payloads(Map::empty()) == Map::<u8, PayloadView>::empty(),
        payloads(store).is_empty() == store.is_empty(),
{
    reveal(payloads);
    assert(payloads(store.insert(key, value)) =~= payloads(store).insert(key, value@));
    assert(payloads(store.remove(key)) =~= payloads(store).remove(key));
    assert(payloads(Map::empty()) =~= Map::<u8, PayloadView>::empty());
    if store.is_empty() {
        assert(payloads(store) =~= Map::empty());
    }
    if payloads(store).is_empty() {
        assert forall|k: u8| !store.contains_key(k) by {
            assert(store.contains_key(k) == payloads(store).contains_key(k));
        }
        assert(store =~= Map::empty());
    }
}

impl View for SessionContext {
    type V = Link;

    open spec fn view(&self) -> Link {
        self.link()
    }
}

impl SessionContext {
    /// What the context holds.
    #[verifier::opaque]
    pub open spec fn link(&self) -> Link {
        Link {
            vs: self.vs,
            va: self.va,
            vr: self.vr,
            rc: self.rc,
            own_receiver_busy: self.own_receiver_busy,
            peer_receiver_busy: self.peer_receiver_busy,
            acknowledge_pending: self.acknowledge_pending,
            reject_exception: self.reject_exception,
            selective_reject_exception: self.selective_reject_exception,
            srej_exception_count: self.srej_exception_count,
            layer3_initiated: self.layer3_initiated,
            accept_incoming: self.accept_incoming,
            x: self.x,
            t1_had_expired: self.t1_had_expired,
            t1_remaining_when_last_stopped_ms: self.t1_remaining_when_last_stopped_ms,
            ack_progress: self.ack_progress,
            n1: self.n1,
            n2: self.n2,
            k: self.k,
            is_extended: self.is_extended,
            srej_enabled: self.srej_enabled,
            segmenter_reassembler_enabled: self.segmenter_reassembler_enabled,
            half_duplex: self.half_duplex,
            implicit_reject: self.implicit_reject,
            t2_ms: self.t2_ms,
            srt_ms: self.srt_ms,
            t1v_ms: self.t1v_ms,
            quirks: self.quirks,
            i_frame_queue: payload_views(self.i_frame_queue@),
            sent_i_frames: payloads(self.sent_i_frames@),
            stored_received_i_frames: payloads(self.stored_received_i_frames@),
            selectively_retransmitted_since_ack: self.selectively_retransmitted_since_ack@,
        }
    }
}

/// One change of the flags, variables and parameters of a link.
#[derive(Debug, Clone, Copy, PartialEq, Eq, Structural)]
pub enum Edit {
    /// V(S).
    Vs(u8),
    /// V(A).
    Va(u8),
    /// V(R).
    Vr(u8),
    /// The retry counter.
    Rc(u32),
    /// Own receiver busy.
    OwnBusy(bool),
    /// Peer receiver busy.
    PeerBusy(bool),
    /// Acknowledge pending.
    AckPending(bool),
    /// Reject exception.
    Reject(bool),
    /// Layer 3 initiated.
    Layer3(bool),
    /// The retransmission mark.
    X(Option<u8>),
    /// T1 had expired.
    T1Expired(bool),
    /// What remained of T1 when it was stopped.
    T1Left(u32),
    /// V(A) advanced since the last T1 expiry.
    AckProgress(bool),
    /// N1.
    N1(u32),
    /// N2.
    N2(u32),
    /// k.
    K(u32),
    /// Modulo 128.
    Extended(bool),
    /// The segmenter/reassembler.
    Segmenter(bool),
    /// Half duplex.
    HalfDuplex(bool),
    /// The duration of T2.
    T2(u32),
    /// The smoothed round-trip time.
    Srt(u32),
    /// The duration of T1.
    T1v(u32),
    /// How many SREJ exceptions are outstanding, and the flag that goes with them.
    Sreject(u32, bool),
    /// Selective rather than implicit reject.
    SelectiveReject(bool),
    /// A new duration of T1 that answers its expiry.
    Backoff(u32),
    /// A new smoothed round-trip time that consumes the sample of T1.
    RoundTrip(u32),
}

/// How many steps lead forward from `from` to `to` on a ring of `modulus`
/// sequence numbers.
pub open spec fn steps_ahead(from: u8, to: u8, modulus: int) -> int {
    (to - from) % modulus
}

/// Whether `ns` lies in the window `[low, high)` on the ring.
pub open spec fn in_window(low: u8, ns: u8, high: u8, modulus: int) -> bool {
    steps_ahead(low, ns, modulus) < steps_ahead(low, high, modulus)
}

/// The part of a store whose sequence numbers lie in the window `[low, high)`.
pub open spec fn within(
    store: Map<u8, PayloadView>,
    low: u8,
    high: u8,
    modulus: int,
) -> Map<u8, PayloadView> {
    store.restrict(Set::new(|ns: u8| in_window(low, ns, high, modulus)))
}

fn keep_window(store: &mut BTreeMap<u8, Payload>, low: u8, high: u8, wide: bool)
    ensures
        payloads(final(store)@) == within(payloads(old(store)@), low, high, if wide {
            128
        } else {
            8
        }),
{
    let ghost m: int = if wide {
        128
    } else {
        8
    };
    let ghost before: Map<u8, PayloadView> = payloads(store@);
    let mut ns: u16 = 0;
    while ns < 256
        invariant
            ns <= 256,
            m == if wide {
                128int
            } else {
                8int
            },
            before == payloads(old(store)@),
            forall|key: u8| #[trigger]
                payloads(store@).contains_key(key) <==> (before.contains_key(key) && (key >= ns
                    || in_window(low, key, high, m))),
            forall|key: u8| #[trigger]
                payloads(store@).contains_key(key) ==> payloads(store@)[key] == before[key],
        decreases 256 - ns,
    {
        let key: u8 = ns as u8;
        if ring_distance(low, key, wide) >= ring_distance(low, high, wide) {
            proof {
                lemma_payloads(store@, key, arbitrary());
            }
            store.remove(&key);
        }
        ns = ns + 1;
    }
    assert(payloads(store@) =~= within(before, low, high, m));
}

fn ring_distance(from: u8, to: u8, wide: bool) -> (r: u16)
    ensures
        r == steps_ahead(from, to, if wide {
            128
        } else {
            8
        }),
{
    proof {
        let m: int = if wide {
            128
        } else {
            8
        };
        vstd::arithmetic::div_mod::lemma_sub_mod_noop(to as int, from as int, m);
        vstd::arithmetic::div_mod::lemma_mod_add_multiples_vanish(
            (to as int) % m - (from as int) % m,
            m,
        );
    }
    if wide {
        ((to as u16) % 128 + 128 - (from as u16) % 128) % 128
    } else {
        ((to as u16) % 8 + 8 - (from as u16) % 8) % 8
    }
}

impl Link {
    /// The modulus of the sequence numbers.
    pub open spec fn modulus(self) -> int {
        if self.is_extended {
            128
        } else {
            8
        }
    }

    /// The sequence number after `value`.
    pub open spec fn next_seq(self, value: u8) -> u8 {
        ((value + 1) % self.modulus()) as u8
    }

    /// The sequence number before `value`.
    pub open spec fn prior_seq(self, value: u8) -> u8 {
        ((value - 1) % self.modulus()) as u8
    }

    /// How many frames were sent and not acknowledged.
    pub open spec fn outstanding(self) -> int {
        steps_ahead(self.va, self.vs, self.modulus())
    }

    /// Whether `ns` lies in the window `[V(A), V(S))`.
    pub open spec fn awaits_ack(self, ns: u8) -> bool {
        in_window(self.va, ns, self.vs, self.modulus())
    }

    /// The window that is in force: k, but at most half the modulus under SREJ
    /// where the clamp is on.
    pub open spec fn window(self) -> u32 {
        let half: u32 = (self.modulus() / 2) as u32;
        if self.quirks.clamp_srej_window_to_half_modulus && self.srej_enabled && half < self.k {
            half
        } else {
            self.k
        }
    }

    /// The retained frames that still await an acknowledgement.
    pub open spec fn unacknowledged(self) -> Map<u8, PayloadView> {
        within(self.sent_i_frames, self.va, self.vs, self.modulus())
    }

    /// The link after one change.
    #[verifier::opaque]
    pub open spec fn edited(self, edit: Edit) -> Link {
        match edit {
            Edit::Vs(value) => self.with_vs(value),
            Edit::Va(value) => self.with_va(value),
            Edit::Vr(value) => self.with_vr(value),
            Edit::Rc(value) => self.with_rc(value),
            Edit::OwnBusy(value) => self.with_own_busy(value),
            Edit::PeerBusy(value) => self.with_peer_busy(value),
            Edit::AckPending(value) => self.with_ack_pending(value),
            Edit::Reject(value) => self.with_reject(value),
            Edit::Layer3(value) => self.with_layer3(value),
            Edit::X(value) => self.with_x(value),
            Edit::T1Expired(value) => self.with_t1_expired(value),
            Edit::T1Left(value) => self.with_t1_left(value),
            Edit::AckProgress(value) => self.with_ack_progress(value),
            Edit::N1(value) => self.with_n1(value),
            Edit::N2(value) => self.with_n2(value),
            Edit::K(value) => self.with_k(value),
            Edit::Extended(value) => self.with_extended(value),
            Edit::Segmenter(value) => self.with_segmenter(value),
            Edit::HalfDuplex(value) => self.with_half_duplex(value),
            Edit::T2(value) => self.with_t2(value),
            Edit::Srt(value) => self.with_srt(value),
            Edit::T1v(value) => self.with_t1v(value),
            Edit::Sreject(count, flag) => self.with_sreject(count, flag),
            Edit::SelectiveReject(on) => self.with_selective_reject(on),
            Edit::Backoff(t1v_ms) => self.with_backoff(t1v_ms),
            Edit::RoundTrip(srt_ms) => self.with_round_trip(srt_ms),
        }
    }

    #[verifier::opaque]
    pub open spec fn with_vs(self, value: u8) -> Link {
        Link { vs: value, ..self }
    }

    #[verifier::opaque]
    pub open spec fn with_va(self, value: u8) -> Link {
        Link { va: value, ..self }
    }

    #[verifier::opaque]
    pub open spec fn with_vr(self, value: u8) -> Link {
        Link { vr: value, ..self }
    }

    #[verifier::opaque]
    pub open spec fn with_rc(self, value: u32) -> Link {
        Link { rc: value, ..self }
    }

    #[verifier::opaque]
    pub open spec fn with_own_busy(self, value: bool) -> Link {
        Link { own_receiver_busy: value, ..self }
    }

    #[verifier::opaque]
    pub open spec fn with_peer_busy(self, value: bool) -> Link {
        Link { peer_receiver_busy: value, ..self }
    }

    #[verifier::opaque]
    pub open spec fn with_ack_pending(self, value: bool) -> Link {
        Link { acknowledge_pending: value, ..self }
    }

    #[verifier::opaque]
    pub open spec fn with_reject(self, value: bool) -> Link {
        Link { reject_exception: value, ..self }
    }

    #[verifier::opaque]
    pub open spec fn with_layer3(self, value: bool) -> Link {
        Link { layer3_initiated: value, ..self }
    }

    #[verifier::opaque]
    pub open spec fn with_x(self, value: Option<u8>) -> Link {
        Link { x: value, ..self }
    }

    #[verifier::opaque]
    pub open spec fn with_t1_expired(self, value: bool) -> Link {
        Link { t1_had_expired: value, ..self }
    }

    #[verifier::opaque]
    pub open spec fn with_t1_left(self, value: u32) -> Link {
        Link { t1_remaining_when_last_stopped_ms: value, ..self }
    }

    #[verifier::opaque]
    pub open spec fn with_ack_progress(self, value: bool) -> Link {
        Link { ack_progress: value, ..self }
    }

    #[verifier::opaque]
    pub open spec fn with_n1(self, value: u32) -> Link {
        Link { n1: value, ..self }
    }

    #[verifier::opaque]
    pub open spec fn with_n2(self, value: u32) -> Link {
        Link { n2: value, ..self }
    }

    #[verifier::opaque]
    pub open spec fn with_k(self, value: u32) -> Link {
        Link { k: value, ..self }
    }

    #[verifier::opaque]
    pub open spec fn with_extended(self, value: bool) -> Link {
        Link { is_extended: value, ..self }
    }

    #[verifier::opaque]
    pub open spec fn with_segmenter(self, value: bool) -> Link {
        Link { segmenter_reassembler_enabled: value, ..self }
    }

    #[verifier::opaque]
    pub open spec fn with_half_duplex(self, value: bool) -> Link {
        Link { half_duplex: value, ..self }
    }

    #[verifier::opaque]
    pub open spec fn with_t2(self, value: u32) -> Link {
        Link { t2_ms: value, ..self }
    }

    #[verifier::opaque]
    pub open spec fn with_srt(self, value: u32) -> Link {
        Link { srt_ms: value, ..self }
    }

    #[verifier::opaque]
    pub open spec fn with_t1v(self, value: u32) -> Link {
        Link { t1v_ms: value, ..self }
    }

    #[verifier::opaque]
    pub open spec fn with_sreject(self, count: u32, flag: bool) -> Link {
        Link {
            srej_exception_count: count,
            selective_reject_exception: flag,
            ..self
        }
    }

    #[verifier::opaque]
    pub open spec fn with_selective_reject(self, on: bool) -> Link {
        Link { srej_enabled: on, implicit_reject: !on, ..self }
    }

    #[verifier::opaque]
    pub open spec fn with_backoff(self, t1v_ms: u32) -> Link {
        Link { t1v_ms, t1_had_expired: false, ..self }
    }

    #[verifier::opaque]
    pub open spec fn with_round_trip(self, srt_ms: u32) -> Link {
        Link {
            srt_ms,
            t1_had_expired: false,
            t1_remaining_when_last_stopped_ms: 0,
            ..self
        }
    }

    /// The link with a payload kept under `ns` for retransmission. A mark of an
    /// earlier replay at that number is void.
    #[verifier::opaque]
    pub open spec fn retained(self, ns: u8, payload: PayloadView) -> Link {
        Link {
            sent_i_frames: self.sent_i_frames.insert(ns, payload),
            selectively_retransmitted_since_ack: self.selectively_retransmitted_since_ack.remove(
                ns,
            ),
            ..self
        }
    }

    /// The link with `ns` marked as selectively retransmitted.
    #[verifier::opaque]
    pub open spec fn replayed(self, ns: u8) -> Link {
        Link {
            selectively_retransmitted_since_ack: self.selectively_retransmitted_since_ack.insert(
                ns,
            ),
            ..self
        }
    }

    /// The link with a payload stored under `ns` until its turn comes.
    #[verifier::opaque]
    pub open spec fn stored(self, ns: u8, payload: PayloadView) -> Link {
        Link {
            stored_received_i_frames: self.stored_received_i_frames.insert(ns, payload),
            ..self
        }
    }

    /// The link without the stored payload of V(R).
    #[verifier::opaque]
    pub open spec fn unstored(self) -> Link {
        Link {
            stored_received_i_frames: self.stored_received_i_frames.remove(self.vr),
            ..self
        }
    }

    /// The link without the retained frames that are acknowledged.
    #[verifier::opaque]
    pub open spec fn pruned(self) -> Link {
        Link { sent_i_frames: self.unacknowledged(), ..self }
    }

    /// The link after V(A) took the value `nr`. An advance clears the marks of
    /// selective replays and drops the frames that are now acknowledged.
    #[verifier::opaque]
    pub open spec fn acknowledged(self, nr: u8) -> Link {
        if nr == self.va {
            self
        } else {
            Link {
                va: nr,
                selectively_retransmitted_since_ack: Set::empty(),
                sent_i_frames: within(self.sent_i_frames, nr, self.vs, self.modulus()),
                ack_progress: true,
                ..self
            }
        }
    }

    /// The same link with another transmit queue.
    #[verifier::opaque]
    pub open spec fn with_queue(self, queue: Seq<PayloadView>) -> Link {
        Link { i_frame_queue: queue, ..self }
    }

    /// The link without the first payload of its transmit queue.
    pub open spec fn unqueued(self) -> Link {
        self.with_queue(without_first(self.i_frame_queue))
    }

    /// A link with the default parameters and nothing in progress.
    pub open spec fn fresh() -> Link {
        Link {
            vs: 0,
            va: 0,
            vr: 0,
            rc: 0,
            own_receiver_busy: false,
            peer_receiver_busy: false,
            acknowledge_pending: false,
            reject_exception: false,
            selective_reject_exception: false,
            srej_exception_count: 0,
            layer3_initiated: false,
            accept_incoming: true,
            x: None,
            t1_had_expired: false,
            t1_remaining_when_last_stopped_ms: 0,
            ack_progress: false,
            n1: 256,
            n2: 10,
            k: 4,
            is_extended: false,
            srej_enabled: false,
            segmenter_reassembler_enabled: false,
            half_duplex: true,
            implicit_reject: true,
            t2_ms: 3000,
            srt_ms: 3000,
            t1v_ms: 6000,
            quirks: Quirks::all_on(),
            i_frame_queue: Seq::empty(),
            sent_i_frames: Map::empty(),
            stored_received_i_frames: Map::empty(),
            selectively_retransmitted_since_ack: Set::empty(),
        }
    }

    /// The same link parameters with nothing in progress.
    pub open spec fn restarted(self) -> Link {
        Link {
            accept_incoming: self.accept_incoming,
            n1: self.n1,
            n2: self.n2,
            k: self.k,
            is_extended: self.is_extended,
            srej_enabled: self.srej_enabled,
            segmenter_reassembler_enabled: self.segmenter_reassembler_enabled,
            half_duplex: self.half_duplex,
            implicit_reject: self.implicit_reject,
            t2_ms: self.t2_ms,
            srt_ms: self.srt_ms,
            t1v_ms: self.t1v_ms,
            quirks: self.quirks,
            ..Link::fresh()
        }
    }
}

impl Default for SessionContext {
    fn default() -> (c: SessionContext)
        ensures
            c@ == Link::fresh(),
    {
        let c = SessionContext {
            vs: 0,
            va: 0,
            vr: 0,
            rc: 0,
            own_receiver_busy: false,
            peer_receiver_busy: false,
            acknowledge_pending: false,
            reject_exception: false,
            selective_reject_exception: false,
            srej_exception_count: 0,
            layer3_initiated: false,
            accept_incoming: true,
            x: None,
            t1_had_expired: false,
            t1_remaining_when_last_stopped_ms: 0,
            ack_progress: false,
            n1: 256,
            n2: 10,
            k: 4,
            is_extended: false,
            srej_enabled: false,
            segmenter_reassembler_enabled: false,
            half_duplex: true,
            implicit_reject: true,
            t2_ms: 3000,
            srt_ms: 3000,
            t1v_ms: 6000,
            quirks: Quirks::default(),
            i_frame_queue: VecDeque::new(),
            sent_i_frames: BTreeMap::new(),
            stored_received_i_frames: BTreeMap::new(),
            selectively_retransmitted_since_ack: BTreeSet::new(),
        };
        reveal(SessionContext::link);
        reveal(payload_views);
        assert(c@.i_frame_queue =~= Link::fresh().i_frame_queue);
        reveal(payloads);
        assert(c@.sent_i_frames =~= Link::fresh().sent_i_frames);
        c
    }
}

impl SessionContext {
    /// A context with the default link parameters.
    pub fn new() -> (c: SessionContext)
        ensures
            c@ == Link::fresh(),
    {
        SessionContext::default()
    }

    /// The modulus of the sequence numbers: 8 or 128.
    pub fn modulus(&self) -> (m: u16)
        ensures
            m == self@.modulus(),
    {
        reveal(SessionContext::link);
        if self.is_extended {
            128
        } else {
            8
        }
    }

    /// The sequence number after `value`.
    pub fn increment_seq(&self, value: u8) -> (r: u8)
        ensures
            r == self@.next_seq(value),
    {
        reveal(SessionContext::link);
        let m: u16 = self.modulus();
        (((value as u16) + 1) % m) as u8
    }

    /// The sequence number before `value`.
    pub fn decrement_seq(&self, value: u8) -> (r: u8)
        ensures
            r == self@.prior_seq(value),
    {
        reveal(SessionContext::link);
        let m: u16 = self.modulus();
        (((value as u16) + m - 1) % m) as u8
    }

    /// How many steps lead forward from `from` to `to` on the ring.
    pub fn distance(&self, from: u8, to: u8) -> (r: u16)
        ensures
            r == steps_ahead(from, to, self@.modulus()),
    {
        reveal(SessionContext::link);
        ring_distance(from, to, self.is_extended)
    }

    /// Whether `ns` was sent and awaits an acknowledgement. Replaying a frame
    /// outside this window would put a stale N(S) on the wire.
    pub fn is_outstanding(&self, ns: u8) -> (r: bool)
        ensures
            r == self@.awaits_ack(ns),
    {
        reveal(SessionContext::link);
        self.distance(self.va, ns) < self.distance(self.va, self.vs)
    }

    /// How many I frames were sent and not acknowledged.
    pub fn outstanding_count(&self) -> (r: u16)
        ensures
            r == self@.outstanding(),
    {
        reveal(SessionContext::link);
        self.distance(self.va, self.vs)
    }

    /// The window that is in force.
    pub fn effective_window(&self) -> (r: u32)
        ensures
            r == self@.window(),
    {
        reveal(SessionContext::link);
        let half: u32 = (self.modulus() / 2) as u32;
        if self.quirks.clamp_srej_window_to_half_modulus && self.srej_enabled && half < self.k {
            half
        } else {
            self.k
        }
    }

    /// Drops every retained frame that no longer awaits an acknowledgement, so
    /// that a late REJ or SREJ cannot replay it.
    pub fn prune_acknowledged_sent_i_frames(&mut self)
        ensures
            final(self)@ == old(self)@.pruned(),
    {
        reveal(SessionContext::link);
        reveal(Link::pruned);
        keep_window(&mut self.sent_i_frames, self.va, self.vs, self.is_extended);
    }

    /// Puts sequence variables, flags and queues back to a fresh connection. The
    /// negotiated link parameters stay.
    pub fn reset_state(&mut self)
        ensures
            final(self)@ == old(self)@.restarted(),
    {
        reveal(SessionContext::link);
        self.vs = 0;
        self.va = 0;
        self.vr = 0;
        self.rc = 0;
        self.own_receiver_busy = false;
        self.peer_receiver_busy = false;
        self.acknowledge_pending = false;
        self.reject_exception = false;
        self.selective_reject_exception = false;
        self.srej_exception_count = 0;
        self.layer3_initiated = false;
        self.x = None;
        self.t1_had_expired = false;
        self.t1_remaining_when_last_stopped_ms = 0;
        self.ack_progress = false;
        self.i_frame_queue.clear();
        self.sent_i_frames.clear();
        self.stored_received_i_frames.clear();
        self.selectively_retransmitted_since_ack.clear();
        reveal(payload_views);
        assert(self@.i_frame_queue =~= Link::fresh().i_frame_queue);
        reveal(payloads);
        assert(self@.sent_i_frames =~= Link::fresh().sent_i_frames);
    }

    /// Appends a payload to the transmit queue.
    pub fn enqueue(&mut self, payload: Payload)
        ensures
            final(self)@ == old(self)@.with_queue(old(self)@.i_frame_queue.push(payload@)),
    {
        reveal(SessionContext::link);
        reveal(Link::with_queue);
        self.i_frame_queue.push_back(payload);
        reveal(payload_views);
        assert(payload_views(self.i_frame_queue@) =~= payload_views(
            old(self).i_frame_queue@,
        ).push(payload@));
    }

    /// Takes the first payload off the transmit queue.
    pub fn dequeue(&mut self) -> (r: Option<Payload>)
        ensures
            r is Some <==> old(self)@.i_frame_queue.len() > 0,
            r matches Some(p) ==> p@ == old(self)@.i_frame_queue[0],
            final(self)@ == old(self)@.unqueued(),
    {
        reveal(SessionContext::link);
        reveal(Link::with_queue);
        pop_payload(&mut self.i_frame_queue)
    }

    /// Whether nothing waits in the transmit queue.
    pub fn queue_is_empty(&self) -> (r: bool)
        ensures
            r == (self@.i_frame_queue.len() == 0),
    {
        reveal(SessionContext::link);
        proof {
            lemma_views_drop_first(self.i_frame_queue@);
        }
        self.i_frame_queue.len() == 0
    }

    /// Empties the transmit queue.
    pub fn discard_queue(&mut self)
        ensures
            final(self)@ == old(self)@.with_queue(Seq::empty()),
    {
        reveal(SessionContext::link);
        reveal(Link::with_queue);
        self.i_frame_queue.clear();
        reveal(payload_views);
        assert(payload_views(self.i_frame_queue@) =~= Seq::<PayloadView>::empty());
    }

    /// Retains a payload that goes out at `ns`.
    pub fn retain_sent(&mut self, ns: u8, payload: Payload)
        ensures
            final(self)@ == old(self)@.retained(ns, payload@),
    {
        reveal(SessionContext::link);
        reveal(Link::retained);
        proof {
            lemma_payloads(self.sent_i_frames@, ns, payload);
        }
        self.sent_i_frames.insert(ns, payload);
        self.selectively_retransmitted_since_ack.remove(&ns);
        assert(self.selectively_retransmitted_since_ack@
            =~= old(self).selectively_retransmitted_since_ack@.remove(ns));
    }

    /// A copy of the payload that was sent at `ns`.
    pub fn sent_at(&self, ns: u8) -> (r: Option<Payload>)
        ensures
            match r {
                Some(p) => self@.sent_i_frames.contains_key(ns) && p@ == self@.sent_i_frames[ns],
                None => !self@.sent_i_frames.contains_key(ns),
            },
    {
        reveal(SessionContext::link);
        proof {
            lemma_payloads(self.sent_i_frames@, ns, arbitrary());
        }
        match self.sent_i_frames.get(&ns) {
            Some(p) => Some(Payload::new(copied(&p.data), p.pid)),
            None => None,
        }
    }

    /// Marks `ns` as selectively retransmitted. Says whether the mark is new.
    pub fn mark_replayed(&mut self, ns: u8) -> (fresh: bool)
        ensures
            fresh == !old(self)@.selectively_retransmitted_since_ack.contains(ns),
            final(self)@ == old(self)@.replayed(ns),
    {
        reveal(SessionContext::link);
        reveal(Link::replayed);
        let fresh = self.selectively_retransmitted_since_ack.insert(ns);
        assert(self.selectively_retransmitted_since_ack@
            =~= old(self).selectively_retransmitted_since_ack@.insert(ns));
        fresh
    }

    /// V(A) takes the value `nr`.
    pub fn acknowledge(&mut self, nr: u8)
        ensures
            final(self)@ == old(self)@.acknowledged(nr),
    {
        reveal(SessionContext::link);
        reveal(Link::acknowledged);
        if nr != self.va {
            self.va = nr;
            self.ack_progress = true;
            self.selectively_retransmitted_since_ack.clear();
            keep_window(&mut self.sent_i_frames, nr, self.vs, self.is_extended);
        }
    }

    /// Stores a payload that arrived out of sequence at `ns`.
    pub fn store_received(&mut self, ns: u8, payload: Payload)
        ensures
            final(self)@ == old(self)@.stored(ns, payload@),
    {
        reveal(SessionContext::link);
        reveal(Link::stored);
        proof {
            lemma_payloads(self.stored_received_i_frames@, ns, payload);
        }
        self.stored_received_i_frames.insert(ns, payload);
    }

    /// Takes the stored payload of V(R) out of the store.
    pub fn take_stored(&mut self) -> (r: Option<Payload>)
        ensures
            r is Some <==> old(self)@.stored_received_i_frames.contains_key(old(self)@.vr),
            r matches Some(p) ==> p@ == old(self)@.stored_received_i_frames[old(self)@.vr],
            final(self)@ == old(self)@.unstored(),
    {
        reveal(SessionContext::link);
        reveal(Link::unstored);
        let vr: u8 = self.vr;
        proof {
            lemma_payloads(self.stored_received_i_frames@, vr, arbitrary());
        }
        self.stored_received_i_frames.remove(&vr)
    }
}

impl SessionContext {
    /// Makes one change of the flags, variables and parameters.
    pub fn edit(&mut self, edit: Edit)
        ensures
            final(self)@ == old(self)@.edited(edit),
    {
        match edit {
            Edit::Vs(value) => self.edit_vs(value),
            Edit::Va(value) => self.edit_va(value),
            Edit::Vr(value) => self.edit_vr(value),
            Edit::Rc(value) => self.edit_rc(value),
            Edit::OwnBusy(value) => self.edit_own_receiver_busy(value),
            Edit::PeerBusy(value) => self.edit_peer_receiver_busy(value),
            Edit::AckPending(value) => self.edit_acknowledge_pending(value),
            Edit::Reject(value) => self.edit_reject_exception(value),
            Edit::Layer3(value) => self.edit_layer3_initiated(value),
            Edit::X(value) => self.edit_x(value),
            Edit::T1Expired(value) => self.edit_t1_had_expired(value),
            Edit::T1Left(value) => self.edit_t1_remaining_when_last_stopped_ms(value),
            Edit::AckProgress(value) => self.edit_ack_progress(value),
            Edit::N1(value) => self.edit_n1(value),
            Edit::N2(value) => self.edit_n2(value),
            Edit::K(value) => self.edit_k(value),
            Edit::Extended(value) => self.edit_is_extended(value),
            Edit::Segmenter(value) => self.edit_segmenter_reassembler_enabled(value),
            Edit::HalfDuplex(value) => self.edit_half_duplex(value),
            Edit::T2(value) => self.edit_t2_ms(value),
            Edit::Srt(value) => self.edit_srt_ms(value),
            Edit::T1v(value) => self.edit_t1v_ms(value),
            Edit::Sreject(count, flag) => self.edit_sreject(count, flag),
            Edit::SelectiveReject(on) => self.edit_selective_reject(on),
            Edit::Backoff(t1v_ms) => self.edit_backoff(t1v_ms),
            Edit::RoundTrip(srt_ms) => self.edit_round_trip(srt_ms),
        }
    }

    fn edit_vs(&mut self, value: u8)
        ensures
            final(self)@ == old(self)@.edited(Edit::Vs(value)),
    {
        reveal(SessionContext::link);
        reveal(Link::edited);
        reveal(Link::with_vs);
        self.vs = value;
    }

    fn edit_va(&mut self, value: u8)
        ensures
            final(self)@ == old(self)@.edited(Edit::Va(value)),
    {
        reveal(SessionContext::link);
        reveal(Link::edited);
        reveal(Link::with_va);
        self.va = value;
    }

    fn edit_vr(&mut self, value: u8)
        ensures
            final(self)@ == old(self)@.edited(Edit::Vr(value)),
    {
        reveal(SessionContext::link);
        reveal(Link::edited);
        reveal(Link::with_vr);
        self.vr = value;
    }

    fn edit_rc(&mut self, value: u32)
        ensures
            final(self)@ == old(self)@.edited(Edit::Rc(value)),
    {
        reveal(SessionContext::link);
        reveal(Link::edited);
        reveal(Link::with_rc);
        self.rc = value;
    }

    fn edit_own_receiver_busy(&mut self, value: bool)
        ensures
            final(self)@ == old(self)@.edited(Edit::OwnBusy(value)),
    {
        reveal(SessionContext::link);
        reveal(Link::edited);
        reveal(Link::with_own_busy);
        self.own_receiver_busy = value;
    }

    fn edit_peer_receiver_busy(&mut self, value: bool)
        ensures
            final(self)@ == old(self)@.edited(Edit::PeerBusy(value)),
    {
        reveal(SessionContext::link);
        reveal(Link::edited);
        reveal(Link::with_peer_busy);
        self.peer_receiver_busy = value;
    }

    fn edit_acknowledge_pending(&mut self, value: bool)
        ensures
            final(self)@ == old(self)@.edited(Edit::AckPending(value)),
    {
        reveal(SessionContext::link);
        reveal(Link::edited);
        reveal(Link::with_ack_pending);
        self.acknowledge_pending = value;
    }

    fn edit_reject_exception(&mut self, value: bool)
        ensures
            final(self)@ == old(self)@.edited(Edit::Reject(value)),
    {
        reveal(SessionContext::link);
        reveal(Link::edited);
        reveal(Link::with_reject);
        self.reject_exception = value;
    }

    fn edit_layer3_initiated(&mut self, value: bool)
        ensures
            final(self)@ == old(self)@.edited(Edit::Layer3(value)),
    {
        reveal(SessionContext::link);
        reveal(Link::edited);
        reveal(Link::with_layer3);
        self.layer3_initiated = value;
    }

    fn edit_x(&mut self, value: Option<u8>)
        ensures
            final(self)@ == old(self)@.edited(Edit::X(value)),
    {
        reveal(SessionContext::link);
        reveal(Link::edited);
        reveal(Link::with_x);
        self.x = value;
    }

    fn edit_t1_had_expired(&mut self, value: bool)
        ensures
            final(self)@ == old(self)@.edited(Edit::T1Expired(value)),
    {
        reveal(SessionContext::link);
        reveal(Link::edited);
        reveal(Link::with_t1_expired);
        self.t1_had_expired = value;
    }

    fn edit_t1_remaining_when_last_stopped_ms(&mut self, value: u32)
        ensures
            final(self)@ == old(self)@.edited(Edit::T1Left(value)),
    {
        reveal(SessionContext::link);
        reveal(Link::edited);
        reveal(Link::with_t1_left);
        self.t1_remaining_when_last_stopped_ms = value;
    }

    fn edit_ack_progress(&mut self, value: bool)
        ensures
            final(self)@ == old(self)@.edited(Edit::AckProgress(value)),
    {
        reveal(SessionContext::link);
        reveal(Link::edited);
        reveal(Link::with_ack_progress);
        self.ack_progress = value;
    }

    fn edit_n1(&mut self, value: u32)
        ensures
            final(self)@ == old(self)@.edited(Edit::N1(value)),
    {
        reveal(SessionContext::link);
        reveal(Link::edited);
        reveal(Link::with_n1);
        self.n1 = value;
    }

    fn edit_n2(&mut self, value: u32)
        ensures
            final(self)@ == old(self)@.edited(Edit::N2(value)),
    {
        reveal(SessionContext::link);
        reveal(Link::edited);
        reveal(Link::with_n2);
        self.n2 = value;
    }

    fn edit_k(&mut self, value: u32)
        ensures
            final(self)@ == old(self)@.edited(Edit::K(value)),
    {
        reveal(SessionContext::link);
        reveal(Link::edited);
        reveal(Link::with_k);
        self.k = value;
    }

    fn edit_is_extended(&mut self, value: bool)
        ensures
            final(self)@ == old(self)@.edited(Edit::Extended(value)),
    {
        reveal(SessionContext::link);
        reveal(Link::edited);
        reveal(Link::with_extended);
        self.is_extended = value;
    }

    fn edit_segmenter_reassembler_enabled(&mut self, value: bool)
        ensures
            final(self)@ == old(self)@.edited(Edit::Segmenter(value)),
    {
        reveal(SessionContext::link);
        reveal(Link::edited);
        reveal(Link::with_segmenter);
        self.segmenter_reassembler_enabled = value;
    }

    fn edit_half_duplex(&mut self, value: bool)
        ensures
            final(self)@ == old(self)@.edited(Edit::HalfDuplex(value)),
    {
        reveal(SessionContext::link);
        reveal(Link::edited);
        reveal(Link::with_half_duplex);
        self.half_duplex = value;
    }

    fn edit_t2_ms(&mut self, value: u32)
        ensures
            final(self)@ == old(self)@.edited(Edit::T2(value)),
    {
        reveal(SessionContext::link);
        reveal(Link::edited);
        reveal(Link::with_t2);
        self.t2_ms = value;
    }

    fn edit_srt_ms(&mut self, value: u32)
        ensures
            final(self)@ == old(self)@.edited(Edit::Srt(value)),
    {
        reveal(SessionContext::link);
        reveal(Link::edited);
        reveal(Link::with_srt);
        self.srt_ms = value;
    }

    fn edit_t1v_ms(&mut self, value: u32)
        ensures
            final(self)@ == old(self)@.edited(Edit::T1v(value)),
    {
        reveal(SessionContext::link);
        reveal(Link::edited);
        reveal(Link::with_t1v);
        self.t1v_ms = value;
    }

    fn edit_sreject(&mut self, count: u32, flag: bool)
        ensures
            final(self)@ == old(self)@.edited(Edit::Sreject(count, flag)),
    {
        reveal(SessionContext::link);
        reveal(Link::edited);
        reveal(Link::with_sreject);
        self.srej_exception_count = count;
        self.selective_reject_exception = flag;
    }

    fn edit_selective_reject(&mut self, on: bool)
        ensures
            final(self)@ == old(self)@.edited(Edit::SelectiveReject(on)),
    {
        reveal(SessionContext::link);
        reveal(Link::edited);
        reveal(Link::with_selective_reject);
        self.srej_enabled = on;
        self.implicit_reject = !on;
    }

    fn edit_backoff(&mut self, t1v_ms: u32)
        ensures
            final(self)@ == old(self)@.edited(Edit::Backoff(t1v_ms)),
    {
        reveal(SessionContext::link);
        reveal(Link::edited);
        reveal(Link::with_backoff);
        self.t1v_ms = t1v_ms;
        self.t1_had_expired = false;
    }

    fn edit_round_trip(&mut self, srt_ms: u32)
        ensures
            final(self)@ == old(self)@.edited(Edit::RoundTrip(srt_ms)),
    {
        reveal(SessionContext::link);
        reveal(Link::edited);
        reveal(Link::with_round_trip);
        self.srt_ms = srt_ms;
        self.t1_had_expired = false;
        self.t1_remaining_when_last_stopped_ms = 0;
    }
}

/// Marking a frame a second time changes nothing.
pub proof fn lemma_replayed_twice(link: Link, ns: u8)
    requires
        link.selectively_retransmitted_since_ack.contains(ns),
    ensures
        link.replayed(ns) == link,
{
    reveal(Link::replayed);
    assert(link.selectively_retransmitted_since_ack.insert(ns)
        =~= link.selectively_retransmitted_since_ack);
}

/// Taking a stored frame that is not there changes nothing.
pub proof fn lemma_nothing_stored(link: Link)
    requires
        !link.stored_received_i_frames.contains_key(link.vr),
    ensures
        link.unstored() == link,
{
    reveal(Link::unstored);
    assert(link.stored_received_i_frames.remove(link.vr) =~= link.stored_received_i_frames);
}

/// The fields of a context are those of the link that it holds.
pub proof fn lemma_fields(ctx: SessionContext)
    ensures
        ctx@.vs == ctx.vs,
        ctx@.va == ctx.va,
        ctx@.vr == ctx.vr,
        ctx@.rc == ctx.rc,
        ctx@.own_receiver_busy == ctx.own_receiver_busy,
        ctx@.peer_receiver_busy == ctx.peer_receiver_busy,
        ctx@.acknowledge_pending == ctx.acknowledge_pending,
        ctx@.reject_exception == ctx.reject_exception,
        ctx@.selective_reject_exception == ctx.selective_reject_exception,
        ctx@.srej_exception_count == ctx.srej_exception_count,
        ctx@.layer3_initiated == ctx.layer3_initiated,
        ctx@.accept_incoming == ctx.accept_incoming,
        ctx@.x == ctx.x,
        ctx@.t1_had_expired == ctx.t1_had_expired,
        ctx@.t1_remaining_when_last_stopped_ms == ctx.t1_remaining_when_last_stopped_ms,
        ctx@.ack_progress == ctx.ack_progress,
        ctx@.n1 == ctx.n1,
        ctx@.n2 == ctx.n2,
        ctx@.k == ctx.k,
        ctx@.is_extended == ctx.is_extended,
        ctx@.srej_enabled == ctx.srej_enabled,
        ctx@.segmenter_reassembler_enabled == ctx.segmenter_reassembler_enabled,
        ctx@.half_duplex == ctx.half_duplex,
        ctx@.implicit_reject == ctx.implicit_reject,
        ctx@.t2_ms == ctx.t2_ms,
        ctx@.srt_ms == ctx.srt_ms,
        ctx@.t1v_ms == ctx.t1v_ms,
        ctx@.quirks == ctx.quirks,
        ctx@.i_frame_queue == payload_views(ctx.i_frame_queue@),
        ctx@.sent_i_frames == payloads(ctx.sent_i_frames@),
        ctx@.stored_received_i_frames == payloads(ctx.stored_received_i_frames@),
        ctx@.selectively_retransmitted_since_ack == ctx.selectively_retransmitted_since_ack@,
{
    reveal(SessionContext::link);
}

/// Stepping forward and back again lands on the same sequence number, for every
/// number that the modulus allows.
#[verifier::spinoff_prover]
pub proof fn law_next_and_prior_are_inverse(link: Link, value: u8)
    requires
        value < link.modulus(),
    ensures
        link.prior_seq(link.next_seq(value)) == value,
        link.next_seq(link.prior_seq(value)) == value,
        link.next_seq(value) < link.modulus(),
        link.prior_seq(value) < link.modulus(),
{
}

/// V(S) itself never awaits an acknowledgement, and V(A) does exactly when
/// something is outstanding.
pub proof fn law_window_ends(link: Link)
    ensures
        !link.awaits_ack(link.vs),
        link.awaits_ack(link.va) <==> link.outstanding() > 0,
        0 <= link.outstanding() < link.modulus(),
{
}

/// Under SREJ with the clamp on, at most half the ring is ever in flight.
pub proof fn law_srej_window_is_at_most_half(link: Link)
    requires
        link.quirks.clamp_srej_window_to_half_modulus,
        link.srej_enabled,
    ensures
        link.window() * 2 <= link.modulus(),
        link.window() <= link.k,
{
}

/// Pruning keeps exactly the frames that await an acknowledgement, and pruning
/// again changes nothing.
pub proof fn law_pruning_keeps_what_awaits(link: Link)
    ensures
        forall|ns: u8| #[trigger]
            link.pruned().sent_i_frames.contains_key(ns) <==> link.sent_i_frames.contains_key(ns)
                && link.awaits_ack(ns),
        forall|ns: u8| #[trigger]
            link.pruned().sent_i_frames.contains_key(ns) ==> link.pruned().sent_i_frames[ns]
                == link.sent_i_frames[ns],
        link.pruned().pruned() == link.pruned(),
{
    reveal(Link::pruned);
    assert(link.pruned().unacknowledged() =~= link.unacknowledged());
}

/// After V(A) advanced nothing that is retained lies outside the new window, and
/// every frame may be replayed selectively once more.
pub proof fn law_acknowledgement_prunes(link: Link, nr: u8)
    requires
        nr != link.va,
    ensures
        link.acknowledged(nr).va == nr,
        link.acknowledged(nr).selectively_retransmitted_since_ack == Set::<u8>::empty(),
        forall|ns: u8| #[trigger]
            link.acknowledged(nr).sent_i_frames.contains_key(ns) <==> (
            link.sent_i_frames.contains_key(ns) && link.acknowledged(nr).awaits_ack(ns)),
{
    reveal(Link::acknowledged);
}

/// A reset leaves the negotiated parameters and clears everything in progress,
/// and a second reset changes nothing.
pub proof fn law_reset_is_idempotent(link: Link)
    ensures
        link.restarted().restarted() == link.restarted(),
        link.restarted().outstanding() == 0,
        link.restarted().vr == 0 && link.restarted().rc == 0,
        link.restarted().i_frame_queue.len() == 0,
        link.restarted().sent_i_frames == Map::<u8, PayloadView>::empty(),
        link.restarted().stored_received_i_frames == Map::<u8, PayloadView>::empty(),
        link.restarted().window() == link.window(),
        link.restarted().n1 == link.n1 && link.restarted().n2 == link.n2,
        link.restarted().is_extended == link.is_extended,
        link.restarted().srej_enabled == link.srej_enabled,
{
}

} // verus!
