//! What is known of each neighbour: whether it takes the extended connect and whether
//! it answers an XID command before the connect.
//!
//! A dial is planned from what was learned, and what the dial showed is learned in
//! turn. What was learned is forgotten after thirty days, in case the peer has changed.
//! The cache has a fixed number of slots; when all are taken, the record that was
//! probed longest ago makes room.

use vstd::prelude::*;

use crate::ax25::callsign::{Callsign, CallsignView};

verus! {

/// How long a learned answer counts, in ms: thirty days.
pub const STALE_AFTER_MS: u64 = 2_592_000_000;

/// How a peer is dialled that nothing is known of.
#[derive(Debug, Clone, Copy, PartialEq, Eq, Structural)]
pub enum PeerDialPolicy {
    /// Between nodes: the plain connect, and an XID command before it.
    Interlink,
    /// For a user: the extended connect.
    UserConnect,
}

/// How to dial a peer.
#[derive(Debug, Clone, Copy, PartialEq, Eq, Structural)]
pub struct PeerDialPlan {
    /// The extended connect rather than the plain one.
    pub extended: bool,
    /// An XID command before the connect.
    pub pre_connect_xid: bool,
}

/// What is known of one neighbour on one port.
#[derive(Debug, Clone, Copy, PartialEq, Eq)]
pub struct PeerCapabilityRecord {
    /// The port.
    pub port_id: u8,
    /// The neighbour.
    pub peer: Callsign,
    /// Whether it takes the extended connect, if that was ever tried.
    pub supports_extended: Option<bool>,
    /// Whether it answers an XID command with selective reject, if that was ever
    /// tried.
    pub supports_srej_via_xid: Option<bool>,
    /// When it was last dialled.
    pub last_probed_ms: u64,
    /// When it last refused the extended connect.
    pub last_refused_ms: Option<u64>,
}

/// What a record says.
pub struct RecordView {
    pub port_id: u8,
    pub peer: CallsignView,
    pub supports_extended: Option<bool>,
    pub supports_srej_via_xid: Option<bool>,
    pub last_probed_ms: u64,
    pub last_refused_ms: Option<u64>,
}

impl View for PeerCapabilityRecord {
    type V = RecordView;

    open spec fn view(&self) -> RecordView {
        RecordView {
            port_id: self.port_id,
            peer: self.peer@,
            supports_extended: self.supports_extended,
            supports_srej_via_xid: self.supports_srej_via_xid,
            last_probed_ms: self.last_probed_ms,
            last_refused_ms: self.last_refused_ms,
        }
    }
}

/// What a slot holds.
pub open spec fn slot_view(slot: Option<PeerCapabilityRecord>) -> Option<RecordView> {
    match slot {
        Some(r) => Some(r@),
        None => None,
    }
}

/// The cache: `N` slots, each empty or with one record.
#[derive(Debug)]
pub struct PeerCapabilityCache<const N: usize> {
    records: Vec<Option<PeerCapabilityRecord>>,
}

impl<const N: usize> View for PeerCapabilityCache<N> {
    type V = Seq<Option<RecordView>>;

    closed spec fn view(&self) -> Seq<Option<RecordView>> {
        slot_views(self.records@)
    }
}

/// What slots hold.
pub open spec fn slot_views(records: Seq<Option<PeerCapabilityRecord>>) -> Seq<
    Option<RecordView>,
> {
    records.map_values(|s: Option<PeerCapabilityRecord>| slot_view(s))
}

/// Puts `slot` in the place `i`.
fn set_slot(
    records: &mut Vec<Option<PeerCapabilityRecord>>,
    i: usize,
    slot: Option<PeerCapabilityRecord>,
)
    requires
        i < old(records)@.len(),
    ensures
        final(records)@ == old(records)@.update(i as int, slot),
        slot_views(final(records)@) == slot_views(old(records)@).update(i as int, slot_view(slot)),
    no_unwind
{
    let mut slot: Option<PeerCapabilityRecord> = slot;
    std::mem::swap(&mut records[i], &mut slot);
    assert(slot_views(records@) =~= slot_views(old(records)@).update(
        i as int,
        slot_view(records@[i as int]),
    ));
}

/// The slot holds the record of this neighbour on this port.
pub open spec fn is_of(slot: Option<RecordView>, port: u8, peer: CallsignView) -> bool {
    slot matches Some(r) && r.port_id == port && r.peer == peer
}

/// The first slot from index `i` on with the record of a neighbour.
pub open spec fn slot_of(
    slots: Seq<Option<RecordView>>,
    port: u8,
    peer: CallsignView,
    i: int,
) -> Option<int>
    decreases slots.len() - i,
{
    if i < 0 || i >= slots.len() {
        None
    } else if is_of(slots[i], port, peer) {
        Some(i)
    } else {
        slot_of(slots, port, peer, i + 1)
    }
}

/// The first empty slot from index `i` on.
pub open spec fn empty_slot(slots: Seq<Option<RecordView>>, i: int) -> Option<int>
    decreases slots.len() - i,
{
    if i < 0 || i >= slots.len() {
        None
    } else if slots[i] is None {
        Some(i)
    } else {
        empty_slot(slots, i + 1)
    }
}

/// The record of a neighbour, if there is one.
pub open spec fn record_of(slots: Seq<Option<RecordView>>, port: u8, peer: CallsignView) -> Option<
    RecordView,
> {
    match slot_of(slots, port, peer, 0) {
        Some(i) => slots[i],
        None => None,
    }
}

/// Among the first `n` slots, all taken, the one that was probed longest ago; of
/// several, the last.
pub open spec fn oldest(slots: Seq<Option<RecordView>>, n: int) -> int
    decreases n,
{
    if n <= 1 {
        0
    } else {
        let before: int = oldest(slots, n - 1);
        if slots[n - 1]->0.last_probed_ms <= slots[before]->0.last_probed_ms {
            n - 1
        } else {
            before
        }
    }
}

/// The slot that a record goes to: that of its neighbour, else an empty one, else the
/// one that was probed longest ago.
pub open spec fn place_for(slots: Seq<Option<RecordView>>, rec: RecordView) -> int {
    match slot_of(slots, rec.port_id, rec.peer, 0) {
        Some(i) => i,
        None => match empty_slot(slots, 0) {
            Some(i) => i,
            None => oldest(slots, slots.len() as int),
        },
    }
}

/// The records in the first `n` slots, in order.
pub open spec fn occupied(slots: Seq<Option<RecordView>>, n: int) -> Seq<RecordView>
    decreases n,
{
    if n <= 0 {
        Seq::empty()
    } else {
        match slots[n - 1] {
            Some(r) => occupied(slots, n - 1).push(r),
            None => occupied(slots, n - 1),
        }
    }
}

/// What was learned counts: there is an answer, and it is recent.
pub open spec fn is_fresh(
    rec: Option<RecordView>,
    dimension: Option<bool>,
    now_ms: u64,
) -> bool {
    rec matches Some(r) && dimension is Some && now_ms - r.last_probed_ms < STALE_AFTER_MS
}

/// How to dial, given what is known and how a peer is dialled that nothing is known
/// of.
pub open spec fn planned(
    rec: Option<RecordView>,
    policy: PeerDialPolicy,
    now_ms: u64,
) -> PeerDialPlan {
    let ext: Option<bool> = match rec {
        Some(r) => r.supports_extended,
        None => None,
    };
    let srej: Option<bool> = match rec {
        Some(r) => r.supports_srej_via_xid,
        None => None,
    };
    let extended: bool = if is_fresh(rec, ext, now_ms) {
        ext->0
    } else {
        policy is UserConnect
    };
    PeerDialPlan {
        extended,
        pre_connect_xid: !extended && !(is_fresh(rec, srej, now_ms) && srej == Some(false)),
    }
}

/// What is known after a dial. What the dial did not try stays as it was.
pub open spec fn learned(
    existing: Option<RecordView>,
    port: u8,
    peer: CallsignView,
    dialed_extended: bool,
    observed_is_extended: bool,
    dialed_pre_connect_xid: bool,
    observed_srej_enabled: bool,
    now_ms: u64,
) -> RecordView {
    RecordView {
        port_id: port,
        peer,
        supports_extended: if dialed_extended {
            Some(observed_is_extended)
        } else {
            match existing {
                Some(r) => r.supports_extended,
                None => None,
            }
        },
        supports_srej_via_xid: if dialed_pre_connect_xid {
            Some(observed_srej_enabled)
        } else {
            match existing {
                Some(r) => r.supports_srej_via_xid,
                None => None,
            }
        },
        last_probed_ms: now_ms,
        last_refused_ms: if dialed_extended && !observed_is_extended {
            Some(now_ms)
        } else {
            match existing {
                Some(r) => r.last_refused_ms,
                None => None,
            }
        },
    }
}

/// No neighbour has two records on one port.
pub open spec fn distinct(slots: Seq<Option<RecordView>>) -> bool {
    forall|i: int, j: int|
        0 <= i < j < slots.len() && (#[trigger] slots[i]) is Some ==> !is_of(
            #[trigger] slots[j],
            slots[i]->0.port_id,
            slots[i]->0.peer,
        )
}

/// The cache with a record put in its place.
pub open spec fn with_record(slots: Seq<Option<RecordView>>, rec: RecordView) -> Seq<
    Option<RecordView>,
> {
    slots.update(place_for(slots, rec), Some(rec))
}

/// The cache without the record of a neighbour.
pub open spec fn without_record(
    slots: Seq<Option<RecordView>>,
    port: u8,
    peer: CallsignView,
) -> Seq<Option<RecordView>> {
    match slot_of(slots, port, peer, 0) {
        Some(i) => slots.update(i, None),
        None => slots,
    }
}

proof fn lemma_slot_of(slots: Seq<Option<RecordView>>, port: u8, peer: CallsignView, i: int)
    requires
        0 <= i,
    ensures
        match slot_of(slots, port, peer, i) {
            Some(k) => {
                &&& i <= k < slots.len()
                &&& is_of(slots[k], port, peer)
                &&& forall|j: int| i <= j < k ==> !is_of(#[trigger] slots[j], port, peer)
            },
            None => forall|j: int|
                i <= j < slots.len() ==> !is_of(#[trigger] slots[j], port, peer),
        },
    decreases slots.len() - i,
{
    if i < slots.len() && !is_of(slots[i], port, peer) {
        lemma_slot_of(slots, port, peer, i + 1);
    }
}

proof fn lemma_empty_slot(slots: Seq<Option<RecordView>>, i: int)
    requires
        0 <= i,
    ensures
        match empty_slot(slots, i) {
            Some(k) => i <= k < slots.len() && slots[k] is None,
            None => forall|j: int| i <= j < slots.len() ==> (#[trigger] slots[j]) is Some,
        },
    decreases slots.len() - i,
{
    if i < slots.len() && slots[i] is Some {
        lemma_empty_slot(slots, i + 1);
    }
}

proof fn lemma_oldest(slots: Seq<Option<RecordView>>, n: int)
    requires
        1 <= n <= slots.len(),
    ensures
        0 <= oldest(slots, n) < n,
        forall|j: int|
            0 <= j < n ==> slots[oldest(slots, n)]->0.last_probed_ms <= (
            #[trigger] slots[j])->0.last_probed_ms,
    decreases n,
{
    if n > 1 {
        lemma_oldest(slots, n - 1);
    }
}

/// The place of a record is a slot of the cache; a record of another neighbour that
/// stood there was probed no later than any other.
proof fn lemma_place_for(slots: Seq<Option<RecordView>>, rec: RecordView)
    requires
        slots.len() > 0,
    ensures
        0 <= place_for(slots, rec) < slots.len(),
        ({
            let p: int = place_for(slots, rec);
            slots[p] is Some && !is_of(slots[p], rec.port_id, rec.peer) ==> {
                &&& forall|j: int| 0 <= j < slots.len() ==> (#[trigger] slots[j]) is Some
                &&& forall|j: int|
                    0 <= j < slots.len() ==> slots[p]->0.last_probed_ms <= (
                    #[trigger] slots[j])->0.last_probed_ms
            }
        }),
{
    lemma_slot_of(slots, rec.port_id, rec.peer, 0);
    lemma_empty_slot(slots, 0);
    lemma_oldest(slots, slots.len() as int);
}

/// What was just learned of a neighbour is what is looked up of it.
pub proof fn law_learned_is_looked_up(slots: Seq<Option<RecordView>>, rec: RecordView)
    requires
        slots.len() > 0,
        distinct(slots),
    ensures
        record_of(with_record(slots, rec), rec.port_id, rec.peer) == Some(rec),
        distinct(with_record(slots, rec)),
        with_record(slots, rec).len() == slots.len(),
{
    let p: int = place_for(slots, rec);
    let after: Seq<Option<RecordView>> = with_record(slots, rec);
    lemma_place_for(slots, rec);
    lemma_slot_of(slots, rec.port_id, rec.peer, 0);
    assert forall|j: int| 0 <= j < slots.len() && j != p implies !is_of(
        #[trigger] after[j],
        rec.port_id,
        rec.peer,
    ) by {
        assert(after[j] == slots[j]);
        match slot_of(slots, rec.port_id, rec.peer, 0) {
            Some(k) => {
                assert(p == k);
                if k < j {
                    assert(slots[k] is Some);
                }
            },
            None => {},
        }
    }
    lemma_slot_of(after, rec.port_id, rec.peer, 0);
    assert(is_of(after[p], rec.port_id, rec.peer));
    assert(slot_of(after, rec.port_id, rec.peer, 0) == Some(p));
    assert forall|i: int, j: int| 0 <= i < j < after.len() && (#[trigger] after[i]) is Some implies
        !is_of(#[trigger] after[j], after[i]->0.port_id, after[i]->0.peer) by {
        if i == p {
        } else if j == p {
            assert(!is_of(after[i], rec.port_id, rec.peer));
        } else {
            assert(after[i] == slots[i] && after[j] == slots[j]);
        }
    }
}

/// Learning of one neighbour changes nothing of another, unless the cache was full, the
/// neighbour new, and the other the one that was probed longest ago.
pub proof fn law_others_are_kept(
    slots: Seq<Option<RecordView>>,
    rec: RecordView,
    port: u8,
    peer: CallsignView,
)
    requires
        slots.len() > 0,
        distinct(slots),
        port != rec.port_id || peer != rec.peer,
    ensures
        record_of(with_record(slots, rec), port, peer) == record_of(slots, port, peer) || {
            &&& record_of(slots, rec.port_id, rec.peer) is None
            &&& forall|j: int| 0 <= j < slots.len() ==> (#[trigger] slots[j]) is Some
            &&& record_of(slots, port, peer) matches Some(gone) && forall|j: int|
                0 <= j < slots.len() ==> gone.last_probed_ms <= (
                #[trigger] slots[j])->0.last_probed_ms
        },
{
    let p: int = place_for(slots, rec);
    let after: Seq<Option<RecordView>> = with_record(slots, rec);
    lemma_place_for(slots, rec);
    lemma_slot_of(slots, rec.port_id, rec.peer, 0);
    lemma_slot_of(slots, port, peer, 0);
    lemma_slot_of(after, port, peer, 0);
    match slot_of(slots, port, peer, 0) {
        Some(k) => {
            if k != p {
                assert(after[k] == slots[k]);
                let m: int = slot_of(after, port, peer, 0)->0;
                assert(m != p);
                assert(after[m] == slots[m]);
                if m != k {
                    assert(slots[m] is Some && slots[k] is Some);
                }
            }
        },
        None => {
            match slot_of(after, port, peer, 0) {
                Some(m) => {
                    if m != p {
                        assert(after[m] == slots[m]);
                    }
                },
                None => {},
            }
        },
    }
}

/// Every record has a slot.
proof fn lemma_occupied(slots: Seq<Option<RecordView>>, n: int)
    requires
        0 <= n,
    ensures
        occupied(slots, n).len() <= n,
    decreases n,
{
    if n > 0 {
        lemma_occupied(slots, n - 1);
    }
}

/// No neighbour has a second record to be forgotten.
proof fn lemma_forgotten(slots: Seq<Option<RecordView>>, port: u8, peer: CallsignView)
    requires
        distinct(slots),
    ensures
        record_of(without_record(slots, port, peer), port, peer) is None,
        distinct(without_record(slots, port, peer)),
{
    let after: Seq<Option<RecordView>> = without_record(slots, port, peer);
    lemma_slot_of(slots, port, peer, 0);
    lemma_slot_of(after, port, peer, 0);
    if let Some(k) = slot_of(slots, port, peer, 0) {
        assert forall|j: int| 0 <= j < after.len() implies !is_of(
            #[trigger] after[j],
            port,
            peer,
        ) by {
            if j != k {
                assert(after[j] == slots[j]);
                if j > k {
                    assert(slots[k] is Some);
                }
            }
        }
        assert forall|i: int, j: int|
            0 <= i < j < after.len() && (#[trigger] after[i]) is Some implies !is_of(
            #[trigger] after[j],
            after[i]->0.port_id,
            after[i]->0.peer,
        ) by {
            assert(after[i] == slots[i]);
            if j != k {
                assert(after[j] == slots[j]);
            }
        }
    }
}

/// A neighbour that was forgotten is not looked up any more, and the others are.
pub proof fn law_forgotten_is_gone(
    slots: Seq<Option<RecordView>>,
    port: u8,
    peer: CallsignView,
    other_port: u8,
    other: CallsignView,
)
    requires
        distinct(slots),
        other_port != port || other != peer,
    ensures
        record_of(without_record(slots, port, peer), port, peer) is None,
        record_of(without_record(slots, port, peer), other_port, other) == record_of(
            slots,
            other_port,
            other,
        ),
        distinct(without_record(slots, port, peer)),
{
    let after: Seq<Option<RecordView>> = without_record(slots, port, peer);
    lemma_forgotten(slots, port, peer);
    lemma_slot_of(slots, port, peer, 0);
    lemma_slot_of(slots, other_port, other, 0);
    lemma_slot_of(after, other_port, other, 0);
    if let Some(k) = slot_of(slots, port, peer, 0) {
        if let Some(m) = slot_of(slots, other_port, other, 0) {
            assert(after[m] == slots[m]);
            let q: int = slot_of(after, other_port, other, 0)->0;
            assert(after[q] == slots[q]);
            if q != m {
                assert(slots[q] is Some && slots[m] is Some);
            }
        } else if let Some(q) = slot_of(after, other_port, other, 0) {
            assert(after[q] == slots[q]);
        }
    }
}

/// A dial teaches only what it tried.
pub proof fn law_dials_teach_what_they_try(
    existing: RecordView,
    observed_is_extended: bool,
    observed_srej_enabled: bool,
    now_ms: u64,
)
    ensures
        ({
            let plain: RecordView = learned(
                Some(existing),
                existing.port_id,
                existing.peer,
                false,
                observed_is_extended,
                true,
                observed_srej_enabled,
                now_ms,
            );
            let extended: RecordView = learned(
                Some(existing),
                existing.port_id,
                existing.peer,
                true,
                observed_is_extended,
                false,
                observed_srej_enabled,
                now_ms,
            );
            &&& plain.supports_extended == existing.supports_extended
            &&& plain.last_refused_ms == existing.last_refused_ms
            &&& extended.supports_srej_via_xid == existing.supports_srej_via_xid
        }),
{
}

/// A plan never does both: the XID command goes before the plain connect only.
pub proof fn law_plans_are_one_or_the_other(
    rec: Option<RecordView>,
    policy: PeerDialPolicy,
    now_ms: u64,
)
    ensures
        !(planned(rec, policy, now_ms).extended && planned(rec, policy, now_ms).pre_connect_xid),
{
}

impl<const N: usize> Default for PeerCapabilityCache<N> {
    fn default() -> (c: PeerCapabilityCache<N>)
        ensures
            c@ == Seq::new(N as nat, |i: int| None::<RecordView>),
    {
        PeerCapabilityCache::new()
    }
}

impl<const N: usize> PeerCapabilityCache<N> {
    /// There are `N` slots, and no neighbour has two records on one port.
    #[verifier::type_invariant]
    pub open spec fn well_formed(self) -> bool {
        &&& self@.len() == N
        &&& distinct(self@)
    }

    /// A cache with `N` empty slots.
    pub fn new() -> (c: PeerCapabilityCache<N>)
        ensures
            c@ == Seq::new(N as nat, |i: int| None::<RecordView>),
    {
        let mut records: Vec<Option<PeerCapabilityRecord>> = Vec::new();
        let mut i: usize = 0;
        while i < N
            invariant
                i <= N,
                records@.len() == i,
                forall|k: int| 0 <= k < i ==> (#[trigger] records@[k]) is None,
            decreases N - i,
        {
            records.push(None);
            i = i + 1;
        }
        assert(slot_views(records@) =~= Seq::new(N as nat, |i: int| None::<RecordView>));
        PeerCapabilityCache { records }
    }

    /// How to dial `peer` on `port_id` at the time `now_ms`. A recent answer decides;
    /// without one, the policy does.
    pub fn plan_dial(
        &self,
        port_id: u8,
        peer: &Callsign,
        policy: PeerDialPolicy,
        now_ms: u64,
    ) -> (p: PeerDialPlan)
        ensures
            p == planned(record_of(self@, port_id, peer@), policy, now_ms),
    {
        let mut extended: bool = match policy {
            PeerDialPolicy::UserConnect => true,
            PeerDialPolicy::Interlink => false,
        };
        let mut non_answerer: bool = false;
        match self.lookup(port_id, peer) {
            Some(rec) => {
                if recent(rec.last_probed_ms, now_ms) {
                    match rec.supports_extended {
                        Some(answer) => {
                            extended = answer;
                        },
                        None => {},
                    }
                    match rec.supports_srej_via_xid {
                        Some(answer) => {
                            non_answerer = !answer;
                        },
                        None => {},
                    }
                }
            },
            None => {},
        }
        PeerDialPlan { extended, pre_connect_xid: !extended && !non_answerer }
    }

    /// Learns what a dial showed. What the dial did not try stays as it was.
    pub fn record_outcome(
        &mut self,
        port_id: u8,
        peer: Callsign,
        dialed_extended: bool,
        observed_is_extended: bool,
        dialed_pre_connect_xid: bool,
        observed_srej_enabled: bool,
        now_ms: u64,
    )
        requires
            N > 0,
        ensures
            ({
                let rec: RecordView = learned(
                    record_of(old(self)@, port_id, peer@),
                    port_id,
                    peer@,
                    dialed_extended,
                    observed_is_extended,
                    dialed_pre_connect_xid,
                    observed_srej_enabled,
                    now_ms,
                );
                &&& final(self)@ == with_record(old(self)@, rec)
                &&& record_of(final(self)@, port_id, peer@) == Some(rec)
            }),
    {
        let existing: Option<PeerCapabilityRecord> = match self.lookup(port_id, &peer) {
            Some(rec) => Some(*rec),
            None => None,
        };
        let mut supports_extended: Option<bool> = None;
        let mut supports_srej_via_xid: Option<bool> = None;
        let mut last_refused_ms: Option<u64> = None;
        match existing {
            Some(r) => {
                supports_extended = r.supports_extended;
                supports_srej_via_xid = r.supports_srej_via_xid;
                last_refused_ms = r.last_refused_ms;
            },
            None => {},
        }
        if dialed_extended {
            supports_extended = Some(observed_is_extended);
            if !observed_is_extended {
                last_refused_ms = Some(now_ms);
            }
        }
        if dialed_pre_connect_xid {
            supports_srej_via_xid = Some(observed_srej_enabled);
        }
        self.upsert(
            PeerCapabilityRecord {
                port_id,
                peer,
                supports_extended,
                supports_srej_via_xid,
                last_probed_ms: now_ms,
                last_refused_ms,
            },
        );
    }

    /// Forgets a neighbour on a port, and says whether anything was known of it.
    pub fn forget(&mut self, port_id: u8, peer: &Callsign) -> (r: bool)
        ensures
            final(self)@ == without_record(old(self)@, port_id, peer@),
            r == (record_of(old(self)@, port_id, peer@) is Some),
            record_of(final(self)@, port_id, peer@) is None,
    {
        match self.index_of(port_id, peer) {
            Some(i) => {
                proof {
                    use_type_invariant(&*self);
                    lemma_forgotten(self@, port_id, peer@);
                }
                set_slot(&mut self.records, i, None);
                true
            },
            None => false,
        }
    }

    /// Every record, in the order of the slots.
    pub fn iter(&self) -> (r: Vec<PeerCapabilityRecord>)
        ensures
            r@.map_values(|x: PeerCapabilityRecord| x@) == occupied(self@, self@.len() as int),
    {
        let mut out: Vec<PeerCapabilityRecord> = Vec::new();
        let mut i: usize = 0;
        assert(out@.map_values(|x: PeerCapabilityRecord| x@) =~= Seq::<RecordView>::empty());
        while i < self.records.len()
            invariant
                i <= self.records@.len(),
                out@.map_values(|x: PeerCapabilityRecord| x@) == occupied(self@, i as int),
            decreases self.records@.len() - i,
        {
            let slot = self.records[i];
            assert(self@[i as int] == slot_view(slot));
            match slot {
                Some(rec) => {
                    let ghost before = out@.map_values(|x: PeerCapabilityRecord| x@);
                    out.push(rec);
                    assert(out@.map_values(|x: PeerCapabilityRecord| x@) =~= before.push(rec@));
                },
                None => {},
            }
            i = i + 1;
        }
        out
    }

    /// How many records there are.
    pub fn len(&self) -> (n: usize)
        ensures
            n == occupied(self@, self@.len() as int).len(),
            n <= N,
    {
        proof {
            use_type_invariant(self);
            lemma_occupied(self@, self@.len() as int);
        }
        self.iter().len()
    }

    /// Whether there are no records.
    pub fn is_empty(&self) -> (r: bool)
        ensures
            r == (occupied(self@, self@.len() as int).len() == 0),
    {
        self.len() == 0
    }

    /// The record of a neighbour on a port, if there is one.
    pub fn lookup(&self, port_id: u8, peer: &Callsign) -> (r: Option<&PeerCapabilityRecord>)
        ensures
            match r {
                Some(rec) => record_of(self@, port_id, peer@) == Some(rec@),
                None => record_of(self@, port_id, peer@) is None,
            },
    {
        match self.index_of(port_id, peer) {
            Some(i) => {
                assert(self@[i as int] == slot_view(self.records@[i as int]));
                match &self.records[i] {
                    Some(rec) => Some(rec),
                    None => None,
                }
            },
            None => None,
        }
    }

    fn index_of(&self, port_id: u8, peer: &Callsign) -> (r: Option<usize>)
        ensures
            match r {
                Some(i) => slot_of(self@, port_id, peer@, 0) == Some(i as int) && i
                    < self.records@.len() && self@[i as int] is Some,
                None => slot_of(self@, port_id, peer@, 0) is None,
            },
            self@.len() == self.records@.len(),
    {
        let mut i: usize = 0;
        while i < self.records.len()
            invariant
                i <= self.records@.len(),
                slot_of(self@, port_id, peer@, 0) == slot_of(self@, port_id, peer@, i as int),
            decreases self.records@.len() - i,
        {
            assert(self@[i as int] == slot_view(self.records@[i as int]));
            match &self.records[i] {
                Some(rec) => {
                    if rec.port_id == port_id && rec.peer == *peer {
                        return Some(i);
                    }
                },
                None => {},
            }
            i = i + 1;
        }
        None
    }

    /// Puts a record in its place.
    fn upsert(&mut self, rec: PeerCapabilityRecord)
        requires
            N > 0,
        ensures
            final(self)@ == with_record(old(self)@, rec@),
            record_of(final(self)@, rec.port_id, rec.peer@) == Some(rec@),
    {
        proof {
            use_type_invariant(&*self);
        }
        let place: usize = match self.index_of(rec.port_id, &rec.peer) {
            Some(i) => i,
            None => match self.free_slot() {
                Some(i) => i,
                None => self.oldest_slot(),
            },
        };
        proof {
            lemma_place_for(self@, rec@);
            law_learned_is_looked_up(self@, rec@);
        }
        set_slot(&mut self.records, place, Some(rec));
    }

    fn free_slot(&self) -> (r: Option<usize>)
        ensures
            match r {
                Some(i) => empty_slot(self@, 0) == Some(i as int),
                None => empty_slot(self@, 0) is None,
            },
    {
        let mut i: usize = 0;
        while i < self.records.len()
            invariant
                i <= self.records@.len(),
                empty_slot(self@, 0) == empty_slot(self@, i as int),
            decreases self.records@.len() - i,
        {
            assert(self@[i as int] == slot_view(self.records@[i as int]));
            if self.records[i].is_none() {
                return Some(i);
            }
            i = i + 1;
        }
        None
    }

    fn oldest_slot(&self) -> (r: usize)
        requires
            self@.len() > 0,
            empty_slot(self@, 0) is None,
        ensures
            r == oldest(self@, self@.len() as int),
    {
        proof {
            lemma_empty_slot(self@, 0);
        }
        let mut victim: usize = 0;
        let mut age: u64 = self.stamp(0);
        let mut i: usize = 1;
        while i < self.records.len()
            invariant
                1 <= i <= self.records@.len(),
                self@.len() == self.records@.len(),
                forall|j: int| 0 <= j < self@.len() ==> (#[trigger] self@[j]) is Some,
                victim == oldest(self@, i as int),
                victim < i,
                age == self@[victim as int]->0.last_probed_ms,
            decreases self.records@.len() - i,
        {
            let stamp: u64 = self.stamp(i);
            if stamp <= age {
                age = stamp;
                victim = i;
            }
            i = i + 1;
        }
        victim
    }

    fn stamp(&self, i: usize) -> (r: u64)
        requires
            i < self@.len(),
            self@[i as int] is Some,
        ensures
            r == self@[i as int]->0.last_probed_ms,
    {
        assert(self@[i as int] == slot_view(self.records@[i as int]));
        match &self.records[i] {
            Some(rec) => rec.last_probed_ms,
            None => 0,
        }
    }
}

fn recent(last_probed_ms: u64, now_ms: u64) -> (r: bool)
    ensures
        r == (now_ms - last_probed_ms < STALE_AFTER_MS),
{
    now_ms < last_probed_ms || now_ms - last_probed_ms < STALE_AFTER_MS
}

} // verus!
