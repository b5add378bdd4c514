use ax25_node_core::ax25::Callsign;
use ax25_node_core::sdl::capability::{PeerCapabilityCache, PeerDialPolicy, STALE_AFTER_MS};

const PORT: u8 = 0;
const HF: u8 = 1;
const T0: u64 = 1_000_000;

fn peer() -> Callsign {
    Callsign::parse("GB7RDG-7").unwrap()
}

fn cache() -> PeerCapabilityCache<8> {
    PeerCapabilityCache::new()
}

#[test]
fn plan_dial_miss_user_connect_offers_sabme_and_no_xid() {
    let plan = cache().plan_dial(PORT, &peer(), PeerDialPolicy::UserConnect, T0);
    assert!(plan.extended);
    assert!(!plan.pre_connect_xid);
}

#[test]
fn plan_dial_miss_interlink_stays_mod8_and_sends_xid() {
    let plan = cache().plan_dial(PORT, &peer(), PeerDialPolicy::Interlink, T0);
    assert!(!plan.extended);
    assert!(plan.pre_connect_xid);
}

#[test]
fn plan_dial_fresh_positive_extended_honoured_even_for_interlink() {
    let mut c = cache();
    c.record_outcome(PORT, peer(), true, true, false, false, T0);
    let plan = c.plan_dial(PORT, &peer(), PeerDialPolicy::Interlink, T0);
    assert!(plan.extended);
    assert!(!plan.pre_connect_xid);
}

#[test]
fn plan_dial_fresh_negative_extended_skips_sabme_even_for_user_connect() {
    let mut c = cache();
    c.record_outcome(PORT, peer(), true, false, false, false, T0);
    let plan = c.plan_dial(PORT, &peer(), PeerDialPolicy::UserConnect, T0);
    assert!(!plan.extended);
    assert!(plan.pre_connect_xid, "unknown XID answerer ⇒ still probe");
}

#[test]
fn plan_dial_fresh_non_xid_answerer_skips_the_pre_connect_xid() {
    let mut c = cache();
    c.record_outcome(PORT, peer(), false, false, true, false, T0);
    let plan = c.plan_dial(PORT, &peer(), PeerDialPolicy::Interlink, T0);
    assert!(!plan.extended);
    assert!(!plan.pre_connect_xid, "known non-answerer ⇒ skip the stall");
}

#[test]
fn plan_dial_fresh_xid_answerer_still_sends_the_pre_connect_xid() {
    let mut c = cache();
    c.record_outcome(PORT, peer(), false, false, true, true, T0);
    let plan = c.plan_dial(PORT, &peer(), PeerDialPolicy::Interlink, T0);
    assert!(!plan.extended);
    assert!(plan.pre_connect_xid);
}

#[test]
fn plan_dial_stale_negative_re_probes_with_the_policy_default() {
    let mut c = cache();
    c.record_outcome(PORT, peer(), true, false, false, false, T0);
    let later = T0 + STALE_AFTER_MS + 24 * 60 * 60 * 1000;
    assert!(c.plan_dial(PORT, &peer(), PeerDialPolicy::UserConnect, later).extended);
}

#[test]
fn plan_dial_just_inside_the_window_is_still_fresh() {
    let mut c = cache();
    c.record_outcome(PORT, peer(), true, false, false, false, T0);
    let later = T0 + STALE_AFTER_MS - 60 * 1000;
    assert!(!c.plan_dial(PORT, &peer(), PeerDialPolicy::UserConnect, later).extended);
}

#[test]
fn record_outcome_dialed_extended_sets_supports_extended() {
    let mut c = cache();
    c.record_outcome(PORT, peer(), true, true, false, false, T0);
    let rec = c.iter().into_iter().next().unwrap();
    assert_eq!(rec.supports_extended, Some(true));
    assert_eq!(rec.supports_srej_via_xid, None, "never probed ⇒ null");
}

#[test]
fn record_outcome_dialed_mod8_does_not_touch_supports_extended() {
    let mut c = cache();
    c.record_outcome(PORT, peer(), true, true, false, false, T0);
    c.record_outcome(PORT, peer(), false, false, false, false, T0 + 300_000);
    assert_eq!(c.iter().into_iter().next().unwrap().supports_extended, Some(true));
}

#[test]
fn record_outcome_dialed_mod8_from_unknown_leaves_extended_null() {
    let mut c = cache();
    c.record_outcome(PORT, peer(), false, false, false, false, T0);
    assert_eq!(c.iter().into_iter().next().unwrap().supports_extended, None);
}

#[test]
fn record_outcome_dialed_xid_sets_supports_srej_via_xid() {
    let mut c = cache();
    c.record_outcome(PORT, peer(), false, false, true, true, T0);
    let rec = c.iter().into_iter().next().unwrap();
    assert_eq!(rec.supports_srej_via_xid, Some(true));
    assert_eq!(rec.supports_extended, None);
}

#[test]
fn record_outcome_no_xid_does_not_touch_supports_srej_via_xid() {
    let mut c = cache();
    c.record_outcome(PORT, peer(), false, false, true, true, T0);
    c.record_outcome(PORT, peer(), true, true, false, false, T0 + 300_000);
    let rec = c.iter().into_iter().next().unwrap();
    assert_eq!(rec.supports_srej_via_xid, Some(true), "preserved");
    assert_eq!(rec.supports_extended, Some(true), "the probed dimension");
}

#[test]
fn record_outcome_sets_last_refused_on_an_extended_degrade() {
    let mut c = cache();
    c.record_outcome(PORT, peer(), true, false, false, false, T0);
    assert_eq!(c.iter().into_iter().next().unwrap().last_refused_ms, Some(T0));
}

#[test]
fn record_outcome_does_not_set_last_refused_on_a_clean_extended_dial() {
    let mut c = cache();
    c.record_outcome(PORT, peer(), true, true, false, false, T0);
    assert_eq!(c.iter().into_iter().next().unwrap().last_refused_ms, None);
}

#[test]
fn record_outcome_carries_last_refused_forward_on_a_non_degrade_dial() {
    let mut c = cache();
    c.record_outcome(PORT, peer(), true, false, false, false, T0);
    c.record_outcome(PORT, peer(), false, false, true, true, T0 + 300_000);
    assert_eq!(c.iter().into_iter().next().unwrap().last_refused_ms, Some(T0), "carried forward");
}

#[test]
fn record_outcome_stamps_last_probed_with_the_clock() {
    let mut c = cache();
    let t = T0 + 3 * 60 * 60 * 1000;
    c.record_outcome(PORT, peer(), true, true, false, false, t);
    assert_eq!(c.iter().into_iter().next().unwrap().last_probed_ms, t);
}

#[test]
fn records_are_keyed_per_port_and_peer() {
    let mut c = cache();
    c.record_outcome(PORT, peer(), true, true, false, false, T0);
    c.record_outcome(HF, peer(), true, false, false, false, T0);
    assert_eq!(c.len(), 2);
    assert!(c.plan_dial(PORT, &peer(), PeerDialPolicy::Interlink, T0).extended);
    assert!(!c.plan_dial(HF, &peer(), PeerDialPolicy::UserConnect, T0).extended);
}

#[test]
fn forget_removes_the_entry() {
    let mut c = cache();
    c.record_outcome(PORT, peer(), true, true, false, false, T0);
    assert!(c.forget(PORT, &peer()));
    assert!(c.is_empty());
    assert!(!c.forget(PORT, &peer()), "already gone");
}

#[test]
fn full_cache_evicts_the_least_recently_probed() {
    let mut c: PeerCapabilityCache<2> = PeerCapabilityCache::new();
    let a = Callsign::parse("G7AAA").unwrap();
    let b = Callsign::parse("G7BBB").unwrap();
    let d = Callsign::parse("G7DDD").unwrap();
    c.record_outcome(PORT, a, true, true, false, false, T0);
    c.record_outcome(PORT, b, true, true, false, false, T0 + 1000);
    c.record_outcome(PORT, d, true, true, false, false, T0 + 2000);
    assert_eq!(c.len(), 2);
    assert!(c.lookup(PORT, &a).is_none(), "A evicted");
    assert!(c.lookup(PORT, &b).is_some());
    assert!(c.lookup(PORT, &d).is_some());
}
