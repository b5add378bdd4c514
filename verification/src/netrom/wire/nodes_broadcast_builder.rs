//! Writing NODES routing broadcasts, one frame at a time.

use vstd::prelude::*;

use super::broadcast;
use super::broadcast::{BroadcastView, NodesBroadcast};
use super::callsign;
use super::callsign::{append_shifted, Alias};
use super::entry;
use super::entry::EntryView;
use super::options::NetRomParseOptions;
use crate::ax25::callsign::Callsign;
use crate::bytes;

verus! {

/// One destination to advertise.
#[derive(Debug, Clone, Copy, PartialEq, Eq)]
pub struct NodesAdvertisementEntry {
    /// The destination node.
    pub destination: Callsign,
    /// The alias of the destination node, which may be empty.
    pub destination_alias: Alias,
    /// The neighbour through which we forward.
    pub best_neighbour: Callsign,
    /// The quality to advertise.
    pub quality: u8,
}

impl View for NodesAdvertisementEntry {
    type V = EntryView;

    open spec fn view(&self) -> EntryView {
        EntryView {
            destination: self.destination@,
            destination_alias: self.destination_alias@,
            best_neighbour: self.best_neighbour@,
            best_quality: self.quality,
        }
    }
}

/// The longest information field of one frame.
pub const MAX_NODES_FRAME_LEN: usize = 238;

/// The octets of a run of entries.
pub open spec fn region(entries: Seq<EntryView>) -> Seq<u8>
    decreases entries.len(),
{
    if entries.len() == 0 {
        Seq::empty()
    } else {
        region(entries.drop_last()) + entries.last().octets()
    }
}

/// The information field of a frame with the given alias and entries.
pub open spec fn nodes_frame(alias: Seq<u8>, entries: Seq<EntryView>) -> Seq<u8> {
    seq![NodesBroadcast::SIGNATURE] + callsign::alias_field(alias) + region(entries)
}

/// What a run of entries to advertise holds.
pub open spec fn advertised(entries: Seq<NodesAdvertisementEntry>) -> Seq<EntryView> {
    entries.map_values(|e: NodesAdvertisementEntry| e@)
}

/// The first eleven of a run, or all of it if there are fewer.
pub open spec fn first_eleven(entries: Seq<NodesAdvertisementEntry>) -> Seq<
    NodesAdvertisementEntry,
> {
    entries.take(if entries.len() < NodesBroadcast::MAX_ENTRIES_PER_FRAME {
        entries.len() as int
    } else {
        NodesBroadcast::MAX_ENTRIES_PER_FRAME as int
    })
}

proof fn lemma_region(entries: Seq<EntryView>)
    requires
        forall|i: int| 0 <= i < entries.len() ==> (#[trigger] entries[i]).valid(),
    ensures
        region(entries).len() == 21 * entries.len(),
        forall|k: int| 0 <= k < entries.len() ==> #[trigger]
            broadcast::entry_slot(region(entries), k) == entries[k].octets(),
    decreases entries.len(),
{
    if entries.len() > 0 {
        let before: Seq<EntryView> = entries.drop_last();
        assert forall|i: int| 0 <= i < before.len() implies (#[trigger] before[i]).valid() by {
            assert(before[i] == entries[i]);
        }
        lemma_region(before);
        assert(entries.last() == entries[entries.len() - 1]);
        entry::law_entry_round_trip(entries.last());
        assert forall|k: int| 0 <= k < entries.len() implies #[trigger] broadcast::entry_slot(
            region(entries),
            k,
        ) == entries[k].octets() by {
            if k < before.len() {
                assert(broadcast::entry_slot(region(before), k) == before[k].octets());
                assert(broadcast::entry_slot(region(entries), k) =~= broadcast::entry_slot(
                    region(before),
                    k,
                ));
            } else {
                assert(broadcast::entry_slot(region(entries), k) =~= entries.last().octets());
            }
        }
    }
}

proof fn lemma_region_decodes(entries: Seq<EntryView>, n: nat)
    requires
        n <= entries.len(),
        forall|i: int| 0 <= i < entries.len() ==> (#[trigger] entries[i]).valid(),
    ensures
        broadcast::decodable(region(entries), n) == entries.take(n as int),
        broadcast::all_decodable(region(entries), n),
    decreases n,
{
    lemma_region(entries);
    assert forall|k: int| 0 <= k < n implies entry::entry_in(
        #[trigger] broadcast::entry_slot(region(entries), k),
    ) is Some by {
        assert(entries[k].valid());
        entry::law_entry_round_trip(entries[k]);
    }
    if n > 0 {
        lemma_region_decodes(entries, (n - 1) as nat);
        assert(broadcast::entry_slot(region(entries), n - 1) == entries[n - 1].octets());
        entry::law_entry_round_trip(entries[n - 1]);
        assert(entries.take(n as int) =~= entries.take(n - 1).push(entries[n - 1]));
    } else {
        assert(entries.take(0) =~= Seq::<EntryView>::empty());
    }
}

/// A frame with at most eleven valid entries is read back as it was written, by
/// either parser; the strict one only refuses a frame without entries.
pub proof fn law_nodes_frame_round_trip(
    alias: Seq<u8>,
    entries: Seq<EntryView>,
    options: NetRomParseOptions,
)
    requires
        callsign::valid_alias(alias),
        entries.len() <= NodesBroadcast::MAX_ENTRIES_PER_FRAME,
        forall|i: int| 0 <= i < entries.len() ==> (#[trigger] entries[i]).valid(),
        entries.len() > 0 || options.allow_empty_destination_list,
    ensures
        broadcast::broadcast_in(nodes_frame(alias, entries), options) == Some(
            BroadcastView { sender_alias: alias, entries },
        ),
        nodes_frame(alias, entries).len() == NodesBroadcast::HEADER_LENGTH + 21 * entries.len(),
        nodes_frame(alias, entries).len() <= MAX_NODES_FRAME_LEN,
{
    let info: Seq<u8> = nodes_frame(alias, entries);
    lemma_region(entries);
    lemma_region_decodes(entries, entries.len());
    callsign::law_alias_round_trip(alias);
    assert(info.skip(7) =~= region(entries));
    assert(info.subrange(1, 7) =~= callsign::alias_field(alias));
    assert(entries.take(entries.len() as int) =~= entries);
}

proof fn lemma_region_grows(entries: Seq<NodesAdvertisementEntry>, k: int)
    requires
        0 <= k < entries.len(),
    ensures
        region(advertised(entries.take(k + 1))) == region(advertised(entries.take(k)))
            + entries[k]@.octets(),
{
    let longer: Seq<EntryView> = advertised(entries.take(k + 1));
    assert(longer.drop_last() =~= advertised(entries.take(k)));
    assert(longer.last() == entries[k]@);
}

/// Writes one frame over the front of `dst`: the signature, the alias, and the first
/// eleven entries at most. Says how long it is, or `None` if `dst` is too short.
pub fn write_nodes_frame(
    sender_alias: &Alias,
    entries: &[NodesAdvertisementEntry],
    dst: &mut [u8],
) -> (r: Option<usize>)
    ensures
        ({
            let frame: Seq<u8> = nodes_frame(sender_alias@, advertised(first_eleven(entries@)));
            &&& bytes::written(old(dst)@, final(dst)@, frame, r is Some)
            &&& r matches Some(n) ==> n == frame.len()
        }),
{
    let take: usize = if entries.len() < NodesBroadcast::MAX_ENTRIES_PER_FRAME {
        entries.len()
    } else {
        NodesBroadcast::MAX_ENTRIES_PER_FRAME
    };
    let mut out: Vec<u8> = Vec::new();
    out.push(NodesBroadcast::SIGNATURE);
    sender_alias.append_to(&mut out);
    let ghost header = out@;
    assert(header =~= seq![NodesBroadcast::SIGNATURE] + callsign::alias_field(sender_alias@));
    assert(advertised(entries@.take(0)) =~= Seq::<EntryView>::empty());
    assert(out@ =~= header + region(advertised(entries@.take(0))));
    let mut k: usize = 0;
    while k < take
        invariant
            k <= take <= entries@.len(),
            out@ == header + region(advertised(entries@.take(k as int))),
        decreases take - k,
    {
        let ghost before = out@;
        let e = &entries[k];
        append_shifted(&e.destination, &mut out);
        e.destination_alias.append_to(&mut out);
        append_shifted(&e.best_neighbour, &mut out);
        out.push(e.quality);
        proof {
            lemma_region_grows(entries@, k as int);
            assert(out@ =~= before + e@.octets());
            assert(out@ =~= header + region(advertised(entries@.take(k + 1))));
        }
        k = k + 1;
    }
    assert(entries@.take(take as int) =~= first_eleven(entries@));
    bytes::put_front(dst, out.as_slice())
}

} // verus!
