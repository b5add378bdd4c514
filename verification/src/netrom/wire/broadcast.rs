//! A NODES routing broadcast: the information field of a UI frame that is addressed
//! to the literal callsign `NODES`.
//!
//! The field holds a signature octet, the sender's alias, and up to eleven entries.
//! Parsing is total: any octets either parse or give `None`.

use vstd::prelude::*;
use vstd::slice::slice_subrange;

use super::callsign;
use super::callsign::{read_alias, Alias, ALIAS_LENGTH};
use super::entry;
use super::entry::{EntryView, NodesRoutingEntry};
use super::options::NetRomParseOptions;

verus! {

/// A parsed NODES broadcast.
#[derive(Debug, Clone, PartialEq, Eq)]
pub struct NodesBroadcast {
    sender_alias: Alias,
    entries: Vec<NodesRoutingEntry>,
}

/// What a broadcast holds.
pub struct BroadcastView {
    pub sender_alias: Seq<u8>,
    pub entries: Seq<EntryView>,
}

/// What a run of entries holds.
pub open spec fn entry_views(entries: Seq<NodesRoutingEntry>) -> Seq<EntryView> {
    entries.map_values(|e: NodesRoutingEntry| e@)
}

impl View for NodesBroadcast {
    type V = BroadcastView;

    closed spec fn view(&self) -> BroadcastView {
        BroadcastView {
            sender_alias: self.sender_alias@,
            entries: entry_views(self.entries@),
        }
    }
}

/// The octets of entry `k` of a routing region.
pub open spec fn entry_slot(body: Seq<u8>, k: int) -> Seq<u8> {
    body.subrange(21 * k, 21 * k + 21)
}

/// The entries among the first `n` slots of a routing region that decode.
pub open spec fn decodable(body: Seq<u8>, n: nat) -> Seq<EntryView>
    decreases n,
{
    if n == 0 {
        Seq::empty()
    } else {
        let before: Seq<EntryView> = decodable(body, (n - 1) as nat);
        match entry::entry_in(entry_slot(body, n - 1)) {
            Some(e) => before.push(e),
            None => before,
        }
    }
}

/// Each of the first `n` slots decodes.
pub open spec fn all_decodable(body: Seq<u8>, n: nat) -> bool {
    forall|k: int| 0 <= k < n ==> entry::entry_in(#[trigger] entry_slot(body, k)) is Some
}

/// How many slots of a routing region are read: the whole ones, at most eleven.
pub open spec fn slots(body: Seq<u8>) -> nat {
    let whole: nat = body.len() / 21;
    if whole < NodesBroadcast::MAX_ENTRIES_PER_FRAME {
        whole
    } else {
        NodesBroadcast::MAX_ENTRIES_PER_FRAME as nat
    }
}

/// The broadcast that an information field holds under the given tolerances.
pub open spec fn broadcast_in(info: Seq<u8>, options: NetRomParseOptions) -> Option<
    BroadcastView,
> {
    let body: Seq<u8> = info.skip(7);
    if info.len() < NodesBroadcast::HEADER_LENGTH || info[0] != NodesBroadcast::SIGNATURE {
        None
    } else if !options.allow_trailing_partial_entry && (body.len() % 21 != 0 || !all_decodable(
        body,
        slots(body),
    )) {
        None
    } else if !options.allow_empty_destination_list && slots(body) == 0 {
        None
    } else {
        Some(
            BroadcastView {
                sender_alias: callsign::alias_in(info.subrange(1, 7)),
                entries: decodable(body, slots(body)),
            },
        )
    }
}

/// A broadcast never carries more than eleven entries.
pub proof fn law_entries_are_capped(body: Seq<u8>, n: nat)
    ensures
        decodable(body, n).len() <= n,
    decreases n,
{
    if n > 0 {
        law_entries_are_capped(body, (n - 1) as nat);
    }
}

/// Whatever the strict reading accepts, the lenient reading reads the same.
pub proof fn law_lenient_extends_strict(info: Seq<u8>)
    ensures
        broadcast_in(info, NetRomParseOptions::all(false)) is Some ==> broadcast_in(
            info,
            NetRomParseOptions::all(true),
        ) == broadcast_in(info, NetRomParseOptions::all(false)),
{
}

impl NodesBroadcast {
    /// The octet that opens a NODES broadcast.
    pub const SIGNATURE: u8 = 0xFF;

    /// The literal destination callsign of a NODES broadcast.
    pub const NODES_DESTINATION: &'static str = "NODES";

    /// The most entries that one frame carries.
    pub const MAX_ENTRIES_PER_FRAME: usize = 11;

    /// Octets of the signature and the alias.
    pub const HEADER_LENGTH: usize = 7;

    /// The sender's alias, which may be empty.
    pub fn sender_alias(&self) -> (a: Alias)
        ensures
            a@ == self@.sender_alias,
    {
        self.sender_alias
    }

    /// The entries of this frame, in order.
    pub fn entries(&self) -> (r: &[NodesRoutingEntry])
        ensures
            entry_views(r@) == self@.entries,
    {
        self.entries.as_slice()
    }

    /// How many entries this frame carries.
    pub fn entry_count(&self) -> (n: usize)
        ensures
            n == self@.entries.len(),
    {
        self.entries.len()
    }

    /// Parses an information field with every tolerance on.
    pub fn try_parse(info: &[u8]) -> (r: Option<NodesBroadcast>)
        ensures
            match r {
                Some(b) => broadcast_in(info@, NetRomParseOptions::all(true)) == Some(b@),
                None => broadcast_in(info@, NetRomParseOptions::all(true)) is None,
            },
    {
        NodesBroadcast::try_parse_with(info, NetRomParseOptions::lenient())
    }

    /// Parses an information field with the given tolerances.
    pub fn try_parse_with(info: &[u8], options: NetRomParseOptions) -> (r: Option<NodesBroadcast>)
        ensures
            match r {
                Some(b) => broadcast_in(info@, options) == Some(b@),
                None => broadcast_in(info@, options) is None,
            },
    {
        if info.len() < NodesBroadcast::HEADER_LENGTH {
            return None;
        }
        if info[0] != NodesBroadcast::SIGNATURE {
            return None;
        }
        let sender_alias = read_alias(slice_subrange(info, 1, 1 + ALIAS_LENGTH));
        let body = slice_subrange(info, NodesBroadcast::HEADER_LENGTH, info.len());
        assert(body@ =~= info@.skip(7));
        let whole: usize = body.len() / NodesRoutingEntry::ENCODED_LENGTH;
        if body.len() % NodesRoutingEntry::ENCODED_LENGTH != 0
            && !options.allow_trailing_partial_entry {
            return None;
        }
        let take: usize = if whole < NodesBroadcast::MAX_ENTRIES_PER_FRAME {
            whole
        } else {
            NodesBroadcast::MAX_ENTRIES_PER_FRAME
        };
        assert(take == slots(body@));
        if take == 0 && !options.allow_empty_destination_list {
            return None;
        }
        let mut entries: Vec<NodesRoutingEntry> = Vec::new();
        assert(entry_views(entries@) =~= Seq::<EntryView>::empty());
        let mut k: usize = 0;
        while k < take
            invariant
                k <= take <= NodesBroadcast::MAX_ENTRIES_PER_FRAME,
                21 * take <= body@.len(),
                take == slots(body@),
                body@ == info@.skip(7),
                info@.len() >= NodesBroadcast::HEADER_LENGTH,
                info@[0] == NodesBroadcast::SIGNATURE,
                entry_views(entries@) == decodable(body@, k as nat),
                !options.allow_trailing_partial_entry ==> all_decodable(body@, k as nat),
            decreases take - k,
        {
            let at: usize = NodesRoutingEntry::ENCODED_LENGTH * k;
            let slot = slice_subrange(body, at, at + NodesRoutingEntry::ENCODED_LENGTH);
            assert(slot@ == entry_slot(body@, k as int));
            match NodesRoutingEntry::try_parse(slot) {
                Some(e) => {
                    let ghost before = entries@;
                    entries.push(e);
                    assert(entry_views(entries@) =~= entry_views(before).push(e@));
                },
                None => {
                    if !options.allow_trailing_partial_entry {
                        assert(!all_decodable(body@, take as nat)) by {
                            assert(entry::entry_in(entry_slot(body@, k as int)) is None);
                        }
                        return None;
                    }
                },
            }
            k = k + 1;
        }
        Some(NodesBroadcast { sender_alias, entries })
    }
}

} // verus!
