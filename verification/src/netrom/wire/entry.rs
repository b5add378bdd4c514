//! One destination entry of a NODES broadcast, a record of 21 octets: destination
//! callsign, destination alias, best-neighbour callsign, quality.

use vstd::prelude::*;
use vstd::slice::slice_subrange;

use super::callsign;
use super::callsign::{read_alias, try_read_shifted, Alias, ALIAS_LENGTH, SHIFTED_LENGTH};
use crate::ax25::address;
use crate::ax25::callsign::{Callsign, CallsignView};

verus! {

/// One destination that a node advertises a route to.
#[derive(Debug, Clone, Copy, PartialEq, Eq)]
pub struct NodesRoutingEntry {
    /// The destination node.
    pub destination: Callsign,
    /// The alias of the destination node, which may be empty.
    pub destination_alias: Alias,
    /// The neighbour through which the destination is reached.
    pub best_neighbour: Callsign,
    /// The quality of the route, 255 being the best.
    pub best_quality: u8,
}

/// What an entry holds.
pub struct EntryView {
    pub destination: CallsignView,
    pub destination_alias: Seq<u8>,
    pub best_neighbour: CallsignView,
    pub best_quality: u8,
}

impl View for NodesRoutingEntry {
    type V = EntryView;

    open spec fn view(&self) -> EntryView {
        EntryView {
            destination: self.destination@,
            destination_alias: self.destination_alias@,
            best_neighbour: self.best_neighbour@,
            best_quality: self.best_quality,
        }
    }
}

impl EntryView {
    /// The callsigns and the alias are valid.
    pub open spec fn valid(self) -> bool {
        &&& self.destination.valid()
        &&& callsign::valid_alias(self.destination_alias)
        &&& self.best_neighbour.valid()
    }

    /// The 21 octets of the entry.
    pub open spec fn octets(self) -> Seq<u8> {
        callsign::plain_shifted(self.destination) + callsign::alias_field(self.destination_alias)
            + callsign::plain_shifted(self.best_neighbour) + seq![self.best_quality]
    }
}

/// The entry that the first 21 octets of `s` hold, if both callsigns decode.
pub open spec fn entry_in(s: Seq<u8>) -> Option<EntryView> {
    if s.len() < NodesRoutingEntry::ENCODED_LENGTH {
        None
    } else {
        match (address::unshifted(s.subrange(0, 7)), address::unshifted(s.subrange(13, 20))) {
            (Some(destination), Some(neighbour)) => Some(
                EntryView {
                    destination: destination.callsign,
                    destination_alias: callsign::alias_in(s.subrange(7, 13)),
                    best_neighbour: neighbour.callsign,
                    best_quality: s[20],
                },
            ),
            _ => None,
        }
    }
}

/// An entry is read back from the octets that it is written as.
pub proof fn law_entry_round_trip(e: EntryView)
    requires
        e.valid(),
    ensures
        e.octets().len() == NodesRoutingEntry::ENCODED_LENGTH,
        entry_in(e.octets()) == Some(e),
{
    let s: Seq<u8> = e.octets();
    callsign::law_callsign_field_round_trip(e.destination);
    callsign::law_callsign_field_round_trip(e.best_neighbour);
    callsign::law_alias_round_trip(e.destination_alias);
    assert(s.subrange(0, 7) =~= callsign::plain_shifted(e.destination));
    assert(s.subrange(7, 13) =~= callsign::alias_field(e.destination_alias));
    assert(s.subrange(13, 20) =~= callsign::plain_shifted(e.best_neighbour));
}

impl NodesRoutingEntry {
    /// Octets of one entry.
    pub const ENCODED_LENGTH: usize = 21;

    /// Reads an entry off the first 21 octets of `source`. `None` if there are fewer
    /// or if either callsign does not decode.
    pub fn try_parse(source: &[u8]) -> (r: Option<NodesRoutingEntry>)
        ensures
            match r {
                Some(e) => entry_in(source@) == Some(e@),
                None => entry_in(source@) is None,
            },
    {
        if source.len() < NodesRoutingEntry::ENCODED_LENGTH {
            return None;
        }
        let destination = match try_read_shifted(slice_subrange(source, 0, SHIFTED_LENGTH)) {
            Some(c) => c,
            None => {
                return None;
            },
        };
        let destination_alias = read_alias(
            slice_subrange(source, SHIFTED_LENGTH, SHIFTED_LENGTH + ALIAS_LENGTH),
        );
        let best_neighbour = match try_read_shifted(slice_subrange(source, 13, 20)) {
            Some(c) => c,
            None => {
                return None;
            },
        };
        Some(
            NodesRoutingEntry {
                destination,
                destination_alias,
                best_neighbour,
                best_quality: source[20],
            },
        )
    }
}

} // verus!
