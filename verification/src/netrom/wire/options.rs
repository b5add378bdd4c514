//! Tolerances of the NODES-broadcast parser.

use vstd::prelude::*;

verus! {

/// Named tolerances of the NODES-broadcast parser, each with its own switch.
#[derive(Debug, Clone, Copy, PartialEq, Eq, Structural)]
pub struct NetRomParseOptions {
    /// Accept a routing region that is not a whole number of entries, and keep the
    /// whole entries that decode.
    pub allow_trailing_partial_entry: bool,
    /// Accept a broadcast that carries no entry.
    pub allow_empty_destination_list: bool,
}

impl NetRomParseOptions {
    /// Every tolerance set to `on`.
    pub open spec fn all(on: bool) -> NetRomParseOptions {
        NetRomParseOptions { allow_trailing_partial_entry: on, allow_empty_destination_list: on }
    }

    /// Every tolerance off.
    pub fn strict() -> (o: NetRomParseOptions)
        ensures
            o == NetRomParseOptions::all(false),
    {
        NetRomParseOptions {
            allow_trailing_partial_entry: false,
            allow_empty_destination_list: false,
        }
    }

    /// Every tolerance on.
    pub fn lenient() -> (o: NetRomParseOptions)
        ensures
            o == NetRomParseOptions::all(true),
    {
        NetRomParseOptions {
            allow_trailing_partial_entry: true,
            allow_empty_destination_list: true,
        }
    }

    /// The tolerances for BPQ nodes: all of them.
    pub fn bpq() -> (o: NetRomParseOptions)
        ensures
            o == NetRomParseOptions::all(true),
    {
        NetRomParseOptions::lenient()
    }

    /// The tolerances for XRouter nodes: all of them.
    pub fn xrouter() -> (o: NetRomParseOptions)
        ensures
            o == NetRomParseOptions::all(true),
    {
        NetRomParseOptions::lenient()
    }
}

impl Default for NetRomParseOptions {
    /// The lenient options.
    fn default() -> (o: NetRomParseOptions)
        ensures
            o == NetRomParseOptions::all(true),
    {
        NetRomParseOptions::lenient()
    }
}

} // verus!
