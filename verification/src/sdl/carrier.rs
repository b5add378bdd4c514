//! Carrier sense: whether the channel is clear to send on.

use vstd::prelude::*;

verus! {

/// A source that knows whether the channel is busy. The channel changes as it likes: a
/// source may report one thing now and another the next moment.
pub trait CarrierSense {
    /// What the source may report: busy, idle, or that it does not know. A source that
    /// says no more may report any of them.
    open spec fn may_report(&self, busy: Option<bool>) -> bool {
        true
    }

    /// What the source reports now: busy, idle, or that it does not know.
    fn channel_busy(&self) -> (r: Option<bool>)
        ensures
            self.may_report(r),
    ;

    /// Whether the channel is clear to send on now. Only a channel that is known to be
    /// busy is not.
    fn is_clear(&self) -> (r: bool)
        ensures
            exists|busy: Option<bool>| #[trigger]
                self.may_report(busy) && r == (busy != Some(true)),
    {
        let busy = self.channel_busy();
        match busy {
            Some(true) => false,
            _ => true,
        }
    }
}

/// A source that always reports the channel idle.
#[derive(Debug, Clone, Copy)]
pub struct AlwaysClear;

impl Default for AlwaysClear {
    fn default() -> (r: AlwaysClear) {
        AlwaysClear
    }
}

impl CarrierSense for AlwaysClear {
    open spec fn may_report(&self, busy: Option<bool>) -> bool {
        busy == Some(false)
    }

    fn channel_busy(&self) -> (r: Option<bool>) {
        Some(false)
    }
}

} // verus!
