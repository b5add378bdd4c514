//! Calling the subroutines of the tables.

use vstd::prelude::*;

use super::dispatch;
use super::dispatch::{invoke_within, MAX_NESTING};
use super::signal::SessionSink;
use super::timer::TimerService;
use super::tx::{PendingFrame, Tx};
use super::verbs::Fault;

verus! {

/// Calls the named subroutine: its first path whose guard holds runs, and without
/// one nothing happens. A name that the tables do not list is a fault.
pub fn invoke<'a, T: TimerService, S: SessionSink>(
    name: &str,
    tx: &mut Tx<'a, T, S>,
) -> (r: Result<(), Fault>)
    requires
        old(tx).wf(),
    ensures
        *final(final(tx).session) == *final(old(tx).session),
        *final(final(tx).timers) == *final(old(tx).timers),
        *final(final(tx).sink) == *final(old(tx).sink),
        final(tx).continues(*old(tx)),
        dispatch::arrives(
            final(tx).machine(),
            r,
            dispatch::run_routine(
                old(tx).subroutines@,
                MAX_NESTING as nat,
                name@,
                old(tx).machine(),
                old(tx).trigger@,
            ),
        ),
{
    invoke_within(name, tx, MAX_NESTING)
}

/// Calls `Enquiry_Response` with the F bit that the response carries.
pub fn invoke_enquiry_response<'a, T: TimerService, S: SessionSink>(
    tx: &mut Tx<'a, T, S>,
    f_bit: bool,
) -> (r: Result<(), Fault>)
    requires
        old(tx).wf(),
    ensures
        *final(final(tx).session) == *final(old(tx).session),
        *final(final(tx).timers) == *final(old(tx).timers),
        *final(final(tx).sink) == *final(old(tx).sink),
        final(tx).continues(*old(tx)),
        dispatch::arrives(
            final(tx).machine(),
            r,
            dispatch::run_routine(
                old(tx).subroutines@,
                MAX_NESTING as nat,
                "Enquiry_Response"@,
                old(tx).machine().with_pending(
                    PendingFrame { pf: Some(f_bit), ..old(tx).pending },
                ),
                old(tx).trigger@,
            ),
        ),
{
    tx.pending.pf = Some(f_bit);
    invoke("Enquiry_Response", tx)
}

} // verus!
