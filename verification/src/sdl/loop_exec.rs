//! Expansion of loops over a flat action list.
//!
//! An action list comes with ranges that describe loops as slices over it. The
//! walk runs the actions in order; where a loop body starts it repeats the body
//! while the loop's predicate holds, tested before each pass or after it, up to a
//! safety cap, and then goes on past the body.

use vstd::prelude::*;

verus! {

/// A loop as a slice over an action list.
#[derive(Debug, Clone, Copy, PartialEq, Eq)]
pub struct LoopRange {
    /// Index of the first action of the body.
    pub start: usize,
    /// Number of actions in the body.
    pub length: usize,
    /// The continue condition, which the host evaluates.
    pub predicate: &'static str,
    /// `false` tests before a pass, `true` after it.
    pub test_at_end: bool,
}

/// Safety cap on the passes of one loop.
pub const MAX_ITERATIONS: usize = 1024;

/// What a walk runs its actions and tests its predicates on.
pub trait LoopHost: Sized {
    /// What running one action makes of the host. A host that says no more may become
    /// anything.
    open spec fn ran(before: Self, index: usize, after: Self) -> bool {
        true
    }

    /// What testing one predicate makes of the host. A host that says no more may become
    /// anything and answer either way.
    open spec fn tested(before: Self, range: LoopRange, answer: bool, after: Self) -> bool {
        true
    }

    /// Runs the action at `index`.
    fn run_action(&mut self, index: usize)
        ensures
            Self::ran(*old(self), index, *final(self)),
    ;

    /// Whether the loop goes on.
    fn predicate_holds(&mut self, range: &LoopRange) -> (answer: bool)
        ensures
            Self::tested(*old(self), *range, answer, *final(self)),
    ;
}

/// One call that a walk makes.
pub enum Call {
    Run(usize),
    Test(LoopRange, bool),
}

/// Where a walk stands: what it calls next.
pub enum Place {
    /// The next call runs the action at this index.
    Action(int),
    /// The next call runs the action at `at` in the body of a loop that made
    /// `passes` full passes.
    Body { range: LoopRange, passes: int, at: int },
    /// The next call tests the predicate of a loop that made `passes` full passes.
    Head { range: LoopRange, passes: int },
    /// No call is left.
    Finished,
}

/// The first loop at or after index `j` whose body starts at `start`.
pub open spec fn loop_at(loops: Seq<LoopRange>, start: int, j: int) -> Option<LoopRange>
    decreases loops.len() - j,
{
    if j < 0 || j >= loops.len() {
        None
    } else if loops[j].start == start {
        Some(loops[j])
    } else {
        loop_at(loops, start, j + 1)
    }
}

/// Where a walk of `count` actions stands when it reaches action `i`.
pub open spec fn arrival(count: int, loops: Seq<LoopRange>, i: int) -> Place {
    if i >= count {
        Place::Finished
    } else {
        match loop_at(loops, i, 0) {
            None => Place::Action(i),
            Some(range) => if range.test_at_end {
                Place::Body { range, passes: 0, at: range.start as int }
            } else {
                Place::Head { range, passes: 0 }
            },
        }
    }
}

/// Where a walk stands after a full pass of a loop.
pub open spec fn after_pass(
    count: int,
    loops: Seq<LoopRange>,
    range: LoopRange,
    passes: int,
) -> Place {
    if passes >= MAX_ITERATIONS {
        arrival(count, loops, range.start + range.length)
    } else {
        Place::Head { range, passes }
    }
}

/// Where a walk stands after a call. `None` if the walk does not make that call.
pub open spec fn follow(
    count: int,
    loops: Seq<LoopRange>,
    place: Place,
    call: Call,
) -> Option<Place> {
    match (place, call) {
        (Place::Action(i), Call::Run(index)) => if index == i {
            Some(arrival(count, loops, i + 1))
        } else {
            None
        },
        (Place::Body { range, passes, at }, Call::Run(index)) => if index != at {
            None
        } else if at + 1 < range.start + range.length {
            Some(Place::Body { range, passes, at: at + 1 })
        } else {
            Some(after_pass(count, loops, range, passes + 1))
        },
        (Place::Head { range, passes }, Call::Test(tested, answer)) => if tested != range {
            None
        } else if answer {
            Some(Place::Body { range, passes, at: range.start as int })
        } else {
            Some(arrival(count, loops, range.start + range.length))
        },
        _ => None,
    }
}

/// Where a walk stands after some calls. `None` if it does not make them.
pub open spec fn replay(count: int, loops: Seq<LoopRange>, calls: Seq<Call>) -> Option<Place>
    decreases calls.len(),
{
    if calls.len() == 0 {
        Some(arrival(count, loops, 0))
    } else {
        match replay(count, loops, calls.drop_last()) {
            Some(place) => follow(count, loops, place, calls.last()),
            None => None,
        }
    }
}

/// What one call makes of the host.
pub open spec fn made<H: LoopHost>(before: H, call: Call, after: H) -> bool {
    match call {
        Call::Run(index) => H::ran(before, index, after),
        Call::Test(range, answer) => H::tested(before, range, answer, after),
    }
}

/// What some calls make of the host.
pub open spec fn made_all<H: LoopHost>(before: H, calls: Seq<Call>, after: H) -> bool
    decreases calls.len(),
{
    if calls.len() == 0 {
        before == after
    } else {
        exists|mid: H| #[trigger]
            made(mid, calls.last(), after) && made_all(before, calls.drop_last(), mid)
    }
}

/// How many of the calls run an action.
pub open spec fn runs(calls: Seq<Call>) -> nat
    decreases calls.len(),
{
    if calls.len() == 0 {
        0
    } else {
        runs(calls.drop_last()) + if calls.last() is Run {
            1nat
        } else {
            0nat
        }
    }
}

/// The walk made `calls` and stands at `place`.
pub open spec fn stands<H: LoopHost>(
    count: int,
    loops: Seq<LoopRange>,
    before: H,
    calls: Seq<Call>,
    now: H,
    place: Place,
) -> bool {
    made_all(before, calls, now) && replay(count, loops, calls) == Some(place)
}

proof fn lemma_one_more_call<H: LoopHost>(
    count: int,
    loops: Seq<LoopRange>,
    before: H,
    calls: Seq<Call>,
    mid: H,
    place: Place,
    call: Call,
    after: H,
)
    requires
        stands(count, loops, before, calls, mid, place),
        made(mid, call, after),
        follow(count, loops, place, call) is Some,
    ensures
        stands(
            count,
            loops,
            before,
            calls.push(call),
            after,
            follow(count, loops, place, call)->0,
        ),
        runs(calls.push(call)) == runs(calls) + if call is Run {
            1nat
        } else {
            0nat
        },
{
    assert(calls.push(call).drop_last() =~= calls);
    assert(made(mid, calls.push(call).last(), after));
}

/// No loop is empty, and no loop ends beyond the last index there is.
pub open spec fn walkable(loops: Seq<LoopRange>) -> bool {
    forall|j: int|
        0 <= j < loops.len() ==> (#[trigger] loops[j]).length > 0 && loops[j].start
            + loops[j].length <= usize::MAX
}

/// A number as a `usize`, or the greatest one where it does not fit.
pub open spec fn capped(n: nat) -> usize {
    if n > usize::MAX {
        usize::MAX
    } else {
        n as usize
    }
}

fn find_loop(loops: &[LoopRange], start: usize) -> (r: Option<LoopRange>)
    requires
        walkable(loops@),
    ensures
        r == loop_at(loops@, start as int, 0),
        r matches Some(range) ==> range.start == start && range.length > 0 && range.start
            + range.length <= usize::MAX,
{
    let mut j: usize = 0;
    while j < loops.len()
        invariant
            j <= loops@.len(),
            walkable(loops@),
            loop_at(loops@, start as int, 0) == loop_at(loops@, start as int, j as int),
        decreases loops@.len() - j,
    {
        if loops[j].start == start {
            return Some(loops[j]);
        }
        j = j + 1;
    }
    None
}

/// Runs the body of a loop once.
fn run_pass<H: LoopHost>(
    range: LoopRange,
    host: &mut H,
    executed: usize,
    Ghost(passes): Ghost<int>,
    Ghost(count): Ghost<int>,
    Ghost(loops): Ghost<Seq<LoopRange>>,
    Ghost(first): Ghost<H>,
    Ghost(calls): Ghost<Seq<Call>>,
) -> (r: (usize, Ghost<Seq<Call>>))
    requires
        range.length > 0,
        range.start + range.length <= usize::MAX,
        executed == capped(runs(calls)),
        stands(
            count,
            loops,
            first,
            calls,
            *old(host),
            Place::Body { range, passes, at: range.start as int },
        ),
    ensures
        r.0 == capped(runs(r.1@)),
        stands(
            count,
            loops,
            first,
            r.1@,
            *final(host),
            after_pass(count, loops, range, passes + 1),
        ),
{
    let ghost mut made_calls: Seq<Call> = calls;
    let mut ran: usize = executed;
    let end: usize = range.start + range.length;
    let mut at: usize = range.start;
    while at < end
        invariant
            range.start <= at <= end,
            end == range.start + range.length,
            range.length > 0,
            ran == capped(runs(made_calls)),
            stands(
                count,
                loops,
                first,
                made_calls,
                *host,
                if at < end {
                    Place::Body { range, passes, at: at as int }
                } else {
                    after_pass(count, loops, range, passes + 1)
                },
            ),
        decreases end - at,
    {
        let ghost mid = *host;
        host.run_action(at);
        proof {
            lemma_one_more_call(
                count,
                loops,
                first,
                made_calls,
                mid,
                Place::Body { range, passes, at: at as int },
                Call::Run(at),
                *host,
            );
            made_calls = made_calls.push(Call::Run(at));
        }
        ran = ran.saturating_add(1);
        at = at + 1;
    }
    (ran, Ghost(made_calls))
}

/// Runs one loop to its end.
fn run_one_loop<H: LoopHost>(
    range: LoopRange,
    host: &mut H,
    executed: usize,
    Ghost(count): Ghost<int>,
    Ghost(loops): Ghost<Seq<LoopRange>>,
    Ghost(first): Ghost<H>,
    Ghost(calls): Ghost<Seq<Call>>,
) -> (r: (usize, Ghost<Seq<Call>>))
    requires
        range.length > 0,
        range.start + range.length <= usize::MAX,
        executed == capped(runs(calls)),
        stands(
            count,
            loops,
            first,
            calls,
            *old(host),
            if range.test_at_end {
                Place::Body { range, passes: 0, at: range.start as int }
            } else {
                Place::Head { range, passes: 0 }
            },
        ),
    ensures
        r.0 == capped(runs(r.1@)),
        stands(
            count,
            loops,
            first,
            r.1@,
            *final(host),
            arrival(count, loops, range.start + range.length),
        ),
{
    let ghost mut made_calls: Seq<Call> = calls;
    let mut ran: usize = executed;
    let mut passes: usize = 0;
    if range.test_at_end {
        let (after, Ghost(more)) = run_pass(
            range,
            host,
            ran,
            Ghost(0),
            Ghost(count),
            Ghost(loops),
            Ghost(first),
            Ghost(made_calls),
        );
        ran = after;
        proof {
            made_calls = more;
        }
        passes = 1;
    }
    while passes < MAX_ITERATIONS
        invariant
            range.length > 0,
            range.start + range.length <= usize::MAX,
            passes <= MAX_ITERATIONS,
            ran == capped(runs(made_calls)),
            stands(
                count,
                loops,
                first,
                made_calls,
                *host,
                after_pass(count, loops, range, passes as int),
            ),
        decreases MAX_ITERATIONS - passes,
    {
        let ghost mid = *host;
        let answer = host.predicate_holds(&range);
        proof {
            lemma_one_more_call(
                count,
                loops,
                first,
                made_calls,
                mid,
                Place::Head { range, passes: passes as int },
                Call::Test(range, answer),
                *host,
            );
            made_calls = made_calls.push(Call::Test(range, answer));
        }
        if !answer {
            return (ran, Ghost(made_calls));
        }
        let (after, Ghost(more)) = run_pass(
            range,
            host,
            ran,
            Ghost(passes as int),
            Ghost(count),
            Ghost(loops),
            Ghost(first),
            Ghost(made_calls),
        );
        ran = after;
        proof {
            made_calls = more;
        }
        passes = passes + 1;
    }
    (ran, Ghost(made_calls))
}

/// Walks `action_count` actions, expanding `loops`, and says how many actions it
/// ran. The calls on the host are exactly those of the walk.
pub fn run_loop<H: LoopHost>(action_count: usize, loops: &[LoopRange], host: &mut H) -> (executed:
    usize)
    requires
        walkable(loops@),
    ensures
        exists|calls: Seq<Call>| #[trigger]
            stands(
                action_count as int,
                loops@,
                *old(host),
                calls,
                *final(host),
                Place::Finished,
            ) && executed == capped(runs(calls)),
{
    let ghost count: int = action_count as int;
    let ghost mut calls: Seq<Call> = Seq::empty();
    let mut executed: usize = 0;
    let mut i: usize = 0;
    while i < action_count
        invariant
            count == action_count,
            walkable(loops@),
            executed == capped(runs(calls)),
            stands(
                count,
                loops@,
                *old(host),
                calls,
                *host,
                arrival(count, loops@, i as int),
            ),
        decreases usize::MAX - i,
    {
        match find_loop(loops, i) {
            Some(range) => {
                let (ran, Ghost(more)) = run_one_loop(
                    range,
                    host,
                    executed,
                    Ghost(count),
                    Ghost(loops@),
                    Ghost(*old(host)),
                    Ghost(calls),
                );
                executed = ran;
                proof {
                    calls = more;
                }
                i = range.start + range.length;
            },
            None => {
                let ghost mid = *host;
                host.run_action(i);
                proof {
                    lemma_one_more_call(
                        count,
                        loops@,
                        *old(host),
                        calls,
                        mid,
                        Place::Action(i as int),
                        Call::Run(i),
                        *host,
                    );
                    calls = calls.push(Call::Run(i));
                }
                executed = executed.saturating_add(1);
                i = i + 1;
            },
        }
    }
    executed
}

/// The calls of a walk that was asked to test nothing are its actions in order.
pub proof fn law_without_loops_actions_run_in_order(count: int, calls: Seq<Call>)
    requires
        0 <= count,
        replay(count, Seq::empty(), calls) == Some(Place::Finished),
    ensures
        calls.len() == count,
        forall|i: int| 0 <= i < count ==> #[trigger] calls[i] is Run && calls[i]->Run_0 == i,
{
    lemma_plain_prefix(count, calls);
}

proof fn lemma_plain_prefix(count: int, calls: Seq<Call>)
    requires
        0 <= count,
        replay(count, Seq::empty(), calls) is Some,
    ensures
        calls.len() <= count,
        replay(count, Seq::empty(), calls) == Some(arrival(count, Seq::empty(), calls.len() as int)),
        forall|i: int| 0 <= i < calls.len() ==> #[trigger] calls[i] is Run && calls[i]->Run_0 == i,
    decreases calls.len(),
{
    if calls.len() > 0 {
        let prefix: Seq<Call> = calls.drop_last();
        lemma_plain_prefix(count, prefix);
        assert forall|i: int| 0 <= i < calls.len() implies #[trigger] calls[i] is Run
            && calls[i]->Run_0 == i by {
            if i < prefix.len() {
                assert(prefix[i] == calls[i]);
            }
        }
    }
}

/// However its predicates answer, a loop makes at most the capped number of
/// passes: no place of a walk stands in a pass beyond the cap.
pub proof fn law_passes_are_capped(count: int, loops: Seq<LoopRange>, calls: Seq<Call>)
    ensures
        replay(count, loops, calls) matches Some(Place::Body { passes, .. }) ==> passes
            < MAX_ITERATIONS,
        replay(count, loops, calls) matches Some(Place::Head { passes, .. }) ==> passes
            < MAX_ITERATIONS,
    decreases calls.len(),
{
    if calls.len() > 0 {
        law_passes_are_capped(count, loops, calls.drop_last());
    }
}

/// A host that notes which actions run, and answers its tests from a list: with no once
/// the list is used up.
#[derive(Debug, Clone)]
pub struct Script {
    /// The actions that ran, in order.
    pub order: Vec<usize>,
    /// The answers.
    pub answers: Vec<bool>,
    /// How many answers have been given.
    pub asked: usize,
}

impl Script {
    /// A host that has run nothing and will give these answers.
    pub fn new(answers: Vec<bool>) -> (s: Script)
        ensures
            s.order@ == Seq::<usize>::empty(),
            s.answers == answers,
            s.asked == 0,
    {
        Script { order: Vec::new(), answers, asked: 0 }
    }

    /// The next answer.
    pub open spec fn answer(self) -> bool {
        self.asked < self.answers@.len() && self.answers@[self.asked as int]
    }
}

impl LoopHost for Script {
    open spec fn ran(before: Script, index: usize, after: Script) -> bool {
        &&& after.order@ == before.order@.push(index)
        &&& after.answers == before.answers
        &&& after.asked == before.asked
    }

    open spec fn tested(before: Script, range: LoopRange, answer: bool, after: Script) -> bool {
        &&& answer == before.answer()
        &&& after.order@ == before.order@
        &&& after.answers == before.answers
        &&& after.asked == if before.asked < before.answers@.len() {
            before.asked + 1
        } else {
            before.asked as int
        }
    }

    fn run_action(&mut self, index: usize) {
        self.order.push(index);
    }

    fn predicate_holds(&mut self, range: &LoopRange) -> (answer: bool) {
        if self.asked < self.answers.len() {
            self.asked = self.asked + 1;
            self.answers[self.asked - 1]
        } else {
            false
        }
    }
}

/// The actions that the calls run, in order.
pub open spec fn actions_of(calls: Seq<Call>) -> Seq<usize>
    decreases calls.len(),
{
    if calls.len() == 0 {
        Seq::empty()
    } else {
        match calls.last() {
            Call::Run(index) => actions_of(calls.drop_last()).push(index),
            Call::Test(..) => actions_of(calls.drop_last()),
        }
    }
}

/// A script notes the actions of the walk that it was host of, each as often as it ran.
pub proof fn law_a_script_notes_the_walk(before: Script, calls: Seq<Call>, after: Script)
    requires
        made_all(before, calls, after),
    ensures
        after.order@ == before.order@ + actions_of(calls),
        actions_of(calls).len() == runs(calls),
    decreases calls.len(),
{
    if calls.len() == 0 {
        assert(before.order@ + actions_of(calls) =~= before.order@);
    } else {
        let mid: Script = choose|mid: Script| #[trigger]
            made(mid, calls.last(), after) && made_all(before, calls.drop_last(), mid);
        law_a_script_notes_the_walk(before, calls.drop_last(), mid);
        assert(after.order@ =~= before.order@ + actions_of(calls));
    }
}

} // verus!
