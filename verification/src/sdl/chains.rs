//! What a chain of actions without loops does.

use ax25sdl::{ActionStep, Ax25ActionVerb, LoopRange, SubroutinePath, SubroutineSpec};
use vstd::prelude::*;

use super::context::Edit;
use super::dispatch;
use super::event::Trigger;
use super::tx::{Machine, PendingFrame};
use super::verbs;

verus! {

/// The actions are these verbs, one after the other, without loops.
pub open spec fn lists(
    actions: Seq<ActionStep>,
    loops: Seq<LoopRange>,
    chain: Seq<Ax25ActionVerb>,
) -> bool {
    &&& loops.len() == 0
    &&& actions.len() == chain.len()
    &&& forall|i: int| 0 <= i < chain.len() ==> (#[trigger] actions[i]).verb == chain[i]
}

/// The path that the subroutine `name` takes.
pub open spec fn path_of(
    subs: Seq<SubroutineSpec>,
    name: Seq<char>,
    m: Machine,
    t: Trigger,
) -> Option<SubroutinePath> {
    match dispatch::routine_from(subs, name, 0) {
        Some(paths) => dispatch::path_from(paths, m, t, 0),
        None => None,
    }
}

/// The path that the subroutine `name` takes lists these verbs.
pub open spec fn goes(
    subs: Seq<SubroutineSpec>,
    name: Seq<char>,
    m: Machine,
    t: Trigger,
    chain: Seq<Ax25ActionVerb>,
) -> bool {
    path_of(subs, name, m, t) matches Some(path) && lists(path.actions@, path.loops@, chain)
}

/// No correction of the figures concerns the verb under this trigger.
pub open spec fn stands(verb: Ax25ActionVerb, m: Machine, t: Trigger) -> bool {
    &&& verbs::rewritten(verb, m.link.quirks, t.on) == verb
    &&& !verbs::suppressed(verb, m.link.quirks, t.on)
}

/// The verb takes one machine to the other.
#[verifier::opaque]
pub open spec fn leads(
    subs: Seq<SubroutineSpec>,
    depth: nat,
    verb: Ax25ActionVerb,
    t: Trigger,
    m: Machine,
    after: Machine,
) -> bool {
    dispatch::run_verb(subs, depth, verb, m, t) == verbs::done(after)
}

/// A chain takes a machine through every step of the way.
pub proof fn lemma_chain(
    subs: Seq<SubroutineSpec>,
    depth: nat,
    actions: Seq<ActionStep>,
    loops: Seq<LoopRange>,
    chain: Seq<Ax25ActionVerb>,
    t: Trigger,
    way: Seq<Machine>,
)
    requires
        lists(actions, loops, chain),
        way.len() == chain.len() + 1,
        forall|i: int|
            0 <= i < chain.len() ==> leads(
                subs,
                depth,
                #[trigger] chain[i],
                t,
                way[i],
                way[i + 1],
            ),
    ensures
        dispatch::run_actions(subs, depth, actions, loops, 0, way[0], t) == verbs::done(
            way.last(),
        ),
{
    lemma_rest_of_chain(subs, depth, actions, loops, chain, t, way, 0);
}

proof fn lemma_rest_of_chain(
    subs: Seq<SubroutineSpec>,
    depth: nat,
    actions: Seq<ActionStep>,
    loops: Seq<LoopRange>,
    chain: Seq<Ax25ActionVerb>,
    t: Trigger,
    way: Seq<Machine>,
    k: int,
)
    requires
        0 <= k <= chain.len(),
        lists(actions, loops, chain),
        way.len() == chain.len() + 1,
        forall|i: int|
            0 <= i < chain.len() ==> leads(
                subs,
                depth,
                #[trigger] chain[i],
                t,
                way[i],
                way[i + 1],
            ),
    ensures
        dispatch::run_actions(subs, depth, actions, loops, k, way[k], t) == verbs::done(way.last()),
    decreases chain.len() - k,
{
    if k < chain.len() {
        reveal(leads);
        assert(actions[k].verb == chain[k]);
        lemma_rest_of_chain(subs, depth, actions, loops, chain, t, way, k + 1);
    }
}

/// The actions from `k` on are these verbs, and no loop starts among them.
pub open spec fn lists_from(
    actions: Seq<ActionStep>,
    loops: Seq<LoopRange>,
    k: int,
    chain: Seq<Ax25ActionVerb>,
) -> bool {
    &&& 0 <= k
    &&& k + chain.len() <= actions.len()
    &&& forall|i: int|
        0 <= i < chain.len() ==> actions[k + i].verb == (#[trigger] chain[i])
            && dispatch::loop_from(loops, k + i, 0) is None
}

/// A part of a chain takes a machine through every step of the way, up to what stands
/// behind it.
pub proof fn lemma_part(
    subs: Seq<SubroutineSpec>,
    depth: nat,
    actions: Seq<ActionStep>,
    loops: Seq<LoopRange>,
    k: int,
    chain: Seq<Ax25ActionVerb>,
    t: Trigger,
    way: Seq<Machine>,
)
    requires
        lists_from(actions, loops, k, chain),
        way.len() == chain.len() + 1,
        forall|i: int|
            0 <= i < chain.len() ==> leads(
                subs,
                depth,
                #[trigger] chain[i],
                t,
                way[i],
                way[i + 1],
            ),
    ensures
        dispatch::run_actions(subs, depth, actions, loops, k, way[0], t) == dispatch::run_actions(
            subs,
            depth,
            actions,
            loops,
            k + chain.len(),
            way.last(),
            t,
        ),
    decreases chain.len(),
{
    if chain.len() > 0 {
        assert(leads(subs, depth, chain[0], t, way[0], way[1]));
        assert(actions[k + 0].verb == chain[0]);
        reveal(leads);
        let rest: Seq<Ax25ActionVerb> = chain.skip(1);
        let onward: Seq<Machine> = way.skip(1);
        assert forall|i: int| 0 <= i < rest.len() implies leads(
            subs,
            depth,
            #[trigger] rest[i],
            t,
            onward[i],
            onward[i + 1],
        ) by {
            assert(rest[i] == chain[i + 1]);
        }
        assert forall|i: int| 0 <= i < rest.len() implies actions[k + 1 + i].verb == (
        #[trigger] rest[i]) && dispatch::loop_from(loops, k + 1 + i, 0) is None by {
            assert(rest[i] == chain[i + 1]);
        }
        lemma_part(subs, depth, actions, loops, k + 1, rest, t, onward);
    }
}

/// A subroutine whose path lists a chain does what the chain does.
pub proof fn lemma_routine(
    subs: Seq<SubroutineSpec>,
    depth: nat,
    name: Seq<char>,
    chain: Seq<Ax25ActionVerb>,
    t: Trigger,
    way: Seq<Machine>,
)
    requires
        way.len() == chain.len() + 1,
        goes(subs, name, way[0], t, chain),
        forall|i: int|
            0 <= i < chain.len() ==> leads(
                subs,
                depth,
                #[trigger] chain[i],
                t,
                way[i],
                way[i + 1],
            ),
    ensures
        dispatch::run_routine(subs, depth, name, way[0], t) == verbs::done(way.last()),
{
    let path: SubroutinePath = path_of(subs, name, way[0], t)->0;
    lemma_chain(subs, depth, path.actions@, path.loops@, chain, t, way);
}

/// A verb that calls a subroutine does what the subroutine does.
pub proof fn lemma_call(
    subs: Seq<SubroutineSpec>,
    depth: nat,
    verb: Ax25ActionVerb,
    t: Trigger,
    m: Machine,
    after: Machine,
)
    requires
        depth > 0,
        stands(verb, m, t),
        verbs::called(verb) matches Some((name, pf)) && dispatch::run_routine(
            subs,
            (depth - 1) as nat,
            name,
            match pf {
                Some(f) => m.with_pending(PendingFrame { pf: Some(f), ..m.pending }),
                None => m,
            },
            t,
        ) == verbs::done(after),
    ensures
        leads(subs, depth, verb, t, m, after),
{
    reveal(leads);
}

/// A verb that calls no subroutine does what it does on its own.
pub proof fn lemma_primitive(
    subs: Seq<SubroutineSpec>,
    depth: nat,
    verb: Ax25ActionVerb,
    t: Trigger,
    m: Machine,
    after: Machine,
)
    requires
        stands(verb, m, t),
        verbs::called(verb) is None,
        verbs::primitive_step(verb, m, t) == verbs::done(after),
    ensures
        leads(subs, depth, verb, t, m, after),
{
    reveal(leads);
}

/// A verb that changes the link does no more than that.
pub proof fn lemma_edit(
    subs: Seq<SubroutineSpec>,
    depth: nat,
    verb: Ax25ActionVerb,
    t: Trigger,
    m: Machine,
    edit: Edit,
)
    requires
        stands(verb, m, t),
        verbs::called(verb) is None,
        verbs::edit_of(verb, m.link) == Some(edit),
    ensures
        leads(subs, depth, verb, t, m, m.with_link(m.link.edited(edit))),
{
    reveal(leads);
}

} // verus!
