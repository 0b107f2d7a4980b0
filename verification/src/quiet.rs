//! What a flush does where the effects do not disturb each other: it runs each stale effect once, in
//! the order of registration.
use crate::context::EffectBody;
use crate::effect::{effect_ran, lemma_maybe_ran, maybe_ran, runnable};
use crate::flush::{
    all_ran, drained_to, flushed, idled, lemma_evolves_awaiting, lemma_flushed, lemma_passed, lemma_rechecked, passed, passes,
    rechecked, settled, MAX_EFFECT_ITERATIONS,
};
use crate::id::{Entity, Source};
use crate::laws::{law_a_poll_finds_every_stale_effect, lemma_no_passes, lemma_rising};
use crate::lifetime::{lemma_evolves, lemma_evolves_trans};
use crate::state::WorldState;
use crate::tick::MAX_CHANGE_AGE;
use crate::timing::{lemma_newer, lemma_polled_wf};
use vstd::prelude::*;

verus! {

/// Whether a run of `effect` that turned the world `before` into the world `after` disturbs no other
/// effect: it writes none of `sources`, queues nothing, neither adds nor removes an effect, and
/// tracks nothing but `sources`.
pub open spec fn quiet_run<V, B>(
    sources: Set<Source>,
    before: WorldState<V, B>,
    effect: Entity,
    after: WorldState<V, B>,
) -> bool {
    &&& forall|s: Source|
        sources.contains(s) ==> #[trigger] after.changed_tick(s) == before.changed_tick(s)
    &&& after.dirty == before.dirty
    &&& forall|e: Entity| #[trigger] runnable(after, e) == runnable(before, e)
    &&& forall|e: Entity|
        e != effect ==> #[trigger] after.dependencies_of(e) == before.dependencies_of(e)
    &&& forall|s: Source| #[trigger] after.tracks(effect, s) ==> sources.contains(s)
}

/// Whether `later` may be what the world `now` is like later on, with no other effects than it has, so
/// that these still carry the same functions.
pub open spec fn carries<V, B>(now: WorldState<V, B>, later: WorldState<V, B>) -> bool {
    &&& now.evolves_to(later.awaiting(now.pending))
    &&& forall|e: Entity| #[trigger] runnable(later, e) ==> runnable(now, e)
}

/// Whether no run of an effect of the world `now` disturbs another effect, now or later on.
pub open spec fn quiet<V, B: EffectBody<V, B>>(sources: Set<Source>, now: WorldState<V, B>) -> bool {
    forall|before: WorldState<V, B>, effect: Entity, after: WorldState<V, B>|
        before.wf() && carries(now, before) && runnable(before, effect) && #[trigger] effect_ran(
            before,
            effect,
            after,
        ) ==> quiet_run(sources, before, effect, after)
}

/// Whether `turns` are the worlds in which `order` is re-checked, one effect after the other, and the
/// world that is left.
pub open spec fn turns_of<V, B: EffectBody<V, B>>(
    start: WorldState<V, B>,
    order: Seq<Entity>,
    turns: Seq<WorldState<V, B>>,
    end: WorldState<V, B>,
) -> bool {
    &&& turns.len() == order.len() + 1
    &&& turns[0] == start
    &&& turns.last() == end
    &&& forall|i: int| 0 <= i < order.len() ==> rechecked(turns[i], #[trigger] order[i], turns[i + 1])
}

/// Re-checking effects one after the other is a matter of turns.
pub proof fn lemma_turns<V, B: EffectBody<V, B>>(
    start: WorldState<V, B>,
    order: Seq<Entity>,
    end: WorldState<V, B>,
) -> (turns: Seq<WorldState<V, B>>)
    requires
        all_ran(start, order, end),
    ensures
        turns_of(start, order, turns, end),
    decreases order.len(),
{
    if order.len() == 0 {
        seq![start]
    } else {
        let rest = order.drop_last();
        let middle = choose|middle: WorldState<V, B>|
            all_ran(start, rest, middle) && #[trigger] rechecked(middle, order.last(), end);
        let sofar = lemma_turns(start, rest, middle);
        let turns = sofar.push(end);
        assert forall|i: int| 0 <= i < order.len() implies rechecked(
            turns[i],
            #[trigger] order[i],
            turns[i + 1],
        ) by {
            if i < rest.len() {
                assert(rest[i] == order[i]);
            }
        }
        turns
    }
}

/// The tick never goes back from one turn to the next.
proof fn lemma_turns_evolve<V, B: EffectBody<V, B>>(
    start: WorldState<V, B>,
    order: Seq<Entity>,
    turns: Seq<WorldState<V, B>>,
    end: WorldState<V, B>,
    i: int,
)
    requires
        start.wf(),
        turns_of(start, order, turns, end),
        0 <= i < turns.len(),
    ensures
        turns[i].wf(),
        i > 0 ==> turns[i - 1].elapsed <= turns[i].elapsed,
    decreases i,
{
    if i > 0 {
        lemma_turns_evolve(start, order, turns, end, i - 1);
        assert(rechecked(turns[i - 1], order[i - 1], turns[i]));
        lemma_rechecked(turns[i - 1], order[i - 1], turns[i]);
    }
}

/// No turn is later than the end.
proof fn lemma_turns_before_the_end<V, B: EffectBody<V, B>>(
    start: WorldState<V, B>,
    order: Seq<Entity>,
    turns: Seq<WorldState<V, B>>,
    end: WorldState<V, B>,
    i: int,
)
    requires
        start.wf(),
        turns_of(start, order, turns, end),
        0 <= i < turns.len(),
    ensures
        turns[i].elapsed <= end.elapsed,
    decreases turns.len() - i,
{
    if i < turns.len() - 1 {
        lemma_turns_before_the_end(start, order, turns, end, i + 1);
        lemma_turns_evolve(start, order, turns, end, i + 1);
    }
}

/// Whether nothing that matters has happened by the `i`th turn: the sources are as they were, and so
/// are the effects whose turn is still to come.
spec fn calm<V, B>(
    sources: Set<Source>,
    before: WorldState<V, B>,
    order: Seq<Entity>,
    start: WorldState<V, B>,
    turn: WorldState<V, B>,
    i: int,
) -> bool {
    &&& carries(before, turn)
    &&& turn.dirty == start.dirty
    &&& forall|s: Source|
        sources.contains(s) ==> #[trigger] turn.changed_tick(s) == before.changed_tick(s)
    &&& forall|e: Entity, s: Source| #[trigger] turn.tracks(e, s) ==> sources.contains(s)
    &&& forall|j: int|
        i <= j < order.len() ==> turn.dependencies_of(#[trigger] order[j]) == before.dependencies_of(
            order[j],
        )
}

/// Where effects do not disturb each other, nothing that matters happens from turn to turn.
proof fn lemma_calm<V, B: EffectBody<V, B>>(
    sources: Set<Source>,
    before: WorldState<V, B>,
    start: WorldState<V, B>,
    order: Seq<Entity>,
    turns: Seq<WorldState<V, B>>,
    end: WorldState<V, B>,
    i: int,
)
    requires
        quiet(sources, before),
        before.wf(),
        start.wf(),
        order.no_duplicates(),
        turns_of(start, order, turns, end),
        calm(sources, before, order, start, start, 0),
        0 <= i < turns.len(),
    ensures
        turns[i].wf(),
        calm(sources, before, order, start, turns[i], i),
    decreases i,
{
    lemma_turns_evolve(start, order, turns, end, i);
    if i > 0 {
        lemma_calm(sources, before, start, order, turns, end, i - 1);
        let effect = order[i - 1];
        let turn = turns[i - 1];
        let next = turns[i];
        assert(rechecked(turn, effect, next));
        let ran = next.awaiting(turn.pending);
        assert forall|s: Source| #[trigger] next.changed_tick(s) == ran.changed_tick(s) by {}
        assert forall|e: Entity| #[trigger] next.dependencies_of(e) == ran.dependencies_of(e) by {}
        assert forall|e: Entity, s: Source| #[trigger] next.tracks(e, s) == ran.tracks(e, s) by {}
        assert(quiet_run(sources, turn, effect, ran) || ran == turn);
        lemma_maybe_ran(turn, effect, ran);
        lemma_evolves_awaiting(turn, ran, before.pending);
        assert(next.awaiting(before.pending) =~= ran.awaiting(before.pending));
        lemma_evolves_trans(
            before,
            turn.awaiting(before.pending),
            next.awaiting(before.pending),
        );
        assert forall|e: Entity| #[trigger] runnable(next, e) implies runnable(before, e) by {
            assert(runnable(ran, e));
            assert(runnable(turn, e));
        }
        assert forall|s: Source| sources.contains(s) implies #[trigger] next.changed_tick(s)
            == before.changed_tick(s) by {
            assert(ran.changed_tick(s) == turn.changed_tick(s));
        }
        assert forall|e: Entity, s: Source| #[trigger] next.tracks(e, s) implies sources.contains(s) by {
            assert(ran.tracks(e, s));
            if e != effect {
                assert(ran.dependencies_of(e) == turn.dependencies_of(e));
                assert(ran.tracked_by(e) == turn.tracked_by(e));
                assert(turn.dependencies_of(e).len() > 0);
                assert(turn.tracks(e, s));
            } else if ran == turn {
                assert(turn.tracks(e, s));
            }
        }
        assert forall|j: int| i <= j < order.len() implies next.dependencies_of(#[trigger] order[j])
            == before.dependencies_of(order[j]) by {
            assert(order[j] != effect);
            assert(ran.dependencies_of(order[j]) == turn.dependencies_of(order[j]));
        }
    }
}

/// As long as its dependencies and their sources are as they were, an effect is as stale as it was.
proof fn lemma_as_stale<V, B>(
    sources: Set<Source>,
    before: WorldState<V, B>,
    order: Seq<Entity>,
    start: WorldState<V, B>,
    turn: WorldState<V, B>,
    i: int,
)
    requires
        before.wf(),
        turn.wf(),
        before.elapsed + 1 < MAX_CHANGE_AGE,
        turn.elapsed + 1 < MAX_CHANGE_AGE,
        calm(sources, before, order, start, turn, i),
        0 <= i < order.len(),
        before.dependencies_of(order[i]).len() > 0,
    ensures
        turn.advanced(order[i]) <==> before.behind(order[i]),
{
    let effect = order[i];
    let dependencies = before.dependencies_of(effect);
    assert(turn.dependencies_of(effect) == dependencies);
    assert forall|k: int| 0 <= k < dependencies.len() implies turn.dependency_advanced(
        #[trigger] dependencies[k],
    ) == before.dependency_advanced(dependencies[k]) by {
        let d = dependencies[k];
        assert(turn.tracked_by(effect)[k] == d.source);
        assert(turn.tracks(effect, d.source));
        assert(sources.contains(d.source));
        assert(turn.changed_tick(d.source) == before.changed_tick(d.source));
        assert(turn.plausible(turn.dependencies_of(effect)[k]));
        assert(before.plausible(before.dependencies_of(effect)[k]));
        if let Some(changed) = before.changed_tick(d.source) {
            assert(turn.changed_tick(d.source) == Some(changed));
            assert(changed.0 <= before.tick.0);
            assert(changed.0 <= turn.tick.0);
            lemma_newer(changed, d.observed, before.tick);
            lemma_newer(changed, d.observed, turn.tick);
        }
    }
    if before.behind(effect) {
        let k = choose|k: int|
            0 <= k < before.dependencies_of(effect).len() && before.dependency_advanced(
                #[trigger] before.dependencies_of(effect)[k],
            );
        assert(turn.dependency_advanced(dependencies[k]));
        assert(turn.dependency_advanced(turn.dependencies_of(effect)[k]));
    }
    if turn.behind(effect) {
        let k = choose|k: int|
            0 <= k < turn.dependencies_of(effect).len() && turn.dependency_advanced(
                #[trigger] turn.dependencies_of(effect)[k],
            );
        assert(before.dependency_advanced(dependencies[k]));
        assert(before.dependency_advanced(before.dependencies_of(effect)[k]));
    }
}

/// Several passes are one, and then the others.
proof fn lemma_after_the_first<V, B: EffectBody<V, B>>(
    before: WorldState<V, B>,
    after: WorldState<V, B>,
    count: nat,
) -> (first: WorldState<V, B>)
    requires
        count > 0,
        passes(before, after, count),
    ensures
        passed(before, first),
        passes(first, after, (count - 1) as nat),
    decreases count,
{
    let middle = choose|middle: WorldState<V, B>|
        passes(before, middle, (count - 1) as nat) && #[trigger] passed(middle, after);
    if count > 1 {
        let first = lemma_after_the_first(before, middle, (count - 1) as nat);
        assert(passes(first, middle, (count - 2) as nat) && passed(middle, after));
        first
    } else {
        assert(passes(after, after, 0));
        after
    }
}

/// Whether a flush of the world `before` re-checked `order` in the worlds `turns`, found nothing
/// further to do, and left the world `after`. The effects that ran are exactly those that were stale
/// to begin with, each once, in the order of registration.
pub open spec fn ran_once<V, B: EffectBody<V, B>>(
    before: WorldState<V, B>,
    order: Seq<Entity>,
    turns: Seq<WorldState<V, B>>,
    after: WorldState<V, B>,
) -> bool {
    &&& order.no_duplicates()
    &&& forall|i: int, j: int|
        0 <= i < j < order.len() ==> before.rank(#[trigger] order[i]) < before.rank(#[trigger] order[j])
    &&& forall|e: Entity| #[trigger] before.behind(e) ==> order.contains(e)
    &&& turns.len() == order.len() + 1
    &&& forall|i: int|
        0 <= i < order.len() ==> {
            &&& maybe_ran(turns[i], #[trigger] order[i], turns[i + 1].awaiting(turns[i].pending))
            &&& turns[i].advanced(order[i]) <==> before.behind(order[i])
            &&& turns[i].advanced(order[i]) ==> runnable(turns[i], order[i])
        }
    &&& idled(turns.last().awaiting(before.pending), after)
}

/// One pass over effects that do not disturb each other.
proof fn lemma_quiet_pass<V, B: EffectBody<V, B>>(
    sources: Set<Source>,
    before: WorldState<V, B>,
    first: WorldState<V, B>,
    after: WorldState<V, B>,
)
    requires
        quiet(sources, before),
        before.wf(),
        before.pending.is_empty(),
        forall|e: Entity, s: Source| #[trigger] before.tracks(e, s) ==> sources.contains(s),
        forall|e: Entity| #[trigger]
            before.dirty.queue.contains(e) ==> before.dependencies_of(e).len() > 0,
        passed(before, first),
        first.elapsed + 1 < MAX_CHANGE_AGE,
    ensures
        settled(first),
        idled(first, after) ==> exists|order: Seq<Entity>, turns: Seq<WorldState<V, B>>| #[trigger]
            ran_once(before, order, turns, after),
{
    lemma_passed(before, first);
    let (polled, order) = choose|polled: WorldState<V, B>, order: Seq<Entity>|
        {
            &&& before.polled_to(polled)
            &&& polled.dirty.queue.len() > 0
            &&& #[trigger] polled.in_order(polled.dirty.queue, order)
            &&& drained_to(polled, order, first)
        };
    let queue = polled.dirty.queue;
    let start = polled.drained();
    let end = first.awaiting(start.pending.difference(order.to_set()));
    lemma_polled_wf(before, polled);
    crate::flush::lemma_drained_wf(polled);
    let turns = lemma_turns(start, order, end);
    assert forall|s: Source| #[trigger] start.changed_tick(s) == before.changed_tick(s) by {}
    assert forall|e: Entity| #[trigger] start.dependencies_of(e) == before.dependencies_of(e) by {}
    assert forall|e: Entity, s: Source| #[trigger] start.tracks(e, s) == before.tracks(e, s) by {}
    lemma_evolves(before, start.awaiting(before.pending));
    assert forall|e: Entity| #[trigger] runnable(start, e) implies runnable(before, e) by {}
    assert(calm(sources, before, order, start, start, 0));
    // Whoever is queued tracks something, and so has a function to run.
    assert forall|e: Entity| #[trigger] queue.contains(e) implies before.dependencies_of(e).len() > 0 by {
        if !before.dirty.queue.contains(e) {
            let s = choose|s: Source| #[trigger] before.wakes(s, e);
            assert(before.subscribers_of(s).contains(e));
            assert(before.tracks(e, s));
        }
    }
    assert forall|e: Entity| #[trigger] polled.rank(e) == before.rank(e) by {}
    assert forall|e: Entity| #[trigger] queue.contains(e) implies runnable(polled, e) by {
        assert(before.dependencies_of(e).len() > 0);
        assert(before.tracking(e));
    }
    lemma_rising(polled, queue, order);
    // What each turn finds.
    assert forall|i: int| 0 <= i < order.len() implies {
        &&& turns[i].advanced(#[trigger] order[i]) <==> before.behind(order[i])
        &&& runnable(turns[i], order[i])
    } by {
        lemma_calm(sources, before, start, order, turns, end, i);
        lemma_turns_before_the_end(start, order, turns, end, i);
        assert(order.contains(order[i]));
        assert(queue.contains(order[i]));
        lemma_as_stale(sources, before, order, start, turns[i], i);
        assert(turns[i].dependencies_of(order[i]).len() > 0);
        assert(turns[i].tracking(order[i]));
    }
    // What is left.
    lemma_calm(sources, before, start, order, turns, end, order.len() as int);
    assert(settled(first)) by {
        assert forall|e: Entity| !#[trigger] first.woken(e) by {
            if first.woken(e) {
                let s = choose|s: Source| #[trigger] first.wakes(s, e);
                assert(first.subscribers_of(s).contains(e));
                assert(first.tracks(e, s));
                assert(end.tracks(e, s));
                assert(end.changed_tick(s) == before.changed_tick(s));
                assert(first.changed_tick(s) == end.changed_tick(s));
                let changed = before.changed_tick(s)->0;
                assert(changed.0 <= before.tick.0);
                assert(first.dirty.last_poll == before.tick);
                assert(first.changed_tick(s) == Some(changed));
                lemma_newer(changed, before.tick, first.tick);
            }
        }
    }
    if idled(first, after) {
        assert forall|e: Entity| #[trigger] before.behind(e) implies order.contains(e) by {
            law_a_poll_finds_every_stale_effect(before, e, polled);
        }
        assert forall|i: int| 0 <= i < order.len() implies maybe_ran(
            turns[i],
            #[trigger] order[i],
            turns[i + 1].awaiting(turns[i].pending),
        ) by {
            assert(rechecked(turns[i], order[i], turns[i + 1]));
        }
        assert forall|i: int, j: int| 0 <= i < j < order.len() implies before.rank(#[trigger] order[i])
            < before.rank(#[trigger] order[j]) by {
            assert(polled.rank(order[i]) < polled.rank(order[j]));
        }
        assert(turns.last().awaiting(before.pending) =~= first);
        assert(ran_once(before, order, turns, after));
    }
}

/// Where effects do not disturb each other, a flush is done, and has run exactly the effects that
/// were stale to begin with, each once, in the order of registration.
///
/// Effects do not disturb each other if no run writes what any effect tracks, queues an effect, or
/// adds or removes one. That is asked of the functions that the effects of this world carry. An effect that tracks nothing counts as dirty whenever it is queued, so no
/// such effect must be. This is said of worlds in which nothing lies too far back to be told apart,
/// and of flushes that do not run within another one.
pub proof fn law_a_flush_runs_each_stale_effect_once<V, B: EffectBody<V, B>>(
    sources: Set<Source>,
    before: WorldState<V, B>,
    after: WorldState<V, B>,
    done: bool,
)
    requires
        quiet(sources, before),
        before.wf(),
        before.pending.is_empty(),
        forall|e: Entity, s: Source| #[trigger] before.tracks(e, s) ==> sources.contains(s),
        forall|e: Entity| #[trigger]
            before.dirty.queue.contains(e) ==> before.dependencies_of(e).len() > 0,
        flushed(before, after, done),
        after.elapsed + 1 < MAX_CHANGE_AGE,
    ensures
        done,
        exists|order: Seq<Entity>, turns: Seq<WorldState<V, B>>| #[trigger]
            ran_once(before, order, turns, after),
{
    lemma_flushed(before, after, done);
    if done && exists|middle: WorldState<V, B>, count: nat|
        count < MAX_EFFECT_ITERATIONS && #[trigger] passes(before, middle, count) && idled(
            middle,
            after,
        ) {
        let (middle, count) = choose|middle: WorldState<V, B>, count: nat|
            count < MAX_EFFECT_ITERATIONS && #[trigger] passes(before, middle, count) && idled(
                middle,
                after,
            );
        if count == 0 {
            let order = Seq::<Entity>::empty();
            let turns = seq![before];
            assert forall|e: Entity| #[trigger] before.behind(e) implies order.contains(e) by {
                law_a_poll_finds_every_stale_effect(before, e, after);
            }
            assert(turns.last().awaiting(before.pending) =~= before);
            assert(ran_once(before, order, turns, after));
        } else {
            let first = lemma_after_the_first(before, middle, count);
            lemma_passed(before, first);
            crate::flush::lemma_passes(first, middle, (count - 1) as nat);
            lemma_quiet_pass(sources, before, first, after);
            lemma_no_passes(first, middle, (count - 1) as nat);
        }
    } else {
        let first = lemma_after_the_first(before, after, MAX_EFFECT_ITERATIONS as nat);
        lemma_passed(before, first);
        crate::flush::lemma_passes(first, after, (MAX_EFFECT_ITERATIONS - 1) as nat);
        lemma_quiet_pass(sources, before, first, after);
        lemma_no_passes(first, after, (MAX_EFFECT_ITERATIONS - 1) as nat);
    }
}

} // verus!
