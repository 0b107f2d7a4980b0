//! What holds of the library as a whole, stated over the contracts of its functions.
use crate::component::{Component, Stored};
use crate::context::{ContextState, EffectBody};
use crate::despawn::lemma_despawned_wf;
use crate::effect::{
    body_ran, effect_ran, effect_spawned, lemma_effect_ran, maybe_ran, opening, runnable,
};
use crate::flush::{
    all_ran, drained_to, flushed, idled, lemma_flushed, passed, passes, rechecked, settled,
    MAX_EFFECT_ITERATIONS,
};
use crate::id::{
    lemma_filtered, lemma_without, ComponentId, Dependency, Entity, Source, DEPENDENCIES_ID,
    EFFECTS_ID, EFFECT_ID, EFFECT_INDEX_ID, EFFECT_OF_ID, FIRST_OWN_ID,
};
use crate::lifetime::{lemma_evolves_trans, lemma_registered_wf};
use crate::rewire::{lemma_observed_now, lemma_reconciled, lemma_reconciled_wf};
use crate::state::{outside, EntityState, WorldState};
use crate::template::{ScopedEntityIndex, TemplateState};
use crate::tick::{Tick, MAX_CHANGE_AGE, TICK_PERIOD};
use crate::timing::{lemma_newer, lemma_seen, lemma_settled, lemma_tracked_source};
use vstd::prelude::*;

verus! {

/// What is left of a run is what its body did: reconciling the edges touches no component and no
/// resource.
pub proof fn law_a_run_keeps_values<V, B: EffectBody<V, B>, C: Component<V>>(
    before: WorldState<V, B>,
    effect: Entity,
    end: ContextState<V, B>,
    entity: Entity,
)
    requires
        body_ran(before, effect, end),
    ensures
        ({
            let after = end.world.reconciled(effect, end.reads).ticked();
            &&& after.value::<C>(entity) == end.world.value::<C>(entity)
            &&& after.resource::<C>() == end.world.resource::<C>()
            &&& after.alive(entity) == end.world.alive(entity)
            &&& after.dirty == end.world.dirty
        }),
{
}

/// An effect has by the end of its run observed the consequences of its own writes, so they never
/// re-trigger it: whatever it wrote, it is not dirty after its run, and a re-check leaves it alone.
/// It stays so in every `later` world, at whatever tick, until one of its sources changes again.
///
/// An effect that tracked nothing, or that has lost its record, always counts as dirty.
pub proof fn law_own_writes_do_not_retrigger<V, B: EffectBody<V, B>>(
    before: WorldState<V, B>,
    effect: Entity,
    after: WorldState<V, B>,
    later: WorldState<V, B>,
)
    requires
        runnable(before, effect),
        effect_ran(before, effect, after),
        after.dependencies_of(effect).len() > 0,
        later.dependencies_of(effect) == after.dependencies_of(effect),
        forall|source: Source|
            after.tracks(effect, source) ==> #[trigger] later.changed_tick(source)
                == after.changed_tick(source),
    ensures
        !after.advanced(effect),
        !later.advanced(effect),
        forall|next: WorldState<V, B>| #[trigger] maybe_ran(later, effect, next) ==> next == later,
{
    let end = choose|end: ContextState<V, B>| #[trigger]
        body_ran(before, effect, end) && after == end.world.reconciled(effect, end.reads).ticked();
    let closed = end.world.reconciled(effect, end.reads);
    assert(after.tracking(effect) == closed.tracking(effect));
    assert(after.dependencies_of(effect) == closed.dependencies_of(effect));
    assert(end.world.tracking(effect));
    lemma_reconciled(end.world, effect, end.reads);
    assert forall|i: int| 0 <= i < after.dependencies_of(effect).len() implies !after.dependency_advanced(
        #[trigger] after.dependencies_of(effect)[i],
    ) by {
        lemma_observed_now(end.world, effect, end.reads, i);
    }
    assert forall|i: int| 0 <= i < later.dependencies_of(effect).len() implies !later.dependency_advanced(
        #[trigger] later.dependencies_of(effect)[i],
    ) by {
        let dependency = after.dependencies_of(effect)[i];
        assert(dependency == end.world.linked(effect, end.reads).observed(end.reads)[i]);
        assert(end.reads.contains(end.reads[i]));
        assert(after.tracked_by(effect) == closed.tracked_by(effect));
        assert(after.tracks(effect, dependency.source));
        assert(later.changed_tick(dependency.source) == after.changed_tick(dependency.source));
        assert(after.changed_tick(dependency.source) == closed.changed_tick(dependency.source));
        assert(closed.changed_tick(dependency.source) == end.world.linked(
            effect,
            end.reads,
        ).changed_tick(dependency.source));
    }
}

/// A tick follows the one before it: it is one younger, as long as ages do not start over.
proof fn lemma_next_age(tick: Tick)
    ensures
        tick.age(tick.next()) == 1,
{
}

/// Something that changed at or after the tick `closed` is newer than something observed before
/// `closed`, as long as the change does not lie too far back to be told apart.
pub proof fn law_later_changes_are_newer(observed: Tick, closed: Tick, changed: Tick, now: Tick)
    requires
        0 < observed.age(closed),
        observed.age(closed) + closed.age(now) < TICK_PERIOD,
        changed.age(now) <= closed.age(now),
        changed.age(now) < MAX_CHANGE_AGE,
    ensures
        changed.newer_than(observed, now),
{
    assert(observed.age(now) == observed.age(closed) + closed.age(now));
}

/// A source that changes after an effect ran makes the effect dirty. So does one that was absent
/// during the run and is inserted later: the dependency is recorded either way.
///
/// Here `later` is a world in which the effect still has the record of that run, and `changed` is
/// when the source changed: at or after the tick that followed the run, and not too far back to be
/// told apart. What the source was last changed at before must lie in the past, and ticks must not
/// have started over since.
pub proof fn law_a_change_after_the_run_is_seen<V, B: EffectBody<V, B>>(
    before: WorldState<V, B>,
    effect: Entity,
    after: WorldState<V, B>,
    source: Source,
    later: WorldState<V, B>,
    changed: Tick,
)
    requires
        runnable(before, effect),
        effect_ran(before, effect, after),
        after.tracks(effect, source),
        after.changed_tick(source) matches Some(earlier) ==> 0 < earlier.age(after.tick)
            && earlier.age(after.tick) + after.tick.age(later.tick) < TICK_PERIOD,
        later.dependencies_of(effect) == after.dependencies_of(effect),
        later.changed_tick(source) == Some(changed),
        changed.age(later.tick) <= after.tick.age(later.tick),
        changed.age(later.tick) < MAX_CHANGE_AGE,
        after.tick.age(later.tick) + 1 < TICK_PERIOD,
    ensures
        later.advanced(effect),
{
    let end = choose|end: ContextState<V, B>| #[trigger]
        body_ran(before, effect, end) && after == end.world.reconciled(effect, end.reads).ticked();
    let closed = end.world.reconciled(effect, end.reads);
    assert(after.tracking(effect) == closed.tracking(effect));
    assert(after.tracked_by(effect) == closed.tracked_by(effect));
    assert(end.world.tracking(effect));
    lemma_reconciled(end.world, effect, end.reads);
    assert(after.changed_tick(source) == closed.changed_tick(source));
    let i = choose|i: int| 0 <= i < end.reads.len() && end.reads[i] == source;
    let dependency = end.world.linked(effect, end.reads).observed(end.reads)[i];
    assert(later.dependencies_of(effect)[i] == dependency);
    lemma_next_age(closed.tick);
    law_later_changes_are_newer(dependency.observed, after.tick, changed, later.tick);
    assert(later.dependency_advanced(later.dependencies_of(effect)[i]));
}

/// Every run has a tick of its own: what its body writes is stamped with a tick that starts with
/// the run, and what is written afterwards with a later one.
pub proof fn law_a_run_has_a_tick_of_its_own<V, B: EffectBody<V, B>>(
    before: WorldState<V, B>,
    effect: Entity,
    after: WorldState<V, B>,
)
    requires
        runnable(before, effect),
        effect_ran(before, effect, after),
    ensures
        opening(before, effect).world.tick == before.tick.next(),
        exists|end: ContextState<V, B>| #[trigger]
            body_ran(before, effect, end) && after.tick == end.world.tick.next(),
{
    let end = choose|end: ContextState<V, B>| #[trigger]
        body_ran(before, effect, end) && after == end.world.reconciled(effect, end.reads).ticked();
    assert(body_ran(before, effect, end) && after.tick == end.world.tick.next());
}

/// Whatever is written after a poll is found by the next one.
///
/// Here `later` is a world that was not polled since, and `changed` is when the source changed: at
/// or after the tick that followed the poll, and not too far back to be told apart.
pub proof fn law_a_write_after_a_poll_is_found_by_the_next<V, B>(
    before: WorldState<V, B>,
    after: WorldState<V, B>,
    later: WorldState<V, B>,
    source: Source,
    changed: Tick,
)
    requires
        before.polled_to(after),
        later.dirty.last_poll == after.dirty.last_poll,
        later.changed_tick(source) == Some(changed),
        changed.age(later.tick) <= after.tick.age(later.tick),
        changed.age(later.tick) < MAX_CHANGE_AGE,
        after.tick.age(later.tick) + 1 < TICK_PERIOD,
    ensures
        later.moved(source),
{
    lemma_next_age(before.tick);
    law_later_changes_are_newer(before.tick, after.tick, changed, later.tick);
}

/// A poll finds every effect that tracks a source that changed since the last poll, also where the
/// source belongs to an entity that was spawned after the effect tracked it.
pub proof fn law_a_poll_finds_every_tracking_effect<V, B>(
    w: WorldState<V, B>,
    effect: Entity,
    source: Source,
    after: WorldState<V, B>,
)
    requires
        w.wf(),
        w.tracks(effect, source),
        w.moved(source),
        w.polled_to(after),
    ensures
        after.dirty.queue.contains(effect),
{
    assert(w.subscribers_of(source).contains(effect));
    assert(w.wakes(source, effect));
    assert(w.woken(effect));
}

/// An effect that is stale is not forgotten: if a dependency of it changed since it last ran, the next
/// poll finds the change, or the effect is queued already. It is so in every world, whatever was done
/// to it.
///
/// This is said of worlds whose tick has not started over, between flushes.
pub proof fn law_a_stale_effect_is_attended_to<V, B>(w: WorldState<V, B>, effect: Entity)
    requires
        w.wf(),
        w.young(),
        w.pending.is_empty(),
        w.dependencies_of(effect).len() > 0,
        w.advanced(effect),
    ensures
        w.woken(effect) || w.dirty.queue.contains(effect),
{
    let i = choose|i: int|
        0 <= i < w.dependencies_of(effect).len() && w.dependency_advanced(
            #[trigger] w.dependencies_of(effect)[i],
        );
    let source = w.dependencies_of(effect)[i].source;
    assert(w.attended(effect, source));
    lemma_tracked_source(w, effect, i);
    if w.moved(source) {
        assert(w.wakes(source, effect));
    }
}

/// A poll finds every effect that is stale: whatever changed since an effect last ran, the effect is
/// queued afterwards.
///
/// This is said of worlds whose tick has not started over, between flushes.
pub proof fn law_a_poll_finds_every_stale_effect<V, B>(
    w: WorldState<V, B>,
    effect: Entity,
    after: WorldState<V, B>,
)
    requires
        w.wf(),
        w.young(),
        w.pending.is_empty(),
        w.behind(effect),
        w.polled_to(after),
    ensures
        after.dirty.queue.contains(effect),
{
    law_a_stale_effect_is_attended_to(w, effect);
}

/// No effect is left stale: after a flush that is done, no effect that tracks anything has a
/// dependency that changed since it last ran, however many effects the flush ran, and whatever
/// these wrote. Each source that it tracks last changed when the effect observed it, unless that
/// lies too far back to be told apart. Nothing is queued, and nothing is left for a further flush to
/// find.
///
/// This is said of worlds whose tick has not started over, and of flushes that do not run within
/// another one.
pub proof fn law_no_effect_is_left_stale<V, B: EffectBody<V, B>>(
    before: WorldState<V, B>,
    after: WorldState<V, B>,
    effect: Entity,
)
    requires
        before.wf(),
        before.pending.is_empty(),
        flushed(before, after, true),
        after.young(),
    ensures
        !after.behind(effect),
        after.dependencies_of(effect).len() > 0 ==> !after.advanced(effect),
        forall|i: int|
            0 <= i < after.dependencies_of(effect).len() ==> {
                let dependency = #[trigger] after.dependencies_of(effect)[i];
                after.changed_tick(dependency.source) matches Some(changed) ==> changed
                    == dependency.observed || after.tick.0 - changed.0 >= MAX_CHANGE_AGE
            },
        after.dirty.queue.len() == 0,
        !after.woken(effect),
{
    lemma_flushed(before, after, true);
    lemma_settled(after, effect);
    assert forall|i: int| 0 <= i < after.dependencies_of(effect).len() implies ({
        let dependency = #[trigger] after.dependencies_of(effect)[i];
        after.changed_tick(dependency.source) matches Some(changed) ==> changed
            == dependency.observed || after.tick.0 - changed.0 >= MAX_CHANGE_AGE
    }) by {
        lemma_seen(after, effect, i);
    }
}

/// A poll does not queue an effect for the sake of sources that it does not track.
pub proof fn law_other_sources_do_not_wake<V, B>(w: WorldState<V, B>, effect: Entity, after: WorldState<V, B>)
    requires
        w.wf(),
        w.tracking(effect),
        !w.dirty.queue.contains(effect),
        forall|source: Source| #[trigger] w.tracks(effect, source) ==> !w.moved(source),
        w.polled_to(after),
    ensures
        !after.dirty.queue.contains(effect),
{
    if after.dirty.queue.contains(effect) {
        assert(w.woken(effect));
        let source = choose|source: Source| #[trigger] w.wakes(source, effect);
        assert(w.subscribers_of(source).contains(effect));
        assert(w.tracks(effect, source));
    }
}

/// An effect that is not stale has seen its sources as they are: each of them still holds what it
/// held when the effect last ran, or is gone.
///
/// Here `ran` is the world that the last run of the effect left, and `after` a later one. What is
/// written between the two goes through change detection, and does not lie too far back to be told
/// apart.
pub proof fn law_an_effect_has_seen_its_sources<V, B: EffectBody<V, B>>(
    start: WorldState<V, B>,
    effect: Entity,
    ran: WorldState<V, B>,
    after: WorldState<V, B>,
    source: Source,
)
    requires
        start.wf(),
        runnable(start, effect),
        effect_ran(start, effect, ran),
        ran.tracks(effect, source),
        ran.evolves_to(after),
        ran.detects(after),
        after.wf(),
        after.young(),
        !after.behind(effect),
        after.dependencies_of(effect) == ran.dependencies_of(effect),
        after.stored_at(source) matches Some(stored) ==> after.tick.0 - stored.changed.0
            < MAX_CHANGE_AGE,
    ensures
        after.stored_at(source) == ran.stored_at(source) || after.stored_at(source) is None,
{
    lemma_effect_ran(start, effect, ran);
    let end = choose|end: ContextState<V, B>| #[trigger]
        body_ran(start, effect, end) && ran == end.world.reconciled(effect, end.reads).ticked();
    let closed = end.world.reconciled(effect, end.reads);
    assert(ran.tracking(effect) == closed.tracking(effect));
    assert(ran.dependencies_of(effect) == closed.dependencies_of(effect));
    assert(ran.tracked_by(effect) == closed.tracked_by(effect));
    assert(end.world.tracking(effect));
    lemma_reconciled(end.world, effect, end.reads);
    lemma_reconciled_wf(end.world, effect, end.reads);
    let i = choose|i: int| 0 <= i < end.reads.len() && end.reads[i] == source;
    let dependency = end.world.linked(effect, end.reads).observed(end.reads)[i];
    assert(dependency == after.dependencies_of(effect)[i]);
    assert(ran.young());
    assert(closed.plausible(closed.dependencies_of(effect)[i]));
    lemma_seen(after, effect, i);
    if let Some(stored) = after.stored_at(source) {
        assert(after.changed_tick(source) == Some(stored.changed));
    }
}

/// In a pass every queued effect gets its turn: it is re-checked in the world that those before it
/// left, and run if it is dirty there.
pub proof fn law_every_queued_effect_gets_its_turn<V, B: EffectBody<V, B>>(
    before: WorldState<V, B>,
    order: Seq<Entity>,
    after: WorldState<V, B>,
    place: int,
)
    requires
        all_ran(before, order, after),
        0 <= place < order.len(),
    ensures
        exists|turn: WorldState<V, B>, next: WorldState<V, B>|
            all_ran(before, order.take(place), turn) && #[trigger] maybe_ran(turn, order[place], next),
    decreases order.len(),
{
    let turn = choose|turn: WorldState<V, B>|
        all_ran(before, order.drop_last(), turn) && #[trigger] rechecked(turn, order.last(), after);
    if place == order.len() - 1 {
        assert(order.take(place) =~= order.drop_last());
        assert(maybe_ran(turn, order[place], after.awaiting(turn.pending)));
    } else {
        law_every_queued_effect_gets_its_turn(before, order.drop_last(), turn, place);
        assert(order.drop_last().take(place) =~= order.take(place));
    }
}

/// There is no first pass of a flush where nothing is dirty.
pub proof fn lemma_no_passes<V, B: EffectBody<V, B>>(
    before: WorldState<V, B>,
    after: WorldState<V, B>,
    count: nat,
)
    requires
        settled(before),
        passes(before, after, count),
    ensures
        count == 0,
    decreases count,
{
    if count > 0 {
        let middle = choose|middle: WorldState<V, B>|
            passes(before, middle, (count - 1) as nat) && #[trigger] passed(middle, after);
        lemma_no_passes(before, middle, (count - 1) as nat);
        let (polled, order) = choose|polled: WorldState<V, B>, order: Seq<Entity>|
            {
                &&& before.polled_to(polled)
                &&& polled.dirty.queue.len() > 0
                &&& #[trigger] polled.in_order(polled.dirty.queue, order)
                &&& drained_to(polled, order, after)
            };
        let effect = polled.dirty.queue[0];
        assert(polled.dirty.queue.contains(effect));
        assert(before.dirty.queue.contains(effect) || before.woken(effect));
    }
}

/// A flush where nothing is dirty runs nothing: the world only moves on to the next tick.
pub proof fn law_a_flush_without_change_runs_nothing<V, B: EffectBody<V, B>>(
    before: WorldState<V, B>,
    after: WorldState<V, B>,
    done: bool,
)
    requires
        settled(before),
        flushed(before, after, done),
    ensures
        done,
        idled(before, after),
        after.entities == before.entities,
        after.resources == before.resources,
{
    if passes(before, after, MAX_EFFECT_ITERATIONS as nat) {
        lemma_no_passes(before, after, MAX_EFFECT_ITERATIONS as nat);
    } else {
        let (middle, count) = choose|middle: WorldState<V, B>, count: nat|
            count < MAX_EFFECT_ITERATIONS && #[trigger] passes(before, middle, count) && idled(
                middle,
                after,
            );
        lemma_no_passes(before, middle, count);
    }
}

/// A flush that is done leaves nothing dirty: effects that write sources other effects depend on
/// cascade within it, until no effect is queued or woken any more.
pub proof fn law_a_finished_flush_leaves_nothing_dirty<V, B: EffectBody<V, B>>(
    before: WorldState<V, B>,
    after: WorldState<V, B>,
)
    requires
        flushed(before, after, true),
    ensures
        exists|last: WorldState<V, B>, count: nat|
            {
                &&& count <= MAX_EFFECT_ITERATIONS
                &&& #[trigger] passes(before, last, count)
                &&& settled(last)
                &&& after == last || idled(last, after)
            },
{
    if passes(before, after, MAX_EFFECT_ITERATIONS as nat) && settled(after) {
    } else {
        let (middle, count) = choose|middle: WorldState<V, B>, count: nat|
            count < MAX_EFFECT_ITERATIONS && #[trigger] passes(before, middle, count) && idled(
                middle,
                after,
            );
        assert forall|effect: Entity| !#[trigger] middle.woken(effect) by {
            assert(!after.dirty.queue.contains(effect));
        }
        assert(middle.dirty.queue.len() == 0) by {
            assert(middle.dirty.queue.is_prefix_of(after.dirty.queue));
        }
        assert(settled(middle));
    }
}

/// Several passes begin with one.
proof fn lemma_first_pass<V, B: EffectBody<V, B>>(
    before: WorldState<V, B>,
    after: WorldState<V, B>,
    count: nat,
)
    requires
        count > 0,
        passes(before, after, count),
    ensures
        exists|first: WorldState<V, B>| #[trigger] passed(before, first),
    decreases count,
{
    let middle = choose|middle: WorldState<V, B>|
        passes(before, middle, (count - 1) as nat) && #[trigger] passed(middle, after);
    if count > 1 {
        lemma_first_pass(before, middle, (count - 1) as nat);
    } else {
        assert(passed(before, after));
    }
}

/// A flush where an effect is queued, or woken by a source that changed, re-checks effects at least
/// once.
pub proof fn law_a_flush_with_a_change_makes_a_pass<V, B: EffectBody<V, B>>(
    before: WorldState<V, B>,
    after: WorldState<V, B>,
    done: bool,
    effect: Entity,
)
    requires
        before.dirty.queue.contains(effect) || before.woken(effect),
        flushed(before, after, done),
    ensures
        exists|first: WorldState<V, B>| #[trigger] passed(before, first),
{
    if passes(before, after, MAX_EFFECT_ITERATIONS as nat) {
        lemma_first_pass(before, after, MAX_EFFECT_ITERATIONS as nat);
    } else {
        let (middle, count) = choose|middle: WorldState<V, B>, count: nat|
            count < MAX_EFFECT_ITERATIONS && #[trigger] passes(before, middle, count) && idled(
                middle,
                after,
            );
        if count == 0 {
            assert(after.dirty.queue.contains(effect));
        } else {
            lemma_first_pass(before, middle, count);
        }
    }
}

/// If one effect alone is woken, a pass re-checks that effect and does nothing else.
///
/// Until it is re-checked, the effect counts as one that the flush has still to do.
pub proof fn law_a_lone_effect_is_checked_alone<V, B: EffectBody<V, B>>(
    before: WorldState<V, B>,
    effect: Entity,
    after: WorldState<V, B>,
)
    requires
        before.dirty.queue.len() == 0,
        forall|e: Entity| #[trigger] before.woken(e) <==> e == effect,
        passed(before, after),
    ensures
        exists|polled: WorldState<V, B>|
            before.polled_to(polled) && #[trigger] maybe_ran(
                polled.drained(),
                effect,
                after.awaiting(polled.drained().pending),
            ),
        after.pending == before.pending,
{
    let (polled, order) = choose|polled: WorldState<V, B>, order: Seq<Entity>|
        {
            &&& before.polled_to(polled)
            &&& polled.dirty.queue.len() > 0
            &&& #[trigger] polled.in_order(polled.dirty.queue, order)
            &&& drained_to(polled, order, after)
        };
    let queue = polled.dirty.queue;
    assert forall|i: int| 0 <= i < queue.len() implies queue[i] == effect by {
        assert(queue.contains(queue[i]));
        assert(before.woken(queue[i]));
    }
    assert(queue.len() == 1) by {
        if queue.len() > 1 {
            assert(queue[0] != queue[1]);
        }
    }
    law_each_effect_is_checked_once(polled, queue, order);
    assert(order.contains(order[0]));
    assert(queue.contains(order[0]));
    assert(order =~= seq![effect]);
    let end = after.awaiting(polled.drained().pending.difference(order.to_set()));
    let turn = choose|turn: WorldState<V, B>|
        all_ran(polled.drained(), order.drop_last(), turn) && #[trigger] rechecked(
            turn,
            order.last(),
            end,
        );
    assert(order.drop_last().len() == 0);
    assert(turn == polled.drained());
    assert(end.awaiting(turn.pending) =~= after.awaiting(polled.drained().pending));
}

/// Once a poll found nothing dirty, nothing is dirty until something that has subscribers is written
/// at the current tick.
pub proof fn law_settled_until_the_next_write<V, B>(before: WorldState<V, B>, after: WorldState<V, B>)
    requires
        idled(before, after),
        forall|source: Source| #[trigger]
            after.subscribers_of(source).len() > 0 ==> after.changed_tick(source) != Some(after.tick),
    ensures
        settled(after),
{
    lemma_next_age(before.tick);
    assert forall|effect: Entity| !#[trigger] after.woken(effect) by {
        if after.woken(effect) {
            let source = choose|source: Source| #[trigger] after.wakes(source, effect);
            assert(after.moved(source));
            let changed = after.changed_tick(source)->0;
            assert(changed.age(after.tick) == 0);
            assert(changed == after.tick);
            assert(after.subscribers_of(source).len() > 0);
        }
    }
}

/// Lists without repetition that hold the same effects, both in the order of strictly rising rank,
/// are the same.
proof fn lemma_rising_equal<V, B>(w: WorldState<V, B>, a: Seq<Entity>, b: Seq<Entity>)
    requires
        forall|e: Entity| #[trigger] a.contains(e) <==> b.contains(e),
        forall|i: int, j: int| 0 <= i < j < a.len() ==> w.rank(#[trigger] a[i]) < w.rank(#[trigger] a[j]),
        forall|i: int, j: int| 0 <= i < j < b.len() ==> w.rank(#[trigger] b[i]) < w.rank(#[trigger] b[j]),
    ensures
        a == b,
    decreases a.len(),
{
    if a.len() == 0 {
        if b.len() > 0 {
            assert(b.contains(b[0]));
            assert(a.contains(b[0]));
        }
        assert(a =~= b);
    } else {
        assert(a.contains(a.last()));
        assert(b.contains(a.last()));
        assert(b.contains(b.last()));
        assert(a.contains(b.last()));
        let k = choose|k: int| 0 <= k < b.len() && b[k] == a.last();
        let m = choose|m: int| 0 <= m < a.len() && a[m] == b.last();
        assert(k == b.len() - 1) by {
            if k < b.len() - 1 {
                assert(w.rank(b[k]) < w.rank(b[b.len() - 1]));
                if m < a.len() - 1 {
                    assert(w.rank(a[m]) < w.rank(a[a.len() - 1]));
                }
            }
        }
        let (x, y) = (a.drop_last(), b.drop_last());
        assert forall|e: Entity| #[trigger] x.contains(e) <==> y.contains(e) by {
            if x.contains(e) {
                let i = choose|i: int| 0 <= i < x.len() && x[i] == e;
                assert(a[i] == e);
                assert(a.contains(e));
                assert(b.contains(e));
                assert(w.rank(a[i]) < w.rank(a[a.len() - 1]));
                let j = choose|j: int| 0 <= j < b.len() && b[j] == e;
                assert(y[j] == e);
            }
            if y.contains(e) {
                let j = choose|j: int| 0 <= j < y.len() && y[j] == e;
                assert(b[j] == e);
                assert(b.contains(e));
                assert(a.contains(e));
                assert(w.rank(b[j]) < w.rank(b[b.len() - 1]));
                let i = choose|i: int| 0 <= i < a.len() && a[i] == e;
                assert(x[i] == e);
            }
        }
        lemma_rising_equal(w, x, y);
        assert(a =~= x.push(a.last()));
        assert(b =~= y.push(b.last()));
    }
}

/// In a flush effects run in the order of registration, in whatever order they were marked dirty:
/// two queues of the same effects are re-checked in the same order.
pub proof fn law_the_order_of_a_flush_is_deterministic<V, B>(
    w: WorldState<V, B>,
    queue: Seq<Entity>,
    order: Seq<Entity>,
    other_queue: Seq<Entity>,
    other_order: Seq<Entity>,
)
    requires
        w.wf(),
        forall|e: Entity| #[trigger] queue.contains(e) ==> runnable(w, e),
        forall|e: Entity| #[trigger] queue.contains(e) <==> other_queue.contains(e),
        w.in_order(queue, order),
        w.in_order(other_queue, other_order),
    ensures
        order == other_order,
        forall|i: int, j: int|
            0 <= i < j < order.len() ==> w.rank(#[trigger] order[i]) < w.rank(#[trigger] order[j]),
{
    lemma_rising(w, queue, order);
    assert forall|e: Entity| #[trigger] other_queue.contains(e) implies runnable(w, e) by {
        assert(queue.contains(e));
    }
    lemma_rising(w, other_queue, other_order);
    assert forall|e: Entity| #[trigger] order.contains(e) <==> other_order.contains(e) by {
        assert(queue.contains(e) <==> other_queue.contains(e));
    }
    lemma_rising_equal(w, order, other_order);
}

/// No two effects share a rank, so they are in strict order.
pub proof fn lemma_rising<V, B>(w: WorldState<V, B>, queue: Seq<Entity>, order: Seq<Entity>)
    requires
        w.wf(),
        forall|e: Entity| #[trigger] queue.contains(e) ==> runnable(w, e),
        w.in_order(queue, order),
    ensures
        forall|i: int, j: int|
            0 <= i < j < order.len() ==> w.rank(#[trigger] order[i]) < w.rank(#[trigger] order[j]),
{
    assert forall|i: int, j: int| 0 <= i < j < order.len() implies w.rank(#[trigger] order[i]) < w.rank(
        #[trigger] order[j],
    ) by {
        assert(order.contains(order[i]) && order.contains(order[j]));
        assert(runnable(w, order[i]) && runnable(w, order[j]));
        assert(w.alive(order[i]) && w.alive(order[j]));
        assert(order[i] != order[j]);
    }
}

/// A pass re-checks each queued effect once, however many of its sources changed.
pub proof fn law_each_effect_is_checked_once<V, B>(w: WorldState<V, B>, queue: Seq<Entity>, order: Seq<Entity>)
    requires
        queue.no_duplicates(),
        w.in_order(queue, order),
    ensures
        order.len() == queue.len(),
        order.no_duplicates(),
        forall|e: Entity| #[trigger] order.contains(e) <==> queue.contains(e),
{
    queue.unique_seq_to_set();
    order.unique_seq_to_set();
    assert(queue.to_set() =~= order.to_set()) by {
        assert forall|e: Entity| #[trigger] queue.to_set().contains(e) <==> order.to_set().contains(e) by {
            assert(order.contains(e) <==> queue.contains(e));
        }
    }
}

/// A fresh effect comes last in the order of registration, and keeps its place.
pub proof fn law_a_fresh_effect_comes_last<V, B>(
    w: WorldState<V, B>,
    func: B,
    target: Option<Entity>,
    other: Entity,
)
    requires
        w.wf(),
        w.next < u64::MAX,
        w.alive(other),
    ensures
        ({
            let after = w.registered(func, target);
            &&& after.rank(other) == w.rank(other)
            &&& after.rank(other) < after.rank(w.fresh())
        }),
{
    assert(other != w.fresh());
}

/// Effects run in the order in which they were spawned: of two effects, the one spawned later has the
/// larger index, and both keep theirs, whatever is spawned, despawned, written or flushed between
/// the two and afterwards.
pub proof fn law_later_effects_have_larger_indexes<V, B: EffectBody<V, B>>(
    start: WorldState<V, B>,
    func: B,
    target: Option<Entity>,
    spawned: WorldState<V, B>,
    between: WorldState<V, B>,
    other_func: B,
    other_target: Option<Entity>,
    both: WorldState<V, B>,
    later: WorldState<V, B>,
)
    requires
        start.wf(),
        start.next < u64::MAX,
        effect_spawned(start, func, target, spawned),
        spawned.evolves_to(between),
        between.wf(),
        between.next < u64::MAX,
        effect_spawned(between, other_func, other_target, both),
        both.evolves_to(later),
        later.alive(start.fresh()),
        later.alive(between.fresh()),
    ensures
        later.rank(start.fresh()) == start.dirty.next_index,
        later.rank(between.fresh()) == between.dirty.next_index,
        later.rank(start.fresh()) < later.rank(between.fresh()),
{
    let first = start.fresh();
    let second = between.fresh();
    let registered = start.registered(func, target);
    let again = between.registered(other_func, other_target);
    lemma_registered_wf(start, func, target);
    lemma_effect_ran(registered, first, spawned);
    lemma_registered_wf(between, other_func, other_target);
    lemma_effect_ran(again, second, both);
    lemma_evolves_trans(registered, spawned, between);
    lemma_evolves_trans(registered, between, again);
    lemma_evolves_trans(registered, again, both);
    lemma_evolves_trans(registered, both, later);
    lemma_evolves_trans(again, both, later);
    assert(registered.rank(first) == start.dirty.next_index);
    assert(again.rank(second) == between.dirty.next_index);
    assert(later.entities[first].index == registered.entities[first].index);
    assert(later.entities[second].index == again.entities[second].index);
    assert(registered.dirty.next_index == start.dirty.next_index + 1);
}

/// What happens in a world leaves every effect its place in the order of registration: a flush, a
/// new effect, and the end of an entity.
pub proof fn law_every_step_keeps_the_order<V, B: EffectBody<V, B>>(
    before: WorldState<V, B>,
    after: WorldState<V, B>,
    effect: Entity,
)
    requires
        before.wf(),
        before.next < u64::MAX,
        ({
            ||| exists|done: bool| #[trigger] flushed(before, after, done)
            ||| exists|func: B, target: Option<Entity>| #[trigger]
                effect_spawned(before, func, target, after)
            ||| exists|root: Entity| after == before.pruned(#[trigger] before.tree(root))
        }),
        before.alive(effect),
        after.alive(effect),
    ensures
        before.evolves_to(after),
        after.rank(effect) == before.rank(effect),
{
    if exists|done: bool| #[trigger] flushed(before, after, done) {
        let done = choose|done: bool| #[trigger] flushed(before, after, done);
        lemma_flushed(before, after, done);
    } else if exists|func: B, target: Option<Entity>| #[trigger]
        effect_spawned(before, func, target, after) {
        let (func, target) = choose|func: B, target: Option<Entity>| #[trigger]
            effect_spawned(before, func, target, after);
        let registered = before.registered(func, target);
        lemma_registered_wf(before, func, target);
        lemma_effect_ran(registered, before.fresh(), after);
        lemma_evolves_trans(before, registered, after);
    } else {
        let root = choose|root: Entity| after == before.pruned(#[trigger] before.tree(root));
        lemma_despawned_wf(before, root);
    }
    assert(after.entities[effect].index == before.entities[effect].index);
}

/// Whether `entity` is alive, and holds no ordinary component under an identifier that is kept for
/// the library's own ones. Of a world's storage the latter always holds:
/// [`lemma_ids`](crate::world::World::lemma_ids) says so.
pub open spec fn ordinary<V, B>(w: WorldState<V, B>, entity: Entity) -> bool {
    &&& w.alive(entity)
    &&& forall|id: ComponentId| #[trigger]
        w.entities[entity].components.contains_key(id) ==> id.0 < FIRST_OWN_ID
}

/// What the library itself keeps of effects is a source like any other component: a new effect is
/// seen by whoever tracks its function, its index, its record or what it is tied to, and so is the
/// list of effects on the entity that it is tied to.
pub proof fn law_a_new_effect_can_be_tracked<V, B>(
    w: WorldState<V, B>,
    func: B,
    target: Option<Entity>,
    entity: Entity,
    id: ComponentId,
    watcher: Entity,
    after: WorldState<V, B>,
)
    requires
        w.wf(),
        w.young(),
        w.next < u64::MAX,
        target matches Some(t) ==> ordinary(w, t),
        ({
            ||| entity == w.fresh() && (id.0 == EFFECT_ID || id.0 == EFFECT_INDEX_ID || id.0
                == DEPENDENCIES_ID)
            ||| entity == w.fresh() && id.0 == EFFECT_OF_ID && target is Some
            ||| target == Some(entity) && id.0 == EFFECTS_ID
        }),
        w.tracks(watcher, Source::Component { entity, component: id }),
        w.registered(func, target).polled_to(after),
    ensures
        w.registered(func, target).changed_tick(Source::Component { entity, component: id }) == Some(
            w.tick,
        ),
        after.dirty.queue.contains(watcher),
{
    let registered = w.registered(func, target);
    let source = Source::Component { entity, component: id };
    lemma_registered_wf(w, func, target);
    assert(w.ids_wf());
    assert(!w.alive(w.fresh()));
    assert(registered.alive(entity));
    assert(registered.changed_tick(source) == Some(w.tick));
    lemma_newer(w.tick, registered.dirty.last_poll, registered.tick);
    assert(registered.moved(source));
    assert(w.subscribers_of(source).contains(watcher));
    assert(registered.subscribers_of(source) == w.subscribers_of(source));
    assert(registered.wakes(source, watcher));
    assert(registered.woken(watcher));
}

/// A run marks the record of its effect as changed, for whoever tracks that. The effect itself has
/// observed this, as it has its own writes.
pub proof fn law_a_run_marks_its_record<V, B: EffectBody<V, B>>(
    before: WorldState<V, B>,
    effect: Entity,
    end: ContextState<V, B>,
)
    requires
        before.wf(),
        runnable(before, effect),
        body_ran(before, effect, end),
        end.world.tracking(effect),
        ordinary(end.world, effect),
    ensures
        ({
            let after = end.world.reconciled(effect, end.reads).ticked();
            let record = Source::Component { entity: effect, component: ComponentId(DEPENDENCIES_ID) };
            &&& after.changed_tick(record) == Some(end.world.tick)
            &&& after.tracks(effect, record) ==> !after.behind(effect)
        }),
{
    let after = end.world.reconciled(effect, end.reads).ticked();
    let record = Source::Component { entity: effect, component: ComponentId(DEPENDENCIES_ID) };
    assert(after.alive(effect));
    assert(after.changed_tick(record) == Some(end.world.tick));
    assert(body_ran(before, effect, end) && after == end.world.reconciled(effect, end.reads).ticked());
    assert(effect_ran(before, effect, after));
    lemma_effect_ran(before, effect, after);
}

/// An effect spawned for an entity is tied to it: each knows the other.
pub proof fn law_an_effect_is_tied_to_its_target<V, B>(w: WorldState<V, B>, func: B, target: Entity)
    requires
        w.wf(),
        w.alive(target),
    ensures
        ({
            let after = w.registered(func, Some(target));
            &&& after.entities[w.fresh()].effect_of == Some(target)
            &&& after.entities[target].effects is Some
            &&& (after.entities[target].effects->0).last() == w.fresh()
            &&& (after.entities[target].effects->0).drop_last() == match w.entities[target].effects {
                Some(list) => list,
                None => Seq::empty(),
            }
        }),
{
    let after = w.registered(func, Some(target));
    let list = after.entities[target].effects->0;
    assert(target != w.fresh());
    match w.entities[target].effects {
        Some(held) => {
            assert(list == held.push(w.fresh()));
            assert(list.drop_last() =~= held);
        },
        None => {
            assert(list == seq![w.fresh()]);
            assert(list.drop_last() =~= Seq::empty());
        },
    }
}

/// Both ends of every edge agree: an effect is subscribed to a source exactly if it tracks it. One
/// that is not alive is subscribed to nothing.
pub proof fn law_both_ends_of_an_edge_agree<V, B>(w: WorldState<V, B>, effect: Entity, source: Source)
    requires
        w.wf(),
    ensures
        w.subscribers_of(source).contains(effect) <==> w.tracks(effect, source),
        !w.alive(effect) ==> !w.subscribers_of(source).contains(effect),
{
    assert(w.subscribers_of(source).contains(effect) <==> w.tracks(effect, source));
}

/// After a run the effect tracks exactly what it read on that run, and is subscribed to exactly that,
/// whether it exists or not: sources that it no longer reads have forgotten it. If the effect has
/// lost its record meanwhile, by being despawned or otherwise, it is subscribed to nothing.
pub proof fn law_a_run_records_exactly_what_was_read<V, B: EffectBody<V, B>>(
    before: WorldState<V, B>,
    effect: Entity,
    end: ContextState<V, B>,
    source: Source,
)
    requires
        before.wf(),
        runnable(before, effect),
        body_ran(before, effect, end),
    ensures
        ({
            let after = end.world.reconciled(effect, end.reads).ticked();
            &&& after.tracks(effect, source) <==> end.world.tracking(effect) && end.reads.contains(
                source,
            )
            &&& after.subscribers_of(source).contains(effect) <==> end.world.tracking(effect)
                && end.reads.contains(source)
        }),
{
    let closed = end.world.reconciled(effect, end.reads);
    let after = closed.ticked();
    lemma_reconciled_wf(end.world, effect, end.reads);
    if end.world.tracking(effect) {
        lemma_reconciled(end.world, effect, end.reads);
        assert(after.tracking(effect) == closed.tracking(effect));
        assert(after.tracked_by(effect) == closed.tracked_by(effect));
    }
    assert(closed.subscribers_of(source).contains(effect) <==> closed.tracks(effect, source));
    assert(after.tracks(effect, source) == closed.tracks(effect, source));
}

/// Despawning an entity despawns the effects tied to it, and those tied to them; whatever dies is
/// unsubscribed from what it tracked, and whatever does not die keeps its components.
pub proof fn law_despawning_takes_effects_along<V, B>(w: WorldState<V, B>, root: Entity)
    requires
        w.wf(),
        w.alive(root),
    ensures
        ({
            let after = w.pruned(w.tree(root));
            &&& !after.alive(root)
            &&& forall|e: Entity| #[trigger]
                w.alive(e) && w.entities[e].effect_of == Some(root) ==> !after.alive(e)
            &&& forall|e: Entity| #[trigger] after.alive(e) <==> w.alive(e) && !w.under(root, e)
            &&& forall|e: Entity, s: Source|
                w.under(root, e) ==> !(#[trigger] after.subscribers_of(s).contains(e))
            &&& forall|e: Entity|
                after.alive(e) ==> (#[trigger] after.entities[e]).components == w.entities[e].components
        }),
{
    let tree = w.tree(root);
    let after = w.pruned(tree);
    assert(w.under(root, root));
    assert forall|e: Entity| #[trigger] w.alive(e) && w.entities[e].effect_of == Some(root) implies !after.alive(
        e,
    ) by {
        assert(w.under(root, e));
    }
    assert forall|e: Entity, s: Source| w.under(root, e) implies !(
    #[trigger] after.subscribers_of(s).contains(e)) by {
        lemma_filtered(w.subscribers_of(s), outside(tree));
        assert(w.subscribers_of(s).filter(outside(tree)).contains(e) == after.subscribers_of(s).contains(
            e,
        ));
    }
}

/// Mutable access that is not used to write wakes nobody: as long as the tick of a component stays,
/// every source, and every effect, is as dirty as before.
pub proof fn law_a_guard_that_is_not_written_wakes_nobody<V, B>(
    w: WorldState<V, B>,
    entity: Entity,
    id: ComponentId,
    value: V,
    effect: Entity,
)
    requires
        w.alive(entity),
        w.entities[entity].components.contains_key(id),
    ensures
        ({
            let changed = w.entities[entity].components[id].changed;
            let after = w.with_component(entity, id, Stored { value, changed });
            &&& after.woken(effect) == w.woken(effect)
            &&& after.advanced(effect) == w.advanced(effect)
        }),
{
    let changed = w.entities[entity].components[id].changed;
    let after = w.with_component(entity, id, Stored { value, changed });
    assert forall|s: Source| #[trigger] after.changed_tick(s) == w.changed_tick(s) by {}
    assert forall|s: Source| #[trigger] after.subscribers_of(s) == w.subscribers_of(s) by {}
    assert forall|s: Source| #[trigger] after.wakes(s, effect) == w.wakes(s, effect) by {
        assert(after.changed_tick(s) == w.changed_tick(s));
        assert(after.subscribers_of(s) == w.subscribers_of(s));
    }
    if w.woken(effect) {
        let s = choose|s: Source| #[trigger] w.wakes(s, effect);
        assert(after.wakes(s, effect));
    }
    if after.woken(effect) {
        let s = choose|s: Source| #[trigger] after.wakes(s, effect);
        assert(w.wakes(s, effect));
    }
    assert(after.dependencies_of(effect) == w.dependencies_of(effect));
    assert forall|d: Dependency| #[trigger] after.dependency_advanced(d) == w.dependency_advanced(d) by {
        assert(after.changed_tick(d.source) == w.changed_tick(d.source));
    }
}

/// Removing the record of what an effect tracks unsubscribes it everywhere.
pub proof fn law_removing_the_record_unsubscribes<V, B>(w: WorldState<V, B>, effect: Entity, source: Source)
    ensures
        !w.forgotten(effect).subscribers_of(source).contains(effect),
        !w.forgotten(effect).tracking(effect),
{
    lemma_without(w.subscribers_of(source), effect);
}

/// An entity that is spawned is none that was there before, dead or alive.
pub proof fn law_entities_are_never_reused<V, B>(w: WorldState<V, B>, root: Entity)
    requires
        w.wf(),
        w.next < u64::MAX,
    ensures
        !w.alive(w.fresh()),
        w.spawned(EntityState::empty()).fresh() != w.fresh(),
        w.pruned(w.tree(root)).fresh() == w.fresh(),
{
}

/// A name within a scene stands for one entity, however often it is needed.
pub proof fn law_a_name_stands_for_one_entity<V, B>(context: TemplateState<V, B>, index: ScopedEntityIndex)
    ensures
        context.naming(index).named(index) == context.named(index),
        context.naming(index).naming(index) == context.naming(index),
{
}

} // verus!
