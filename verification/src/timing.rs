//! Proofs about time: that the tick of a change, of an observation and of a poll stand in the order
//! in which these happened, and that no effect is left stale.
use crate::flush::{idled, settled};
use crate::id::{Entity, Source};
use crate::lifetime::lemma_graph_wf;
use crate::state::WorldState;
use crate::tick::{Tick, MAX_CHANGE_AGE};
use vstd::prelude::*;

verus! {

/// As long as the tick has not started over, ticks compare like the numbers they are, up to the age
/// at which they cannot be told apart.
pub proof fn lemma_newer(a: Tick, b: Tick, now: Tick)
    requires
        a.0 <= now.0,
        b.0 <= now.0,
    ensures
        a.newer_than(b, now) <==> b.0 < a.0 && now.0 - a.0 < MAX_CHANGE_AGE,
{
    assert(a.age(now) == now.0 - a.0);
    assert(b.age(now) == now.0 - b.0);
}

/// Whether nothing that `effect` recorded changed since it was observed.
pub open spec fn up_to_date<V, B>(w: WorldState<V, B>, effect: Entity) -> bool {
    forall|i: int|
        0 <= i < w.dependencies_of(effect).len() ==> w.plausible(
            #[trigger] w.dependencies_of(effect)[i],
        ) && !w.dependency_advanced(w.dependencies_of(effect)[i])
}

/// Between two ticks, whatever changes is found by the next poll, so that no effect goes stale.
pub proof fn lemma_same_time<V, B>(w: WorldState<V, B>, after: WorldState<V, B>)
    requires
        w.times_wf(),
        w.current_wf(),
        after.tick == w.tick,
        after.elapsed == w.elapsed,
        after.dirty.last_poll == w.dirty.last_poll,
        forall|e: Entity|
            w.dirty.queue.contains(e) || w.pending.contains(e) ==> #[trigger] after.dirty.queue.contains(e)
                || after.pending.contains(e),
        forall|s: Source|
            {
                ||| #[trigger] after.changed_tick(s) == w.changed_tick(s)
                ||| after.changed_tick(s) is None
                ||| after.changed_tick(s) == Some(w.tick)
            },
        w.young() ==> forall|e: Entity|
            #[trigger] after.dependencies_of(e) == w.dependencies_of(e) || up_to_date(after, e),
    ensures
        after.times_wf(),
        after.current_wf(),
{
    if after.young() {
        assert forall|s: Source| (#[trigger] after.changed_tick(s)) is Some implies (
        after.changed_tick(s)->0).0 <= after.tick.0 by {
            assert(after.changed_tick(s) == w.changed_tick(s) || after.changed_tick(s) is None
                || after.changed_tick(s) == Some(w.tick));
            assert(w.changed_tick(s) matches Some(changed) ==> changed.0 <= w.tick.0);
        }
        assert forall|e: Entity, i: int| 0 <= i < after.dependencies_of(e).len() implies after.plausible(
            #[trigger] after.dependencies_of(e)[i],
        ) by {
            if after.dependencies_of(e) == w.dependencies_of(e) {
                let d = w.dependencies_of(e)[i];
                assert(w.plausible(d));
                assert(after.changed_tick(d.source) == w.changed_tick(d.source)
                    || after.changed_tick(d.source) is None || after.changed_tick(d.source) == Some(
                    w.tick,
                ));
            } else {
                assert(up_to_date(after, e));
            }
        }
        assert forall|e: Entity, i: int|
            0 <= i < after.dependencies_of(e).len() && after.dependency_advanced(
                #[trigger] after.dependencies_of(e)[i],
            ) implies after.attended(e, after.dependencies_of(e)[i].source) by {
            let d = after.dependencies_of(e)[i];
            assert(!up_to_date(after, e));
            assert(d == w.dependencies_of(e)[i]);
            if after.changed_tick(d.source) == w.changed_tick(d.source) {
                assert(w.dependency_advanced(d));
                assert(w.attended(e, d.source));
                assert(after.dirty.queue.contains(e) || after.pending.contains(e) || w.moved(d.source));
            } else {
                assert(after.changed_tick(d.source) == Some(w.tick));
                lemma_newer(w.tick, after.dirty.last_poll, after.tick);
                assert(after.moved(d.source));
            }
        }
    }
}

/// Time passing makes no effect stale.
pub proof fn lemma_ticked_wf<V, B>(w: WorldState<V, B>)
    ensures
        w.wf() ==> w.ticked().wf(),
{
    let after = w.ticked();
    if w.wf() {
        lemma_graph_wf(w, after);
        if after.young() {
            assert forall|s: Source| #[trigger] after.changed_tick(s) == w.changed_tick(s) by {}
            assert forall|e: Entity| #[trigger] after.dependencies_of(e) == w.dependencies_of(e) by {}
            assert forall|e: Entity, i: int| 0 <= i < after.dependencies_of(e).len() implies after.plausible(
            #[trigger] after.dependencies_of(e)[i],
            ) by {
                assert(w.plausible(w.dependencies_of(e)[i]));
            }
            assert forall|e: Entity, i: int|
                0 <= i < after.dependencies_of(e).len() && after.dependency_advanced(
                    #[trigger] after.dependencies_of(e)[i],
                ) implies after.attended(e, after.dependencies_of(e)[i].source) by {
                let d = after.dependencies_of(e)[i];
                assert(d == w.dependencies_of(e)[i]);
                lemma_still_advanced(w, e, i);
                let changed = w.changed_tick(d.source)->0;
                lemma_newer(changed, w.dirty.last_poll, w.tick);
                lemma_newer(changed, w.dirty.last_poll, after.tick);
            }
        }
    }
}

/// What counts as changed a tick later counts as changed now, and is attended to.
proof fn lemma_still_advanced<V, B>(w: WorldState<V, B>, e: Entity, i: int)
    requires
        w.times_wf(),
        w.current_wf(),
        w.ticked().young(),
        0 <= i < w.dependencies_of(e).len(),
        w.ticked().dependency_advanced(w.dependencies_of(e)[i]),
    ensures
        w.dependency_advanced(w.dependencies_of(e)[i]),
        w.attended(e, w.dependencies_of(e)[i].source),
        w.changed_tick(w.dependencies_of(e)[i].source) matches Some(changed) && changed.0 <= w.tick.0
            && w.tick.0 + 1 - changed.0 < MAX_CHANGE_AGE,
{
    let d = w.dependencies_of(e)[i];
    let after = w.ticked();
    assert(after.changed_tick(d.source) == w.changed_tick(d.source));
    let changed = w.changed_tick(d.source)->0;
    assert(changed.0 <= w.tick.0);
    assert(w.plausible(d));
    lemma_newer(changed, d.observed, after.tick);
    lemma_newer(changed, d.observed, w.tick);
}

/// A poll queues whatever would be stale otherwise.
pub proof fn lemma_polled_wf<V, B>(w: WorldState<V, B>, after: WorldState<V, B>)
    requires
        w.wf(),
        w.polled_to(after),
    ensures
        after.wf(),
{
    assert(after.entities == w.entities);
    lemma_graph_wf(w, after);
    if after.young() {
        let ticked = w.ticked();
        assert forall|s: Source| #[trigger] after.changed_tick(s) == w.changed_tick(s) by {}
        assert forall|e: Entity| #[trigger] after.dependencies_of(e) == w.dependencies_of(e) by {}
        assert forall|e: Entity, i: int| 0 <= i < after.dependencies_of(e).len() implies after.plausible(
        #[trigger] after.dependencies_of(e)[i],
        ) by {
            assert(w.plausible(w.dependencies_of(e)[i]));
        }
        assert forall|e: Entity, i: int|
            0 <= i < after.dependencies_of(e).len() && after.dependency_advanced(
                #[trigger] after.dependencies_of(e)[i],
            ) implies after.attended(e, after.dependencies_of(e)[i].source) by {
            let d = after.dependencies_of(e)[i];
            assert(d == w.dependencies_of(e)[i]);
            assert(ticked.changed_tick(d.source) == after.changed_tick(d.source));
            assert(ticked.dependency_advanced(d));
            lemma_still_advanced(w, e, i);
            if w.moved(d.source) {
                lemma_tracked_source(w, e, i);
                assert(w.wakes(d.source, e));
                assert(w.woken(e));
            }
            assert(w.pending.contains(e) || after.dirty.queue.contains(e));
        }
    }
}

/// What stands in the record of an effect is tracked by it, and has it as a subscriber.
pub proof fn lemma_tracked_source<V, B>(w: WorldState<V, B>, e: Entity, i: int)
    requires
        w.inverse_wf(),
        0 <= i < w.dependencies_of(e).len(),
    ensures
        w.tracks(e, w.dependencies_of(e)[i].source),
        w.subscribers_of(w.dependencies_of(e)[i].source).contains(e),
{
    assert(w.tracked_by(e)[i] == w.dependencies_of(e)[i].source);
    assert(w.tracks(e, w.dependencies_of(e)[i].source));
}

/// An effect that was re-checked need no longer be waited for.
pub proof fn lemma_checked_wf<V, B>(w: WorldState<V, B>, effect: Entity)
    requires
        w.wf(),
        !w.behind(effect),
    ensures
        w.awaiting(w.pending.remove(effect)).wf(),
{
    let after = w.awaiting(w.pending.remove(effect));
    lemma_graph_wf(w, after);
    if after.young() {
        assert forall|s: Source| #[trigger] after.changed_tick(s) == w.changed_tick(s) by {}
        assert forall|e: Entity| #[trigger] after.dependencies_of(e) == w.dependencies_of(e) by {}
        assert forall|e: Entity, i: int| 0 <= i < after.dependencies_of(e).len() implies after.plausible(
        #[trigger] after.dependencies_of(e)[i],
        ) by {
            assert(w.plausible(w.dependencies_of(e)[i]));
        }
        assert forall|e: Entity, i: int|
            0 <= i < after.dependencies_of(e).len() && after.dependency_advanced(
                #[trigger] after.dependencies_of(e)[i],
            ) implies after.attended(e, after.dependencies_of(e)[i].source) by {
            let d = w.dependencies_of(e)[i];
            assert(w.dependency_advanced(d));
            assert(w.behind(e));
            assert(w.attended(e, d.source));
            assert(after.moved(d.source) == w.moved(d.source));
        }
    }
}

/// Where nothing is left to do, no effect is stale.
pub proof fn lemma_settled<V, B>(w: WorldState<V, B>, effect: Entity)
    requires
        w.wf(),
        w.young(),
        w.pending.is_empty(),
        settled(w),
    ensures
        !w.behind(effect),
{
    if w.behind(effect) {
        let i = choose|i: int|
            0 <= i < w.dependencies_of(effect).len() && w.dependency_advanced(
                #[trigger] w.dependencies_of(effect)[i],
            );
        let source = w.dependencies_of(effect)[i].source;
        assert(w.attended(effect, source));
        lemma_tracked_source(w, effect, i);
        assert(w.wakes(source, effect));
        assert(w.woken(effect));
    }
}

/// An effect that is not stale has observed its sources as they are.
pub proof fn lemma_seen<V, B>(w: WorldState<V, B>, effect: Entity, i: int)
    requires
        w.wf(),
        w.young(),
        !w.behind(effect),
        0 <= i < w.dependencies_of(effect).len(),
    ensures
        ({
            let dependency = w.dependencies_of(effect)[i];
            w.changed_tick(dependency.source) matches Some(changed) ==> changed == dependency.observed
                || w.tick.0 - changed.0 >= MAX_CHANGE_AGE
        }),
{
    let dependency = w.dependencies_of(effect)[i];
    assert(!w.dependency_advanced(dependency));
    assert(w.plausible(dependency));
    if let Some(changed) = w.changed_tick(dependency.source) {
        assert(changed.0 <= w.tick.0);
        lemma_newer(changed, dependency.observed, w.tick);
    }
}

/// After a poll that found nothing, nothing is left to do.
pub proof fn lemma_idled<V, B>(w: WorldState<V, B>, after: WorldState<V, B>)
    requires
        w.wf(),
        idled(w, after),
        after.young(),
    ensures
        settled(after),
{
    lemma_polled_wf(w, after);
    assert forall|effect: Entity| !#[trigger] after.woken(effect) by {
        if after.woken(effect) {
            let source = choose|source: Source| #[trigger] after.wakes(source, effect);
            assert(after.changed_tick(source) == w.changed_tick(source));
            let changed = w.changed_tick(source)->0;
            assert(changed.0 <= w.tick.0);
            lemma_newer(changed, after.dirty.last_poll, after.tick);
        }
    }
}

} // verus!
