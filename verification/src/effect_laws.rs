//! What tracking, running, spawning, polling and flushing effects amounts to, said of the calls
//! themselves: of what is read, run and queued, of ticks, and of what the world holds before and
//! after.
use crate::component::Component;
use crate::context::{ContextState, EffectBody, EffectContext};
use crate::despawn::lemma_despawned_wf;
use crate::effect::{
    effect_ran, effect_spawned, maybe_ran, opening, runnable, spawn_effect, spawn_effect_for,
};
use crate::flush::{
    drained_to, flushed, idled, lemma_passes, passed, passes, poll_sources, rechecked, run_effects,
    settled,
};
use crate::graph::{Effect, EffectIndex};
use crate::id::{
    lemma_without, without, ComponentId, Entity, Source, EFFECT_ID, EFFECT_INDEX_ID,
};
use crate::quiet::lemma_turns;
use crate::rewire::{lemma_reconciled, lemma_relisted};
use crate::signal::{Signal, SignalValue};
use crate::state::{enlisted, hosts, hosts_but, outside, WorldState};
use crate::world::World;
use crate::world_laws::{
    last_change, later_than, lemma_last_change, one_later, record_of, same_notice_but,
};
use vstd::prelude::*;

verus! {

/// Whether `after` is what was read `before`, and `source`: everything that was there is still there
/// in its place, the source is there, nothing else is, and it is not there twice.
pub open spec fn read_too(before: Seq<Source>, source: Source, after: Seq<Source>) -> bool {
    &&& before.len() <= after.len() <= before.len() + 1
    &&& forall|i: int| 0 <= i < before.len() ==> #[trigger] after[i] == before[i]
    &&& exists|i: int| 0 <= i < after.len() && #[trigger] after[i] == source
    &&& forall|i: int|
        before.len() <= i < after.len() ==> #[trigger] after[i] == source && !before.contains(source)
}

/// Whether tracking `source` turned the context `before` into `after`: it is among what was read, and
/// nothing else changed.
pub open spec fn tracks_too<V, B>(
    before: ContextState<V, B>,
    source: Source,
    after: ContextState<V, B>,
) -> bool {
    &&& read_too(before.reads, source, after.reads)
    &&& after.world == before.world
    &&& after.effect == before.effect
    &&& after.target == before.target
}

/// The model's way to record a source is this one.
pub proof fn lemma_tracks_too<V, B>(before: ContextState<V, B>, source: Source)
    ensures
        tracks_too(before, source, before.with(source)),
{
    let after = before.with(source);
    if before.reads.contains(source) {
        let i = choose|i: int| 0 <= i < before.reads.len() && before.reads[i] == source;
        assert(after.reads[i] == source);
    } else {
        assert(after.reads[before.reads.len() as int] == source);
    }
}

/// A component that is tracked is recorded, whatever was recorded before, and whether it is there or
/// not. What is given back is a copy of what the entity holds.
pub proof fn law_a_tracked_component_is_recorded<V, B, C: Component<V> + Clone>(
    context: &mut EffectContext<'_, V, B>,
    entity: Entity,
    component: Option<C>,
)
    requires
        call_ensures(EffectContext::<'_, V, B>::track_component::<C>, (context, entity), component),
    ensures
        tracks_too(
            (*old(context))@,
            Source::Component { entity, component: C::id() },
            (*final(context))@,
        ),
        ({
            let world = (*old(context))@.world;
            let there = world.entities.contains_key(entity)
                && world.entities[entity].components.contains_key(C::id()) && C::held(
                world.entities[entity].components[C::id()].value,
            ) is Some;
            &&& component is Some == there
            &&& there ==> cloned(
                C::held(world.entities[entity].components[C::id()].value)->0,
                component->0,
            )
        }),
{
    lemma_tracks_too((*old(context))@, Source::Component { entity, component: C::id() });
}

/// A signal that is tracked is recorded, whether it is alive or not. What is given back is a copy of
/// its value.
pub proof fn law_a_tracked_signal_is_recorded<V, B, T: Clone>(
    context: &mut EffectContext<'_, V, B>,
    signal: Signal<T>,
    value: Option<T>,
) where SignalValue<T>: Component<V>
    requires
        call_ensures(EffectContext::<'_, V, B>::track::<T>, (context, signal), value),
    ensures
        tracks_too(
            (*old(context))@,
            Source::Component { entity: signal@, component: <SignalValue<T> as Component<V>>::id() },
            (*final(context))@,
        ),
        ({
            let world = (*old(context))@.world;
            let id = <SignalValue<T> as Component<V>>::id();
            let there = world.entities.contains_key(signal@)
                && world.entities[signal@].components.contains_key(id) && <SignalValue<
                T,
            > as Component<V>>::held(world.entities[signal@].components[id].value) is Some;
            &&& value is Some == there
            &&& there ==> cloned(
                (<SignalValue<T> as Component<V>>::held(
                    world.entities[signal@].components[id].value,
                )->0).0,
                value->0,
            )
        }),
{
    lemma_tracks_too(
        (*old(context))@,
        Source::Component { entity: signal@, component: <SignalValue<T> as Component<V>>::id() },
    );
}

/// A resource that is tracked is recorded, whether it is there or not. What is given back is a copy of
/// it.
pub proof fn law_a_tracked_resource_is_recorded<V, B, R: Component<V> + Clone>(
    context: &mut EffectContext<'_, V, B>,
    resource: Option<R>,
)
    requires
        call_ensures(EffectContext::<'_, V, B>::track_resource::<R>, (context,), resource),
    ensures
        tracks_too(
            (*old(context))@,
            Source::Resource { resource: R::id() },
            (*final(context))@,
        ),
        ({
            let world = (*old(context))@.world;
            let there = world.resources.contains_key(R::id()) && R::held(
                world.resources[R::id()].value,
            ) is Some;
            &&& resource is Some == there
            &&& there ==> cloned(R::held(world.resources[R::id()].value)->0, resource->0)
        }),
{
    lemma_tracks_too((*old(context))@, Source::Resource { resource: R::id() });
}

/// A source that is tracked is recorded, whatever it is.
pub proof fn law_a_tracked_source_is_recorded<V, B>(
    context: &mut EffectContext<'_, V, B>,
    source: Source,
)
    requires
        call_ensures(EffectContext::<'_, V, B>::track_source, (context, source), ()),
    ensures
        tracks_too((*old(context))@, source, (*final(context))@),
{
    lemma_tracks_too((*old(context))@, source);
}

/// The function of an effect that is tracked is recorded, and given back.
pub proof fn law_a_tracked_effect_is_recorded<V, B>(
    context: &mut EffectContext<'_, V, B>,
    entity: Entity,
    effect: Option<Effect<B>>,
)
    requires
        call_ensures(EffectContext::<'_, V, B>::track_effect, (context, entity), effect),
    ensures
        tracks_too(
            (*old(context))@,
            Source::Component { entity, component: ComponentId(EFFECT_ID) },
            (*final(context))@,
        ),
        ({
            let world = (*old(context))@.world;
            &&& effect is Some == (world.entities.contains_key(entity)
                && world.entities[entity].effect is Some)
            &&& effect is Some ==> world.entities[entity].effect == Some(*(effect->0).0)
        }),
{
    lemma_tracks_too(
        (*old(context))@,
        Source::Component { entity, component: ComponentId(EFFECT_ID) },
    );
}

/// The index of an effect that is tracked is recorded, and given back.
pub proof fn law_a_tracked_index_is_recorded<V, B>(
    context: &mut EffectContext<'_, V, B>,
    entity: Entity,
    index: Option<EffectIndex>,
)
    requires
        call_ensures(EffectContext::<'_, V, B>::track_effect_index, (context, entity), index),
    ensures
        tracks_too(
            (*old(context))@,
            Source::Component { entity, component: ComponentId(EFFECT_INDEX_ID) },
            (*final(context))@,
        ),
        ({
            let world = (*old(context))@.world;
            &&& index is Some == (world.entities.contains_key(entity)
                && world.entities[entity].index is Some)
            &&& index is Some ==> world.entities[entity].index == index
        }),
{
    lemma_tracks_too(
        (*old(context))@,
        Source::Component { entity, component: ComponentId(EFFECT_INDEX_ID) },
    );
}

/// The world that a context hands out is its own: what becomes of it is what the context holds then,
/// and nothing else of the context changes.
pub proof fn law_the_context_hands_out_its_world<V, B>(
    context: &mut EffectContext<'_, V, B>,
    world: &mut World<V, B>,
)
    requires
        call_ensures(EffectContext::<'_, V, B>::world, (context,), world),
    ensures
        (*old(world))@ == (*old(context))@.world,
        (*final(context))@.world == (*final(world))@,
        (*final(context))@.effect == (*old(context))@.effect,
        (*final(context))@.target == (*old(context))@.target,
        (*final(context))@.reads == (*old(context))@.reads,
{
}

/// The context tells which effect runs, and what it is attached to.
pub proof fn law_the_context_tells_who_runs<V, B>(
    context: &EffectContext<'_, V, B>,
    effect: Entity,
    target: Option<Entity>,
)
    requires
        call_ensures(EffectContext::<'_, V, B>::effect, (context,), effect),
        call_ensures(EffectContext::<'_, V, B>::target, (context,), target),
    ensures
        effect == context@.effect,
        target == context@.target,
{
}

/// Whether a run of `effect` in the world `before` starts with `start`: one tick later, with nothing
/// read yet, and with everything else as it was.
pub open spec fn starts<V, B>(
    before: WorldState<V, B>,
    effect: Entity,
    start: ContextState<V, B>,
) -> bool {
    &&& start.effect == effect
    &&& start.target == before.entities[effect].effect_of
    &&& start.reads.len() == 0
    &&& start.world.tick == one_later(before.tick)
    &&& start.world.elapsed == before.elapsed + 1
    &&& start.world.next == before.next
    &&& start.world.entities == before.entities
    &&& start.world.resources == before.resources
    &&& start.world.subscribers == before.subscribers
    &&& start.world.noticed == before.noticed
    &&& start.world.dirty == before.dirty
    &&& start.world.pending == before.pending
}

/// Whether `effect` is subscribed to a component of `entity` in the world `b` that it is not
/// subscribed to in the world `a`.
pub open spec fn listens_to_more<V, B>(
    a: WorldState<V, B>,
    effect: Entity,
    b: WorldState<V, B>,
    entity: Entity,
) -> bool {
    exists|component: ComponentId|
        (#[trigger] (b.subscribers)(Source::Component { entity, component }).contains(effect))
            && !(a.subscribers)(Source::Component { entity, component }).contains(effect)
}

/// Whether closing a run of `effect` that left `end` gives the world `after`. It is one tick later. The
/// record of the effect, if it keeps one, says what was read, in that order, and when each of it last
/// changed; the effect is subscribed to exactly that; and everything else is as the run left it.
pub open spec fn closes<V, B>(
    end: ContextState<V, B>,
    effect: Entity,
    after: WorldState<V, B>,
) -> bool {
    &&& after.tick == one_later(end.world.tick)
    &&& after.elapsed == end.world.elapsed + 1
    &&& after.next == end.world.next
    &&& after.resources == end.world.resources
    &&& after.dirty == end.world.dirty
    &&& after.pending == end.world.pending
    &&& forall|e: Entity| #[trigger]
        after.entities.contains_key(e) == end.world.entities.contains_key(e)
    &&& forall|e: Entity|
        end.world.entities.contains_key(e) ==> {
            &&& (#[trigger] after.entities[e]).components == end.world.entities[e].components
            &&& after.entities[e].effect == end.world.entities[e].effect
            &&& after.entities[e].index == end.world.entities[e].index
            &&& after.entities[e].effect_of == end.world.entities[e].effect_of
            &&& after.entities[e].effects == end.world.entities[e].effects
            &&& e != effect ==> after.entities[e].dependencies == end.world.entities[e].dependencies
            &&& after.entities[e].dependencies is Some == end.world.entities[e].dependencies is Some
            &&& after.entities[e].stamps.born == end.world.entities[e].stamps.born
            &&& after.entities[e].stamps.tied == end.world.entities[e].stamps.tied
            &&& after.entities[e].stamps.recorded == if e == effect
                && end.world.entities[e].dependencies is Some {
                end.world.tick
            } else {
                end.world.entities[e].stamps.recorded
            }
        }
    &&& forall|x: Entity| #[trigger]
        after.noticed.contains_key(x) ==> {
            &&& listens_to_more(after, effect, end.world, x) ==> after.noticed[x] == end.world.tick
            &&& listens_to_more(end.world, effect, after, x) && after.entities.contains_key(x)
                ==> after.noticed[x] == end.world.tick
            &&& !listens_to_more(after, effect, end.world, x) && !listens_to_more(
                end.world,
                effect,
                after,
                x,
            ) ==> end.world.noticed.contains_key(x) && after.noticed[x] == end.world.noticed[x]
        }
    &&& forall|x: Entity| #[trigger]
        end.world.noticed.contains_key(x) ==> after.noticed.contains_key(x)
    &&& forall|x: Entity, component: ComponentId| #[trigger]
        (after.subscribers)(Source::Component { entity: x, component }).contains(effect)
            && after.entities.contains_key(x) && !(end.world.subscribers)(
            Source::Component { entity: x, component },
        ).contains(effect) ==> after.noticed.contains_key(x)
    &&& forall|s: Source, e: Entity|
        e != effect ==> (#[trigger] (after.subscribers)(s).contains(e) <==> (end.world.subscribers)(
            s,
        ).contains(e))
    &&& forall|s: Source| #[trigger]
        without((after.subscribers)(s), effect) == without((end.world.subscribers)(s), effect)
    &&& if end.world.entities.contains_key(effect) && end.world.entities[effect].dependencies is Some {
        let record = after.entities[effect].dependencies->0;
        &&& record.len() == end.reads.len()
        &&& forall|i: int|
            0 <= i < record.len() ==> {
                &&& (#[trigger] record[i]).source == end.reads[i]
                &&& record[i].observed == match last_change(after, end.reads[i]) {
                    Some(changed) => changed,
                    None => end.world.tick,
                }
            }
        &&& forall|s: Source| #[trigger]
            (after.subscribers)(s).contains(effect) <==> end.reads.contains(s)
    } else {
        after.subscribers == end.world.subscribers
    }
}

/// Whether `effect` is run once, from the world `before` to the world `after`: there is one run of its
/// function between opening it and closing it.
pub open spec fn runs_once<V, B: EffectBody<V, B>>(
    before: WorldState<V, B>,
    effect: Entity,
    after: WorldState<V, B>,
) -> bool {
    exists|start: ContextState<V, B>, end: ContextState<V, B>|
        {
            &&& starts(before, effect, start)
            &&& #[trigger] (before.entities[effect].effect->0).runs(start, end)
            &&& closes(end, effect, after)
        }
}

/// Whether `effect` is due: it keeps no record, or has recorded nothing, or something that it recorded
/// last changed later than it was observed.
pub open spec fn is_due<V, B>(w: WorldState<V, B>, effect: Entity) -> bool {
    ||| record_of(w, effect).len() == 0
    ||| exists|i: int|
        0 <= i < record_of(w, effect).len() && match last_change(
            w,
            (#[trigger] record_of(w, effect)[i]).source,
        ) {
            Some(changed) => later_than(changed, record_of(w, effect)[i].observed, w.tick),
            None => false,
        }
}

/// Whether the turn of `effect` in a flush turns the world `before` into the world `after`: if it is
/// due and has a function, it is run once, and nothing happens otherwise.
pub open spec fn takes_turn<V, B: EffectBody<V, B>>(
    before: WorldState<V, B>,
    effect: Entity,
    after: WorldState<V, B>,
) -> bool {
    if is_due(before, effect) && before.entities.contains_key(effect)
        && before.entities[effect].effect is Some {
        runs_once(before, effect, after)
    } else {
        after == before
    }
}

/// The model's notion of being due is this one.
pub proof fn lemma_is_due<V, B>(w: WorldState<V, B>, effect: Entity)
    ensures
        w.advanced(effect) == is_due(w, effect),
        w.dependencies_of(effect) == record_of(w, effect),
{
    let record = record_of(w, effect);
    assert(w.dependencies_of(effect) == record);
    assert forall|i: int| 0 <= i < record.len() implies w.dependency_advanced(#[trigger] record[i])
        == match last_change(w, record[i].source) {
        Some(changed) => later_than(changed, record[i].observed, w.tick),
        None => false,
    } by {
        lemma_last_change(w, record[i].source);
    }
    if w.behind(effect) {
        let i = choose|i: int|
            0 <= i < w.dependencies_of(effect).len() && w.dependency_advanced(
                #[trigger] w.dependencies_of(effect)[i],
            );
        assert(w.dependency_advanced(record[i]));
    }
    if record.len() > 0 && is_due(w, effect) {
        let i = choose|i: int|
            0 <= i < record_of(w, effect).len() && match last_change(
                w,
                (#[trigger] record_of(w, effect)[i]).source,
            ) {
                Some(changed) => later_than(changed, record_of(w, effect)[i].observed, w.tick),
                None => false,
            };
        assert(w.dependency_advanced(record[i]));
        assert(w.dependency_advanced(w.dependencies_of(effect)[i]));
    }
}

/// Taking an effect off a list that it was put on gives the list without it.
proof fn lemma_without_enlisted(list: Seq<Entity>, effect: Entity)
    ensures
        without(enlisted(list, effect), effect) == without(list, effect),
        without(without(list, effect), effect) == without(list, effect),
{
    lemma_without(list, effect);
    lemma_without(without(list, effect), effect);
    list.lemma_filter_push(effect, crate::id::other_than(effect));
    assert(!without(list, effect).contains(effect));
}

/// Reconciling and the tick after it close a run.
pub proof fn lemma_closes<V, B>(end: ContextState<V, B>, effect: Entity)
    requires
        end.world.wf(),
        end.reads.no_duplicates(),
    ensures
        closes(end, effect, end.world.reconciled(effect, end.reads).ticked()),
{
    let w = end.world;
    let closed = w.reconciled(effect, end.reads);
    let after = closed.ticked();
    if w.tracking(effect) {
        lemma_reconciled(w, effect, end.reads);
        assert forall|e: Entity| #[trigger]
            after.entities.contains_key(e) == w.entities.contains_key(e) by {
            assert(closed.alive(e) == w.alive(e));
        }
        assert forall|s: Source, e: Entity| e != effect implies (#[trigger] (after.subscribers)(
            s,
        ).contains(e) <==> (w.subscribers)(s).contains(e)) by {
            lemma_relisted(w.subscribers_of(s), end.reads.contains(s), effect);
        }
        assert forall|s: Source| #[trigger]
            without((after.subscribers)(s), effect) == without((w.subscribers)(s), effect) by {
            lemma_without_enlisted(w.subscribers_of(s), effect);
        }
        assert forall|s: Source| #[trigger]
            (after.subscribers)(s).contains(effect) <==> end.reads.contains(s) by {
            lemma_relisted(w.subscribers_of(s), end.reads.contains(s), effect);
        }
        lemma_closes_notice(end, effect);
        let record = after.entities[effect].dependencies->0;
        assert(record == closed.dependencies_of(effect));
        assert forall|i: int| 0 <= i < record.len() implies {
            &&& (#[trigger] record[i]).source == end.reads[i]
            &&& record[i].observed == match last_change(after, end.reads[i]) {
                Some(changed) => changed,
                None => w.tick,
            }
        } by {
            let s = end.reads[i];
            lemma_last_change(after, s);
            assert(after.changed_tick(s) == closed.changed_tick(s));
            assert(closed.changed_tick(s) == w.linked(effect, end.reads).changed_tick(s));
        }
    } else {
        assert forall|s: Source, e: Entity| e != effect implies (#[trigger] (after.subscribers)(
            s,
        ).contains(e) <==> (w.subscribers)(s).contains(e)) by {}
    }
}

/// What reconciling does to when lists last changed.
proof fn lemma_closes_notice<V, B>(end: ContextState<V, B>, effect: Entity)
    requires
        end.world.wf(),
        end.world.tracking(effect),
        ({
            let after = end.world.reconciled(effect, end.reads).ticked();
            forall|s: Source| #[trigger]
                (after.subscribers)(s).contains(effect) <==> end.reads.contains(s)
        }),
    ensures
        ({
            let w = end.world;
            let after = w.reconciled(effect, end.reads).ticked();
            &&& forall|x: Entity| #[trigger]
                after.noticed.contains_key(x) ==> {
                    &&& listens_to_more(after, effect, w, x) ==> after.noticed[x] == w.tick
                    &&& listens_to_more(w, effect, after, x) && after.entities.contains_key(x)
                        ==> after.noticed[x] == w.tick
                    &&& !listens_to_more(after, effect, w, x) && !listens_to_more(
                        w,
                        effect,
                        after,
                        x,
                    ) ==> w.noticed.contains_key(x) && after.noticed[x] == w.noticed[x]
                }
            &&& forall|x: Entity| #[trigger]
                w.noticed.contains_key(x) ==> after.noticed.contains_key(x)
            &&& forall|x: Entity, component: ComponentId| #[trigger]
                (after.subscribers)(Source::Component { entity: x, component }).contains(effect)
                    && after.entities.contains_key(x) && !(w.subscribers)(
                    Source::Component { entity: x, component },
                ).contains(effect) ==> after.noticed.contains_key(x)
        }),
{
    let w = end.world;
    let reads = end.reads;
    let after = w.reconciled(effect, reads).ticked();
    let previous = w.tracked_by(effect);
    lemma_reconciled(w, effect, reads);
    assert forall|s: Source| #[trigger] (w.subscribers)(s).contains(effect) == previous.contains(s) by {
        assert(w.subscribers_of(s).contains(effect) <==> w.tracks(effect, s));
    }
    assert forall|x: Entity| #[trigger] listens_to_more(w, effect, after, x) <==> hosts_but(
        reads,
        previous,
        x,
    ) by {
        assert forall|component: ComponentId| #[trigger]
            reads.contains(Source::Component { entity: x, component }) == (after.subscribers)(
                Source::Component { entity: x, component },
            ).contains(effect) by {}
    }
    assert forall|x: Entity| #[trigger] listens_to_more(after, effect, w, x) <==> hosts_but(
        previous,
        reads,
        x,
    ) by {
        assert forall|component: ComponentId| #[trigger]
            previous.contains(Source::Component { entity: x, component }) == (w.subscribers)(
                Source::Component { entity: x, component },
            ).contains(effect) by {}
    }
    assert forall|x: Entity, component: ComponentId| #[trigger]
        (after.subscribers)(Source::Component { entity: x, component }).contains(effect)
            && after.entities.contains_key(x) && !(w.subscribers)(
            Source::Component { entity: x, component },
        ).contains(effect) implies after.noticed.contains_key(x) by {
        let s = Source::Component { entity: x, component };
        assert((w.subscribers)(s).contains(effect) == previous.contains(s));
        assert(reads.contains(s));
        assert(hosts_but(reads, previous, x));
        assert(w.alive(x));
    }
}

/// A run of the model is one run.
pub proof fn lemma_runs_once<V, B: EffectBody<V, B>>(
    before: WorldState<V, B>,
    effect: Entity,
    after: WorldState<V, B>,
)
    requires
        effect_ran(before, effect, after),
    ensures
        before.entities.contains_key(effect) && before.entities[effect].effect is Some ==> runs_once(
            before,
            effect,
            after,
        ),
        !(before.entities.contains_key(effect) && before.entities[effect].effect is Some) ==> after
            == before,
{
    if runnable(before, effect) {
        let end = choose|end: ContextState<V, B>|
            #[trigger] crate::effect::body_ran(before, effect, end) && after
                == end.world.reconciled(effect, end.reads).ticked();
        let start = opening(before, effect);
        assert(starts(before, effect, start));
        lemma_closes(end, effect);
        assert((before.entities[effect].effect->0).runs(start, end));
    }
}

/// When an effect is re-checked, its function is run once if it is due, and not at all otherwise,
/// whatever it depends on.
pub proof fn law_a_turn_is_at_most_one_run<V, B: EffectBody<V, B>>(
    before: WorldState<V, B>,
    effect: Entity,
    after: WorldState<V, B>,
)
    requires
        maybe_ran(before, effect, after),
    ensures
        takes_turn(before, effect, after),
{
    lemma_is_due(before, effect);
    if before.advanced(effect) {
        lemma_runs_once(before, effect, after);
    }
}

/// A turn on which an effect is run takes one tick to open the run, those that the run itself takes,
/// and one to close it.
pub proof fn law_a_turn_takes_the_ticks_of_one_run<V, B: EffectBody<V, B>>(
    before: WorldState<V, B>,
    effect: Entity,
    after: WorldState<V, B>,
    taken: nat,
)
    requires
        before.entities.contains_key(effect),
        before.entities[effect].effect is Some,
        is_due(before, effect),
        maybe_ran(before, effect, after),
        forall|start: ContextState<V, B>, end: ContextState<V, B>| #[trigger]
            (before.entities[effect].effect->0).runs(start, end) ==> end.world.elapsed
                == start.world.elapsed + taken,
    ensures
        after.elapsed == before.elapsed + 2 + taken,
{
    law_a_turn_is_at_most_one_run(before, effect, after);
    let (start, end) = choose|start: ContextState<V, B>, end: ContextState<V, B>|
        {
            &&& starts(before, effect, start)
            &&& #[trigger] (before.entities[effect].effect->0).runs(start, end)
            &&& closes(end, effect, after)
        };
    assert((before.entities[effect].effect->0).runs(start, end));
}

/// Whether `after` is the world `before` after a poll. The queue keeps what it held, and holds in
/// addition exactly those effects that are subscribed to something that changed later than the last
/// poll; the next poll counts from here; it is one tick later; and everything else is as it was.
pub open spec fn polls<V, B>(before: WorldState<V, B>, after: WorldState<V, B>) -> bool {
    &&& after.tick == one_later(before.tick)
    &&& after.elapsed == before.elapsed + 1
    &&& after.next == before.next
    &&& after.entities == before.entities
    &&& after.resources == before.resources
    &&& after.subscribers == before.subscribers
    &&& after.noticed == before.noticed
    &&& after.pending == before.pending
    &&& after.dirty.last_poll == before.tick
    &&& after.dirty.next_index == before.dirty.next_index
    &&& before.dirty.queue.len() <= after.dirty.queue.len()
    &&& forall|i: int|
        0 <= i < before.dirty.queue.len() ==> #[trigger] after.dirty.queue[i] == before.dirty.queue[i]
    &&& forall|i: int, j: int|
        0 <= i < j < after.dirty.queue.len() ==> #[trigger] after.dirty.queue[i]
            != #[trigger] after.dirty.queue[j]
    &&& forall|e: Entity| #[trigger]
        after.dirty.queue.contains(e) <==> before.dirty.queue.contains(e) || is_woken(before, e)
}

/// Whether something that `effect` is subscribed to changed later than the last poll.
pub open spec fn is_woken<V, B>(w: WorldState<V, B>, effect: Entity) -> bool {
    exists|s: Source|
        {
            &&& #[trigger] (w.subscribers)(s).contains(effect)
            &&& match last_change(w, s) {
                Some(changed) => later_than(changed, w.dirty.last_poll, w.tick),
                None => false,
            }
        }
}

/// The model's notion of being woken is this one.
pub proof fn lemma_is_woken<V, B>(w: WorldState<V, B>, effect: Entity)
    ensures
        w.woken(effect) == is_woken(w, effect),
{
    if w.woken(effect) {
        let s = choose|s: Source| #[trigger] w.wakes(s, effect);
        lemma_last_change(w, s);
        assert((w.subscribers)(s).contains(effect));
    }
    if is_woken(w, effect) {
        let s = choose|s: Source|
            {
                &&& #[trigger] (w.subscribers)(s).contains(effect)
                &&& match last_change(w, s) {
                    Some(changed) => later_than(changed, w.dirty.last_poll, w.tick),
                    None => false,
                }
            };
        lemma_last_change(w, s);
        assert(w.wakes(s, effect));
    }
}

/// A poll of the model is a poll.
pub proof fn lemma_polls<V, B>(before: WorldState<V, B>, after: WorldState<V, B>)
    requires
        before.polled_to(after),
    ensures
        polls(before, after),
{
    assert forall|e: Entity| #[trigger]
        after.dirty.queue.contains(e) <==> before.dirty.queue.contains(e) || is_woken(before, e) by {
        lemma_is_woken(before, e);
    }
}

/// A poll queues exactly the effects that are subscribed to something that changed since the last one,
/// behind those that are queued already, and runs nothing.
pub proof fn law_a_poll_queues_what_is_woken<V, B>(world: &mut World<V, B>)
    requires
        call_ensures(poll_sources::<V, B>, (world,), ()),
    ensures
        polls((*old(world))@, (*final(world))@),
{
    lemma_polls((*old(world))@, (*final(world))@);
}

/// What the two worlds hold is the same, but for what flushes under way have still to do.
pub open spec fn same_but_pending<V, B>(a: WorldState<V, B>, b: WorldState<V, B>) -> bool {
    a == (WorldState { pending: a.pending, ..b })
}

/// The place of an effect in the order of registration; those without one come first.
pub open spec fn place_of<V, B>(w: WorldState<V, B>, effect: Entity) -> int {
    if w.entities.contains_key(effect) && w.entities[effect].index is Some {
        (w.entities[effect].index->0).0 as int
    } else {
        -1
    }
}

/// Whether `order` holds what `queue` holds, each once, in the order of registration, and in that of
/// the queue where that does not decide.
pub open spec fn ordered<V, B>(w: WorldState<V, B>, queue: Seq<Entity>, order: Seq<Entity>) -> bool {
    &&& forall|e: Entity| #[trigger] order.contains(e) <==> queue.contains(e)
    &&& forall|i: int, j: int|
        0 <= i < j < order.len() ==> #[trigger] order[i] != #[trigger] order[j]
    &&& forall|i: int, j: int|
        0 <= i < j < order.len() ==> place_of(w, #[trigger] order[i]) < place_of(
            w,
            #[trigger] order[j],
        ) || place_of(w, order[i]) == place_of(w, order[j]) && queue.index_of(order[i])
            < queue.index_of(order[j])
}

/// Whether a pass of a flush turns the world `before` into the world `after`: after a poll that left
/// something queued, the queue is emptied, and each effect of it takes its turn, in the order of
/// registration.
pub open spec fn makes_pass<V, B: EffectBody<V, B>>(
    before: WorldState<V, B>,
    polled: WorldState<V, B>,
    order: Seq<Entity>,
    turns: Seq<WorldState<V, B>>,
    after: WorldState<V, B>,
) -> bool {
    &&& polls(before, polled)
    &&& polled.dirty.queue.len() > 0
    &&& ordered(polled, polled.dirty.queue, order)
    &&& turns.len() == order.len() + 1
    &&& turns[0].dirty.queue.len() == 0
    &&& same_but_pending(
        turns[0],
        WorldState { dirty: crate::graph::DirtyState { queue: Seq::empty(), ..polled.dirty }, ..polled },
    )
    &&& forall|i: int|
        0 <= i < order.len() ==> takes_turn(
            turns[i],
            #[trigger] order[i],
            WorldState { pending: turns[i].pending, ..turns[i + 1] },
        )
    &&& same_but_pending(turns.last(), after)
    &&& after.pending == before.pending
}

/// Whether one pass turns the world `before` into the world `after`.
pub open spec fn one_pass<V, B: EffectBody<V, B>>(before: WorldState<V, B>, after: WorldState<V, B>) -> bool {
    exists|polled: WorldState<V, B>, order: Seq<Entity>, turns: Seq<WorldState<V, B>>| #[trigger]
        makes_pass(before, polled, order, turns, after)
}

/// Whether `worlds` are those between passes of a flush, one pass after the other.
pub open spec fn in_passes<V, B: EffectBody<V, B>>(worlds: Seq<WorldState<V, B>>) -> bool {
    forall|i: int| 0 <= i < worlds.len() - 1 ==> one_pass(#[trigger] worlds[i], worlds[i + 1])
}

/// Whether nothing is queued, and nobody would be by a poll.
pub open spec fn at_rest<V, B>(w: WorldState<V, B>) -> bool {
    w.dirty.queue.len() == 0 && forall|e: Entity| !#[trigger] is_woken(w, e)
}

/// Whether a flush turns the world `before` into the world `after`: passes follow each other until a
/// poll finds nothing, and the flush is done; or there were as many as there may be, and it is done
/// only if nothing is left.
pub open spec fn makes_flush<V, B: EffectBody<V, B>>(
    before: WorldState<V, B>,
    worlds: Seq<WorldState<V, B>>,
    after: WorldState<V, B>,
    done: bool,
) -> bool {
    &&& worlds.len() > 0
    &&& worlds[0] == before
    &&& in_passes(worlds)
    &&& {
        ||| worlds.len() <= 128 && done && polls(worlds.last(), after) && after.dirty.queue.len() == 0
        ||| worlds.len() == 129 && after == worlds.last() && done == at_rest(after)
    }
}

/// A pass of the model is a pass.
pub proof fn lemma_one_pass<V, B: EffectBody<V, B>>(before: WorldState<V, B>, after: WorldState<V, B>)
    requires
        before.wf(),
        passed(before, after),
    ensures
        one_pass(before, after),
{
    let (polled, order) = choose|polled: WorldState<V, B>, order: Seq<Entity>|
        {
            &&& before.polled_to(polled)
            &&& polled.dirty.queue.len() > 0
            &&& #[trigger] polled.in_order(polled.dirty.queue, order)
            &&& drained_to(polled, order, after)
        };
    lemma_polls(before, polled);
    let start = polled.drained();
    let end = after.awaiting(start.pending.difference(order.to_set()));
    let turns = lemma_turns(start, order, end);
    assert forall|e: Entity| #[trigger] place_of(polled, e) == polled.rank(e) by {}
    assert forall|i: int, j: int| 0 <= i < j < order.len() implies place_of(
        polled,
        #[trigger] order[i],
    ) < place_of(polled, #[trigger] order[j]) || place_of(polled, order[i]) == place_of(
        polled,
        order[j],
    ) && polled.dirty.queue.index_of(order[i]) < polled.dirty.queue.index_of(order[j]) by {
        assert(place_of(polled, order[i]) == polled.rank(order[i]));
        assert(place_of(polled, order[j]) == polled.rank(order[j]));
    }
    assert forall|i: int| 0 <= i < order.len() implies takes_turn(
        turns[i],
        #[trigger] order[i],
        WorldState { pending: turns[i].pending, ..turns[i + 1] },
    ) by {
        assert(rechecked(turns[i], order[i], turns[i + 1]));
        law_a_turn_is_at_most_one_run(turns[i], order[i], turns[i + 1].awaiting(turns[i].pending));
    }
    assert(same_but_pending(turns.last(), after));
    assert(makes_pass(before, polled, order, turns, after));
}

/// Passes of the model are passes.
proof fn lemma_in_passes<V, B: EffectBody<V, B>>(
    before: WorldState<V, B>,
    after: WorldState<V, B>,
    count: nat,
) -> (worlds: Seq<WorldState<V, B>>)
    requires
        before.wf(),
        passes(before, after, count),
    ensures
        worlds.len() == count + 1,
        worlds[0] == before,
        worlds.last() == after,
        in_passes(worlds),
    decreases count,
{
    if count == 0 {
        seq![before]
    } else {
        let middle = choose|middle: WorldState<V, B>|
            passes(before, middle, (count - 1) as nat) && #[trigger] passed(middle, after);
        let rest = lemma_in_passes(before, middle, (count - 1) as nat);
        lemma_passes(before, middle, (count - 1) as nat);
        lemma_one_pass(middle, after);
        let worlds = rest.push(after);
        assert forall|i: int| 0 <= i < worlds.len() - 1 implies one_pass(
            #[trigger] worlds[i],
            worlds[i + 1],
        ) by {
            if i < rest.len() - 1 {
                assert(one_pass(rest[i], rest[i + 1]));
            }
        }
        worlds
    }
}

/// A flush polls, and lets each effect that is queued take its turn, once per pass and in the order of
/// registration, until nothing is left to do or there were too many passes. On its turn an effect is
/// run once if it is due.
pub proof fn law_a_flush_is_made_of_turns<V, B: EffectBody<V, B>>(world: &mut World<V, B>, done: bool)
    requires
        call_ensures(World::<V, B>::run_effects, (world,), done) || call_ensures(
            run_effects::<V, B>,
            (world,),
            done,
        ),
        (*old(world))@.wf(),
    ensures
        exists|worlds: Seq<WorldState<V, B>>| #[trigger]
            makes_flush((*old(world))@, worlds, (*final(world))@, done),
{
    lemma_makes_flush((*old(world))@, (*final(world))@, done);
}

/// A flush of the model is a flush.
pub proof fn lemma_makes_flush<V, B: EffectBody<V, B>>(
    before: WorldState<V, B>,
    after: WorldState<V, B>,
    done: bool,
)
    requires
        before.wf(),
        flushed(before, after, done),
    ensures
        exists|worlds: Seq<WorldState<V, B>>| #[trigger] makes_flush(before, worlds, after, done),
{
    if done && exists|middle: WorldState<V, B>, count: nat|
        count < 128 && #[trigger] passes(before, middle, count) && idled(middle, after) {
        let (middle, count) = choose|middle: WorldState<V, B>, count: nat|
            count < 128 && #[trigger] passes(before, middle, count) && idled(middle, after);
        let worlds = lemma_in_passes(before, middle, count);
        lemma_polls(middle, after);
        assert(makes_flush(before, worlds, after, done));
    } else {
        let worlds = lemma_in_passes(before, after, 128);
        assert forall|e: Entity| #[trigger] is_woken(after, e) == after.woken(e) by {
            lemma_is_woken(after, e);
        }
        if settled(after) {
            assert forall|e: Entity| !#[trigger] is_woken(after, e) by {
                assert(!after.woken(e));
            }
        }
        if at_rest(after) {
            assert forall|e: Entity| !#[trigger] after.woken(e) by {
                assert(!is_woken(after, e));
            }
        }
        assert(makes_flush(before, worlds, after, done));
    }
}

/// Whether `after` is the world `before` with one more effect: a new entity that runs `func`, has
/// recorded nothing, comes last in the order of registration, and is tied to `target` if there is one
/// that is alive, as the last of its effects. Everything else is as it was.
pub open spec fn gains_effect<V, B>(
    before: WorldState<V, B>,
    func: B,
    target: Option<Entity>,
    effect: Entity,
    after: WorldState<V, B>,
) -> bool {
    let tied = target is Some && before.entities.contains_key(target->0);
    &&& effect.0 == before.next
    &&& after.next == before.next + 1
    &&& !before.entities.contains_key(effect)
    &&& after.entities.contains_key(effect)
    &&& after.entities[effect].effect == Some(func)
    &&& after.entities[effect].dependencies is Some
    &&& (after.entities[effect].dependencies->0).len() == 0
    &&& after.entities[effect].index is Some
    &&& (after.entities[effect].index->0).0 == before.dirty.next_index
    &&& after.dirty.next_index == before.dirty.next_index + 1
    &&& forall|id: ComponentId| !#[trigger] after.entities[effect].components.contains_key(id)
    &&& after.entities[effect].effects is None
    &&& after.entities[effect].effect_of == if tied {
        target
    } else {
        None
    }
    &&& forall|e: Entity|
        e != effect ==> #[trigger] after.entities.contains_key(e) == before.entities.contains_key(e)
    &&& forall|e: Entity|
        e != effect && before.entities.contains_key(e) ==> {
            &&& (#[trigger] after.entities[e]).components == before.entities[e].components
            &&& after.entities[e].effect == before.entities[e].effect
            &&& after.entities[e].dependencies == before.entities[e].dependencies
            &&& after.entities[e].index == before.entities[e].index
            &&& after.entities[e].effect_of == before.entities[e].effect_of
            &&& !(tied && target == Some(e)) ==> after.entities[e].effects == before.entities[e].effects
                && after.entities[e].stamps == before.entities[e].stamps
        }
    &&& after.entities[effect].stamps.born == before.tick
    &&& after.entities[effect].stamps.recorded == before.tick
    &&& tied ==> after.entities[target->0].stamps.tied == before.tick
    &&& same_notice_but(before, after, effect)
    &&& before.noticed.contains_key(effect) ==> after.noticed[effect] == before.tick
    &&& tied ==> {
        let list = after.entities[target->0].effects;
        let earlier = match before.entities[target->0].effects {
            Some(held) => held,
            None => Seq::empty(),
        };
        &&& list is Some
        &&& (list->0).len() == earlier.len() + 1
        &&& (list->0)[earlier.len() as int] == effect
        &&& forall|i: int| 0 <= i < earlier.len() ==> #[trigger] (list->0)[i] == earlier[i]
    }
    &&& after.tick == before.tick
    &&& after.elapsed == before.elapsed
    &&& after.resources == before.resources
    &&& after.subscribers == before.subscribers
    &&& after.dirty.queue == before.dirty.queue
    &&& after.dirty.last_poll == before.dirty.last_poll
    &&& after.pending == before.pending
}

/// Whether spawning an effect turns the world `before` into the world `after`: there is one more
/// effect, and it is run once.
pub open spec fn spawns_effect<V, B: EffectBody<V, B>>(
    before: WorldState<V, B>,
    func: B,
    target: Option<Entity>,
    effect: Entity,
    after: WorldState<V, B>,
) -> bool {
    exists|gained: WorldState<V, B>| #[trigger]
        gains_effect(before, func, target, effect, gained) && runs_once(gained, effect, after)
}

/// Spawning an effect of the model is spawning an effect.
pub proof fn lemma_spawns_effect<V, B: EffectBody<V, B>>(
    before: WorldState<V, B>,
    func: B,
    target: Option<Entity>,
    after: WorldState<V, B>,
)
    requires
        before.wf(),
        before.next < u64::MAX,
        effect_spawned(before, func, target, after),
    ensures
        spawns_effect(before, func, target, before.fresh(), after),
{
    let effect = before.fresh();
    let gained = before.registered(func, target);
    assert(!before.alive(effect)) by {
        assert(before.ids_wf());
    }
    lemma_runs_once(gained, effect, after);
    assert(gains_effect(before, func, target, effect, gained));
}

/// An effect that is spawned is a new entity, last in the order of registration and tied to nothing,
/// and is run once right away.
pub proof fn law_a_spawned_effect_is_new_and_has_run<V, B: EffectBody<V, B>>(
    world: &mut World<V, B>,
    func: B,
    effect: Entity,
)
    requires
        call_ensures(spawn_effect::<V, B>, (world, func), effect),
        (*old(world))@.wf(),
        (*old(world))@.next < u64::MAX,
    ensures
        spawns_effect((*old(world))@, func, None, effect, (*final(world))@),
{
    lemma_spawns_effect((*old(world))@, func, None, (*final(world))@);
}

/// An effect that is spawned for an entity is a new one as well, and is tied to that entity, whatever
/// effects were tied to it before. It is run once right away.
pub proof fn law_an_effect_spawned_for_an_entity_is_tied_to_it<V, B: EffectBody<V, B>>(
    world: &mut World<V, B>,
    target: Entity,
    func: B,
    effect: Entity,
)
    requires
        call_ensures(spawn_effect_for::<V, B>, (world, target, func), effect),
        (*old(world))@.wf(),
        (*old(world))@.next < u64::MAX,
    ensures
        spawns_effect((*old(world))@, func, Some(target), effect, (*final(world))@),
{
    lemma_spawns_effect((*old(world))@, func, Some(target), (*final(world))@);
}

/// Filters that agree on what is there leave the same.
pub proof fn lemma_same_filter(
    list: Seq<Entity>,
    passes: spec_fn(Entity) -> bool,
    other: spec_fn(Entity) -> bool,
)
    requires
        forall|e: Entity| #[trigger] list.contains(e) ==> passes(e) == other(e),
    ensures
        list.filter(passes) == list.filter(other),
    decreases list.len(),
{
    if list.len() > 0 {
        let rest = list.drop_last();
        let last = list.last();
        assert(list =~= rest.push(last));
        assert forall|e: Entity| #[trigger] rest.contains(e) implies passes(e) == other(e) by {
            vstd::seq_lib::lemma_seq_contains_after_push(rest, last, e);
            assert(list.contains(e));
        }
        assert(list.contains(last));
        lemma_same_filter(rest, passes, other);
        rest.lemma_filter_push(last, passes);
        rest.lemma_filter_push(last, other);
    } else {
        reveal(Seq::filter);
    }
}

/// Those of `list` that the world holds, in their order.
pub open spec fn those_in<V, B>(w: WorldState<V, B>, list: Seq<Entity>) -> Seq<Entity> {
    list.filter(|e: Entity| w.entities.contains_key(e))
}

/// Whether an effect tied to `entity` is in the world `before` and no longer in the world `after`.
pub open spec fn loses_an_effect<V, B>(
    before: WorldState<V, B>,
    after: WorldState<V, B>,
    entity: Entity,
) -> bool {
    exists|e: Entity| #[trigger]
        before.entities.contains_key(e) && !after.entities.contains_key(e)
            && before.entities[e].effect_of == Some(entity)
}

/// Whether somebody who is subscribed to a component of `entity` in the world `before` is no longer
/// in the world `after`.
pub open spec fn loses_a_subscriber<V, B>(
    before: WorldState<V, B>,
    after: WorldState<V, B>,
    entity: Entity,
) -> bool {
    exists|e: Entity, component: ComponentId| #[trigger]
        (before.subscribers)(Source::Component { entity, component }).contains(e)
            && !after.entities.contains_key(e)
}

/// Despawning takes along exactly what is tied to what dies: the entity itself dies; so does whatever
/// is tied to something that dies; and nothing else. Those that stay keep everything but the effects
/// that died, and nobody who died is subscribed to anything.
pub proof fn law_despawning_takes_exactly_what_is_tied<V, B>(
    world: &mut World<V, B>,
    root: Entity,
    alive: bool,
)
    requires
        call_ensures(World::<V, B>::despawn, (world, root), alive),
        (*old(world))@.wf(),
    ensures
        ({
            let before = (*old(world))@;
            let after = (*final(world))@;
            &&& alive == before.entities.contains_key(root)
            &&& !after.entities.contains_key(root)
            &&& forall|e: Entity| #[trigger]
                after.entities.contains_key(e) ==> before.entities.contains_key(e)
            &&& forall|e: Entity|
                before.entities.contains_key(e) && e != root ==> (#[trigger] after.entities.contains_key(
                    e,
                ) <==> match before.entities[e].effect_of {
                    Some(target) => after.entities.contains_key(target),
                    None => true,
                })
            &&& forall|e: Entity|
                after.entities.contains_key(e) ==> {
                    &&& (#[trigger] after.entities[e]).components == before.entities[e].components
                    &&& after.entities[e].effect == before.entities[e].effect
                    &&& after.entities[e].dependencies == before.entities[e].dependencies
                    &&& after.entities[e].index == before.entities[e].index
                    &&& after.entities[e].effect_of == before.entities[e].effect_of
                    &&& after.entities[e].stamps.born == before.entities[e].stamps.born
                    &&& after.entities[e].stamps.recorded == before.entities[e].stamps.recorded
                    &&& after.entities[e].stamps.tied == if loses_an_effect(before, after, e) {
                        before.tick
                    } else {
                        before.entities[e].stamps.tied
                    }
                }
            &&& forall|x: Entity| #[trigger]
                after.noticed.contains_key(x) <==> before.noticed.contains_key(x) && (
                before.entities.contains_key(x) ==> after.entities.contains_key(x))
            &&& forall|x: Entity|
                after.noticed.contains_key(x) ==> #[trigger] after.noticed[x]
                    == if loses_a_subscriber(before, after, x) {
                    before.tick
                } else {
                    before.noticed[x]
                }
            &&& forall|e: Entity|
                after.entities.contains_key(e) ==> (#[trigger] after.entities[e]).effects
                    == match before.entities[e].effects {
                    Some(list) => if those_in(after, list).len() == 0 {
                        None
                    } else {
                        Some(those_in(after, list))
                    },
                    None => None,
                }
            &&& forall|s: Source| #[trigger]
                (after.subscribers)(s) == those_in(after, (before.subscribers)(s))
            &&& after.resources == before.resources
            &&& after.dirty == before.dirty
            &&& after.tick == before.tick
            &&& after.next == before.next
        }),
{
    let before = (*old(world))@;
    let after = (*final(world))@;
    let tree = before.tree(root);
    lemma_despawned_wf(before, root);
    if before.entities.contains_key(root) {
        assert(before.under(root, root));
    }
    assert forall|e: Entity| #[trigger]
        after.entities.contains_key(e) <==> before.entities.contains_key(e) && !before.under(root, e) by {}
    assert forall|e: Entity| before.entities.contains_key(e) && e != root implies (
    #[trigger] after.entities.contains_key(e) <==> match before.entities[e].effect_of {
        Some(target) => after.entities.contains_key(target),
        None => true,
    }) by {
        assert(before.alive(e));
        assert(before.tied_wf(e));
    }
    assert forall|e: Entity| after.entities.contains_key(e) implies before.bereaved(tree, e)
        == #[trigger] loses_an_effect(before, after, e) by {
        if before.bereaved(tree, e) {
            let x = choose|x: Entity| #[trigger]
                tree.contains(x) && before.alive(x) && before.entities[x].effect_of == Some(e);
            assert(before.entities.contains_key(x) && !after.entities.contains_key(x));
        }
        if loses_an_effect(before, after, e) {
            let x = choose|x: Entity| #[trigger]
                before.entities.contains_key(x) && !after.entities.contains_key(x)
                    && before.entities[x].effect_of == Some(e);
            assert(tree.contains(x) && before.alive(x));
        }
    }
    assert forall|x: Entity| before.deserted(tree, x) == #[trigger] loses_a_subscriber(
        before,
        after,
        x,
    ) by {
        if before.deserted(tree, x) {
            let e = choose|e: Entity| #[trigger]
                tree.contains(e) && hosts(before.tracked_by(e), x);
            let component = choose|component: ComponentId| #[trigger]
                before.tracked_by(e).contains(Source::Component { entity: x, component });
            let s = Source::Component { entity: x, component };
            assert(before.tracks(e, s));
            assert(before.subscribers_of(s).contains(e));
            assert((before.subscribers)(s).contains(e) && !after.entities.contains_key(e));
        }
        if loses_a_subscriber(before, after, x) {
            let (e, component) = choose|e: Entity, component: ComponentId| #[trigger]
                (before.subscribers)(Source::Component { entity: x, component }).contains(e)
                    && !after.entities.contains_key(e);
            let s = Source::Component { entity: x, component };
            assert(before.subscribers_of(s).contains(e));
            assert(before.tracks(e, s));
            assert(tree.contains(e));
            assert(hosts(before.tracked_by(e), x));
        }
    }
    let alive_after = |e: Entity| after.entities.contains_key(e);
    assert forall|e: Entity| after.entities.contains_key(e) implies (
    #[trigger] after.entities[e]).effects == match before.entities[e].effects {
        Some(list) => if those_in(after, list).len() == 0 {
            None
        } else {
            Some(those_in(after, list))
        },
        None => None,
    } by {
        assert(before.alive(e));
        assert(before.tying_wf(e));
        if let Some(list) = before.entities[e].effects {
            assert forall|x: Entity| #[trigger] list.contains(x) implies outside(tree)(x) == alive_after(
                x,
            ) by {
                assert(before.alive(x));
            }
            lemma_same_filter(list, outside(tree), alive_after);
        }
    }
    assert forall|s: Source| #[trigger]
        (after.subscribers)(s) == those_in(after, (before.subscribers)(s)) by {
        let list = before.subscribers_of(s);
        assert forall|x: Entity| #[trigger] list.contains(x) implies outside(tree)(x) == alive_after(x) by {
            assert(before.tracks(x, s));
            assert(before.alive(x));
        }
        lemma_same_filter(list, outside(tree), alive_after);
    }
}

/// Removing the record of an effect takes it off every list that it is on, takes nobody else off, and
/// leaves the rest as it was.
pub proof fn law_without_a_record_nothing_is_subscribed<V, B>(
    world: &mut World<V, B>,
    effect: Entity,
    removed: bool,
)
    requires
        call_ensures(World::<V, B>::remove_dependencies, (world, effect), removed),
        (*old(world))@.wf(),
    ensures
        ({
            let before = (*old(world))@;
            let after = (*final(world))@;
            &&& removed == (before.entities.contains_key(effect)
                && before.entities[effect].dependencies is Some)
            &&& after.entities.contains_key(effect) ==> after.entities[effect].dependencies is None
            &&& forall|s: Source, e: Entity| #[trigger]
                (after.subscribers)(s).contains(e) <==> (before.subscribers)(s).contains(e) && e
                    != effect
            &&& forall|e: Entity| #[trigger]
                after.entities.contains_key(e) == before.entities.contains_key(e)
            &&& forall|e: Entity|
                before.entities.contains_key(e) ==> {
                    &&& (#[trigger] after.entities[e]).components == before.entities[e].components
                    &&& after.entities[e].effect == before.entities[e].effect
                    &&& after.entities[e].index == before.entities[e].index
                    &&& after.entities[e].effect_of == before.entities[e].effect_of
                    &&& after.entities[e].effects == before.entities[e].effects
                    &&& after.entities[e].stamps == before.entities[e].stamps
                    &&& e != effect ==> after.entities[e].dependencies
                        == before.entities[e].dependencies
                }
            &&& forall|x: Entity| #[trigger]
                after.noticed.contains_key(x) == before.noticed.contains_key(x)
            &&& forall|x: Entity|
                before.noticed.contains_key(x) ==> #[trigger] after.noticed[x]
                    == if listens_to_more(after, effect, before, x) {
                    before.tick
                } else {
                    before.noticed[x]
                }
            &&& after.next == before.next
            &&& after.resources == before.resources
            &&& after.dirty == before.dirty
            &&& after.tick == before.tick
        }),
{
    let before = (*old(world))@;
    let after = (*final(world))@;
    assert forall|s: Source, e: Entity| #[trigger]
        (after.subscribers)(s).contains(e) <==> (before.subscribers)(s).contains(e) && e != effect by {
        lemma_without(before.subscribers_of(s), effect);
    }
    assert forall|x: Entity| hosts(before.tracked_by(effect), x) == #[trigger] listens_to_more(
        after,
        effect,
        before,
        x,
    ) by {
        if hosts(before.tracked_by(effect), x) {
            let component = choose|component: ComponentId| #[trigger]
                before.tracked_by(effect).contains(Source::Component { entity: x, component });
            let s = Source::Component { entity: x, component };
            assert(before.tracks(effect, s));
            assert(before.subscribers_of(s).contains(effect));
            assert((before.subscribers)(s).contains(effect) && !(after.subscribers)(s).contains(effect));
        }
        if listens_to_more(after, effect, before, x) {
            let component = choose|component: ComponentId|
                (#[trigger] (before.subscribers)(Source::Component { entity: x, component }).contains(
                    effect,
                )) && !(after.subscribers)(Source::Component { entity: x, component }).contains(effect);
            let s = Source::Component { entity: x, component };
            assert(before.subscribers_of(s).contains(effect));
            assert(before.tracks(effect, s));
        }
    }
}

} // verus!
