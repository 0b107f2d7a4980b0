//! What the operations of a world do to it, said of the calls themselves: of what is given to them,
//! what they give back, and what the world holds before and after.
use crate::component::{Bundle, ById, Component, Mut, Stored};
use crate::effect_laws::lemma_same_filter;
use crate::graph::{
    Dependencies, DirtyEffects, Effect, EffectIndex, EffectOf, Effects, ResourceSubscribers,
    Subscribers,
};
use crate::id::{
    contains_entity, contains_source, other_than, retain_others, ComponentId, Dependency, Entity,
    Source, DEPENDENCIES_ID, EFFECTS_ID, EFFECT_ID, EFFECT_INDEX_ID, EFFECT_OF_ID, FIRST_OWN_ID,
    SUBSCRIBERS_ID,
};
use crate::signal::{Signal, SignalValue};
use crate::state::WorldState;
use crate::tick::Tick;
use crate::world::World;
use vstd::prelude::*;
use vstd::std_specs::cmp::PartialEqSpec;

verus! {

/// How many ticks ago `tick` was at `now`, ticks starting over after the largest 32-bit number.
pub open spec fn ticks_ago(tick: Tick, now: Tick) -> int {
    if tick.0 <= now.0 {
        now.0 - tick.0
    } else {
        now.0 + 0x1_0000_0000 - tick.0
    }
}

/// Whether `a` happened after `b`, seen from `now`, and not so long ago that it cannot be told apart.
pub open spec fn later_than(a: Tick, b: Tick, now: Tick) -> bool {
    ticks_ago(a, now) < ticks_ago(b, now) && ticks_ago(a, now) < 3_258_167_296
}

/// The tick after `tick`.
pub open spec fn one_later(tick: Tick) -> Tick {
    if tick.0 == 0xffff_ffff {
        Tick(0)
    } else {
        Tick((tick.0 + 1) as u32)
    }
}

/// A tick is followed by the next number, and the largest by zero.
pub proof fn law_ticks_follow_each_other(tick: Tick, next: Tick)
    requires
        call_ensures(Tick::following, (tick,), next),
    ensures
        next == one_later(tick),
{
}

/// A tick is newer than another one exactly if fewer ticks have passed since, and not so many that it
/// is too old to tell.
pub proof fn law_newer_is_fewer_ticks_ago(a: Tick, b: Tick, now: Tick, newer: bool)
    requires
        call_ensures(Tick::is_newer_than, (a, b, now), newer),
    ensures
        newer == later_than(a, b, now),
{
}

/// Of two ticks at most one is newer, and none is newer than itself.
pub proof fn law_newer_goes_one_way(a: Tick, b: Tick, now: Tick, there: bool, back: bool)
    requires
        call_ensures(Tick::is_newer_than, (a, b, now), there),
        call_ensures(Tick::is_newer_than, (b, a, now), back),
    ensures
        !(there && back),
        a == b ==> !there,
{
}

/// What the two worlds hold apart from entities is the same.
pub open spec fn same_beside_entities<V, B>(a: WorldState<V, B>, b: WorldState<V, B>) -> bool {
    &&& a.tick == b.tick
    &&& a.elapsed == b.elapsed
    &&& a.resources == b.resources
    &&& a.subscribers == b.subscribers
    &&& a.dirty == b.dirty
    &&& a.pending == b.pending
}

/// The lists of every entity but `entity` last changed at the same time in the two worlds.
pub open spec fn same_notice_but<V, B>(a: WorldState<V, B>, b: WorldState<V, B>, entity: Entity) -> bool {
    &&& forall|x: Entity| #[trigger] b.noticed.contains_key(x) == a.noticed.contains_key(x)
    &&& forall|x: Entity|
        x != entity && a.noticed.contains_key(x) ==> #[trigger] b.noticed[x] == a.noticed[x]
}

/// The two worlds hold the same of every entity but `entity`.
pub open spec fn same_others<V, B>(a: WorldState<V, B>, b: WorldState<V, B>, entity: Entity) -> bool {
    &&& forall|e: Entity|
        e != entity ==> #[trigger] a.entities.contains_key(e) == b.entities.contains_key(e)
    &&& forall|e: Entity|
        e != entity && a.entities.contains_key(e) ==> #[trigger] a.entities[e] == b.entities[e]
}

/// The two worlds hold the same of `entity` but for its ordinary components.
pub open spec fn same_but_components<V, B>(
    a: WorldState<V, B>,
    b: WorldState<V, B>,
    entity: Entity,
) -> bool {
    &&& a.entities[entity].effect == b.entities[entity].effect
    &&& a.entities[entity].dependencies == b.entities[entity].dependencies
    &&& a.entities[entity].index == b.entities[entity].index
    &&& a.entities[entity].effect_of == b.entities[entity].effect_of
    &&& a.entities[entity].effects == b.entities[entity].effects
    &&& a.entities[entity].stamps == b.entities[entity].stamps
}

/// When a source last changed, if it exists: an ordinary component, a resource, or one of the
/// components that the library itself keeps.
pub open spec fn last_change<V, B>(w: WorldState<V, B>, source: Source) -> Option<Tick> {
    match source {
        Source::Component { entity, component } => if !w.entities.contains_key(entity) {
            None
        } else if w.entities[entity].components.contains_key(component) {
            Some(w.entities[entity].components[component].changed)
        } else if component == ComponentId(EFFECT_ID) && w.entities[entity].effect is Some {
            Some(w.entities[entity].stamps.born)
        } else if component == ComponentId(EFFECT_INDEX_ID) && w.entities[entity].index is Some {
            Some(w.entities[entity].stamps.born)
        } else if component == ComponentId(EFFECT_OF_ID) && w.entities[entity].effect_of is Some {
            Some(w.entities[entity].stamps.born)
        } else if component == ComponentId(EFFECTS_ID) && w.entities[entity].effects is Some {
            Some(w.entities[entity].stamps.tied)
        } else if component == ComponentId(DEPENDENCIES_ID) && w.entities[entity].dependencies is Some {
            Some(w.entities[entity].stamps.recorded)
        } else if component == ComponentId(SUBSCRIBERS_ID) && w.noticed.contains_key(entity) {
            Some(w.noticed[entity])
        } else {
            None
        },
        Source::Resource { resource } => if w.resources.contains_key(resource) {
            Some(w.resources[resource].changed)
        } else {
            None
        },
    }
}

/// What an effect has recorded of its last run: nothing if it keeps no record.
pub open spec fn record_of<V, B>(w: WorldState<V, B>, effect: Entity) -> Seq<Dependency> {
    if w.entities.contains_key(effect) && w.entities[effect].dependencies is Some {
        w.entities[effect].dependencies->0
    } else {
        Seq::empty()
    }
}

/// A new world holds nothing, nobody is subscribed to anything in it, and nothing is queued.
pub proof fn law_a_new_world_is_empty<V, B>(world: World<V, B>)
    requires
        call_ensures(World::<V, B>::new, (), world),
    ensures
        world@.tick == Tick(1),
        forall|e: Entity| !#[trigger] world@.entities.contains_key(e),
        forall|id: ComponentId| !#[trigger] world@.resources.contains_key(id),
        forall|s: Source| (#[trigger] (world@.subscribers)(s)).len() == 0,
        world@.dirty.queue.len() == 0,
        world@.dirty.next_index == 0,
        world@.dirty.last_poll == Tick(0),
        world@.next == 0,
        world@.pending.is_empty(),
{
}

/// Advancing the tick does that, and nothing else.
pub proof fn law_advancing_the_tick_does_nothing_else<V, B>(world: &mut World<V, B>)
    requires
        call_ensures(World::<V, B>::increment_change_tick, (world,), ()),
    ensures
        (*final(world))@.tick == one_later((*old(world))@.tick),
        (*final(world))@.elapsed == (*old(world))@.elapsed + 1,
        (*final(world))@.entities == (*old(world))@.entities,
        (*final(world))@.resources == (*old(world))@.resources,
        (*final(world))@.subscribers == (*old(world))@.subscribers,
        (*final(world))@.noticed == (*old(world))@.noticed,
        (*final(world))@.dirty == (*old(world))@.dirty,
        (*final(world))@.next == (*old(world))@.next,
{
}

/// What is spawned was not there before, alive or dead, is there afterwards with nothing on it, and
/// leaves everything else as it was.
pub proof fn law_a_spawned_entity_is_new_and_empty<V, B>(world: &mut World<V, B>, entity: Entity)
    requires
        call_ensures(World::<V, B>::spawn_empty, (world,), entity),
        (*old(world))@.wf(),
        (*old(world))@.next < u64::MAX,
    ensures
        entity.0 == (*old(world))@.next,
        (*final(world))@.next == (*old(world))@.next + 1,
        !(*old(world))@.entities.contains_key(entity),
        (*final(world))@.entities.contains_key(entity),
        forall|id: ComponentId| !#[trigger]
            (*final(world))@.entities[entity].components.contains_key(id),
        (*final(world))@.entities[entity].effect is None,
        (*final(world))@.entities[entity].dependencies is None,
        (*final(world))@.entities[entity].index is None,
        (*final(world))@.entities[entity].effect_of is None,
        (*final(world))@.entities[entity].effects is None,
        same_others((*old(world))@, (*final(world))@, entity),
        same_notice_but((*old(world))@, (*final(world))@, entity),
        (*old(world))@.noticed.contains_key(entity) ==> (*final(world))@.noticed[entity]
            == (*old(world))@.tick,
        same_beside_entities((*old(world))@, (*final(world))@),
{
    let before = (*old(world))@;
    assert(!before.alive(entity)) by {
        assert(before.ids_wf());
    }
}

/// An entity that is spawned with a component holds that component alone, as of now.
pub proof fn law_a_spawned_component_is_there<V, B, C: Component<V>>(
    world: &mut World<V, B>,
    component: C,
    entity: Entity,
)
    requires
        call_ensures(World::<V, B>::spawn::<C>, (world, component), entity),
        (*old(world))@.wf(),
        (*old(world))@.next < u64::MAX,
    ensures
        entity.0 == (*old(world))@.next,
        !(*old(world))@.entities.contains_key(entity),
        (*final(world))@.entities.contains_key(entity),
        forall|id: ComponentId| #[trigger]
            (*final(world))@.entities[entity].components.contains_key(id) <==> id == C::id(),
        (*final(world))@.entities[entity].components[C::id()].changed == (*old(world))@.tick,
        C::held((*final(world))@.entities[entity].components[C::id()].value) == Some(component),
        (*final(world))@.entities[entity].effect is None,
        (*final(world))@.entities[entity].dependencies is None,
        same_others((*old(world))@, (*final(world))@, entity),
        same_notice_but((*old(world))@, (*final(world))@, entity),
        (*old(world))@.noticed.contains_key(entity) ==> (*final(world))@.noticed[entity]
            == (*old(world))@.tick,
        same_beside_entities((*old(world))@, (*final(world))@),
{
    let before = (*old(world))@;
    assert(!before.alive(entity)) by {
        assert(before.ids_wf());
    }
}

/// Whether the world tells that an entity is alive is whether it holds it.
pub proof fn law_alive_is_being_there<V, B>(world: &World<V, B>, entity: Entity, alive: bool)
    requires
        call_ensures(World::<V, B>::contains, (world, entity), alive),
    ensures
        alive == world@.entities.contains_key(entity),
{
}

/// What is inserted is there afterwards, and counts as changed now, whatever was there before. Nothing
/// else changes, and nothing at all if the entity is not alive.
pub proof fn law_an_inserted_component_is_there_and_new<V, B, C: Component<V>>(
    world: &mut World<V, B>,
    entity: Entity,
    component: C,
    alive: bool,
)
    requires
        call_ensures(World::<V, B>::insert::<C>, (world, entity, component), alive),
    ensures
        alive == (*old(world))@.entities.contains_key(entity),
        !alive ==> (*final(world))@ == (*old(world))@,
        alive ==> {
            &&& (*final(world))@.entities.contains_key(entity)
            &&& (*final(world))@.entities[entity].components.contains_key(C::id())
            &&& C::held((*final(world))@.entities[entity].components[C::id()].value) == Some(component)
            &&& (*final(world))@.entities[entity].components[C::id()].changed == (*old(world))@.tick
            &&& forall|id: ComponentId|
                id != C::id() ==> #[trigger] (*final(world))@.entities[entity].components.contains_key(
                    id,
                ) == (*old(world))@.entities[entity].components.contains_key(id)
            &&& forall|id: ComponentId|
                id != C::id() && (*old(world))@.entities[entity].components.contains_key(id)
                    ==> #[trigger] (*final(world))@.entities[entity].components[id]
                    == (*old(world))@.entities[entity].components[id]
            &&& same_but_components((*old(world))@, (*final(world))@, entity)
            &&& same_others((*old(world))@, (*final(world))@, entity)
            &&& (*final(world))@.noticed == (*old(world))@.noticed
            &&& same_beside_entities((*old(world))@, (*final(world))@)
            &&& (*final(world))@.next == (*old(world))@.next
        },
{
}

/// What is inserted is what is read.
pub proof fn law_what_is_inserted_is_read<V, B, C: Component<V>>(
    world: &mut World<V, B>,
    entity: Entity,
    component: C,
    then: &World<V, B>,
    read: Option<&C>,
    changed: Option<Tick>,
)
    requires
        call_ensures(World::<V, B>::insert::<C>, (world, entity, component), true),
        *then == *final(world),
        call_ensures(World::<V, B>::get::<C>, (then, entity), read),
        call_ensures(World::<V, B>::component_changed, (then, entity, C::id()), changed),
    ensures
        read == Some(&component),
        changed == Some((*old(world))@.tick),
{
}

/// A bundle is written whole: each of its components is there afterwards and counts as changed now,
/// and nothing else changes.
pub proof fn law_a_bundle_is_written_whole<V, B>(
    world: &mut World<V, B>,
    entity: Entity,
    bundle: Bundle<V>,
    alive: bool,
)
    requires
        call_ensures(World::<V, B>::insert_bundle, (world, entity, bundle), alive),
    ensures
        alive == (*old(world))@.entities.contains_key(entity),
        !alive ==> (*final(world))@ == (*old(world))@,
        alive ==> {
            &&& (*final(world))@.entities.contains_key(entity)
            &&& forall|id: ComponentId|
                bundle@.contains_key(id) ==> {
                    &&& #[trigger] (*final(world))@.entities[entity].components.contains_key(id)
                    &&& (*final(world))@.entities[entity].components[id].value == bundle@[id]
                    &&& (*final(world))@.entities[entity].components[id].changed == (*old(world))@.tick
                }
            &&& forall|id: ComponentId|
                !bundle@.contains_key(id) ==> #[trigger] (*final(world))@.entities[entity].components.contains_key(
                    id,
                ) == (*old(world))@.entities[entity].components.contains_key(id)
            &&& forall|id: ComponentId|
                !bundle@.contains_key(id) && (*old(world))@.entities[entity].components.contains_key(id)
                    ==> #[trigger] (*final(world))@.entities[entity].components[id]
                    == (*old(world))@.entities[entity].components[id]
            &&& same_but_components((*old(world))@, (*final(world))@, entity)
            &&& same_others((*old(world))@, (*final(world))@, entity)
            &&& (*final(world))@.noticed == (*old(world))@.noticed
            &&& same_beside_entities((*old(world))@, (*final(world))@)
        },
{
}

/// What is read of an entity is what it holds.
pub proof fn law_what_is_read_is_what_is_held<V, B, C: Component<V>>(
    world: &World<V, B>,
    entity: Entity,
    component: Option<&C>,
)
    requires
        call_ensures(World::<V, B>::get::<C>, (world, entity), component),
    ensures
        match component {
            Some(c) => {
                &&& world@.entities.contains_key(entity)
                &&& world@.entities[entity].components.contains_key(C::id())
                &&& C::held(world@.entities[entity].components[C::id()].value) == Some(*c)
            },
            None => world@.entities.contains_key(entity)
                && world@.entities[entity].components.contains_key(C::id()) ==> C::held(
                world@.entities[entity].components[C::id()].value,
            ) is None,
        },
{
}

/// A guard stands for the component itself: what it holds in the end is what the entity holds, its
/// tick is the component's, and nothing else changes.
pub proof fn law_a_guard_stands_for_the_component<V, B, C: Component<V>>(
    world: &mut World<V, B>,
    entity: Entity,
    guard: Mut<'_, C>,
)
    requires
        call_ensures(World::<V, B>::get_mut::<C>, (world, entity), Some(guard)),
    ensures
        (*old(world))@.entities.contains_key(entity),
        (*old(world))@.entities[entity].components.contains_key(C::id()),
        C::held((*old(world))@.entities[entity].components[C::id()].value) == Some(*old(guard.value)),
        *old(guard.changed) == (*old(world))@.entities[entity].components[C::id()].changed,
        guard.this_run == (*old(world))@.tick,
        (*final(world))@.entities.contains_key(entity),
        C::held((*final(world))@.entities[entity].components[C::id()].value) == Some(
            *final(guard.value),
        ),
        (*final(world))@.entities[entity].components[C::id()].changed == *final(guard.changed),
        forall|id: ComponentId| #[trigger]
            (*final(world))@.entities[entity].components.contains_key(id)
                == (*old(world))@.entities[entity].components.contains_key(id),
        forall|id: ComponentId|
            id != C::id() && (*old(world))@.entities[entity].components.contains_key(id)
                ==> #[trigger] (*final(world))@.entities[entity].components[id]
                == (*old(world))@.entities[entity].components[id],
        same_but_components((*old(world))@, (*final(world))@, entity),
        same_others((*old(world))@, (*final(world))@, entity),
        (*final(world))@.noticed == (*old(world))@.noticed,
        same_beside_entities((*old(world))@, (*final(world))@),
{
}

/// There is no guard exactly where there is nothing to read, and then nothing changes.
pub proof fn law_no_guard_for_what_is_not_there<V, B, C: Component<V>>(
    world: &mut World<V, B>,
    entity: Entity,
)
    requires
        call_ensures(World::<V, B>::get_mut::<C>, (world, entity), None),
    ensures
        (*final(world))@ == (*old(world))@,
        (*old(world))@.entities.contains_key(entity)
            && (*old(world))@.entities[entity].components.contains_key(C::id()) ==> C::held(
            (*old(world))@.entities[entity].components[C::id()].value,
        ) is None,
{
}

/// What is written through a guard counts as changed now.
pub proof fn law_a_written_guard_counts_as_changed<T>(guard: Mut<'_, T>, value: T)
    requires
        call_ensures(Mut::<'_, T>::set, (guard, value), ()),
    ensures
        *final(guard.value) == value,
        *final(guard.changed) == guard.this_run,
{
}

/// What is read through a guard is the value, and asking for it to write counts as a change; what is
/// done with it then is what is left of the value.
pub proof fn law_a_guard_counts_as_changed_once_written<T>(
    guard: &mut Mut<'_, T>,
    value: &mut T,
    seen: &Mut<'_, T>,
    read: &T,
)
    requires
        call_ensures(Mut::<'_, T>::get_mut, (guard,), value),
        call_ensures(Mut::<'_, T>::get, (seen,), read),
    ensures
        *old(value) == *old((*old(guard)).value),
        *(*final(guard)).value == *final(value),
        *(*final(guard)).changed == (*old(guard)).this_run,
        (*final(guard)).this_run == (*old(guard)).this_run,
        *read == *old(seen.value),
{
}

/// A collection of items by their type gives back what is stored under a type, and nothing under a
/// type that nothing was stored under.
pub proof fn law_items_are_found_by_their_type<X>(
    items: &mut ById<X>,
    id: ComponentId,
    item: X,
    then: &ById<X>,
    other: ComponentId,
    found: Option<&X>,
    new: ById<X>,
)
    requires
        call_ensures(ById::<X>::insert, (items, id, item), ()),
        *then == *final(items),
        call_ensures(ById::<X>::get, (then, other), found),
        call_ensures(ById::<X>::new, (), new),
    ensures
        other == id ==> found == Some(&item),
        other != id ==> found is Some == (*old(items))@.contains_key(other),
        other != id && found is Some ==> *(found->0) == (*old(items))@[other],
        forall|i: ComponentId| #[trigger]
            (*final(items))@.contains_key(i) <==> (*old(items))@.contains_key(i) || i == id,
        forall|i: ComponentId| !#[trigger] new@.contains_key(i),
{
}

/// An item that is handed out stands for what is stored under its type.
pub proof fn law_an_item_handed_out_stands_for_what_is_stored<X>(
    items: &mut ById<X>,
    id: ComponentId,
    item: Option<&mut X>,
)
    requires
        call_ensures(ById::<X>::get_mut, (items, id), item),
    ensures
        item is Some == (*old(items))@.contains_key(id),
        item is None ==> (*final(items))@ == (*old(items))@,
        item is Some ==> {
            &&& *old(item->0) == (*old(items))@[id]
            &&& (*final(items))@.contains_key(id)
            &&& (*final(items))@[id] == *final(item->0)
            &&& forall|i: ComponentId|
                i != id ==> #[trigger] (*final(items))@.contains_key(i) == (*old(items))@.contains_key(
                    i,
                )
            &&& forall|i: ComponentId|
                i != id && (*old(items))@.contains_key(i) ==> #[trigger] (*final(items))@[i] == (*old(
                    items,
                ))@[i]
        },
{
}

/// An inserted resource is there afterwards, and counts as changed now. Nothing else changes.
pub proof fn law_an_inserted_resource_is_there_and_new<V, B, R: Component<V>>(
    world: &mut World<V, B>,
    resource: R,
    then: &World<V, B>,
    read: Option<&R>,
    changed: Option<Tick>,
)
    requires
        call_ensures(World::<V, B>::insert_resource::<R>, (world, resource), ()),
        *then == *final(world),
        call_ensures(World::<V, B>::get_resource::<R>, (then,), read),
        call_ensures(World::<V, B>::resource_changed, (then, R::id()), changed),
    ensures
        read == Some(&resource),
        changed == Some((*old(world))@.tick),
        (*final(world))@.entities == (*old(world))@.entities,
        (*final(world))@.tick == (*old(world))@.tick,
        (*final(world))@.subscribers == (*old(world))@.subscribers,
        (*final(world))@.dirty == (*old(world))@.dirty,
        (*final(world))@.next == (*old(world))@.next,
        forall|id: ComponentId|
            id != R::id() ==> #[trigger] (*final(world))@.resources.contains_key(id)
                == (*old(world))@.resources.contains_key(id),
        forall|id: ComponentId|
            id != R::id() && (*old(world))@.resources.contains_key(id)
                ==> #[trigger] (*final(world))@.resources[id] == (*old(world))@.resources[id],
{
}

/// What is read of a resource is what the world holds.
pub proof fn law_what_is_read_of_a_resource_is_held<V, B, R: Component<V>>(
    world: &World<V, B>,
    resource: Option<&R>,
)
    requires
        call_ensures(World::<V, B>::get_resource::<R>, (world,), resource),
    ensures
        match resource {
            Some(r) => world@.resources.contains_key(R::id()) && R::held(
                world@.resources[R::id()].value,
            ) == Some(*r),
            None => world@.resources.contains_key(R::id()) ==> R::held(
                world@.resources[R::id()].value,
            ) is None,
        },
{
}

/// A guard stands for the resource itself.
pub proof fn law_a_guard_stands_for_the_resource<V, B, R: Component<V>>(
    world: &mut World<V, B>,
    guard: Mut<'_, R>,
)
    requires
        call_ensures(World::<V, B>::get_resource_mut::<R>, (world,), Some(guard)),
    ensures
        (*old(world))@.resources.contains_key(R::id()),
        R::held((*old(world))@.resources[R::id()].value) == Some(*old(guard.value)),
        *old(guard.changed) == (*old(world))@.resources[R::id()].changed,
        guard.this_run == (*old(world))@.tick,
        R::held((*final(world))@.resources[R::id()].value) == Some(*final(guard.value)),
        (*final(world))@.resources[R::id()].changed == *final(guard.changed),
        (*final(world))@.entities == (*old(world))@.entities,
        (*final(world))@.subscribers == (*old(world))@.subscribers,
        (*final(world))@.dirty == (*old(world))@.dirty,
        (*final(world))@.tick == (*old(world))@.tick,
{
}

/// When a component or a resource last changed is what the world says of it.
pub proof fn law_the_world_tells_when_a_source_changed<V, B>(
    world: &World<V, B>,
    entity: Entity,
    component: ComponentId,
    tick: Option<Tick>,
    resource: ComponentId,
    resource_tick: Option<Tick>,
)
    requires
        call_ensures(World::<V, B>::component_changed, (world, entity, component), tick),
        call_ensures(World::<V, B>::resource_changed, (world, resource), resource_tick),
    ensures
        tick == last_change(world@, Source::Component { entity, component }),
        resource_tick == last_change(world@, Source::Resource { resource }),
{
    lemma_last_change(world@, Source::Component { entity, component });
    lemma_last_change(world@, Source::Resource { resource });
}

/// The model's notion of the last change of a source is this one.
pub proof fn lemma_last_change<V, B>(w: WorldState<V, B>, source: Source)
    ensures
        w.changed_tick(source) == last_change(w, source),
{
    if let Source::Component { entity, component } = source {
        assert(component == ComponentId(component.0));
    }
}

/// What the world tells of an effect is what it holds of it.
pub proof fn law_the_world_tells_what_an_effect_is<V, B>(
    world: &World<V, B>,
    entity: Entity,
    effect: Option<Effect<B>>,
    index: Option<EffectIndex>,
    target: Option<EffectOf>,
)
    requires
        call_ensures(World::<V, B>::effect, (world, entity), effect),
        call_ensures(World::<V, B>::effect_index, (world, entity), index),
        call_ensures(World::<V, B>::effect_of, (world, entity), target),
    ensures
        !world@.entities.contains_key(entity) ==> effect is None && index is None && target is None,
        world@.entities.contains_key(entity) ==> {
            &&& effect is Some == world@.entities[entity].effect is Some
            &&& effect is Some ==> world@.entities[entity].effect == Some(*(effect->0).0)
            &&& index == world@.entities[entity].index
            &&& target is Some == world@.entities[entity].effect_of is Some
            &&& target is Some ==> world@.entities[entity].effect_of == Some((target->0).0)
        },
{
}

/// What the world tells of the edges and ties of an entity is what it holds of them.
pub proof fn law_the_world_tells_edges_and_ties<V, B>(
    world: &World<V, B>,
    entity: Entity,
    dependencies: Option<&Dependencies>,
    effects: Option<&Effects>,
    subscribers: Option<&Subscribers>,
)
    requires
        call_ensures(World::<V, B>::dependencies, (world, entity), dependencies),
        call_ensures(World::<V, B>::effects, (world, entity), effects),
        call_ensures(World::<V, B>::subscribers, (world, entity), subscribers),
    ensures
        !world@.entities.contains_key(entity) ==> dependencies is None && effects is None
            && subscribers is None,
        world@.entities.contains_key(entity) ==> {
            &&& dependencies is Some == world@.entities[entity].dependencies is Some
            &&& dependencies is Some ==> (dependencies->0)@ == world@.entities[entity].dependencies->0
            &&& effects is Some == world@.entities[entity].effects is Some
            &&& effects is Some ==> (effects->0)@ == world@.entities[entity].effects->0
        },
        subscribers is Some ==> forall|component: ComponentId, list: &[Entity]| #[trigger]
            call_ensures(Subscribers::get, (subscribers->0, component), list) ==> list@ == (
            world@.subscribers)(Source::Component { entity, component }),
{
    if let Some(s) = subscribers {
        assert forall|component: ComponentId, list: &[Entity]| #[trigger]
            call_ensures(Subscribers::get, (s, component), list) implies list@ == (world@.subscribers)(
            Source::Component { entity, component },
        ) by {
            assert(crate::graph::list_at(s@, component) == world@.subscribers_of(
                Source::Component { entity, component },
            ));
        }
    }
}

/// What the world tells of the subscribers of resources is what it holds of them.
pub proof fn law_the_world_tells_who_listens_to_resources<V, B>(
    world: &World<V, B>,
    subscribers: &ResourceSubscribers,
    resource: ComponentId,
    list: &[Entity],
)
    requires
        call_ensures(World::<V, B>::resource_subscribers, (world,), subscribers),
        call_ensures(ResourceSubscribers::get, (subscribers, resource), list),
    ensures
        list@ == (world@.subscribers)(Source::Resource { resource }),
{
    assert(crate::graph::list_at(subscribers@, resource) == world@.subscribers_of(
        Source::Resource { resource },
    ));
}

/// What the world tells of the queue is what it holds of it, and the current tick is its own.
pub proof fn law_the_world_tells_what_is_queued<V, B>(
    world: &World<V, B>,
    dirty: &DirtyEffects,
    empty: bool,
    polled: Tick,
    tick: Tick,
)
    requires
        call_ensures(World::<V, B>::dirty_effects, (world,), dirty),
        call_ensures(DirtyEffects::is_empty, (dirty,), empty),
        call_ensures(DirtyEffects::last_poll, (dirty,), polled),
        call_ensures(World::<V, B>::change_tick, (world,), tick),
    ensures
        empty == (world@.dirty.queue.len() == 0),
        polled == world@.dirty.last_poll,
        tick == world@.tick,
{
}

/// A record lists its dependencies in order, and a list of effects its effects.
pub proof fn law_records_and_lists_tell_what_they_hold(
    dependencies: &Dependencies,
    listed: Vec<Dependency>,
    effects: &Effects,
    count: usize,
    list: &[Entity],
)
    requires
        call_ensures(Dependencies::iter, (dependencies,), listed),
        call_ensures(Effects::len, (effects,), count),
        call_ensures(Effects::get, (effects,), list),
    ensures
        listed@ == dependencies@,
        count == effects@.len(),
        list@ == effects@,
{
}

/// A signal is a handle for an entity.
pub proof fn law_a_signal_stands_for_its_entity<T>(entity: Entity, signal: Signal<T>, back: Entity)
    requires
        call_ensures(Signal::<T>::from_entity, (entity,), signal),
        call_ensures(Signal::<T>::entity, (signal,), back),
    ensures
        back == entity,
        signal@ == entity,
{
}

/// The entity holds no subscribers exactly if nobody is subscribed to any of its components.
pub proof fn law_empty_lists_hold_nobody<V, B>(
    world: &World<V, B>,
    entity: Entity,
    held: Option<&Subscribers>,
    empty: bool,
)
    requires
        call_ensures(World::<V, B>::subscribers, (world, entity), held),
        held is Some,
        call_ensures(Subscribers::is_empty, (held->0,), empty),
    ensures
        empty <==> forall|component: ComponentId, e: Entity| !#[trigger]
            (world@.subscribers)(Source::Component { entity, component }).contains(e),
{
    let subscribers = held->0;
    if empty {
        assert forall|component: ComponentId, e: Entity| !#[trigger]
            (world@.subscribers)(Source::Component { entity, component }).contains(e) by {
            assert(crate::graph::list_at(subscribers@, component) == world@.subscribers_of(
                Source::Component { entity, component },
            ));
        }
    } else {
        let c = choose|c: ComponentId| #[trigger]
            crate::graph::list_at(subscribers@, c).len() != 0;
        let list = crate::graph::list_at(subscribers@, c);
        assert(list == world@.subscribers_of(Source::Component { entity, component: c }));
        assert((world@.subscribers)(Source::Component { entity, component: c }).contains(list[0]));
    }
}

/// Whether `after` is the queue `before` with `effect` on it: those that were queued keep their
/// places, the effect is queued, nobody else is, and nobody twice.
pub open spec fn queued_too(before: Seq<Entity>, effect: Entity, after: Seq<Entity>) -> bool {
    &&& before.len() <= after.len() <= before.len() + 1
    &&& forall|i: int| 0 <= i < before.len() ==> #[trigger] after[i] == before[i]
    &&& exists|i: int| 0 <= i < after.len() && #[trigger] after[i] == effect
    &&& forall|i: int|
        before.len() <= i < after.len() ==> #[trigger] after[i] == effect && !before.contains(effect)
}

/// Marking an effect dirty queues it, once, behind those that are queued already, and does nothing
/// else.
pub proof fn law_a_marked_effect_is_queued_once<V, B>(world: &mut World<V, B>, effect: Entity)
    requires
        call_ensures(World::<V, B>::mark_dirty, (world, effect), ()),
    ensures
        queued_too((*old(world))@.dirty.queue, effect, (*final(world))@.dirty.queue),
        (*final(world))@.dirty.last_poll == (*old(world))@.dirty.last_poll,
        (*final(world))@.dirty.next_index == (*old(world))@.dirty.next_index,
        (*final(world))@.entities == (*old(world))@.entities,
        (*final(world))@.resources == (*old(world))@.resources,
        (*final(world))@.subscribers == (*old(world))@.subscribers,
        (*final(world))@.tick == (*old(world))@.tick,
{
    let before = (*old(world))@.dirty.queue;
    let after = (*final(world))@.dirty.queue;
    if before.contains(effect) {
        let i = choose|i: int| 0 <= i < before.len() && before[i] == effect;
        assert(after[i] == effect);
    } else {
        assert(after[before.len() as int] == effect);
    }
}

/// The queue itself takes an effect in the same way, and tells whether it is empty.
pub proof fn law_the_queue_takes_each_effect_once(
    dirty: &mut DirtyEffects,
    effect: Entity,
    then: &DirtyEffects,
    empty: bool,
)
    requires
        call_ensures(DirtyEffects::push, (dirty, effect), ()),
        call_ensures(DirtyEffects::is_empty, (then,), empty),
    ensures
        queued_too((*old(dirty))@.queue, effect, (*final(dirty))@.queue),
        (*final(dirty))@.last_poll == (*old(dirty))@.last_poll,
        (*final(dirty))@.next_index == (*old(dirty))@.next_index,
        empty == (then@.queue.len() == 0),
{
    let before = (*old(dirty))@.queue;
    let after = (*final(dirty))@.queue;
    if before.contains(effect) {
        let i = choose|i: int| 0 <= i < before.len() && before[i] == effect;
        assert(after[i] == effect);
    } else {
        assert(after[before.len() as int] == effect);
    }
}

/// A signal is a new entity that holds its value, as of now, and the value is read back.
pub proof fn law_a_signal_holds_its_value<V, B, T>(
    world: &mut World<V, B>,
    value: T,
    signal: Signal<T>,
    then: &World<V, B>,
    read: Option<&T>,
) where SignalValue<T>: Component<V>
    requires
        call_ensures(World::<V, B>::spawn_signal::<T>, (world, value), signal),
        (*old(world))@.wf(),
        (*old(world))@.next < u64::MAX,
        *then == *final(world),
        call_ensures(World::<V, B>::signal::<T>, (then, signal), read),
    ensures
        read == Some(&value),
        signal@.0 == (*old(world))@.next,
        !(*old(world))@.entities.contains_key(signal@),
        last_change(
            (*final(world))@,
            Source::Component { entity: signal@, component: <SignalValue<T> as Component<V>>::id() },
        ) == Some((*old(world))@.tick),
        same_others((*old(world))@, (*final(world))@, signal@),
        same_beside_entities((*old(world))@, (*final(world))@),
{
    let before = (*old(world))@;
    assert(!before.alive(signal@)) by {
        assert(before.ids_wf());
    }
}

/// A signal's value is the one that its entity holds, and a guard stands for that.
pub proof fn law_a_guard_stands_for_the_signal<V, B, T>(
    world: &mut World<V, B>,
    signal: Signal<T>,
    guard: Mut<'_, T>,
    then: &World<V, B>,
    read: Option<&T>,
) where SignalValue<T>: Component<V>
    requires
        call_ensures(World::<V, B>::signal_mut::<T>, (world, signal), Some(guard)),
        *then == *final(world),
        call_ensures(World::<V, B>::signal::<T>, (then, signal), read),
    ensures
        (*old(world))@.entities.contains_key(signal@),
        <SignalValue<T> as Component<V>>::held(
            (*old(world))@.entities[signal@].components[<SignalValue<T> as Component<
                V,
            >>::id()].value,
        ) == Some(SignalValue(*old(guard.value))),
        guard.this_run == (*old(world))@.tick,
        last_change(
            (*old(world))@,
            Source::Component { entity: signal@, component: <SignalValue<T> as Component<V>>::id() },
        ) == Some(*old(guard.changed)),
        last_change(
            (*final(world))@,
            Source::Component { entity: signal@, component: <SignalValue<T> as Component<V>>::id() },
        ) == Some(*final(guard.changed)),
        read == Some(&*final(guard.value)),
        same_others((*old(world))@, (*final(world))@, signal@),
        same_beside_entities((*old(world))@, (*final(world))@),
{
}

/// The components that the library itself puts on entities go by numbers of their own.
pub proof fn law_own_components_are_told_apart<B>(
    effect: ComponentId,
    index: ComponentId,
    target: ComponentId,
    effects: ComponentId,
    dependencies: ComponentId,
    subscribers: ComponentId,
)
    requires
        call_ensures(Effect::<B>::component_id, (), effect),
        call_ensures(EffectIndex::component_id, (), index),
        call_ensures(EffectOf::component_id, (), target),
        call_ensures(Effects::component_id, (), effects),
        call_ensures(Dependencies::component_id, (), dependencies),
        call_ensures(Subscribers::component_id, (), subscribers),
    ensures
        seq![effect, index, target, effects, dependencies, subscribers].no_duplicates(),
        effect.0 >= FIRST_OWN_ID,
        index.0 >= FIRST_OWN_ID,
        target.0 >= FIRST_OWN_ID,
        effects.0 >= FIRST_OWN_ID,
        dependencies.0 >= FIRST_OWN_ID,
        subscribers.0 >= FIRST_OWN_ID,
{
}

/// What has just been made by default holds nothing, and its ticks are the first.
pub proof fn law_defaults_hold_nothing(
    tick: Tick,
    subscribers: Subscribers,
    resources: ResourceSubscribers,
    dependencies: Dependencies,
    dirty: DirtyEffects,
)
    requires
        call_ensures(<Tick as Default>::default, (), tick),
        call_ensures(<Subscribers as Default>::default, (), subscribers),
        call_ensures(<ResourceSubscribers as Default>::default, (), resources),
        call_ensures(<Dependencies as Default>::default, (), dependencies),
        call_ensures(<DirtyEffects as Default>::default, (), dirty),
    ensures
        tick.0 == 0,
        forall|c: ComponentId| !#[trigger] subscribers@.contains_key(c),
        forall|c: ComponentId| !#[trigger] resources@.contains_key(c),
        dependencies@.len() == 0,
        dirty@.queue.len() == 0,
        dirty@.last_poll.0 == 0,
        dirty@.next_index == 0,
{
}

/// An effect and a signal are copied whole, and signals are equal if they stand for one entity.
pub proof fn law_copies_are_the_same<B, T>(
    effect: &Effect<B>,
    again: Effect<B>,
    signal: &Signal<T>,
    copy: Signal<T>,
    other: &Signal<T>,
)
    requires
        call_ensures(<Effect<B> as Clone>::clone, (effect,), again),
        call_ensures(<Signal<T> as Clone>::clone, (signal,), copy),
    ensures
        again == *effect,
        copy == *signal,
        PartialEqSpec::eq_spec(signal, other) <==> signal@ == other@,
{
}

/// A world of signals of one type stores a value as it is.
pub proof fn law_a_world_of_signals_stores_values_as_they_are<T>(value: SignalValue<T>)
    ensures
        <SignalValue<T> as Component<SignalValue<T>>>::held(value) == Some(value),
        <SignalValue<T> as Component<SignalValue<T>>>::stored(value) == value,
{
}

/// A list is searched whole.
pub proof fn law_lists_are_searched_whole(
    sources: &Vec<Source>,
    source: Source,
    source_found: bool,
    entities: &Vec<Entity>,
    entity: Entity,
    entity_found: bool,
)
    requires
        call_ensures(contains_source, (sources, source), source_found),
        call_ensures(contains_entity, (entities, entity), entity_found),
    ensures
        source_found <==> exists|i: int| 0 <= i < sources@.len() && #[trigger] sources@[i] == source,
        entity_found <==> exists|i: int| 0 <= i < entities@.len() && #[trigger] entities@[i] == entity,
{
}

/// Removing an entity from a list keeps the others in their order.
pub proof fn law_others_are_retained(entities: &mut Vec<Entity>, entity: Entity)
    requires
        call_ensures(retain_others, (entities, entity), ()),
    ensures
        (*final(entities))@ == (*old(entities))@.filter(|e: Entity| e != entity),
{
    lemma_same_filter((*old(entities))@, other_than(entity), |e: Entity| e != entity);
}

/// Written components are there with the tick of the write, in place of those of their types, and
/// others stay.
pub proof fn law_a_write_stamps_every_component<V>(
    table: &mut ById<Stored<V>>,
    bundle: Bundle<V>,
    tick: Tick,
)
    requires
        call_ensures(ById::<Stored<V>>::write, (table, bundle, tick), ()),
    ensures
        forall|c: ComponentId| #[trigger]
            (*final(table))@.contains_key(c) <==> (*old(table))@.contains_key(c)
                || bundle@.contains_key(c),
        forall|c: ComponentId|
            (*final(table))@.contains_key(c) ==> #[trigger] (*final(table))@[c]
                == if bundle@.contains_key(c) {
                Stored { value: bundle@[c], changed: tick }
            } else {
                (*old(table))@[c]
            },
{
}

} // verus!
