//! What the kinds of sources read and resolve, said of the calls themselves: of what is recorded, of
//! what is given back, and of what becomes of names.
use crate::component::Component;
use crate::context::ContextState;
use crate::effect_laws::{lemma_tracks_too, tracks_too};
use crate::id::{ComponentId, Entity, Source};
use crate::signal::{Signal, SignalValue};
use crate::source::{On, OnResource, Own, ReactiveSource, ReactiveSources, SourceTypes};
use crate::template::{
    BoxedEffectRegistration, EntityTemplate, QueuedEffects, ScopedEntities, ScopedEntityIndex,
    TemplateContext, TemplateError, TemplateState,
};
use crate::tuples::resolves_next;
use crate::world::World;
use vstd::prelude::*;

verus! {

/// Whether `value` is what is read where there is `held`: a copy of it, or the default where
/// there is nothing.
pub open spec fn copied_or_default<T: Clone + Default>(held: Option<T>, value: T) -> bool {
    &&& held is Some ==> cloned(held->0, value)
    &&& held is None ==> call_ensures(T::default, (), value)
}

/// What `entity` holds of the component `C`.
pub open spec fn component_of<V, B, C: Component<V>>(context: ContextState<V, B>, entity: Entity) -> Option<
    C,
> {
    if context.world.entities.contains_key(entity)
        && context.world.entities[entity].components.contains_key(C::id()) {
        C::held(context.world.entities[entity].components[C::id()].value)
    } else {
        None
    }
}

/// Reading a signal records it, whether it is alive or not, and gives a copy of its value, or the
/// default.
pub proof fn law_reading_a_signal_records_it<V, B, T: Clone + Default>(
    signal: Signal<T>,
    before: ContextState<V, B>,
    value: T,
    after: ContextState<V, B>,
) where SignalValue<T>: Component<V>
    requires
        <Signal<T> as ReactiveSource<V, B>>::reads(&signal, (), before, value, after),
    ensures
        tracks_too(
            before,
            Source::Component { entity: signal@, component: <SignalValue<T> as Component<V>>::id() },
            after,
        ),
        copied_or_default(
            match component_of::<V, B, SignalValue<T>>(before, signal@) {
                Some(held) => Some(held.0),
                None => None,
            },
            value,
        ),
{
    lemma_tracks_too(
        before,
        Source::Component { entity: signal@, component: <SignalValue<T> as Component<V>>::id() },
    );
}

/// Reading a component of the effect's own entity records it, whether it is there or not, and
/// gives a copy of it, or the default. An effect that is attached to nothing reads the default,
/// and records nothing.
pub proof fn law_reading_an_own_component_records_it<V, B, C: Component<V> + Clone + Default>(
    own: Own<C>,
    before: ContextState<V, B>,
    value: C,
    after: ContextState<V, B>,
)
    requires
        <Own<C> as ReactiveSource<V, B>>::reads(&own, (), before, value, after),
    ensures
        match before.target {
            Some(target) => {
                &&& tracks_too(
                    before,
                    Source::Component { entity: target, component: C::id() },
                    after,
                )
                &&& copied_or_default(component_of::<V, B, C>(before, target), value)
            },
            None => after == before && call_ensures(C::default, (), value),
        },
{
    if let Some(target) = before.target {
        lemma_tracks_too(
            before,
            Source::Component { entity: target, component: C::id() },
        );
    }
}

/// Reading a component of another entity records it, whether it is there or not, and gives a
/// copy of it, or the default.
pub proof fn law_reading_a_component_elsewhere_records_it<V, B, C: Component<V> + Clone + Default>(
    on: On<C>,
    resolved: Entity,
    before: ContextState<V, B>,
    value: C,
    after: ContextState<V, B>,
)
    requires
        <On<C> as ReactiveSource<V, B>>::reads(&on, resolved, before, value, after),
    ensures
        tracks_too(
            before,
            Source::Component { entity: resolved, component: C::id() },
            after,
        ),
        copied_or_default(component_of::<V, B, C>(before, resolved), value),
{
    lemma_tracks_too(before, Source::Component { entity: resolved, component: C::id() });
}

/// Reading a resource records it, whether it is there or not, and gives a copy of it, or the
/// default.
pub proof fn law_reading_a_resource_records_it<V, B, R: Component<V> + Clone + Default>(
    source: OnResource<R>,
    before: ContextState<V, B>,
    value: R,
    after: ContextState<V, B>,
)
    requires
        <OnResource<R> as ReactiveSource<V, B>>::reads(&source, (), before, value, after),
    ensures
        tracks_too(
            before,
            Source::Resource { resource: R::id() },
            after,
        ),
        copied_or_default(
            if before.world.resources.contains_key(R::id()) {
                R::held(before.world.resources[R::id()].value)
            } else {
                None
            },
            value,
        ),
{
    lemma_tracks_too(before, Source::Resource { resource: R::id() });
}

/// Signals, own components and resources need nothing while a scene is built: resolving them
/// succeeds, and changes nothing.
pub proof fn law_most_sources_resolve_to_nothing<
    V,
    B,
    T: Clone + Default,
    C: Component<V> + Clone + Default,
>(
    signal: Signal<T>,
    own: Own<C>,
    resource: OnResource<C>,
    before: TemplateState<V, B>,
    resolved: Result<(), TemplateError>,
    after: TemplateState<V, B>,
) where SignalValue<T>: Component<V>
    requires
        ({
            ||| <Signal<T> as ReactiveSource<V, B>>::resolves(&signal, before, resolved, after)
            ||| <Own<C> as ReactiveSource<V, B>>::resolves(&own, before, resolved, after)
            ||| <OnResource<C> as ReactiveSource<V, B>>::resolves(&resource, before, resolved, after)
        }),
    ensures
        resolved is Ok,
        after == before,
{
}

/// Whether `entity` is what a description stands for, and `after` the context once it is needed: a
/// known entity is itself; a name that was needed before stands for the same entity as then; and a
/// name that was not stands for a new, empty entity from then on.
pub open spec fn stands_for<V, B>(
    described: EntityTemplate,
    before: TemplateState<V, B>,
    entity: Entity,
    after: TemplateState<V, B>,
) -> bool {
    &&& after.entity == before.entity
    &&& after.effects == before.effects
    &&& match described {
        EntityTemplate::Entity(known) => entity == known && after == before,
        EntityTemplate::Scoped(index) => {
            &&& after.scoped.contains_key(index.0)
            &&& after.scoped[index.0] == entity
            &&& forall|i: u64|
                i != index.0 ==> #[trigger] after.scoped.contains_key(i)
                    == before.scoped.contains_key(i)
            &&& forall|i: u64|
                before.scoped.contains_key(i) ==> #[trigger] after.scoped[i] == before.scoped[i]
            &&& before.scoped.contains_key(index.0) ==> after.world == before.world
            &&& !before.scoped.contains_key(index.0) ==> {
                &&& entity.0 == before.world.next
                &&& after.world.next == before.world.next + 1
                &&& after.world.entities.contains_key(entity)
                &&& forall|id: ComponentId| !#[trigger]
                    after.world.entities[entity].components.contains_key(id)
                &&& forall|e: Entity|
                    e != entity ==> #[trigger] after.world.entities.contains_key(e)
                        == before.world.entities.contains_key(e)
                &&& forall|e: Entity|
                    e != entity && before.world.entities.contains_key(e)
                        ==> #[trigger] after.world.entities[e] == before.world.entities[e]
                &&& after.world.resources == before.world.resources
                &&& after.world.subscribers == before.world.subscribers
                &&& after.world.dirty == before.world.dirty
                &&& after.world.tick == before.world.tick
            }
        },
    }
}

/// A description resolves to the entity that it stands for.
pub proof fn law_a_description_stands_for_one_entity<V, B>(
    described: &EntityTemplate,
    context: &mut TemplateContext<'_, V, B>,
    entity: Entity,
)
    requires
        call_ensures(EntityTemplate::build_template::<V, B>, (described, context), entity),
        (*old(context))@.world.next < u64::MAX,
    ensures
        stands_for(*described, (*old(context))@, entity, (*final(context))@),
{
}

/// A name stands for one entity.
pub proof fn law_a_name_is_given_one_entity<V, B>(
    context: &mut TemplateContext<'_, V, B>,
    index: ScopedEntityIndex,
    entity: Entity,
)
    requires
        call_ensures(TemplateContext::<'_, V, B>::get_entity, (context, index), entity),
        (*old(context))@.world.next < u64::MAX,
    ensures
        stands_for(EntityTemplate::Scoped(index), (*old(context))@, entity, (*final(context))@),
{
}

/// A component of another entity resolves to that entity, and cannot fail.
pub proof fn law_a_source_elsewhere_resolves_to_the_entity<V, B, C: Component<V> + Clone + Default>(
    on: On<C>,
    before: TemplateState<V, B>,
    resolved: Result<Entity, TemplateError>,
    after: TemplateState<V, B>,
)
    requires
        <On<C> as ReactiveSource<V, B>>::resolves(&on, before, resolved, after),
        before.world.next < u64::MAX,
    ensures
        resolved is Ok,
        stands_for(on.0, before, resolved->Ok_0, after),
{
}

/// A registration that is queued comes last, and changes nothing else.
pub proof fn law_a_queued_registration_comes_last<V, B>(
    context: &mut TemplateContext<'_, V, B>,
    registration: BoxedEffectRegistration<V, B>,
)
    requires
        call_ensures(TemplateContext::<'_, V, B>::queue_effect, (context, registration), ()),
    ensures
        (*final(context))@.effects.len() == (*old(context))@.effects.len() + 1,
        (*final(context))@.effects.last() == registration,
        forall|i: int|
            0 <= i < (*old(context))@.effects.len() ==> #[trigger] (*final(context))@.effects[i]
                == (*old(context))@.effects[i],
        (*final(context))@.world == (*old(context))@.world,
        (*final(context))@.entity == (*old(context))@.entity,
        (*final(context))@.scoped == (*old(context))@.scoped,
{
}

/// What is taken of the queued registrations is all of them, and none is left.
pub proof fn law_taking_leaves_nothing_queued<V, B>(
    context: &mut TemplateContext<'_, V, B>,
    queued: QueuedEffects<V, B>,
)
    requires
        call_ensures(TemplateContext::<'_, V, B>::take_effects, (context,), queued),
    ensures
        queued@ == (*old(context))@.effects,
        (*final(context))@.effects.len() == 0,
        (*final(context))@.world == (*old(context))@.world,
        (*final(context))@.entity == (*old(context))@.entity,
        (*final(context))@.scoped == (*old(context))@.scoped,
{
}

/// A context for building starts with the world, the entity and the names that it is given, and
/// with nothing queued, and gives the names back in the end.
pub proof fn law_building_starts_with_nothing_queued<V, B>(
    world: &mut World<V, B>,
    entity: Entity,
    scoped: ScopedEntities,
    context: TemplateContext<'_, V, B>,
    told: Entity,
    names: ScopedEntities,
)
    requires
        call_ensures(TemplateContext::<'_, V, B>::new, (world, entity, scoped), context),
        call_ensures(TemplateContext::<'_, V, B>::entity, (&context,), told),
        call_ensures(TemplateContext::<'_, V, B>::into_scoped, (context,), names),
    ensures
        context@.world == (*old(world))@,
        context@.entity == entity,
        context@.scoped == scoped@,
        context@.effects.len() == 0,
        told == entity,
        names@ == scoped@,
        (*final(world))@ == context@.world,
{
}

/// The world that a context for building hands out is its own: what becomes of it is what the
/// context holds then, and nothing else of the context changes.
pub proof fn law_building_hands_out_its_world<V, B>(
    context: &mut TemplateContext<'_, V, B>,
    world: &mut World<V, B>,
)
    requires
        call_ensures(TemplateContext::<'_, V, B>::world, (context,), world),
    ensures
        (*old(world))@ == (*old(context))@.world,
        (*final(context))@.world == (*final(world))@,
        (*final(context))@.entity == (*old(context))@.entity,
        (*final(context))@.scoped == (*old(context))@.scoped,
        (*final(context))@.effects == (*old(context))@.effects,
{
}

/// Sources are copied whole.
pub proof fn law_sources_are_copied_whole<C, R>(
    own: &Own<C>,
    own_again: Own<C>,
    on: &On<C>,
    on_again: On<C>,
    resource: &OnResource<R>,
    resource_again: OnResource<R>,
)
    requires
        call_ensures(<Own<C> as Clone>::clone, (own,), own_again),
        call_ensures(<On<C> as Clone>::clone, (on,), on_again),
        call_ensures(<OnResource<R> as Clone>::clone, (resource,), resource_again),
    ensures
        own_again == *own,
        on_again == *on,
        resource_again == *resource,
{
}

/// A name that is given an entity stands for it, and other names stand for what they did.
pub proof fn law_a_name_that_is_set_is_found(
    scoped: &mut ScopedEntities,
    index: ScopedEntityIndex,
    entity: Entity,
    then: &ScopedEntities,
    other: ScopedEntityIndex,
    found: Option<Entity>,
)
    requires
        call_ensures(ScopedEntities::set, (scoped, index, entity), ()),
        *then == *final(scoped),
        call_ensures(ScopedEntities::get, (then, other), found),
    ensures
        other == index ==> found == Some(entity),
        other != index ==> found == if (*old(scoped))@.contains_key(other.0) {
            Some((*old(scoped))@[other.0])
        } else {
            None
        },
{
}

/// An entity describes itself, and a name within a scene is described as such.
pub proof fn law_entities_and_names_are_described_as_such(entity: Entity, index: ScopedEntityIndex)
    ensures
        <EntityTemplate as vstd::std_specs::convert::FromSpec<Entity>>::from_spec(entity)
            == EntityTemplate::Entity(entity),
        <EntityTemplate as vstd::std_specs::convert::FromSpec<ScopedEntityIndex>>::from_spec(index)
            == EntityTemplate::Scoped(index),
{
}

/// A source on a given entity, or on a name within a scene, is on that.
pub proof fn law_a_source_is_on_what_it_is_given<C>(
    entity: Entity,
    on: On<C>,
    index: ScopedEntityIndex,
    on_name: On<C>,
)
    requires
        call_ensures(On::<C>::new::<Entity>, (entity,), on),
        call_ensures(On::<C>::new::<ScopedEntityIndex>, (index,), on_name),
    ensures
        on.0 == EntityTemplate::Entity(entity),
        on_name.0 == EntityTemplate::Scoped(index),
{
}

/// One source on its own is read and resolved as itself.
pub proof fn law_a_lone_source_is_read_as_itself<V, B, S: SourceTypes + ReactiveSource<V, B>>(
    source: S,
    resolved: <S as SourceTypes>::Resolved,
    before: ContextState<V, B>,
    value: <S as SourceTypes>::Output,
    after: ContextState<V, B>,
    building: TemplateState<V, B>,
    outcome: Result<<S as SourceTypes>::Resolved, TemplateError>,
    built: TemplateState<V, B>,
)
    requires
        <S as ReactiveSources<V, B>>::reads_all(&source, resolved, before, value, after),
        <S as ReactiveSources<V, B>>::resolves_all(&source, building, outcome, built),
    ensures
        source.reads(resolved, before, value, after),
        source.resolves(building, outcome, built),
{
}

/// Whether reading `source` gives `value`, and leaves a context with which the rest goes on.
pub open spec fn reads_then<V, B, S: ReactiveSource<V, B>>(
    source: S,
    resolved: S::Resolved,
    before: ContextState<V, B>,
    value: S::Output,
    rest: spec_fn(ContextState<V, B>) -> bool,
) -> bool {
    exists|after: ContextState<V, B>| #[trigger]
        source.reads(resolved, before, value, after) && rest(after)
}

/// Whether `source` resolves to `resolved`, and leaves a context with which the rest goes on.
pub open spec fn resolves_then<V, B, S: ReactiveSource<V, B>>(
    source: S,
    before: TemplateState<V, B>,
    resolved: S::Resolved,
    rest: spec_fn(TemplateState<V, B>) -> bool,
) -> bool {
    exists|after: TemplateState<V, B>| #[trigger]
        source.resolves(before, Ok(resolved), after) && rest(after)
}

/// Whether resolving `source` fails with `error`, which ends it with the context `end`, or
/// succeeds, and the rest fails.
pub open spec fn fails_or<V, B, S: ReactiveSource<V, B>>(
    source: S,
    before: TemplateState<V, B>,
    error: TemplateError,
    end: TemplateState<V, B>,
    rest: spec_fn(TemplateState<V, B>) -> bool,
) -> bool {
    ||| source.resolves(before, Err(error), end)
    ||| exists|resolved: S::Resolved, after: TemplateState<V, B>| #[trigger]
        source.resolves(before, Ok(resolved), after) && rest(after)
}

/// Reading one source together reads it.
pub proof fn law_one_source_is_read_in_turn<
    V,
    B,
    S0: ReactiveSource<V, B>,
>(
    sources: (S0,),
    resolved: (S0::Resolved,),
    before: ContextState<V, B>,
    values: (S0::Output,),
    after: ContextState<V, B>,
)
    requires
        <(S0,) as ReactiveSources<V, B>>::reads_all(&sources, resolved, before, values, after),
    ensures
        reads_then(sources.0, resolved.0, before, values.0, |c1: ContextState<V, B>|
            c1 == after),
{
}

/// Resolving one source together resolves it.
pub proof fn law_one_source_is_resolved_in_turn<
    V,
    B,
    S0: ReactiveSource<V, B>,
>(
    sources: (S0,),
    before: TemplateState<V, B>,
    resolved: Result<(S0::Resolved,), TemplateError>,
    after: TemplateState<V, B>,
)
    requires
        <(S0,) as ReactiveSources<V, B>>::resolves_all(&sources, before, resolved, after),
    ensures
        resolved matches Ok(r) ==> resolves_then(sources.0, before, r.0, |c1: TemplateState<V, B>|
            c1 == after),
        resolved matches Err(error) ==> fails_or(sources.0, before, error, after, |c1: TemplateState<V, B>|
            false),
{
    let (x0, f1) = choose|
        x0: Option<S0::Resolved>,
        f1: Option<TemplateError>,
    |
        {
            &&& #[trigger] resolves_next(sources.0, None, before, x0, f1, after)
            &&& resolved == match f1 {
                Some(error) => Err(error),
                None => Ok((x0->0,)),
            }
        };
    assert(resolves_next(sources.0, None, before, x0, f1, after));
}

/// Reading two sources together reads each of them, one after the other, and gives the values
/// in that order.
pub proof fn law_two_sources_are_read_in_turn<
    V,
    B,
    S0: ReactiveSource<V, B>,
    S1: ReactiveSource<V, B>,
>(
    sources: (S0, S1),
    resolved: (S0::Resolved, S1::Resolved),
    before: ContextState<V, B>,
    values: (S0::Output, S1::Output),
    after: ContextState<V, B>,
)
    requires
        <(S0, S1) as ReactiveSources<V, B>>::reads_all(&sources, resolved, before, values, after),
    ensures
        reads_then(sources.0, resolved.0, before, values.0, |c1: ContextState<V, B>|
            reads_then(sources.1, resolved.1, c1, values.1, |c2: ContextState<V, B>|
                c2 == after)),
{
}

/// Resolving two sources together resolves each of them, one after the other, and gives the
/// results in that order. If one fails, the others behind it are not resolved.
pub proof fn law_two_sources_are_resolved_in_turn<
    V,
    B,
    S0: ReactiveSource<V, B>,
    S1: ReactiveSource<V, B>,
>(
    sources: (S0, S1),
    before: TemplateState<V, B>,
    resolved: Result<(S0::Resolved, S1::Resolved), TemplateError>,
    after: TemplateState<V, B>,
)
    requires
        <(S0, S1) as ReactiveSources<V, B>>::resolves_all(&sources, before, resolved, after),
    ensures
        resolved matches Ok(r) ==> resolves_then(sources.0, before, r.0, |c1: TemplateState<V, B>|
            resolves_then(sources.1, c1, r.1, |c2: TemplateState<V, B>|
                c2 == after)),
        resolved matches Err(error) ==> fails_or(sources.0, before, error, after, |c1: TemplateState<V, B>|
            fails_or(sources.1, c1, error, after, |c2: TemplateState<V, B>|
                false)),
{
    let (x0, f1, c1, x1, f2) = choose|
        x0: Option<S0::Resolved>,
        f1: Option<TemplateError>,
        c1: TemplateState<V, B>,
        x1: Option<S1::Resolved>,
        f2: Option<TemplateError>,
    |
        {
            &&& #[trigger] resolves_next(sources.0, None, before, x0, f1, c1)
            &&& #[trigger] resolves_next(sources.1, f1, c1, x1, f2, after)
            &&& resolved == match f2 {
                Some(error) => Err(error),
                None => Ok((x0->0, x1->0)),
            }
        };
    assert(resolves_next(sources.0, None, before, x0, f1, c1));
    assert(resolves_next(sources.1, f1, c1, x1, f2, after));
}

/// Reading three sources together reads each of them, one after the other, and gives the values
/// in that order.
pub proof fn law_three_sources_are_read_in_turn<
    V,
    B,
    S0: ReactiveSource<V, B>,
    S1: ReactiveSource<V, B>,
    S2: ReactiveSource<V, B>,
>(
    sources: (S0, S1, S2),
    resolved: (S0::Resolved, S1::Resolved, S2::Resolved),
    before: ContextState<V, B>,
    values: (S0::Output, S1::Output, S2::Output),
    after: ContextState<V, B>,
)
    requires
        <(S0, S1, S2) as ReactiveSources<V, B>>::reads_all(
            &sources,
            resolved,
            before,
            values,
            after,
        ),
    ensures
        reads_then(sources.0, resolved.0, before, values.0, |c1: ContextState<V, B>|
            reads_then(sources.1, resolved.1, c1, values.1, |c2: ContextState<V, B>|
                reads_then(sources.2, resolved.2, c2, values.2, |c3: ContextState<V, B>|
                    c3 == after))),
{
}

/// Resolving three sources together resolves each of them, one after the other, and gives the
/// results in that order. If one fails, the others behind it are not resolved.
pub proof fn law_three_sources_are_resolved_in_turn<
    V,
    B,
    S0: ReactiveSource<V, B>,
    S1: ReactiveSource<V, B>,
    S2: ReactiveSource<V, B>,
>(
    sources: (S0, S1, S2),
    before: TemplateState<V, B>,
    resolved: Result<(S0::Resolved, S1::Resolved, S2::Resolved), TemplateError>,
    after: TemplateState<V, B>,
)
    requires
        <(S0, S1, S2) as ReactiveSources<V, B>>::resolves_all(&sources, before, resolved, after),
    ensures
        resolved matches Ok(r) ==> resolves_then(sources.0, before, r.0, |c1: TemplateState<V, B>|
            resolves_then(sources.1, c1, r.1, |c2: TemplateState<V, B>|
                resolves_then(sources.2, c2, r.2, |c3: TemplateState<V, B>|
                    c3 == after))),
        resolved matches Err(error) ==> fails_or(sources.0, before, error, after, |c1: TemplateState<V, B>|
            fails_or(sources.1, c1, error, after, |c2: TemplateState<V, B>|
                fails_or(sources.2, c2, error, after, |c3: TemplateState<V, B>|
                    false))),
{
    let (x0, f1, c1, x1, f2, c2, x2, f3) = choose|
        x0: Option<S0::Resolved>,
        f1: Option<TemplateError>,
        c1: TemplateState<V, B>,
        x1: Option<S1::Resolved>,
        f2: Option<TemplateError>,
        c2: TemplateState<V, B>,
        x2: Option<S2::Resolved>,
        f3: Option<TemplateError>,
    |
        {
            &&& #[trigger] resolves_next(sources.0, None, before, x0, f1, c1)
            &&& #[trigger] resolves_next(sources.1, f1, c1, x1, f2, c2)
            &&& #[trigger] resolves_next(sources.2, f2, c2, x2, f3, after)
            &&& resolved == match f3 {
                Some(error) => Err(error),
                None => Ok((x0->0, x1->0, x2->0)),
            }
        };
    assert(resolves_next(sources.0, None, before, x0, f1, c1));
    assert(resolves_next(sources.1, f1, c1, x1, f2, c2));
    assert(resolves_next(sources.2, f2, c2, x2, f3, after));
}

/// Reading four sources together reads each of them, one after the other, and gives the values
/// in that order.
pub proof fn law_four_sources_are_read_in_turn<
    V,
    B,
    S0: ReactiveSource<V, B>,
    S1: ReactiveSource<V, B>,
    S2: ReactiveSource<V, B>,
    S3: ReactiveSource<V, B>,
>(
    sources: (S0, S1, S2, S3),
    resolved: (S0::Resolved, S1::Resolved, S2::Resolved, S3::Resolved),
    before: ContextState<V, B>,
    values: (S0::Output, S1::Output, S2::Output, S3::Output),
    after: ContextState<V, B>,
)
    requires
        <(S0, S1, S2, S3) as ReactiveSources<V, B>>::reads_all(
            &sources,
            resolved,
            before,
            values,
            after,
        ),
    ensures
        reads_then(sources.0, resolved.0, before, values.0, |c1: ContextState<V, B>|
            reads_then(sources.1, resolved.1, c1, values.1, |c2: ContextState<V, B>|
                reads_then(sources.2, resolved.2, c2, values.2, |c3: ContextState<V, B>|
                    reads_then(sources.3, resolved.3, c3, values.3, |c4: ContextState<V, B>|
                        c4 == after)))),
{
}

/// Resolving four sources together resolves each of them, one after the other, and gives the
/// results in that order. If one fails, the others behind it are not resolved.
pub proof fn law_four_sources_are_resolved_in_turn<
    V,
    B,
    S0: ReactiveSource<V, B>,
    S1: ReactiveSource<V, B>,
    S2: ReactiveSource<V, B>,
    S3: ReactiveSource<V, B>,
>(
    sources: (S0, S1, S2, S3),
    before: TemplateState<V, B>,
    resolved: Result<(S0::Resolved, S1::Resolved, S2::Resolved, S3::Resolved), TemplateError>,
    after: TemplateState<V, B>,
)
    requires
        <(S0, S1, S2, S3) as ReactiveSources<V, B>>::resolves_all(
            &sources,
            before,
            resolved,
            after,
        ),
    ensures
        resolved matches Ok(r) ==> resolves_then(sources.0, before, r.0, |c1: TemplateState<V, B>|
            resolves_then(sources.1, c1, r.1, |c2: TemplateState<V, B>|
                resolves_then(sources.2, c2, r.2, |c3: TemplateState<V, B>|
                    resolves_then(sources.3, c3, r.3, |c4: TemplateState<V, B>|
                        c4 == after)))),
        resolved matches Err(error) ==> fails_or(sources.0, before, error, after, |c1: TemplateState<V, B>|
            fails_or(sources.1, c1, error, after, |c2: TemplateState<V, B>|
                fails_or(sources.2, c2, error, after, |c3: TemplateState<V, B>|
                    fails_or(sources.3, c3, error, after, |c4: TemplateState<V, B>|
                        false)))),
{
    let (x0, f1, c1, x1, f2, c2, x2, f3, c3, x3, f4) = choose|
        x0: Option<S0::Resolved>,
        f1: Option<TemplateError>,
        c1: TemplateState<V, B>,
        x1: Option<S1::Resolved>,
        f2: Option<TemplateError>,
        c2: TemplateState<V, B>,
        x2: Option<S2::Resolved>,
        f3: Option<TemplateError>,
        c3: TemplateState<V, B>,
        x3: Option<S3::Resolved>,
        f4: Option<TemplateError>,
    |
        {
            &&& #[trigger] resolves_next(sources.0, None, before, x0, f1, c1)
            &&& #[trigger] resolves_next(sources.1, f1, c1, x1, f2, c2)
            &&& #[trigger] resolves_next(sources.2, f2, c2, x2, f3, c3)
            &&& #[trigger] resolves_next(sources.3, f3, c3, x3, f4, after)
            &&& resolved == match f4 {
                Some(error) => Err(error),
                None => Ok((x0->0, x1->0, x2->0, x3->0)),
            }
        };
    assert(resolves_next(sources.0, None, before, x0, f1, c1));
    assert(resolves_next(sources.1, f1, c1, x1, f2, c2));
    assert(resolves_next(sources.2, f2, c2, x2, f3, c3));
    assert(resolves_next(sources.3, f3, c3, x3, f4, after));
}

/// Reading five sources together reads each of them, one after the other, and gives the values
/// in that order.
pub proof fn law_five_sources_are_read_in_turn<
    V,
    B,
    S0: ReactiveSource<V, B>,
    S1: ReactiveSource<V, B>,
    S2: ReactiveSource<V, B>,
    S3: ReactiveSource<V, B>,
    S4: ReactiveSource<V, B>,
>(
    sources: (S0, S1, S2, S3, S4),
    resolved: (S0::Resolved, S1::Resolved, S2::Resolved, S3::Resolved, S4::Resolved),
    before: ContextState<V, B>,
    values: (S0::Output, S1::Output, S2::Output, S3::Output, S4::Output),
    after: ContextState<V, B>,
)
    requires
        <(S0, S1, S2, S3, S4) as ReactiveSources<V, B>>::reads_all(
            &sources,
            resolved,
            before,
            values,
            after,
        ),
    ensures
        reads_then(sources.0, resolved.0, before, values.0, |c1: ContextState<V, B>|
            reads_then(sources.1, resolved.1, c1, values.1, |c2: ContextState<V, B>|
                reads_then(sources.2, resolved.2, c2, values.2, |c3: ContextState<V, B>|
                    reads_then(sources.3, resolved.3, c3, values.3, |c4: ContextState<V, B>|
                        reads_then(sources.4, resolved.4, c4, values.4, |c5: ContextState<V, B>|
                            c5 == after))))),
{
}

/// Resolving five sources together resolves each of them, one after the other, and gives the
/// results in that order. If one fails, the others behind it are not resolved.
pub proof fn law_five_sources_are_resolved_in_turn<
    V,
    B,
    S0: ReactiveSource<V, B>,
    S1: ReactiveSource<V, B>,
    S2: ReactiveSource<V, B>,
    S3: ReactiveSource<V, B>,
    S4: ReactiveSource<V, B>,
>(
    sources: (S0, S1, S2, S3, S4),
    before: TemplateState<V, B>,
    resolved: Result<
        (
            S0::Resolved,
            S1::Resolved,
            S2::Resolved,
            S3::Resolved,
            S4::Resolved,
        ),
        TemplateError,
    >,
    after: TemplateState<V, B>,
)
    requires
        <(S0, S1, S2, S3, S4) as ReactiveSources<V, B>>::resolves_all(
            &sources,
            before,
            resolved,
            after,
        ),
    ensures
        resolved matches Ok(r) ==> resolves_then(sources.0, before, r.0, |c1: TemplateState<V, B>|
            resolves_then(sources.1, c1, r.1, |c2: TemplateState<V, B>|
                resolves_then(sources.2, c2, r.2, |c3: TemplateState<V, B>|
                    resolves_then(sources.3, c3, r.3, |c4: TemplateState<V, B>|
                        resolves_then(sources.4, c4, r.4, |c5: TemplateState<V, B>|
                            c5 == after))))),
        resolved matches Err(error) ==> fails_or(sources.0, before, error, after, |c1: TemplateState<V, B>|
            fails_or(sources.1, c1, error, after, |c2: TemplateState<V, B>|
                fails_or(sources.2, c2, error, after, |c3: TemplateState<V, B>|
                    fails_or(sources.3, c3, error, after, |c4: TemplateState<V, B>|
                        fails_or(sources.4, c4, error, after, |c5: TemplateState<V, B>|
                            false))))),
{
    let (x0, f1, c1, x1, f2, c2, x2, f3, c3, x3, f4, c4, x4, f5) = choose|
        x0: Option<S0::Resolved>,
        f1: Option<TemplateError>,
        c1: TemplateState<V, B>,
        x1: Option<S1::Resolved>,
        f2: Option<TemplateError>,
        c2: TemplateState<V, B>,
        x2: Option<S2::Resolved>,
        f3: Option<TemplateError>,
        c3: TemplateState<V, B>,
        x3: Option<S3::Resolved>,
        f4: Option<TemplateError>,
        c4: TemplateState<V, B>,
        x4: Option<S4::Resolved>,
        f5: Option<TemplateError>,
    |
        {
            &&& #[trigger] resolves_next(sources.0, None, before, x0, f1, c1)
            &&& #[trigger] resolves_next(sources.1, f1, c1, x1, f2, c2)
            &&& #[trigger] resolves_next(sources.2, f2, c2, x2, f3, c3)
            &&& #[trigger] resolves_next(sources.3, f3, c3, x3, f4, c4)
            &&& #[trigger] resolves_next(sources.4, f4, c4, x4, f5, after)
            &&& resolved == match f5 {
                Some(error) => Err(error),
                None => Ok((x0->0, x1->0, x2->0, x3->0, x4->0)),
            }
        };
    assert(resolves_next(sources.0, None, before, x0, f1, c1));
    assert(resolves_next(sources.1, f1, c1, x1, f2, c2));
    assert(resolves_next(sources.2, f2, c2, x2, f3, c3));
    assert(resolves_next(sources.3, f3, c3, x3, f4, c4));
    assert(resolves_next(sources.4, f4, c4, x4, f5, after));
}

/// Reading six sources together reads each of them, one after the other, and gives the values
/// in that order.
pub proof fn law_six_sources_are_read_in_turn<
    V,
    B,
    S0: ReactiveSource<V, B>,
    S1: ReactiveSource<V, B>,
    S2: ReactiveSource<V, B>,
    S3: ReactiveSource<V, B>,
    S4: ReactiveSource<V, B>,
    S5: ReactiveSource<V, B>,
>(
    sources: (S0, S1, S2, S3, S4, S5),
    resolved: (S0::Resolved, S1::Resolved, S2::Resolved, S3::Resolved, S4::Resolved, S5::Resolved),
    before: ContextState<V, B>,
    values: (S0::Output, S1::Output, S2::Output, S3::Output, S4::Output, S5::Output),
    after: ContextState<V, B>,
)
    requires
        <(S0, S1, S2, S3, S4, S5) as ReactiveSources<V, B>>::reads_all(
            &sources,
            resolved,
            before,
            values,
            after,
        ),
    ensures
        reads_then(sources.0, resolved.0, before, values.0, |c1: ContextState<V, B>|
            reads_then(sources.1, resolved.1, c1, values.1, |c2: ContextState<V, B>|
                reads_then(sources.2, resolved.2, c2, values.2, |c3: ContextState<V, B>|
                    reads_then(sources.3, resolved.3, c3, values.3, |c4: ContextState<V, B>|
                        reads_then(sources.4, resolved.4, c4, values.4, |c5: ContextState<V, B>|
                            reads_then(sources.5, resolved.5, c5, values.5, |c6: ContextState<V, B>|
                                c6 == after)))))),
{
}

/// Resolving six sources together resolves each of them, one after the other, and gives the
/// results in that order. If one fails, the others behind it are not resolved.
pub proof fn law_six_sources_are_resolved_in_turn<
    V,
    B,
    S0: ReactiveSource<V, B>,
    S1: ReactiveSource<V, B>,
    S2: ReactiveSource<V, B>,
    S3: ReactiveSource<V, B>,
    S4: ReactiveSource<V, B>,
    S5: ReactiveSource<V, B>,
>(
    sources: (S0, S1, S2, S3, S4, S5),
    before: TemplateState<V, B>,
    resolved: Result<
        (
            S0::Resolved,
            S1::Resolved,
            S2::Resolved,
            S3::Resolved,
            S4::Resolved,
            S5::Resolved,
        ),
        TemplateError,
    >,
    after: TemplateState<V, B>,
)
    requires
        <(S0, S1, S2, S3, S4, S5) as ReactiveSources<V, B>>::resolves_all(
            &sources,
            before,
            resolved,
            after,
        ),
    ensures
        resolved matches Ok(r) ==> resolves_then(sources.0, before, r.0, |c1: TemplateState<V, B>|
            resolves_then(sources.1, c1, r.1, |c2: TemplateState<V, B>|
                resolves_then(sources.2, c2, r.2, |c3: TemplateState<V, B>|
                    resolves_then(sources.3, c3, r.3, |c4: TemplateState<V, B>|
                        resolves_then(sources.4, c4, r.4, |c5: TemplateState<V, B>|
                            resolves_then(sources.5, c5, r.5, |c6: TemplateState<V, B>|
                                c6 == after)))))),
        resolved matches Err(error) ==> fails_or(sources.0, before, error, after, |c1: TemplateState<V, B>|
            fails_or(sources.1, c1, error, after, |c2: TemplateState<V, B>|
                fails_or(sources.2, c2, error, after, |c3: TemplateState<V, B>|
                    fails_or(sources.3, c3, error, after, |c4: TemplateState<V, B>|
                        fails_or(sources.4, c4, error, after, |c5: TemplateState<V, B>|
                            fails_or(sources.5, c5, error, after, |c6: TemplateState<V, B>|
                                false)))))),
{
    let (x0, f1, c1, x1, f2, c2, x2, f3, c3, x3, f4, c4, x4, f5, c5, x5, f6) = choose|
        x0: Option<S0::Resolved>,
        f1: Option<TemplateError>,
        c1: TemplateState<V, B>,
        x1: Option<S1::Resolved>,
        f2: Option<TemplateError>,
        c2: TemplateState<V, B>,
        x2: Option<S2::Resolved>,
        f3: Option<TemplateError>,
        c3: TemplateState<V, B>,
        x3: Option<S3::Resolved>,
        f4: Option<TemplateError>,
        c4: TemplateState<V, B>,
        x4: Option<S4::Resolved>,
        f5: Option<TemplateError>,
        c5: TemplateState<V, B>,
        x5: Option<S5::Resolved>,
        f6: Option<TemplateError>,
    |
        {
            &&& #[trigger] resolves_next(sources.0, None, before, x0, f1, c1)
            &&& #[trigger] resolves_next(sources.1, f1, c1, x1, f2, c2)
            &&& #[trigger] resolves_next(sources.2, f2, c2, x2, f3, c3)
            &&& #[trigger] resolves_next(sources.3, f3, c3, x3, f4, c4)
            &&& #[trigger] resolves_next(sources.4, f4, c4, x4, f5, c5)
            &&& #[trigger] resolves_next(sources.5, f5, c5, x5, f6, after)
            &&& resolved == match f6 {
                Some(error) => Err(error),
                None => Ok((x0->0, x1->0, x2->0, x3->0, x4->0, x5->0)),
            }
        };
    assert(resolves_next(sources.0, None, before, x0, f1, c1));
    assert(resolves_next(sources.1, f1, c1, x1, f2, c2));
    assert(resolves_next(sources.2, f2, c2, x2, f3, c3));
    assert(resolves_next(sources.3, f3, c3, x3, f4, c4));
    assert(resolves_next(sources.4, f4, c4, x4, f5, c5));
    assert(resolves_next(sources.5, f5, c5, x5, f6, after));
}

/// Reading seven sources together reads each of them, one after the other, and gives the values
/// in that order.
pub proof fn law_seven_sources_are_read_in_turn<
    V,
    B,
    S0: ReactiveSource<V, B>,
    S1: ReactiveSource<V, B>,
    S2: ReactiveSource<V, B>,
    S3: ReactiveSource<V, B>,
    S4: ReactiveSource<V, B>,
    S5: ReactiveSource<V, B>,
    S6: ReactiveSource<V, B>,
>(
    sources: (S0, S1, S2, S3, S4, S5, S6),
    resolved: (
        S0::Resolved,
        S1::Resolved,
        S2::Resolved,
        S3::Resolved,
        S4::Resolved,
        S5::Resolved,
        S6::Resolved,
    ),
    before: ContextState<V, B>,
    values: (S0::Output, S1::Output, S2::Output, S3::Output, S4::Output, S5::Output, S6::Output),
    after: ContextState<V, B>,
)
    requires
        <(S0, S1, S2, S3, S4, S5, S6) as ReactiveSources<V, B>>::reads_all(
            &sources,
            resolved,
            before,
            values,
            after,
        ),
    ensures
        reads_then(sources.0, resolved.0, before, values.0, |c1: ContextState<V, B>|
            reads_then(sources.1, resolved.1, c1, values.1, |c2: ContextState<V, B>|
                reads_then(sources.2, resolved.2, c2, values.2, |c3: ContextState<V, B>|
                    reads_then(sources.3, resolved.3, c3, values.3, |c4: ContextState<V, B>|
                        reads_then(sources.4, resolved.4, c4, values.4, |c5: ContextState<V, B>|
                            reads_then(sources.5, resolved.5, c5, values.5, |c6: ContextState<V, B>|
                                reads_then(sources.6, resolved.6, c6, values.6, |c7: ContextState<V, B>|
                                    c7 == after))))))),
{
}

/// Resolving seven sources together resolves each of them, one after the other, and gives the
/// results in that order. If one fails, the others behind it are not resolved.
pub proof fn law_seven_sources_are_resolved_in_turn<
    V,
    B,
    S0: ReactiveSource<V, B>,
    S1: ReactiveSource<V, B>,
    S2: ReactiveSource<V, B>,
    S3: ReactiveSource<V, B>,
    S4: ReactiveSource<V, B>,
    S5: ReactiveSource<V, B>,
    S6: ReactiveSource<V, B>,
>(
    sources: (S0, S1, S2, S3, S4, S5, S6),
    before: TemplateState<V, B>,
    resolved: Result<
        (
            S0::Resolved,
            S1::Resolved,
            S2::Resolved,
            S3::Resolved,
            S4::Resolved,
            S5::Resolved,
            S6::Resolved,
        ),
        TemplateError,
    >,
    after: TemplateState<V, B>,
)
    requires
        <(S0, S1, S2, S3, S4, S5, S6) as ReactiveSources<V, B>>::resolves_all(
            &sources,
            before,
            resolved,
            after,
        ),
    ensures
        resolved matches Ok(r) ==> resolves_then(sources.0, before, r.0, |c1: TemplateState<V, B>|
            resolves_then(sources.1, c1, r.1, |c2: TemplateState<V, B>|
                resolves_then(sources.2, c2, r.2, |c3: TemplateState<V, B>|
                    resolves_then(sources.3, c3, r.3, |c4: TemplateState<V, B>|
                        resolves_then(sources.4, c4, r.4, |c5: TemplateState<V, B>|
                            resolves_then(sources.5, c5, r.5, |c6: TemplateState<V, B>|
                                resolves_then(sources.6, c6, r.6, |c7: TemplateState<V, B>|
                                    c7 == after))))))),
        resolved matches Err(error) ==> fails_or(sources.0, before, error, after, |c1: TemplateState<V, B>|
            fails_or(sources.1, c1, error, after, |c2: TemplateState<V, B>|
                fails_or(sources.2, c2, error, after, |c3: TemplateState<V, B>|
                    fails_or(sources.3, c3, error, after, |c4: TemplateState<V, B>|
                        fails_or(sources.4, c4, error, after, |c5: TemplateState<V, B>|
                            fails_or(sources.5, c5, error, after, |c6: TemplateState<V, B>|
                                fails_or(sources.6, c6, error, after, |c7: TemplateState<V, B>|
                                    false))))))),
{
    let (x0, f1, c1, x1, f2, c2, x2, f3, c3, x3, f4, c4, x4, f5, c5, x5, f6, c6, x6, f7) = choose|
        x0: Option<S0::Resolved>,
        f1: Option<TemplateError>,
        c1: TemplateState<V, B>,
        x1: Option<S1::Resolved>,
        f2: Option<TemplateError>,
        c2: TemplateState<V, B>,
        x2: Option<S2::Resolved>,
        f3: Option<TemplateError>,
        c3: TemplateState<V, B>,
        x3: Option<S3::Resolved>,
        f4: Option<TemplateError>,
        c4: TemplateState<V, B>,
        x4: Option<S4::Resolved>,
        f5: Option<TemplateError>,
        c5: TemplateState<V, B>,
        x5: Option<S5::Resolved>,
        f6: Option<TemplateError>,
        c6: TemplateState<V, B>,
        x6: Option<S6::Resolved>,
        f7: Option<TemplateError>,
    |
        {
            &&& #[trigger] resolves_next(sources.0, None, before, x0, f1, c1)
            &&& #[trigger] resolves_next(sources.1, f1, c1, x1, f2, c2)
            &&& #[trigger] resolves_next(sources.2, f2, c2, x2, f3, c3)
            &&& #[trigger] resolves_next(sources.3, f3, c3, x3, f4, c4)
            &&& #[trigger] resolves_next(sources.4, f4, c4, x4, f5, c5)
            &&& #[trigger] resolves_next(sources.5, f5, c5, x5, f6, c6)
            &&& #[trigger] resolves_next(sources.6, f6, c6, x6, f7, after)
            &&& resolved == match f7 {
                Some(error) => Err(error),
                None => Ok((x0->0, x1->0, x2->0, x3->0, x4->0, x5->0, x6->0)),
            }
        };
    assert(resolves_next(sources.0, None, before, x0, f1, c1));
    assert(resolves_next(sources.1, f1, c1, x1, f2, c2));
    assert(resolves_next(sources.2, f2, c2, x2, f3, c3));
    assert(resolves_next(sources.3, f3, c3, x3, f4, c4));
    assert(resolves_next(sources.4, f4, c4, x4, f5, c5));
    assert(resolves_next(sources.5, f5, c5, x5, f6, c6));
    assert(resolves_next(sources.6, f6, c6, x6, f7, after));
}

/// Reading eight sources together reads each of them, one after the other, and gives the values
/// in that order.
pub proof fn law_eight_sources_are_read_in_turn<
    V,
    B,
    S0: ReactiveSource<V, B>,
    S1: ReactiveSource<V, B>,
    S2: ReactiveSource<V, B>,
    S3: ReactiveSource<V, B>,
    S4: ReactiveSource<V, B>,
    S5: ReactiveSource<V, B>,
    S6: ReactiveSource<V, B>,
    S7: ReactiveSource<V, B>,
>(
    sources: (S0, S1, S2, S3, S4, S5, S6, S7),
    resolved: (
        S0::Resolved,
        S1::Resolved,
        S2::Resolved,
        S3::Resolved,
        S4::Resolved,
        S5::Resolved,
        S6::Resolved,
        S7::Resolved,
    ),
    before: ContextState<V, B>,
    values: (
        S0::Output,
        S1::Output,
        S2::Output,
        S3::Output,
        S4::Output,
        S5::Output,
        S6::Output,
        S7::Output,
    ),
    after: ContextState<V, B>,
)
    requires
        <(S0, S1, S2, S3, S4, S5, S6, S7) as ReactiveSources<V, B>>::reads_all(
            &sources,
            resolved,
            before,
            values,
            after,
        ),
    ensures
        reads_then(sources.0, resolved.0, before, values.0, |c1: ContextState<V, B>|
            reads_then(sources.1, resolved.1, c1, values.1, |c2: ContextState<V, B>|
                reads_then(sources.2, resolved.2, c2, values.2, |c3: ContextState<V, B>|
                    reads_then(sources.3, resolved.3, c3, values.3, |c4: ContextState<V, B>|
                        reads_then(sources.4, resolved.4, c4, values.4, |c5: ContextState<V, B>|
                            reads_then(sources.5, resolved.5, c5, values.5, |c6: ContextState<V, B>|
                                reads_then(sources.6, resolved.6, c6, values.6, |c7: ContextState<V, B>|
                                    reads_then(sources.7, resolved.7, c7, values.7, |c8: ContextState<V, B>|
                                        c8 == after)))))))),
{
}

/// Resolving eight sources together resolves each of them, one after the other, and gives the
/// results in that order. If one fails, the others behind it are not resolved.
pub proof fn law_eight_sources_are_resolved_in_turn<
    V,
    B,
    S0: ReactiveSource<V, B>,
    S1: ReactiveSource<V, B>,
    S2: ReactiveSource<V, B>,
    S3: ReactiveSource<V, B>,
    S4: ReactiveSource<V, B>,
    S5: ReactiveSource<V, B>,
    S6: ReactiveSource<V, B>,
    S7: ReactiveSource<V, B>,
>(
    sources: (S0, S1, S2, S3, S4, S5, S6, S7),
    before: TemplateState<V, B>,
    resolved: Result<
        (
            S0::Resolved,
            S1::Resolved,
            S2::Resolved,
            S3::Resolved,
            S4::Resolved,
            S5::Resolved,
            S6::Resolved,
            S7::Resolved,
        ),
        TemplateError,
    >,
    after: TemplateState<V, B>,
)
    requires
        <(S0, S1, S2, S3, S4, S5, S6, S7) as ReactiveSources<V, B>>::resolves_all(
            &sources,
            before,
            resolved,
            after,
        ),
    ensures
        resolved matches Ok(r) ==> resolves_then(sources.0, before, r.0, |c1: TemplateState<V, B>|
            resolves_then(sources.1, c1, r.1, |c2: TemplateState<V, B>|
                resolves_then(sources.2, c2, r.2, |c3: TemplateState<V, B>|
                    resolves_then(sources.3, c3, r.3, |c4: TemplateState<V, B>|
                        resolves_then(sources.4, c4, r.4, |c5: TemplateState<V, B>|
                            resolves_then(sources.5, c5, r.5, |c6: TemplateState<V, B>|
                                resolves_then(sources.6, c6, r.6, |c7: TemplateState<V, B>|
                                    resolves_then(sources.7, c7, r.7, |c8: TemplateState<V, B>|
                                        c8 == after)))))))),
        resolved matches Err(error) ==> fails_or(sources.0, before, error, after, |c1: TemplateState<V, B>|
            fails_or(sources.1, c1, error, after, |c2: TemplateState<V, B>|
                fails_or(sources.2, c2, error, after, |c3: TemplateState<V, B>|
                    fails_or(sources.3, c3, error, after, |c4: TemplateState<V, B>|
                        fails_or(sources.4, c4, error, after, |c5: TemplateState<V, B>|
                            fails_or(sources.5, c5, error, after, |c6: TemplateState<V, B>|
                                fails_or(sources.6, c6, error, after, |c7: TemplateState<V, B>|
                                    fails_or(sources.7, c7, error, after, |c8: TemplateState<V, B>|
                                        false)))))))),
{
    let (
        x0, f1, c1, x1, f2, c2, x2, f3, c3, x3, f4, c4, x4, f5, c5, x5, f6, c6, x6, f7, c7,
        x7, f8,
    ) = choose|
        x0: Option<S0::Resolved>,
        f1: Option<TemplateError>,
        c1: TemplateState<V, B>,
        x1: Option<S1::Resolved>,
        f2: Option<TemplateError>,
        c2: TemplateState<V, B>,
        x2: Option<S2::Resolved>,
        f3: Option<TemplateError>,
        c3: TemplateState<V, B>,
        x3: Option<S3::Resolved>,
        f4: Option<TemplateError>,
        c4: TemplateState<V, B>,
        x4: Option<S4::Resolved>,
        f5: Option<TemplateError>,
        c5: TemplateState<V, B>,
        x5: Option<S5::Resolved>,
        f6: Option<TemplateError>,
        c6: TemplateState<V, B>,
        x6: Option<S6::Resolved>,
        f7: Option<TemplateError>,
        c7: TemplateState<V, B>,
        x7: Option<S7::Resolved>,
        f8: Option<TemplateError>,
    |
        {
            &&& #[trigger] resolves_next(sources.0, None, before, x0, f1, c1)
            &&& #[trigger] resolves_next(sources.1, f1, c1, x1, f2, c2)
            &&& #[trigger] resolves_next(sources.2, f2, c2, x2, f3, c3)
            &&& #[trigger] resolves_next(sources.3, f3, c3, x3, f4, c4)
            &&& #[trigger] resolves_next(sources.4, f4, c4, x4, f5, c5)
            &&& #[trigger] resolves_next(sources.5, f5, c5, x5, f6, c6)
            &&& #[trigger] resolves_next(sources.6, f6, c6, x6, f7, c7)
            &&& #[trigger] resolves_next(sources.7, f7, c7, x7, f8, after)
            &&& resolved == match f8 {
                Some(error) => Err(error),
                None => Ok((x0->0, x1->0, x2->0, x3->0, x4->0, x5->0, x6->0, x7->0)),
            }
        };
    assert(resolves_next(sources.0, None, before, x0, f1, c1));
    assert(resolves_next(sources.1, f1, c1, x1, f2, c2));
    assert(resolves_next(sources.2, f2, c2, x2, f3, c3));
    assert(resolves_next(sources.3, f3, c3, x3, f4, c4));
    assert(resolves_next(sources.4, f4, c4, x4, f5, c5));
    assert(resolves_next(sources.5, f5, c5, x5, f6, c6));
    assert(resolves_next(sources.6, f6, c6, x6, f7, c7));
    assert(resolves_next(sources.7, f7, c7, x7, f8, after));
}

/// Reading nine sources together reads each of them, one after the other, and gives the values
/// in that order.
pub proof fn law_nine_sources_are_read_in_turn<
    V,
    B,
    S0: ReactiveSource<V, B>,
    S1: ReactiveSource<V, B>,
    S2: ReactiveSource<V, B>,
    S3: ReactiveSource<V, B>,
    S4: ReactiveSource<V, B>,
    S5: ReactiveSource<V, B>,
    S6: ReactiveSource<V, B>,
    S7: ReactiveSource<V, B>,
    S8: ReactiveSource<V, B>,
>(
    sources: (S0, S1, S2, S3, S4, S5, S6, S7, S8),
    resolved: (
        S0::Resolved,
        S1::Resolved,
        S2::Resolved,
        S3::Resolved,
        S4::Resolved,
        S5::Resolved,
        S6::Resolved,
        S7::Resolved,
        S8::Resolved,
    ),
    before: ContextState<V, B>,
    values: (
        S0::Output,
        S1::Output,
        S2::Output,
        S3::Output,
        S4::Output,
        S5::Output,
        S6::Output,
        S7::Output,
        S8::Output,
    ),
    after: ContextState<V, B>,
)
    requires
        <(S0, S1, S2, S3, S4, S5, S6, S7, S8) as ReactiveSources<V, B>>::reads_all(
            &sources,
            resolved,
            before,
            values,
            after,
        ),
    ensures
        reads_then(sources.0, resolved.0, before, values.0, |c1: ContextState<V, B>|
            reads_then(sources.1, resolved.1, c1, values.1, |c2: ContextState<V, B>|
                reads_then(sources.2, resolved.2, c2, values.2, |c3: ContextState<V, B>|
                    reads_then(sources.3, resolved.3, c3, values.3, |c4: ContextState<V, B>|
                        reads_then(sources.4, resolved.4, c4, values.4, |c5: ContextState<V, B>|
                            reads_then(sources.5, resolved.5, c5, values.5, |c6: ContextState<V, B>|
                                reads_then(sources.6, resolved.6, c6, values.6, |c7: ContextState<V, B>|
                                    reads_then(sources.7, resolved.7, c7, values.7, |c8: ContextState<V, B>|
                                        reads_then(sources.8, resolved.8, c8, values.8, |c9: ContextState<V, B>|
                                            c9 == after))))))))),
{
}

/// Resolving nine sources together resolves each of them, one after the other, and gives the
/// results in that order. If one fails, the others behind it are not resolved.
pub proof fn law_nine_sources_are_resolved_in_turn<
    V,
    B,
    S0: ReactiveSource<V, B>,
    S1: ReactiveSource<V, B>,
    S2: ReactiveSource<V, B>,
    S3: ReactiveSource<V, B>,
    S4: ReactiveSource<V, B>,
    S5: ReactiveSource<V, B>,
    S6: ReactiveSource<V, B>,
    S7: ReactiveSource<V, B>,
    S8: ReactiveSource<V, B>,
>(
    sources: (S0, S1, S2, S3, S4, S5, S6, S7, S8),
    before: TemplateState<V, B>,
    resolved: Result<
        (
            S0::Resolved,
            S1::Resolved,
            S2::Resolved,
            S3::Resolved,
            S4::Resolved,
            S5::Resolved,
            S6::Resolved,
            S7::Resolved,
            S8::Resolved,
        ),
        TemplateError,
    >,
    after: TemplateState<V, B>,
)
    requires
        <(S0, S1, S2, S3, S4, S5, S6, S7, S8) as ReactiveSources<V, B>>::resolves_all(
            &sources,
            before,
            resolved,
            after,
        ),
    ensures
        resolved matches Ok(r) ==> resolves_then(sources.0, before, r.0, |c1: TemplateState<V, B>|
            resolves_then(sources.1, c1, r.1, |c2: TemplateState<V, B>|
                resolves_then(sources.2, c2, r.2, |c3: TemplateState<V, B>|
                    resolves_then(sources.3, c3, r.3, |c4: TemplateState<V, B>|
                        resolves_then(sources.4, c4, r.4, |c5: TemplateState<V, B>|
                            resolves_then(sources.5, c5, r.5, |c6: TemplateState<V, B>|
                                resolves_then(sources.6, c6, r.6, |c7: TemplateState<V, B>|
                                    resolves_then(sources.7, c7, r.7, |c8: TemplateState<V, B>|
                                        resolves_then(sources.8, c8, r.8, |c9: TemplateState<V, B>|
                                            c9 == after))))))))),
        resolved matches Err(error) ==> fails_or(sources.0, before, error, after, |c1: TemplateState<V, B>|
            fails_or(sources.1, c1, error, after, |c2: TemplateState<V, B>|
                fails_or(sources.2, c2, error, after, |c3: TemplateState<V, B>|
                    fails_or(sources.3, c3, error, after, |c4: TemplateState<V, B>|
                        fails_or(sources.4, c4, error, after, |c5: TemplateState<V, B>|
                            fails_or(sources.5, c5, error, after, |c6: TemplateState<V, B>|
                                fails_or(sources.6, c6, error, after, |c7: TemplateState<V, B>|
                                    fails_or(sources.7, c7, error, after, |c8: TemplateState<V, B>|
                                        fails_or(sources.8, c8, error, after, |c9: TemplateState<V, B>|
                                            false))))))))),
{
    let (
        x0, f1, c1, x1, f2, c2, x2, f3, c3, x3, f4, c4, x4, f5, c5, x5, f6, c6, x6, f7, c7,
        x7, f8, c8, x8, f9,
    ) = choose|
        x0: Option<S0::Resolved>,
        f1: Option<TemplateError>,
        c1: TemplateState<V, B>,
        x1: Option<S1::Resolved>,
        f2: Option<TemplateError>,
        c2: TemplateState<V, B>,
        x2: Option<S2::Resolved>,
        f3: Option<TemplateError>,
        c3: TemplateState<V, B>,
        x3: Option<S3::Resolved>,
        f4: Option<TemplateError>,
        c4: TemplateState<V, B>,
        x4: Option<S4::Resolved>,
        f5: Option<TemplateError>,
        c5: TemplateState<V, B>,
        x5: Option<S5::Resolved>,
        f6: Option<TemplateError>,
        c6: TemplateState<V, B>,
        x6: Option<S6::Resolved>,
        f7: Option<TemplateError>,
        c7: TemplateState<V, B>,
        x7: Option<S7::Resolved>,
        f8: Option<TemplateError>,
        c8: TemplateState<V, B>,
        x8: Option<S8::Resolved>,
        f9: Option<TemplateError>,
    |
        {
            &&& #[trigger] resolves_next(sources.0, None, before, x0, f1, c1)
            &&& #[trigger] resolves_next(sources.1, f1, c1, x1, f2, c2)
            &&& #[trigger] resolves_next(sources.2, f2, c2, x2, f3, c3)
            &&& #[trigger] resolves_next(sources.3, f3, c3, x3, f4, c4)
            &&& #[trigger] resolves_next(sources.4, f4, c4, x4, f5, c5)
            &&& #[trigger] resolves_next(sources.5, f5, c5, x5, f6, c6)
            &&& #[trigger] resolves_next(sources.6, f6, c6, x6, f7, c7)
            &&& #[trigger] resolves_next(sources.7, f7, c7, x7, f8, c8)
            &&& #[trigger] resolves_next(sources.8, f8, c8, x8, f9, after)
            &&& resolved == match f9 {
                Some(error) => Err(error),
                None => Ok((x0->0, x1->0, x2->0, x3->0, x4->0, x5->0, x6->0, x7->0, x8->0)),
            }
        };
    assert(resolves_next(sources.0, None, before, x0, f1, c1));
    assert(resolves_next(sources.1, f1, c1, x1, f2, c2));
    assert(resolves_next(sources.2, f2, c2, x2, f3, c3));
    assert(resolves_next(sources.3, f3, c3, x3, f4, c4));
    assert(resolves_next(sources.4, f4, c4, x4, f5, c5));
    assert(resolves_next(sources.5, f5, c5, x5, f6, c6));
    assert(resolves_next(sources.6, f6, c6, x6, f7, c7));
    assert(resolves_next(sources.7, f7, c7, x7, f8, c8));
    assert(resolves_next(sources.8, f8, c8, x8, f9, after));
}

/// Reading ten sources together reads each of them, one after the other, and gives the values
/// in that order.
pub proof fn law_ten_sources_are_read_in_turn<
    V,
    B,
    S0: ReactiveSource<V, B>,
    S1: ReactiveSource<V, B>,
    S2: ReactiveSource<V, B>,
    S3: ReactiveSource<V, B>,
    S4: ReactiveSource<V, B>,
    S5: ReactiveSource<V, B>,
    S6: ReactiveSource<V, B>,
    S7: ReactiveSource<V, B>,
    S8: ReactiveSource<V, B>,
    S9: ReactiveSource<V, B>,
>(
    sources: (S0, S1, S2, S3, S4, S5, S6, S7, S8, S9),
    resolved: (
        S0::Resolved,
        S1::Resolved,
        S2::Resolved,
        S3::Resolved,
        S4::Resolved,
        S5::Resolved,
        S6::Resolved,
        S7::Resolved,
        S8::Resolved,
        S9::Resolved,
    ),
    before: ContextState<V, B>,
    values: (
        S0::Output,
        S1::Output,
        S2::Output,
        S3::Output,
        S4::Output,
        S5::Output,
        S6::Output,
        S7::Output,
        S8::Output,
        S9::Output,
    ),
    after: ContextState<V, B>,
)
    requires
        <(S0, S1, S2, S3, S4, S5, S6, S7, S8, S9) as ReactiveSources<V, B>>::reads_all(
            &sources,
            resolved,
            before,
            values,
            after,
        ),
    ensures
        reads_then(sources.0, resolved.0, before, values.0, |c1: ContextState<V, B>|
            reads_then(sources.1, resolved.1, c1, values.1, |c2: ContextState<V, B>|
                reads_then(sources.2, resolved.2, c2, values.2, |c3: ContextState<V, B>|
                    reads_then(sources.3, resolved.3, c3, values.3, |c4: ContextState<V, B>|
                        reads_then(sources.4, resolved.4, c4, values.4, |c5: ContextState<V, B>|
                            reads_then(sources.5, resolved.5, c5, values.5, |c6: ContextState<V, B>|
                                reads_then(sources.6, resolved.6, c6, values.6, |c7: ContextState<V, B>|
                                    reads_then(sources.7, resolved.7, c7, values.7, |c8: ContextState<V, B>|
                                        reads_then(sources.8, resolved.8, c8, values.8, |c9: ContextState<V, B>|
                                            reads_then(sources.9, resolved.9, c9, values.9, |c10: ContextState<V, B>|
                                                c10 == after)))))))))),
{
}

/// Resolving ten sources together resolves each of them, one after the other, and gives the
/// results in that order. If one fails, the others behind it are not resolved.
pub proof fn law_ten_sources_are_resolved_in_turn<
    V,
    B,
    S0: ReactiveSource<V, B>,
    S1: ReactiveSource<V, B>,
    S2: ReactiveSource<V, B>,
    S3: ReactiveSource<V, B>,
    S4: ReactiveSource<V, B>,
    S5: ReactiveSource<V, B>,
    S6: ReactiveSource<V, B>,
    S7: ReactiveSource<V, B>,
    S8: ReactiveSource<V, B>,
    S9: ReactiveSource<V, B>,
>(
    sources: (S0, S1, S2, S3, S4, S5, S6, S7, S8, S9),
    before: TemplateState<V, B>,
    resolved: Result<
        (
            S0::Resolved,
            S1::Resolved,
            S2::Resolved,
            S3::Resolved,
            S4::Resolved,
            S5::Resolved,
            S6::Resolved,
            S7::Resolved,
            S8::Resolved,
            S9::Resolved,
        ),
        TemplateError,
    >,
    after: TemplateState<V, B>,
)
    requires
        <(S0, S1, S2, S3, S4, S5, S6, S7, S8, S9) as ReactiveSources<V, B>>::resolves_all(
            &sources,
            before,
            resolved,
            after,
        ),
    ensures
        resolved matches Ok(r) ==> resolves_then(sources.0, before, r.0, |c1: TemplateState<V, B>|
            resolves_then(sources.1, c1, r.1, |c2: TemplateState<V, B>|
                resolves_then(sources.2, c2, r.2, |c3: TemplateState<V, B>|
                    resolves_then(sources.3, c3, r.3, |c4: TemplateState<V, B>|
                        resolves_then(sources.4, c4, r.4, |c5: TemplateState<V, B>|
                            resolves_then(sources.5, c5, r.5, |c6: TemplateState<V, B>|
                                resolves_then(sources.6, c6, r.6, |c7: TemplateState<V, B>|
                                    resolves_then(sources.7, c7, r.7, |c8: TemplateState<V, B>|
                                        resolves_then(sources.8, c8, r.8, |c9: TemplateState<V, B>|
                                            resolves_then(sources.9, c9, r.9, |c10: TemplateState<V, B>|
                                                c10 == after)))))))))),
        resolved matches Err(error) ==> fails_or(sources.0, before, error, after, |c1: TemplateState<V, B>|
            fails_or(sources.1, c1, error, after, |c2: TemplateState<V, B>|
                fails_or(sources.2, c2, error, after, |c3: TemplateState<V, B>|
                    fails_or(sources.3, c3, error, after, |c4: TemplateState<V, B>|
                        fails_or(sources.4, c4, error, after, |c5: TemplateState<V, B>|
                            fails_or(sources.5, c5, error, after, |c6: TemplateState<V, B>|
                                fails_or(sources.6, c6, error, after, |c7: TemplateState<V, B>|
                                    fails_or(sources.7, c7, error, after, |c8: TemplateState<V, B>|
                                        fails_or(sources.8, c8, error, after, |c9: TemplateState<V, B>|
                                            fails_or(sources.9, c9, error, after, |c10: TemplateState<V, B>|
                                                false)))))))))),
{
    let (
        x0, f1, c1, x1, f2, c2, x2, f3, c3, x3, f4, c4, x4, f5, c5, x5, f6, c6, x6, f7, c7,
        x7, f8, c8, x8, f9, c9, x9, f10,
    ) = choose|
        x0: Option<S0::Resolved>,
        f1: Option<TemplateError>,
        c1: TemplateState<V, B>,
        x1: Option<S1::Resolved>,
        f2: Option<TemplateError>,
        c2: TemplateState<V, B>,
        x2: Option<S2::Resolved>,
        f3: Option<TemplateError>,
        c3: TemplateState<V, B>,
        x3: Option<S3::Resolved>,
        f4: Option<TemplateError>,
        c4: TemplateState<V, B>,
        x4: Option<S4::Resolved>,
        f5: Option<TemplateError>,
        c5: TemplateState<V, B>,
        x5: Option<S5::Resolved>,
        f6: Option<TemplateError>,
        c6: TemplateState<V, B>,
        x6: Option<S6::Resolved>,
        f7: Option<TemplateError>,
        c7: TemplateState<V, B>,
        x7: Option<S7::Resolved>,
        f8: Option<TemplateError>,
        c8: TemplateState<V, B>,
        x8: Option<S8::Resolved>,
        f9: Option<TemplateError>,
        c9: TemplateState<V, B>,
        x9: Option<S9::Resolved>,
        f10: Option<TemplateError>,
    |
        {
            &&& #[trigger] resolves_next(sources.0, None, before, x0, f1, c1)
            &&& #[trigger] resolves_next(sources.1, f1, c1, x1, f2, c2)
            &&& #[trigger] resolves_next(sources.2, f2, c2, x2, f3, c3)
            &&& #[trigger] resolves_next(sources.3, f3, c3, x3, f4, c4)
            &&& #[trigger] resolves_next(sources.4, f4, c4, x4, f5, c5)
            &&& #[trigger] resolves_next(sources.5, f5, c5, x5, f6, c6)
            &&& #[trigger] resolves_next(sources.6, f6, c6, x6, f7, c7)
            &&& #[trigger] resolves_next(sources.7, f7, c7, x7, f8, c8)
            &&& #[trigger] resolves_next(sources.8, f8, c8, x8, f9, c9)
            &&& #[trigger] resolves_next(sources.9, f9, c9, x9, f10, after)
            &&& resolved == match f10 {
                Some(error) => Err(error),
                None => Ok((x0->0, x1->0, x2->0, x3->0, x4->0, x5->0, x6->0, x7->0, x8->0, x9->0)),
            }
        };
    assert(resolves_next(sources.0, None, before, x0, f1, c1));
    assert(resolves_next(sources.1, f1, c1, x1, f2, c2));
    assert(resolves_next(sources.2, f2, c2, x2, f3, c3));
    assert(resolves_next(sources.3, f3, c3, x3, f4, c4));
    assert(resolves_next(sources.4, f4, c4, x4, f5, c5));
    assert(resolves_next(sources.5, f5, c5, x5, f6, c6));
    assert(resolves_next(sources.6, f6, c6, x6, f7, c7));
    assert(resolves_next(sources.7, f7, c7, x7, f8, c8));
    assert(resolves_next(sources.8, f8, c8, x8, f9, c9));
    assert(resolves_next(sources.9, f9, c9, x9, f10, after));
}

/// Reading eleven sources together reads each of them, one after the other, and gives the
/// values in that order.
pub proof fn law_eleven_sources_are_read_in_turn<
    V,
    B,
    S0: ReactiveSource<V, B>,
    S1: ReactiveSource<V, B>,
    S2: ReactiveSource<V, B>,
    S3: ReactiveSource<V, B>,
    S4: ReactiveSource<V, B>,
    S5: ReactiveSource<V, B>,
    S6: ReactiveSource<V, B>,
    S7: ReactiveSource<V, B>,
    S8: ReactiveSource<V, B>,
    S9: ReactiveSource<V, B>,
    S10: ReactiveSource<V, B>,
>(
    sources: (S0, S1, S2, S3, S4, S5, S6, S7, S8, S9, S10),
    resolved: (
        S0::Resolved,
        S1::Resolved,
        S2::Resolved,
        S3::Resolved,
        S4::Resolved,
        S5::Resolved,
        S6::Resolved,
        S7::Resolved,
        S8::Resolved,
        S9::Resolved,
        S10::Resolved,
    ),
    before: ContextState<V, B>,
    values: (
        S0::Output,
        S1::Output,
        S2::Output,
        S3::Output,
        S4::Output,
        S5::Output,
        S6::Output,
        S7::Output,
        S8::Output,
        S9::Output,
        S10::Output,
    ),
    after: ContextState<V, B>,
)
    requires
        <(S0, S1, S2, S3, S4, S5, S6, S7, S8, S9, S10) as ReactiveSources<V, B>>::reads_all(
            &sources,
            resolved,
            before,
            values,
            after,
        ),
    ensures
        reads_then(sources.0, resolved.0, before, values.0, |c1: ContextState<V, B>|
            reads_then(sources.1, resolved.1, c1, values.1, |c2: ContextState<V, B>|
                reads_then(sources.2, resolved.2, c2, values.2, |c3: ContextState<V, B>|
                    reads_then(sources.3, resolved.3, c3, values.3, |c4: ContextState<V, B>|
                        reads_then(sources.4, resolved.4, c4, values.4, |c5: ContextState<V, B>|
                            reads_then(sources.5, resolved.5, c5, values.5, |c6: ContextState<V, B>|
                                reads_then(sources.6, resolved.6, c6, values.6, |c7: ContextState<V, B>|
                                    reads_then(sources.7, resolved.7, c7, values.7, |c8: ContextState<V, B>|
                                        reads_then(sources.8, resolved.8, c8, values.8, |c9: ContextState<V, B>|
                                            reads_then(sources.9, resolved.9, c9, values.9, |c10: ContextState<V, B>|
                                                reads_then(sources.10, resolved.10, c10, values.10, |c11: ContextState<V, B>|
                                                    c11 == after))))))))))),
{
}

/// Resolving eleven sources together resolves each of them, one after the other, and gives the
/// results in that order. If one fails, the others behind it are not resolved.
pub proof fn law_eleven_sources_are_resolved_in_turn<
    V,
    B,
    S0: ReactiveSource<V, B>,
    S1: ReactiveSource<V, B>,
    S2: ReactiveSource<V, B>,
    S3: ReactiveSource<V, B>,
    S4: ReactiveSource<V, B>,
    S5: ReactiveSource<V, B>,
    S6: ReactiveSource<V, B>,
    S7: ReactiveSource<V, B>,
    S8: ReactiveSource<V, B>,
    S9: ReactiveSource<V, B>,
    S10: ReactiveSource<V, B>,
>(
    sources: (S0, S1, S2, S3, S4, S5, S6, S7, S8, S9, S10),
    before: TemplateState<V, B>,
    resolved: Result<
        (
            S0::Resolved,
            S1::Resolved,
            S2::Resolved,
            S3::Resolved,
            S4::Resolved,
            S5::Resolved,
            S6::Resolved,
            S7::Resolved,
            S8::Resolved,
            S9::Resolved,
            S10::Resolved,
        ),
        TemplateError,
    >,
    after: TemplateState<V, B>,
)
    requires
        <(S0, S1, S2, S3, S4, S5, S6, S7, S8, S9, S10) as ReactiveSources<V, B>>::resolves_all(
            &sources,
            before,
            resolved,
            after,
        ),
    ensures
        resolved matches Ok(r) ==> resolves_then(sources.0, before, r.0, |c1: TemplateState<V, B>|
            resolves_then(sources.1, c1, r.1, |c2: TemplateState<V, B>|
                resolves_then(sources.2, c2, r.2, |c3: TemplateState<V, B>|
                    resolves_then(sources.3, c3, r.3, |c4: TemplateState<V, B>|
                        resolves_then(sources.4, c4, r.4, |c5: TemplateState<V, B>|
                            resolves_then(sources.5, c5, r.5, |c6: TemplateState<V, B>|
                                resolves_then(sources.6, c6, r.6, |c7: TemplateState<V, B>|
                                    resolves_then(sources.7, c7, r.7, |c8: TemplateState<V, B>|
                                        resolves_then(sources.8, c8, r.8, |c9: TemplateState<V, B>|
                                            resolves_then(sources.9, c9, r.9, |c10: TemplateState<V, B>|
                                                resolves_then(sources.10, c10, r.10, |c11: TemplateState<V, B>|
                                                    c11 == after))))))))))),
        resolved matches Err(error) ==> fails_or(sources.0, before, error, after, |c1: TemplateState<V, B>|
            fails_or(sources.1, c1, error, after, |c2: TemplateState<V, B>|
                fails_or(sources.2, c2, error, after, |c3: TemplateState<V, B>|
                    fails_or(sources.3, c3, error, after, |c4: TemplateState<V, B>|
                        fails_or(sources.4, c4, error, after, |c5: TemplateState<V, B>|
                            fails_or(sources.5, c5, error, after, |c6: TemplateState<V, B>|
                                fails_or(sources.6, c6, error, after, |c7: TemplateState<V, B>|
                                    fails_or(sources.7, c7, error, after, |c8: TemplateState<V, B>|
                                        fails_or(sources.8, c8, error, after, |c9: TemplateState<V, B>|
                                            fails_or(sources.9, c9, error, after, |c10: TemplateState<V, B>|
                                                fails_or(sources.10, c10, error, after, |c11: TemplateState<V, B>|
                                                    false))))))))))),
{
    let (
        x0, f1, c1, x1, f2, c2, x2, f3, c3, x3, f4, c4, x4, f5, c5, x5, f6, c6, x6, f7, c7,
        x7, f8, c8, x8, f9, c9, x9, f10, c10, x10, f11,
    ) = choose|
        x0: Option<S0::Resolved>,
        f1: Option<TemplateError>,
        c1: TemplateState<V, B>,
        x1: Option<S1::Resolved>,
        f2: Option<TemplateError>,
        c2: TemplateState<V, B>,
        x2: Option<S2::Resolved>,
        f3: Option<TemplateError>,
        c3: TemplateState<V, B>,
        x3: Option<S3::Resolved>,
        f4: Option<TemplateError>,
        c4: TemplateState<V, B>,
        x4: Option<S4::Resolved>,
        f5: Option<TemplateError>,
        c5: TemplateState<V, B>,
        x5: Option<S5::Resolved>,
        f6: Option<TemplateError>,
        c6: TemplateState<V, B>,
        x6: Option<S6::Resolved>,
        f7: Option<TemplateError>,
        c7: TemplateState<V, B>,
        x7: Option<S7::Resolved>,
        f8: Option<TemplateError>,
        c8: TemplateState<V, B>,
        x8: Option<S8::Resolved>,
        f9: Option<TemplateError>,
        c9: TemplateState<V, B>,
        x9: Option<S9::Resolved>,
        f10: Option<TemplateError>,
        c10: TemplateState<V, B>,
        x10: Option<S10::Resolved>,
        f11: Option<TemplateError>,
    |
        {
            &&& #[trigger] resolves_next(sources.0, None, before, x0, f1, c1)
            &&& #[trigger] resolves_next(sources.1, f1, c1, x1, f2, c2)
            &&& #[trigger] resolves_next(sources.2, f2, c2, x2, f3, c3)
            &&& #[trigger] resolves_next(sources.3, f3, c3, x3, f4, c4)
            &&& #[trigger] resolves_next(sources.4, f4, c4, x4, f5, c5)
            &&& #[trigger] resolves_next(sources.5, f5, c5, x5, f6, c6)
            &&& #[trigger] resolves_next(sources.6, f6, c6, x6, f7, c7)
            &&& #[trigger] resolves_next(sources.7, f7, c7, x7, f8, c8)
            &&& #[trigger] resolves_next(sources.8, f8, c8, x8, f9, c9)
            &&& #[trigger] resolves_next(sources.9, f9, c9, x9, f10, c10)
            &&& #[trigger] resolves_next(sources.10, f10, c10, x10, f11, after)
            &&& resolved == match f11 {
                Some(error) => Err(error),
                None => Ok((x0->0, x1->0, x2->0, x3->0, x4->0, x5->0, x6->0, x7->0, x8->0, x9->0, x10->0)),
            }
        };
    assert(resolves_next(sources.0, None, before, x0, f1, c1));
    assert(resolves_next(sources.1, f1, c1, x1, f2, c2));
    assert(resolves_next(sources.2, f2, c2, x2, f3, c3));
    assert(resolves_next(sources.3, f3, c3, x3, f4, c4));
    assert(resolves_next(sources.4, f4, c4, x4, f5, c5));
    assert(resolves_next(sources.5, f5, c5, x5, f6, c6));
    assert(resolves_next(sources.6, f6, c6, x6, f7, c7));
    assert(resolves_next(sources.7, f7, c7, x7, f8, c8));
    assert(resolves_next(sources.8, f8, c8, x8, f9, c9));
    assert(resolves_next(sources.9, f9, c9, x9, f10, c10));
    assert(resolves_next(sources.10, f10, c10, x10, f11, after));
}

/// Reading twelve sources together reads each of them, one after the other, and gives the
/// values in that order.
pub proof fn law_twelve_sources_are_read_in_turn<
    V,
    B,
    S0: ReactiveSource<V, B>,
    S1: ReactiveSource<V, B>,
    S2: ReactiveSource<V, B>,
    S3: ReactiveSource<V, B>,
    S4: ReactiveSource<V, B>,
    S5: ReactiveSource<V, B>,
    S6: ReactiveSource<V, B>,
    S7: ReactiveSource<V, B>,
    S8: ReactiveSource<V, B>,
    S9: ReactiveSource<V, B>,
    S10: ReactiveSource<V, B>,
    S11: ReactiveSource<V, B>,
>(
    sources: (S0, S1, S2, S3, S4, S5, S6, S7, S8, S9, S10, S11),
    resolved: (
        S0::Resolved,
        S1::Resolved,
        S2::Resolved,
        S3::Resolved,
        S4::Resolved,
        S5::Resolved,
        S6::Resolved,
        S7::Resolved,
        S8::Resolved,
        S9::Resolved,
        S10::Resolved,
        S11::Resolved,
    ),
    before: ContextState<V, B>,
    values: (
        S0::Output,
        S1::Output,
        S2::Output,
        S3::Output,
        S4::Output,
        S5::Output,
        S6::Output,
        S7::Output,
        S8::Output,
        S9::Output,
        S10::Output,
        S11::Output,
    ),
    after: ContextState<V, B>,
)
    requires
        <(S0, S1, S2, S3, S4, S5, S6, S7, S8, S9, S10, S11) as ReactiveSources<V, B>>::reads_all(
            &sources,
            resolved,
            before,
            values,
            after,
        ),
    ensures
        reads_then(sources.0, resolved.0, before, values.0, |c1: ContextState<V, B>|
            reads_then(sources.1, resolved.1, c1, values.1, |c2: ContextState<V, B>|
                reads_then(sources.2, resolved.2, c2, values.2, |c3: ContextState<V, B>|
                    reads_then(sources.3, resolved.3, c3, values.3, |c4: ContextState<V, B>|
                        reads_then(sources.4, resolved.4, c4, values.4, |c5: ContextState<V, B>|
                            reads_then(sources.5, resolved.5, c5, values.5, |c6: ContextState<V, B>|
                                reads_then(sources.6, resolved.6, c6, values.6, |c7: ContextState<V, B>|
                                    reads_then(sources.7, resolved.7, c7, values.7, |c8: ContextState<V, B>|
                                        reads_then(sources.8, resolved.8, c8, values.8, |c9: ContextState<V, B>|
                                            reads_then(sources.9, resolved.9, c9, values.9, |c10: ContextState<V, B>|
                                                reads_then(sources.10, resolved.10, c10, values.10, |c11: ContextState<V, B>|
                                                    reads_then(sources.11, resolved.11, c11, values.11, |c12: ContextState<V, B>|
                                                        c12 == after)))))))))))),
{
}

/// Resolving twelve sources together resolves each of them, one after the other, and gives the
/// results in that order. If one fails, the others behind it are not resolved.
pub proof fn law_twelve_sources_are_resolved_in_turn<
    V,
    B,
    S0: ReactiveSource<V, B>,
    S1: ReactiveSource<V, B>,
    S2: ReactiveSource<V, B>,
    S3: ReactiveSource<V, B>,
    S4: ReactiveSource<V, B>,
    S5: ReactiveSource<V, B>,
    S6: ReactiveSource<V, B>,
    S7: ReactiveSource<V, B>,
    S8: ReactiveSource<V, B>,
    S9: ReactiveSource<V, B>,
    S10: ReactiveSource<V, B>,
    S11: ReactiveSource<V, B>,
>(
    sources: (S0, S1, S2, S3, S4, S5, S6, S7, S8, S9, S10, S11),
    before: TemplateState<V, B>,
    resolved: Result<
        (
            S0::Resolved,
            S1::Resolved,
            S2::Resolved,
            S3::Resolved,
            S4::Resolved,
            S5::Resolved,
            S6::Resolved,
            S7::Resolved,
            S8::Resolved,
            S9::Resolved,
            S10::Resolved,
            S11::Resolved,
        ),
        TemplateError,
    >,
    after: TemplateState<V, B>,
)
    requires
        <(S0, S1, S2, S3, S4, S5, S6, S7, S8, S9, S10, S11) as ReactiveSources<V, B>>::resolves_all(
            &sources,
            before,
            resolved,
            after,
        ),
    ensures
        resolved matches Ok(r) ==> resolves_then(sources.0, before, r.0, |c1: TemplateState<V, B>|
            resolves_then(sources.1, c1, r.1, |c2: TemplateState<V, B>|
                resolves_then(sources.2, c2, r.2, |c3: TemplateState<V, B>|
                    resolves_then(sources.3, c3, r.3, |c4: TemplateState<V, B>|
                        resolves_then(sources.4, c4, r.4, |c5: TemplateState<V, B>|
                            resolves_then(sources.5, c5, r.5, |c6: TemplateState<V, B>|
                                resolves_then(sources.6, c6, r.6, |c7: TemplateState<V, B>|
                                    resolves_then(sources.7, c7, r.7, |c8: TemplateState<V, B>|
                                        resolves_then(sources.8, c8, r.8, |c9: TemplateState<V, B>|
                                            resolves_then(sources.9, c9, r.9, |c10: TemplateState<V, B>|
                                                resolves_then(sources.10, c10, r.10, |c11: TemplateState<V, B>|
                                                    resolves_then(sources.11, c11, r.11, |c12: TemplateState<V, B>|
                                                        c12 == after)))))))))))),
        resolved matches Err(error) ==> fails_or(sources.0, before, error, after, |c1: TemplateState<V, B>|
            fails_or(sources.1, c1, error, after, |c2: TemplateState<V, B>|
                fails_or(sources.2, c2, error, after, |c3: TemplateState<V, B>|
                    fails_or(sources.3, c3, error, after, |c4: TemplateState<V, B>|
                        fails_or(sources.4, c4, error, after, |c5: TemplateState<V, B>|
                            fails_or(sources.5, c5, error, after, |c6: TemplateState<V, B>|
                                fails_or(sources.6, c6, error, after, |c7: TemplateState<V, B>|
                                    fails_or(sources.7, c7, error, after, |c8: TemplateState<V, B>|
                                        fails_or(sources.8, c8, error, after, |c9: TemplateState<V, B>|
                                            fails_or(sources.9, c9, error, after, |c10: TemplateState<V, B>|
                                                fails_or(sources.10, c10, error, after, |c11: TemplateState<V, B>|
                                                    fails_or(sources.11, c11, error, after, |c12: TemplateState<V, B>|
                                                        false)))))))))))),
{
    let (
        x0, f1, c1, x1, f2, c2, x2, f3, c3, x3, f4, c4, x4, f5, c5, x5, f6, c6, x6, f7, c7,
        x7, f8, c8, x8, f9, c9, x9, f10, c10, x10, f11, c11, x11, f12,
    ) = choose|
        x0: Option<S0::Resolved>,
        f1: Option<TemplateError>,
        c1: TemplateState<V, B>,
        x1: Option<S1::Resolved>,
        f2: Option<TemplateError>,
        c2: TemplateState<V, B>,
        x2: Option<S2::Resolved>,
        f3: Option<TemplateError>,
        c3: TemplateState<V, B>,
        x3: Option<S3::Resolved>,
        f4: Option<TemplateError>,
        c4: TemplateState<V, B>,
        x4: Option<S4::Resolved>,
        f5: Option<TemplateError>,
        c5: TemplateState<V, B>,
        x5: Option<S5::Resolved>,
        f6: Option<TemplateError>,
        c6: TemplateState<V, B>,
        x6: Option<S6::Resolved>,
        f7: Option<TemplateError>,
        c7: TemplateState<V, B>,
        x7: Option<S7::Resolved>,
        f8: Option<TemplateError>,
        c8: TemplateState<V, B>,
        x8: Option<S8::Resolved>,
        f9: Option<TemplateError>,
        c9: TemplateState<V, B>,
        x9: Option<S9::Resolved>,
        f10: Option<TemplateError>,
        c10: TemplateState<V, B>,
        x10: Option<S10::Resolved>,
        f11: Option<TemplateError>,
        c11: TemplateState<V, B>,
        x11: Option<S11::Resolved>,
        f12: Option<TemplateError>,
    |
        {
            &&& #[trigger] resolves_next(sources.0, None, before, x0, f1, c1)
            &&& #[trigger] resolves_next(sources.1, f1, c1, x1, f2, c2)
            &&& #[trigger] resolves_next(sources.2, f2, c2, x2, f3, c3)
            &&& #[trigger] resolves_next(sources.3, f3, c3, x3, f4, c4)
            &&& #[trigger] resolves_next(sources.4, f4, c4, x4, f5, c5)
            &&& #[trigger] resolves_next(sources.5, f5, c5, x5, f6, c6)
            &&& #[trigger] resolves_next(sources.6, f6, c6, x6, f7, c7)
            &&& #[trigger] resolves_next(sources.7, f7, c7, x7, f8, c8)
            &&& #[trigger] resolves_next(sources.8, f8, c8, x8, f9, c9)
            &&& #[trigger] resolves_next(sources.9, f9, c9, x9, f10, c10)
            &&& #[trigger] resolves_next(sources.10, f10, c10, x10, f11, c11)
            &&& #[trigger] resolves_next(sources.11, f11, c11, x11, f12, after)
            &&& resolved == match f12 {
                Some(error) => Err(error),
                None => Ok((x0->0, x1->0, x2->0, x3->0, x4->0, x5->0, x6->0, x7->0, x8->0, x9->0, x10->0, x11->0)),
            }
        };
    assert(resolves_next(sources.0, None, before, x0, f1, c1));
    assert(resolves_next(sources.1, f1, c1, x1, f2, c2));
    assert(resolves_next(sources.2, f2, c2, x2, f3, c3));
    assert(resolves_next(sources.3, f3, c3, x3, f4, c4));
    assert(resolves_next(sources.4, f4, c4, x4, f5, c5));
    assert(resolves_next(sources.5, f5, c5, x5, f6, c6));
    assert(resolves_next(sources.6, f6, c6, x6, f7, c7));
    assert(resolves_next(sources.7, f7, c7, x7, f8, c8));
    assert(resolves_next(sources.8, f8, c8, x8, f9, c9));
    assert(resolves_next(sources.9, f9, c9, x9, f10, c10));
    assert(resolves_next(sources.10, f10, c10, x10, f11, c11));
    assert(resolves_next(sources.11, f11, c11, x11, f12, after));
}

} // verus!
