//! What reactive fields do when they run, are registered, built, and made part of scenes, and what
//! building a scene does, said of the parts that they are made of and of what the world holds before
//! and after.
use crate::component::Component;
use crate::context::{BodyFrom, ContextState, EffectBody};
use crate::effect::effect_spawned;
use crate::effect_laws::{lemma_spawns_effect, spawns_effect};
use crate::field_effect::{
    deduped_ran, field_ran, registers_deduped, registers_field, remembering, written,
    DedupedFieldBody, DedupedFieldEffect, DedupedFieldRegistration, FieldBody, FieldEffect,
    FieldRegistration, FieldSetter, LastValue, SetWith,
};
use crate::id::{ComponentId, Entity};
use crate::reactive::{
    reactive_field, reactive_field_deduped, DedupedReactiveField, ReactiveField,
};
use crate::scene::{
    all_built, builds_next, BoxedTemplate, ResolvedScene, Scene, SceneState,
};
use crate::source::{ReactiveSources, SourcesTypes};
use crate::state::{EntityState, WorldState};
use crate::template::{
    all_registered, BoxedEffectRegistration, EffectRegistration, QueuedEffects, ScopedEntities,
    Template, TemplateError, TemplateState,
};
use crate::world::World;
use crate::world_laws::{same_beside_entities, same_but_components, same_others};
use vstd::prelude::*;

verus! {

/// What `entity` holds of the component `C`.
pub open spec fn holds<V, B, C: Component<V>>(w: WorldState<V, B>, entity: Entity) -> Option<C> {
    if w.entities.contains_key(entity) && w.entities[entity].components.contains_key(C::id()) {
        C::held(w.entities[entity].components[C::id()].value)
    } else {
        None
    }
}

/// Whether the component `C` of `entity` was written, and nothing else: it now holds `component`, and
/// counts as changed now.
pub open spec fn only_writes<V, B, C: Component<V>>(
    before: ContextState<V, B>,
    entity: Entity,
    component: C,
    after: ContextState<V, B>,
) -> bool {
    &&& after.effect == before.effect
    &&& after.target == before.target
    &&& after.reads == before.reads
    &&& after.world.next == before.world.next
    &&& after.world.noticed == before.world.noticed
    &&& same_beside_entities(before.world, after.world)
    &&& same_others(before.world, after.world, entity)
    &&& after.world.entities.contains_key(entity)
    &&& same_but_components(before.world, after.world, entity)
    &&& after.world.entities[entity].components.contains_key(C::id())
    &&& C::held(after.world.entities[entity].components[C::id()].value) == Some(component)
    &&& after.world.entities[entity].components[C::id()].changed == before.world.tick
    &&& forall|id: ComponentId|
        id != C::id() ==> #[trigger] after.world.entities[entity].components.contains_key(id)
            == before.world.entities[entity].components.contains_key(id)
    &&& forall|id: ComponentId|
        id != C::id() && before.world.entities[entity].components.contains_key(id)
            ==> #[trigger] after.world.entities[entity].components[id]
            == before.world.entities[entity].components[id]
}

/// Whether `value` was written into the component `C` of `entity` through `setter`, and nothing else
/// was; or nothing was, where there is no such component.
pub open spec fn sets_field<V, B, C: Component<V>, T, S: FieldSetter<C, T>>(
    setter: S,
    entity: Entity,
    before: ContextState<V, B>,
    value: T,
    after: ContextState<V, B>,
) -> bool {
    match holds::<V, B, C>(before.world, entity) {
        Some(component) => exists|changed: C| #[trigger]
            setter.sets(component, value, changed) && only_writes(before, entity, changed, after),
        None => after == before,
    }
}

/// Writing a field of the model is writing a field.
proof fn lemma_sets_field<V, B, C: Component<V>, T, S: FieldSetter<C, T>>(
    setter: S,
    entity: Entity,
    before: ContextState<V, B>,
    value: T,
    after: ContextState<V, B>,
)
    requires
        written::<V, B, C, T, S>(setter, entity, before, value, after),
    ensures
        sets_field::<V, B, C, T, S>(setter, entity, before, value, after),
{
    if let Some(component) = before.world.value::<C>(entity) {
        let changed = choose|changed: C| #[trigger]
            setter.sets(component, value, changed) && after == (ContextState {
                world: before.world.with_component(
                    entity,
                    C::id(),
                    crate::component::Stored {
                        value: changed.stored(),
                        changed: before.world.tick,
                    },
                ),
                ..before
            }) && after.world.value::<C>(entity) == Some(changed);
        assert(setter.sets(component, value, changed));
        assert(only_writes(before, entity, changed, after));
    }
}

/// A run of a reactive field reads its sources once, produces a value from what was read, and writes
/// that value into one component of one entity, on every run. Nothing else is touched.
pub proof fn law_a_field_reads_produces_and_writes<
    V,
    B,
    C: Component<V>,
    T,
    Src: ReactiveSources<V, B>,
    P: Fn(Src::Output) -> T,
    S: FieldSetter<C, T>,
>(body: FieldBody<C, T, Src, P, S>, before: ContextState<V, B>, after: ContextState<V, B>)
    requires
        body.runs(before, after),
    ensures
        exists|values: Src::Output, middle: ContextState<V, B>, value: T|
            {
                &&& #[trigger] body.field.sources().reads_all(*body.resolved, before, values, middle)
                &&& #[trigger] call_ensures(body.field.producer(), (values,), value)
                &&& sets_field::<V, B, C, T, S>(
                    body.field.setter(),
                    body.target,
                    middle,
                    value,
                    after,
                )
            },
{
    let (value, middle) = choose|value: T, middle: ContextState<V, B>| #[trigger]
        field_ran(body, before, value, middle, after);
    let values = choose|values: Src::Output| #[trigger]
        body.field.sources().reads_all(*body.resolved, before, values, middle) && call_ensures(
            body.field.producer(),
            (values,),
            value,
        );
    lemma_sets_field::<V, B, C, T, S>(body.field.setter(), body.target, middle, value, after);
    assert(body.field.sources().reads_all(*body.resolved, before, values, middle));
    assert(call_ensures(body.field.producer(), (values,), value));
}

/// A run of a deduplicated field reads its sources once, and produces a value from what was read. It
/// compares that with the one that its effect keeps. If they are equal, nothing else happens.
/// Otherwise, or if none is kept, a copy of the value is kept, and the value is written into one
/// component of one entity.
pub proof fn law_a_deduplicated_field_compares_and_writes<
    V,
    B,
    C: Component<V>,
    T: PartialEq + Clone,
    Src: ReactiveSources<V, B>,
    P: Fn(Src::Output) -> T,
    S: FieldSetter<C, T>,
>(body: DedupedFieldBody<C, T, Src, P, S>, before: ContextState<V, B>, after: ContextState<V, B>) where
    LastValue<T>: Component<V>,

    requires
        body.runs(before, after),
    ensures
        exists|values: Src::Output, middle: ContextState<V, B>, value: T|
            {
                &&& #[trigger] body.field.sources().reads_all(*body.resolved, before, values, middle)
                &&& #[trigger] call_ensures(body.field.producer(), (values,), value)
                &&& match holds::<V, B, LastValue<T>>(middle.world, middle.effect) {
                    Some(last) => {
                        ||| call_ensures(<T as PartialEq>::eq, (&last.0, &value), true) && after == middle
                        ||| call_ensures(<T as PartialEq>::eq, (&last.0, &value), false)
                            && keeps_and_writes::<V, B, C, T, S>(
                            body.field.setter(),
                            body.target,
                            middle,
                            value,
                            after,
                        )
                    },
                    None => keeps_and_writes::<V, B, C, T, S>(
                        body.field.setter(),
                        body.target,
                        middle,
                        value,
                        after,
                    ),
                }
            },
{
    let (value, middle, same) = choose|value: T, middle: ContextState<V, B>, same: bool| #[trigger]
        deduped_ran(body, before, value, middle, same, after);
    let values = choose|values: Src::Output| #[trigger]
        body.field.sources().reads_all(*body.resolved, before, values, middle) && call_ensures(
            body.field.producer(),
            (values,),
            value,
        );
    if !same {
        let kept = choose|kept: T| #[trigger]
            cloned(value, kept) && written(
                body.field.setter(),
                body.target,
                remembering(middle, kept),
                value,
                after,
            ) && (middle.world.alive(middle.effect) ==> remembering(middle, kept).world.value::<
                LastValue<T>,
            >(middle.effect) == Some(LastValue(kept)));
        let noted = remembering(middle, kept);
        lemma_sets_field::<V, B, C, T, S>(body.field.setter(), body.target, noted, value, after);
        assert(cloned(value, kept));
        assert(takes_note(middle, kept, noted));
    }
    assert(body.field.sources().reads_all(*body.resolved, before, values, middle));
    assert(call_ensures(body.field.producer(), (values,), value));
}

/// Whether `kept` was kept on the entity of the effect that runs, and nothing else was done.
pub open spec fn takes_note<V, B, T>(
    before: ContextState<V, B>,
    kept: T,
    after: ContextState<V, B>,
) -> bool where LastValue<T>: Component<V> {
    if before.world.entities.contains_key(before.effect) {
        only_writes(before, before.effect, LastValue(kept), after)
    } else {
        after == before
    }
}

/// Whether a copy of `value` was kept, and then the value written.
pub open spec fn keeps_and_writes<V, B, C: Component<V>, T: Clone, S: FieldSetter<C, T>>(
    setter: S,
    target: Entity,
    before: ContextState<V, B>,
    value: T,
    after: ContextState<V, B>,
) -> bool where LastValue<T>: Component<V> {
    exists|kept: T, noted: ContextState<V, B>|
        {
            &&& #[trigger] cloned(value, kept)
            &&& #[trigger] takes_note(before, kept, noted)
            &&& sets_field::<V, B, C, T, S>(setter, target, noted, value, after)
        }
}

/// Whether an effect was spawned for `target` whose runs are all runs of `inner`: a new one, tied to
/// the target as the last of its effects, and run once.
pub open spec fn spawns_one<V, B: EffectBody<V, B>, F: EffectBody<V, B>>(
    before: WorldState<V, B>,
    inner: F,
    target: Entity,
    after: WorldState<V, B>,
) -> bool {
    exists|body: B|
        {
            &&& #[trigger] spawns_effect(
                before,
                body,
                Some(target),
                Entity(before.next as u64),
                after,
            )
            &&& forall|start: ContextState<V, B>, end: ContextState<V, B>| #[trigger]
                body.runs(start, end) ==> inner.runs(start, end)
        }
}

/// Registering a field spawns one new effect for the target, which runs the field, whatever effects
/// are tied to the target already.
pub proof fn law_registering_a_field_spawns_one_effect<
    V,
    B: BodyFrom<V, FieldBody<C, T, Src, P, S>>,
    C: Component<V>,
    T,
    Src: ReactiveSources<V, B>,
    P: Fn(Src::Output) -> T,
    S: FieldSetter<C, T>,
>(
    registration: FieldRegistration<C, T, Src, P, S>,
    before: WorldState<V, B>,
    target: Entity,
    after: WorldState<V, B>,
)
    requires
        before.wf(),
        before.next < u64::MAX,
        <FieldRegistration<C, T, Src, P, S> as EffectRegistration<V, B>>::registers(
            &registration,
            before,
            target,
            after,
        ),
    ensures
        spawns_one(
            before,
            FieldBody { field: registration.field, resolved: registration.resolved, target },
            target,
            after,
        ),
{
    let inner = FieldBody { field: registration.field, resolved: registration.resolved, target };
    let body = choose|body: B| #[trigger]
        effect_spawned(before, body, Some(target), after) && crate::context::acts_as(
            body,
            FieldBody {
                field: registration.field,
                resolved: std::sync::Arc::new(*registration.resolved),
                target,
            },
        );
    lemma_spawns_effect(before, body, Some(target), after);
    assert(spawns_effect(before, body, Some(target), Entity(before.next as u64), after));
    assert forall|start: ContextState<V, B>, end: ContextState<V, B>| #[trigger]
        body.runs(start, end) implies inner.runs(start, end) by {}
}

/// Registering a deduplicated field spawns one new effect for the target, which runs the field,
/// whatever effects are tied to the target already.
pub proof fn law_registering_a_deduplicated_field_spawns_one_effect<
    V,
    B: BodyFrom<V, DedupedFieldBody<C, T, Src, P, S>>,
    C: Component<V>,
    T: PartialEq + Clone,
    Src: ReactiveSources<V, B>,
    P: Fn(Src::Output) -> T,
    S: FieldSetter<C, T>,
>(
    registration: DedupedFieldRegistration<C, T, Src, P, S>,
    before: WorldState<V, B>,
    target: Entity,
    after: WorldState<V, B>,
) where LastValue<T>: Component<V>
    requires
        before.wf(),
        before.next < u64::MAX,
        <DedupedFieldRegistration<C, T, Src, P, S> as EffectRegistration<V, B>>::registers(
            &registration,
            before,
            target,
            after,
        ),
    ensures
        spawns_one(
            before,
            DedupedFieldBody { field: registration.field, resolved: registration.resolved, target },
            target,
            after,
        ),
{
    let inner = DedupedFieldBody {
        field: registration.field,
        resolved: registration.resolved,
        target,
    };
    let body = choose|body: B| #[trigger]
        effect_spawned(before, body, Some(target), after) && crate::context::acts_as(
            body,
            DedupedFieldBody {
                field: registration.field,
                resolved: std::sync::Arc::new(*registration.resolved),
                target,
            },
        );
    lemma_spawns_effect(before, body, Some(target), after);
    assert(spawns_effect(before, body, Some(target), Entity(before.next as u64), after));
    assert forall|start: ContextState<V, B>, end: ContextState<V, B>| #[trigger]
        body.runs(start, end) implies inner.runs(start, end) by {}
}

/// Whether `after` is the context `before` with one more registration queued, last.
pub open spec fn one_more_queued<V, B>(before: TemplateState<V, B>, after: TemplateState<V, B>) -> bool {
    &&& after.world == before.world
    &&& after.entity == before.entity
    &&& after.scoped == before.scoped
    &&& after.effects.len() == before.effects.len() + 1
    &&& forall|i: int| 0 <= i < before.effects.len() ==> #[trigger] after.effects[i] == before.effects[i]
}

/// Building a field resolves its sources. If that fails, building fails in the same way, and nothing is
/// queued. Otherwise one registration is queued, which spawns an effect that runs the field.
pub proof fn law_building_a_field_queues_one_registration<
    V: 'static,
    B: BodyFrom<V, FieldBody<C, T, Src, P, S>> + 'static,
    C: Component<V> + 'static,
    T: 'static,
    Src: ReactiveSources<V, B> + 'static,
    P: Fn(Src::Output) -> T + 'static,
    S: FieldSetter<C, T> + 'static,
>(
    effect: FieldEffect<C, T, Src, P, S>,
    before: TemplateState<V, B>,
    result: Result<(), TemplateError>,
    after: TemplateState<V, B>,
) where Src::Resolved: 'static
    requires
        <FieldEffect<C, T, Src, P, S> as Template<V, B>>::builds(&effect, before, result, after),
    ensures
        exists|resolved: Result<Src::Resolved, TemplateError>, middle: TemplateState<V, B>| #[trigger]
            effect.field().sources().resolves_all(before, resolved, middle) && match resolved {
                Ok(resolved) => {
                    &&& result is Ok
                    &&& one_more_queued(middle, after)
                    &&& forall|w: WorldState<V, B>, target: Entity, then: WorldState<V, B>|
                        w.wf() && w.next < u64::MAX && #[trigger] after.effects.last().0.registers(
                            w,
                            target,
                            then,
                        ) ==> spawns_one(
                            w,
                            FieldBody {
                                field: effect.field(),
                                resolved: std::sync::Arc::new(resolved),
                                target,
                            },
                            target,
                            then,
                        )
                },
                Err(error) => result == Err::<(), TemplateError>(error) && after == middle,
            },
{
    let (resolved, middle) = choose|
        resolved: Result<Src::Resolved, TemplateError>,
        middle: TemplateState<V, B>,
    | #[trigger]
        effect.field().sources().resolves_all(before, resolved, middle) && match resolved {
            Ok(resolved) => result is Ok && crate::field_effect::field_queued(
                effect.field(),
                resolved,
                middle,
                after,
            ),
            Err(error) => result == Err::<(), TemplateError>(error) && after == middle,
        };
    assert(effect.field().sources().resolves_all(before, resolved, middle));
    if let Ok(resolved) = resolved {
        assert(registers_field(after.effects.last(), effect.field(), resolved));
        assert forall|w: WorldState<V, B>, target: Entity, then: WorldState<V, B>|
            w.wf() && w.next < u64::MAX && #[trigger] after.effects.last().0.registers(
                w,
                target,
                then,
            ) implies spawns_one(
            w,
            FieldBody { field: effect.field(), resolved: std::sync::Arc::new(resolved), target },
            target,
            then,
        ) by {
            law_registering_a_field_spawns_one_effect(
                FieldRegistration { field: effect.field(), resolved: std::sync::Arc::new(resolved) },
                w,
                target,
                then,
            );
        }
    }
}

/// Building a deduplicated field resolves its sources. If that fails, building fails in the same way,
/// and nothing is queued. Otherwise one registration is queued, which spawns an effect that runs the
/// field.
pub proof fn law_building_a_deduplicated_field_queues_one_registration<
    V: 'static,
    B: BodyFrom<V, DedupedFieldBody<C, T, Src, P, S>> + 'static,
    C: Component<V> + 'static,
    T: PartialEq + Clone + 'static,
    Src: ReactiveSources<V, B> + 'static,
    P: Fn(Src::Output) -> T + 'static,
    S: FieldSetter<C, T> + 'static,
>(
    effect: DedupedFieldEffect<C, T, Src, P, S>,
    before: TemplateState<V, B>,
    result: Result<(), TemplateError>,
    after: TemplateState<V, B>,
) where Src::Resolved: 'static, LastValue<T>: Component<V>
    requires
        <DedupedFieldEffect<C, T, Src, P, S> as Template<V, B>>::builds(
            &effect,
            before,
            result,
            after,
        ),
    ensures
        exists|resolved: Result<Src::Resolved, TemplateError>, middle: TemplateState<V, B>| #[trigger]
            effect.field().sources().resolves_all(before, resolved, middle) && match resolved {
                Ok(resolved) => {
                    &&& result is Ok
                    &&& one_more_queued(middle, after)
                    &&& forall|w: WorldState<V, B>, target: Entity, then: WorldState<V, B>|
                        w.wf() && w.next < u64::MAX && #[trigger] after.effects.last().0.registers(
                            w,
                            target,
                            then,
                        ) ==> spawns_one(
                            w,
                            DedupedFieldBody {
                                field: effect.field(),
                                resolved: std::sync::Arc::new(resolved),
                                target,
                            },
                            target,
                            then,
                        )
                },
                Err(error) => result == Err::<(), TemplateError>(error) && after == middle,
            },
{
    let (resolved, middle) = choose|
        resolved: Result<Src::Resolved, TemplateError>,
        middle: TemplateState<V, B>,
    | #[trigger]
        effect.field().sources().resolves_all(before, resolved, middle) && match resolved {
            Ok(resolved) => result is Ok && crate::field_effect::deduped_queued(
                effect.field(),
                resolved,
                middle,
                after,
            ),
            Err(error) => result == Err::<(), TemplateError>(error) && after == middle,
        };
    assert(effect.field().sources().resolves_all(before, resolved, middle));
    if let Ok(resolved) = resolved {
        assert(registers_deduped(after.effects.last(), effect.field(), resolved));
        assert forall|w: WorldState<V, B>, target: Entity, then: WorldState<V, B>|
            w.wf() && w.next < u64::MAX && #[trigger] after.effects.last().0.registers(
                w,
                target,
                then,
            ) implies spawns_one(
            w,
            DedupedFieldBody {
                field: effect.field(),
                resolved: std::sync::Arc::new(resolved),
                target,
            },
            target,
            then,
        ) by {
            law_registering_a_deduplicated_field_spawns_one_effect(
                DedupedFieldRegistration {
                    field: effect.field(),
                    resolved: std::sync::Arc::new(resolved),
                },
                w,
                target,
                then,
            );
        }
    }
}

/// A field is made of the parts that it is given, in every form that it comes in.
pub proof fn law_a_field_is_made_of_its_parts<C, T, Src: SourcesTypes, P: Fn(Src::Output) -> T, S>(
    sources: Src,
    producer: P,
    setter: S,
    ordinary: FieldEffect<C, T, Src, P, S>,
    deduped: DedupedFieldEffect<C, T, Src, P, S>,
    in_scene: ReactiveField<C, T, Src, P, S>,
    deduped_in_scene: DedupedReactiveField<C, T, Src, P, S>,
)
    requires
        call_ensures(FieldEffect::<C, T, Src, P, S>::new, (sources, producer, setter), ordinary),
        call_ensures(DedupedFieldEffect::<C, T, Src, P, S>::new, (sources, producer, setter), deduped),
        call_ensures(reactive_field::<C, T, Src, P, S>, (sources, producer, setter), in_scene),
        call_ensures(
            reactive_field_deduped::<C, T, Src, P, S>,
            (sources, producer, setter),
            deduped_in_scene,
        ),
    ensures
        ordinary.field().sources() == sources && ordinary.field().producer() == producer
            && ordinary.field().setter() == setter,
        deduped.field().sources() == sources && deduped.field().producer() == producer
            && deduped.field().setter() == setter,
        in_scene.effect().field().sources() == sources && in_scene.effect().field().producer()
            == producer && in_scene.effect().field().setter() == setter,
        deduped_in_scene.effect().field().sources() == sources
            && deduped_in_scene.effect().field().producer() == producer
            && deduped_in_scene.effect().field().setter() == setter,
{
}

/// The same template once more is the same template.
pub proof fn law_a_template_is_copied_whole<C, T, Src: SourcesTypes, P: Fn(Src::Output) -> T, S>(
    ordinary: &FieldEffect<C, T, Src, P, S>,
    again: FieldEffect<C, T, Src, P, S>,
    deduped: &DedupedFieldEffect<C, T, Src, P, S>,
    deduped_again: DedupedFieldEffect<C, T, Src, P, S>,
)
    requires
        call_ensures(FieldEffect::<C, T, Src, P, S>::clone_template, (ordinary,), again),
        call_ensures(
            DedupedFieldEffect::<C, T, Src, P, S>::clone_template,
            (deduped,),
            deduped_again,
        ),
    ensures
        again.field() == ordinary.field(),
        deduped_again.field() == deduped.field(),
{
}

/// A setter made of a function gives the component what the function gives.
pub proof fn law_a_setter_does_what_its_function_does<C, T, F: Fn(&C, T) -> C>(
    change: F,
    setter: SetWith<C, T, F>,
    before: C,
    value: T,
    after: C,
)
    requires
        call_ensures(SetWith::<C, T, F>::new, (change,), setter),
    ensures
        <SetWith<C, T, F> as FieldSetter<C, T>>::sets(&setter, before, value, after) <==> call_ensures(
            change,
            (&before, value),
            after,
        ),
{
}

/// Whether `after` is the scene `before` with the component `C` in it: what is there stays as it is,
/// whatever it is, and only if `C` is not there is it added, with its default. Templates aside.
pub open spec fn has_too<V, B, C: Component<V> + Default>(
    before: SceneState<V, B>,
    after: SceneState<V, B>,
) -> bool {
    &&& forall|id: ComponentId|
        before.components.contains_key(id) ==> #[trigger] after.components.contains_key(id)
            && after.components[id] == before.components[id]
    &&& forall|id: ComponentId| #[trigger]
        after.components.contains_key(id) ==> before.components.contains_key(id) || id == C::id()
    &&& after.components.contains_key(C::id())
    &&& !before.components.contains_key(C::id()) ==> exists|default: C| #[trigger]
        call_ensures(C::default, (), default) && after.components[C::id()] == default.stored()
}

/// Ensuring that a component is part of a scene keeps what is there, and adds the component with its
/// default only if it is not there.
pub proof fn law_ensuring_a_component_keeps_what_is_there<V, B, C: Component<V> + Default>(
    scene: &mut ResolvedScene<V, B>,
)
    requires
        call_ensures(ResolvedScene::<V, B>::ensure_template::<C>, (scene,), ()),
    ensures
        has_too::<V, B, C>((*old(scene))@, (*final(scene))@),
        (*final(scene))@.templates == (*old(scene))@.templates,
{
}

/// What is handed out to be patched is the component that the scene has, or its default; what it is
/// patched to is what the scene has then; and everything else stays as it is.
pub proof fn law_a_patch_changes_one_component<V, B, C: Component<V> + Default>(
    scene: &mut ResolvedScene<V, B>,
    component: Option<&mut C>,
)
    requires
        call_ensures(ResolvedScene::<V, B>::get_or_insert_template::<C>, (scene,), component),
        component is Some,
    ensures
        ({
            let before = (*old(scene))@;
            let after = (*final(scene))@;
            &&& before.components.contains_key(C::id()) ==> C::held(before.components[C::id()])
                == Some(*old(component->0))
            &&& after.components.contains_key(C::id())
            &&& after.components[C::id()] == (*final(component->0)).stored()
            &&& forall|id: ComponentId|
                id != C::id() ==> #[trigger] after.components.contains_key(id)
                    == before.components.contains_key(id)
            &&& forall|id: ComponentId|
                id != C::id() && before.components.contains_key(id)
                    ==> #[trigger] after.components[id] == before.components[id]
            &&& after.templates == before.templates
        }),
{
}

/// Whether `after` has one more template than `before`, last, which builds what `template` builds.
pub open spec fn one_more_template<V, B, X: Template<V, B>>(
    before: SceneState<V, B>,
    template: X,
    after: SceneState<V, B>,
) -> bool {
    &&& after.templates.len() == before.templates.len() + 1
    &&& forall|i: int|
        0 <= i < before.templates.len() ==> #[trigger] after.templates[i] == before.templates[i]
    &&& forall|start: TemplateState<V, B>, result: Result<(), TemplateError>, end: TemplateState<V, B>|
        #[trigger]
        after.templates.last().0.builds(start, result, end) <==> template.builds(start, result, end)
}

/// A template that is pushed comes last, and changes nothing else.
pub proof fn law_a_pushed_template_comes_last<V, B>(
    scene: &mut ResolvedScene<V, B>,
    template: BoxedTemplate<V, B>,
)
    requires
        call_ensures(ResolvedScene::<V, B>::push_bundle_template, (scene, template), ()),
    ensures
        (*final(scene))@.templates.len() == (*old(scene))@.templates.len() + 1,
        (*final(scene))@.templates.last() == template,
        forall|i: int|
            0 <= i < (*old(scene))@.templates.len() ==> #[trigger] (*final(scene))@.templates[i]
                == (*old(scene))@.templates[i],
        (*final(scene))@.components == (*old(scene))@.components,
{
}

/// A reactive field that becomes part of a scene leaves every component of it as it is, the driven one
/// too, which is added with its default only if it is not there. It adds one template, that of the
/// field.
pub proof fn law_a_field_joins_a_scene_without_changing_components<
    V: 'static,
    B: BodyFrom<V, FieldBody<C, T, Src, P, S>> + 'static,
    C: Component<V> + Default + 'static,
    T: 'static,
    Src: ReactiveSources<V, B> + 'static,
    P: Fn(Src::Output) -> T + 'static,
    S: FieldSetter<C, T> + 'static,
>(
    field: ReactiveField<C, T, Src, P, S>,
    before: SceneState<V, B>,
    after: SceneState<V, B>,
) where Src::Resolved: 'static
    requires
        <ReactiveField<C, T, Src, P, S> as Scene<V, B>>::joins(&field, before, after),
    ensures
        has_too::<V, B, C>(before, after),
        one_more_template(before, field.effect(), after),
{
}

/// A deduplicated field that becomes part of a scene leaves every component of it as it is, the driven
/// one too, which is added with its default only if it is not there. It adds one template, that of the
/// field.
pub proof fn law_a_deduplicated_field_joins_a_scene_without_changing_components<
    V: 'static,
    B: BodyFrom<V, DedupedFieldBody<C, T, Src, P, S>> + 'static,
    C: Component<V> + Default + 'static,
    T: PartialEq + Clone + 'static,
    Src: ReactiveSources<V, B> + 'static,
    P: Fn(Src::Output) -> T + 'static,
    S: FieldSetter<C, T> + 'static,
>(
    field: DedupedReactiveField<C, T, Src, P, S>,
    before: SceneState<V, B>,
    after: SceneState<V, B>,
) where Src::Resolved: 'static, LastValue<T>: Component<V>
    requires
        <DedupedReactiveField<C, T, Src, P, S> as Scene<V, B>>::joins(&field, before, after),
    ensures
        has_too::<V, B, C>(before, after),
        one_more_template(before, field.effect(), after),
{
}

/// Whether `contexts` are those between the first of `templates`, one after the other, all of which
/// were built.
pub open spec fn built_in_turn<V, B>(
    templates: Seq<BoxedTemplate<V, B>>,
    contexts: Seq<TemplateState<V, B>>,
) -> bool {
    &&& 0 < contexts.len() <= templates.len() + 1
    &&& forall|i: int|
        0 <= i < contexts.len() - 1 ==> templates[i].0.builds(
            #[trigger] contexts[i],
            Ok(()),
            contexts[i + 1],
        )
}

/// Whether building `templates` ended with `result` and the context `end`: each was built in turn; or
/// those up to one were, which failed, and nothing behind it was built.
pub open spec fn builds_in_turn<V, B>(
    start: TemplateState<V, B>,
    templates: Seq<BoxedTemplate<V, B>>,
    contexts: Seq<TemplateState<V, B>>,
    result: Result<(), TemplateError>,
    end: TemplateState<V, B>,
) -> bool {
    &&& built_in_turn(templates, contexts)
    &&& contexts[0] == start
    &&& match result {
        Ok(done) => contexts.len() == templates.len() + 1 && contexts.last() == end,
        Err(error) => {
            &&& contexts.len() <= templates.len()
            &&& templates[contexts.len() - 1].0.builds(contexts.last(), result, end)
        },
    }
}

/// Building of the model is building in turn.
proof fn lemma_builds_in_turn<V, B>(
    start: TemplateState<V, B>,
    templates: Seq<BoxedTemplate<V, B>>,
    result: Result<(), TemplateError>,
    end: TemplateState<V, B>,
) -> (contexts: Seq<TemplateState<V, B>>)
    requires
        all_built(start, templates, result, end),
    ensures
        builds_in_turn(start, templates, contexts, result, end),
    decreases templates.len(),
{
    if templates.len() == 0 {
        seq![start]
    } else {
        let rest = templates.drop_last();
        let (sofar, middle) = choose|sofar: Result<(), TemplateError>, middle: TemplateState<V, B>|
            all_built(start, rest, sofar, middle) && #[trigger] builds_next(
                templates.last(),
                sofar,
                middle,
                result,
                end,
            );
        let earlier = lemma_builds_in_turn(start, rest, sofar, middle);
        assert forall|i: int| 0 <= i < rest.len() implies rest[i] == templates[i] by {}
        if sofar is Ok && result is Ok {
            let contexts = earlier.push(end);
            assert(result->Ok_0 == ());
            assert(result == Ok::<(), TemplateError>(()));
            assert forall|i: int| 0 <= i < contexts.len() - 1 implies templates[i].0.builds(
                #[trigger] contexts[i],
                Ok(()),
                contexts[i + 1],
            ) by {
                if i < earlier.len() - 1 {
                    assert(rest[i].0.builds(earlier[i], Ok(()), earlier[i + 1]));
                }
            }
            contexts
        } else {
            assert forall|i: int| 0 <= i < earlier.len() - 1 implies templates[i].0.builds(
                #[trigger] earlier[i],
                Ok(()),
                earlier[i + 1],
            ) by {
                assert(rest[i].0.builds(earlier[i], Ok(()), earlier[i + 1]));
            }
            earlier
        }
    }
}

/// Whether `worlds` are those between `queued`, each of which was registered in turn for `target`.
pub open spec fn registered_in_turn<V, B>(
    queued: Seq<BoxedEffectRegistration<V, B>>,
    target: Entity,
    worlds: Seq<WorldState<V, B>>,
) -> bool {
    &&& worlds.len() == queued.len() + 1
    &&& forall|i: int|
        0 <= i < queued.len() ==> (#[trigger] queued[i]).0.registers(worlds[i], target, worlds[i + 1])
}

/// Registering of the model is registering in turn.
proof fn lemma_registered_in_turn<V, B>(
    before: WorldState<V, B>,
    queued: Seq<BoxedEffectRegistration<V, B>>,
    target: Entity,
    after: WorldState<V, B>,
) -> (worlds: Seq<WorldState<V, B>>)
    requires
        all_registered(before, queued, target, after),
    ensures
        registered_in_turn(queued, target, worlds),
        worlds[0] == before,
        worlds.last() == after,
    decreases queued.len(),
{
    if queued.len() == 0 {
        seq![before]
    } else {
        let rest = queued.drop_last();
        let middle = choose|middle: WorldState<V, B>|
            all_registered(before, rest, target, middle) && #[trigger] queued.last().0.registers(
                middle,
                target,
                after,
            );
        let earlier = lemma_registered_in_turn(before, rest, target, middle);
        let worlds = earlier.push(after);
        assert forall|i: int| 0 <= i < queued.len() implies (#[trigger] queued[i]).0.registers(
            worlds[i],
            target,
            worlds[i + 1],
        ) by {
            if i < rest.len() {
                assert(rest[i] == queued[i]);
            }
        }
        worlds
    }
}

/// Every registration that is queued is run, once and in the order in which they were queued, for the
/// entity that is given, and none is left.
pub proof fn law_queued_registrations_run_in_turn<V, B>(
    queued: &mut QueuedEffects<V, B>,
    world: &mut World<V, B>,
    target: Entity,
)
    requires
        call_ensures(QueuedEffects::<V, B>::flush, (queued, world, target), ()),
    ensures
        (*final(queued))@.len() == 0,
        exists|worlds: Seq<WorldState<V, B>>|
            {
                &&& #[trigger] registered_in_turn((*old(queued))@, target, worlds)
                &&& worlds[0] == (*old(world))@
                &&& worlds.last() == (*final(world))@
            },
{
    let worlds = lemma_registered_in_turn(
        (*old(world))@,
        (*old(queued))@,
        target,
        (*final(world))@,
    );
    assert(registered_in_turn((*old(queued))@, target, worlds));
}

/// What is queued comes last, what is taken is everything, and being empty is having nothing queued.
pub proof fn law_a_queue_of_registrations_keeps_its_order<V, B>(
    queued: &mut QueuedEffects<V, B>,
    registration: BoxedEffectRegistration<V, B>,
    other: &mut QueuedEffects<V, B>,
    taken: Vec<BoxedEffectRegistration<V, B>>,
    looked_at: &QueuedEffects<V, B>,
    empty: bool,
)
    requires
        call_ensures(QueuedEffects::<V, B>::push, (queued, registration), ()),
        call_ensures(QueuedEffects::<V, B>::take, (other,), taken),
        call_ensures(QueuedEffects::<V, B>::is_empty, (looked_at,), empty),
    ensures
        (*final(queued))@.len() == (*old(queued))@.len() + 1,
        (*final(queued))@.last() == registration,
        forall|i: int|
            0 <= i < (*old(queued))@.len() ==> #[trigger] (*final(queued))@[i] == (*old(queued))@[i],
        taken@ == (*old(other))@,
        (*final(other))@.len() == 0,
        empty == (looked_at@.len() == 0),
{
}

/// Whether `components` were written to `entity`, all of them and nothing else: each is there, and
/// counts as changed now.
pub open spec fn writes_all<V, B>(
    before: WorldState<V, B>,
    entity: Entity,
    components: Map<ComponentId, V>,
    after: WorldState<V, B>,
) -> bool {
    if before.entities.contains_key(entity) {
        &&& after.entities.contains_key(entity)
        &&& forall|id: ComponentId|
            components.contains_key(id) ==> {
                &&& #[trigger] after.entities[entity].components.contains_key(id)
                &&& after.entities[entity].components[id].value == components[id]
                &&& after.entities[entity].components[id].changed == before.tick
            }
        &&& forall|id: ComponentId|
            !components.contains_key(id)
                ==> #[trigger] after.entities[entity].components.contains_key(id)
                == before.entities[entity].components.contains_key(id)
        &&& forall|id: ComponentId|
            !components.contains_key(id) && before.entities[entity].components.contains_key(id)
                ==> #[trigger] after.entities[entity].components[id]
                == before.entities[entity].components[id]
        &&& same_but_components(before, after, entity)
        &&& same_others(before, after, entity)
        &&& same_beside_entities(before, after)
        &&& after.noticed == before.noticed
        &&& after.next == before.next
    } else {
        after == before
    }
}

/// Whether a scene was applied to `entity`: its templates are built in turn, then its components are
/// written together, and then what was queued is registered in turn. If building fails, nothing is
/// written and nothing registered.
pub open spec fn applies<V, B>(
    scene: SceneState<V, B>,
    before: WorldState<V, B>,
    entity: Entity,
    scoped: Map<u64, Entity>,
    result: Result<(), TemplateError>,
    after: WorldState<V, B>,
    named: Map<u64, Entity>,
) -> bool {
    exists|contexts: Seq<TemplateState<V, B>>, built: TemplateState<V, B>|
        {
            &&& #[trigger] builds_in_turn(
                TemplateState { world: before, entity, scoped, effects: Seq::empty() },
                scene.templates,
                contexts,
                result,
                built,
            )
            &&& named == built.scoped
            &&& result is Err ==> after == built.world
            &&& result is Ok ==> writes_and_registers(built, entity, scene.components, after)
        }
}

/// Whether `components` were written to `entity`, and then what the context has queued was registered.
pub open spec fn writes_and_registers<V, B>(
    built: TemplateState<V, B>,
    entity: Entity,
    components: Map<ComponentId, V>,
    after: WorldState<V, B>,
) -> bool {
    exists|worlds: Seq<WorldState<V, B>>|
        {
            &&& #[trigger] registered_in_turn(built.effects, entity, worlds)
            &&& writes_all(built.world, entity, components, worlds[0])
            &&& worlds.last() == after
        }
}

/// Applying of the model is applying.
proof fn lemma_applies<V, B>(
    scene: SceneState<V, B>,
    before: WorldState<V, B>,
    entity: Entity,
    scoped: Map<u64, Entity>,
    result: Result<(), TemplateError>,
    after: WorldState<V, B>,
    named: Map<u64, Entity>,
)
    requires
        crate::scene::applied(scene, before, entity, scoped, result, after, named),
    ensures
        applies(scene, before, entity, scoped, result, after, named),
{
    let start = TemplateState { world: before, entity, scoped, effects: Seq::empty() };
    let built = choose|built: TemplateState<V, B>|
        {
            &&& #[trigger] all_built(start, scene.templates, result, built)
            &&& named == built.scoped
            &&& match result {
                Ok(done) => all_registered(
                    built.world.with_bundle(entity, scene.components),
                    built.effects,
                    entity,
                    after,
                ),
                Err(error) => after == built.world,
            }
        };
    let contexts = lemma_builds_in_turn(start, scene.templates, result, built);
    assert(builds_in_turn(start, scene.templates, contexts, result, built));
    if result is Ok {
        let written = built.world.with_bundle(entity, scene.components);
        let worlds = lemma_registered_in_turn(written, built.effects, entity, after);
        assert(writes_all(built.world, entity, scene.components, written));
        assert(registered_in_turn(built.effects, entity, worlds));
    }
}

/// Applying a scene builds its templates in turn, then writes its components together, and then
/// registers what was queued.
pub proof fn law_a_scene_is_built_written_and_registered<V, B>(
    scene: ResolvedScene<V, B>,
    world: &mut World<V, B>,
    entity: Entity,
    scoped: &mut ScopedEntities,
    result: Result<(), TemplateError>,
)
    requires
        call_ensures(ResolvedScene::<V, B>::apply, (scene, world, entity, scoped), result),
    ensures
        applies(
            scene@,
            (*old(world))@,
            entity,
            (*old(scoped))@,
            result,
            (*final(world))@,
            (*final(scoped))@,
        ),
{
    lemma_applies(
        scene@,
        (*old(world))@,
        entity,
        (*old(scoped))@,
        result,
        (*final(world))@,
        (*final(scoped))@,
    );
}

/// Spawning a scene spawns a new, empty entity, and applies the scene to it, with no name standing for
/// anything yet.
pub proof fn law_a_spawned_scene_is_applied_to_a_new_entity<V, B>(
    world: &mut World<V, B>,
    scene: ResolvedScene<V, B>,
    entity: Result<Entity, TemplateError>,
)
    requires
        call_ensures(World::<V, B>::spawn_scene, (world, scene), entity),
        (*old(world))@.wf(),
        (*old(world))@.next < u64::MAX,
    ensures
        exists|spawned: WorldState<V, B>, named: Map<u64, Entity>, result: Result<(), TemplateError>|
            {
                let fresh = Entity((*old(world))@.next as u64);
                &&& #[trigger] applies(
                    scene@,
                    spawned,
                    Entity((*old(world))@.next as u64),
                    Map::empty(),
                    result,
                    (*final(world))@,
                    named,
                )
                &&& !(*old(world))@.entities.contains_key(fresh)
                &&& spawned.entities.contains_key(fresh)
                &&& spawned.next == (*old(world))@.next + 1
                &&& forall|id: ComponentId| !#[trigger]
                    spawned.entities[fresh].components.contains_key(id)
                &&& spawned.entities[fresh].effect is None
                &&& spawned.entities[fresh].effects is None
                &&& same_others((*old(world))@, spawned, fresh)
                &&& same_beside_entities((*old(world))@, spawned)
                &&& match entity {
                    Ok(e) => result is Ok && e == fresh,
                    Err(error) => result == Err::<(), TemplateError>(error),
                }
            },
{
    let before = (*old(world))@;
    let fresh = Entity(before.next as u64);
    let spawned = before.spawned(EntityState::empty());
    let result = crate::scene::outcome(entity);
    assert(!before.alive(fresh)) by {
        assert(before.ids_wf());
    }
    let named = choose|named: Map<u64, Entity>| #[trigger]
        crate::scene::applied(
            scene@,
            spawned,
            fresh,
            Map::empty(),
            result,
            (*final(world))@,
            named,
        );
    lemma_applies(scene@, spawned, fresh, Map::empty(), result, (*final(world))@, named);
}

/// A scene starts without components and templates, names start without entities, and nothing is
/// queued to start with.
pub proof fn law_a_scene_starts_empty<V, B>(
    scene: ResolvedScene<V, B>,
    scoped: ScopedEntities,
    queued: QueuedEffects<V, B>,
)
    requires
        call_ensures(<ResolvedScene<V, B> as Default>::default, (), scene),
        call_ensures(<ScopedEntities as Default>::default, (), scoped),
        call_ensures(<QueuedEffects<V, B> as Default>::default, (), queued),
    ensures
        forall|c: ComponentId| !#[trigger] scene@.components.contains_key(c),
        scene@.templates.len() == 0,
        forall|i: u64| !#[trigger] scoped@.contains_key(i),
        queued@.len() == 0,
{
}

} // verus!
