//! The "surgical update" primitive: a [`Template`] that writes a _single field_ of a single
//! component in response to its [`ReactiveSources`] changing.
use crate::component::{Component, Stored};
use crate::context::{acts_as, BodyFrom, ContextState, EffectBody, EffectContext};
use crate::effect::{effect_spawned, spawn_effect_for};
use crate::id::Entity;
use crate::lifetime::{lemma_evolves_refl, lemma_evolves_trans};
use crate::source::{ReactiveSources, SourcesTypes};
use crate::state::WorldState;
use crate::template::{
    BoxedEffectRegistration, EffectRegistration, Template, TemplateContext, TemplateError,
    TemplateState,
};
use crate::world::World;
use std::marker::PhantomData;
use std::sync::Arc;
use vstd::prelude::*;

verus! {

broadcast use {lemma_evolves_refl, lemma_evolves_trans};

/// Writes a value of type `T` into a live `C`.
pub trait FieldSetter<C, T> {
    /// What writing may do. What it is, each setter says for itself.
    open spec fn sets(&self, before: C, value: T, after: C) -> bool {
        arbitrary()
    }

    /// Writes `value` into `component`.
    fn set(&self, component: &mut C, value: T)
        ensures
            self.sets(*old(component), value, *final(component)),
    ;
}

/// A [`FieldSetter`] made of a function that gives the changed component.
#[verifier::reject_recursive_types(C)]
#[verifier::reject_recursive_types(T)]
pub struct SetWith<C, T, F: Fn(&C, T) -> C> {
    change: F,
    marker: PhantomData<(C, T)>,
}

impl<C, T, F: Fn(&C, T) -> C> SetWith<C, T, F> {
    /// The function accepts every component and every value.
    #[verifier::type_invariant]
    closed spec fn total(self) -> bool {
        forall|component: &C, value: T| #[trigger] call_requires(self.change, (component, value))
    }

    /// The function that gives the changed component.
    pub closed spec fn change(self) -> F {
        self.change
    }

    /// Makes a setter of `change`.
    pub fn new(change: F) -> (setter: SetWith<C, T, F>)
        requires
            forall|component: &C, value: T| #[trigger] call_requires(change, (component, value)),
        ensures
            setter.change() == change,
    {
        SetWith { change, marker: PhantomData }
    }
}

impl<C, T, F: Fn(&C, T) -> C> SetWith<C, T, F> {
    /// What such a setter does is what its function does.
    pub proof fn lemma_sets(self, before: C, value: T, after: C)
        ensures
            self.sets(before, value, after) <==> call_ensures(self.change(), (&before, value), after),
    {
    }
}

impl<C, T, F: Fn(&C, T) -> C> FieldSetter<C, T> for SetWith<C, T, F> {
    open spec fn sets(&self, before: C, value: T, after: C) -> bool {
        call_ensures(self.change(), (&before, value), after)
    }

    fn set(&self, component: &mut C, value: T) {
        proof {
            use_type_invariant(self);
        }
        let changed = (self.change)(&*component, value);
        *component = changed;
    }
}

/// The parts of a reactive field: what it depends on, how its value follows from that, and how the
/// value is written. They are shared by the template and by every effect built from it.
#[verifier::reject_recursive_types(T)]
#[verifier::reject_recursive_types(Src)]
pub struct Field<C, T, Src: SourcesTypes, P: Fn(Src::Output) -> T, S> {
    sources: Arc<Src>,
    producer: Arc<P>,
    setter: Arc<S>,
    marker: PhantomData<(C, T)>,
}

impl<C, T, Src: SourcesTypes, P: Fn(Src::Output) -> T, S> Field<C, T, Src, P, S> {
    /// The producer accepts whatever is read.
    #[verifier::type_invariant]
    closed spec fn total(self) -> bool {
        forall|values: Src::Output| #[trigger] call_requires(*self.producer, (values,))
    }

    /// What the field depends on.
    pub closed spec fn sources(self) -> Src {
        *self.sources
    }

    /// How its value follows from what is read.
    pub closed spec fn producer(self) -> P {
        *self.producer
    }

    /// How the value is written.
    pub closed spec fn setter(self) -> S {
        *self.setter
    }

    /// Puts the parts together.
    fn new(sources: Src, producer: P, setter: S) -> (field: Field<C, T, Src, P, S>)
        requires
            forall|values: Src::Output| #[trigger] call_requires(producer, (values,)),
        ensures
            field.sources() == sources,
            field.producer() == producer,
            field.setter() == setter,
    {
        Field {
            sources: Arc::new(sources),
            producer: Arc::new(producer),
            setter: Arc::new(setter),
            marker: PhantomData,
        }
    }

    /// The same parts once more.
    fn share(&self) -> (field: Field<C, T, Src, P, S>)
        ensures
            field == *self,
    {
        proof {
            use_type_invariant(self);
        }
        Field {
            sources: self.sources.clone(),
            producer: self.producer.clone(),
            setter: self.setter.clone(),
            marker: PhantomData,
        }
    }
}

/// Whether reading the sources of `field` and producing its value from them may give `value`, and
/// leave the context as `after`.
pub open spec fn produced<V, B, C, T, Src: ReactiveSources<V, B>, P: Fn(Src::Output) -> T, S>(
    field: Field<C, T, Src, P, S>,
    resolved: Src::Resolved,
    before: ContextState<V, B>,
    value: T,
    after: ContextState<V, B>,
) -> bool {
    exists|values: Src::Output| #[trigger]
        field.sources().reads_all(resolved, before, values, after) && call_ensures(
            field.producer(),
            (values,),
            value,
        )
}

/// Whether writing `value` into the component `C` of `target` may leave the context as `after`. An
/// entity without one is left alone.
pub open spec fn written<V, B, C: Component<V>, T, S: FieldSetter<C, T>>(
    setter: S,
    target: Entity,
    before: ContextState<V, B>,
    value: T,
    after: ContextState<V, B>,
) -> bool {
    match before.world.value::<C>(target) {
        Some(component) => exists|changed: C| #[trigger]
            setter.sets(component, value, changed) && after == (ContextState {
                world: before.world.with_component(
                    target,
                    C::id(),
                    Stored { value: changed.stored(), changed: before.world.tick },
                ),
                ..before
            }) && after.world.value::<C>(target) == Some(changed),
        None => after == before,
    }
}

impl<C, T, Src: SourcesTypes, P: Fn(Src::Output) -> T, S> Field<C, T, Src, P, S> {
    /// Reads the sources, and produces the value from what was read.
    fn produce<V, B>(
        &self,
        resolved: &Src::Resolved,
        context: &mut EffectContext<'_, V, B>,
    ) -> (value: T) where Src: ReactiveSources<V, B>
        requires
            old(context).wf(),
        ensures
            final(context).wf(),
            *final(final(context).borrow()) == *final(old(context).borrow()),
            old(context)@.world.evolves_to(final(context)@.world),
            produced(*self, *resolved, old(context)@, value, final(context)@),
    {
        proof {
            use_type_invariant(self);
        }
        let ghost before = context@;
        let values = self.sources.read_all(resolved, context);
        let ghost read = values;
        let value = (*self.producer)(values);
        proof {
            assert(self.sources().reads_all(*resolved, before, read, context@));
        }
        value
    }

    /// Writes `value` into the component `C` of `target`, if it has one.
    fn write<V, B>(&self, target: Entity, context: &mut EffectContext<'_, V, B>, value: T) where
        C: Component<V>,
        S: FieldSetter<C, T>,

        requires
            old(context).wf(),
        ensures
            final(context).wf(),
            *final(final(context).borrow()) == *final(old(context).borrow()),
            old(context)@.world.evolves_to(final(context)@.world),
            written(self.setter(), target, old(context)@, value, final(context)@),
    {
        let ghost before = context@;
        let ghost given = value;
        let ghost mut changed: Option<C> = None;
        match context.world().get_mut::<C>(target) {
            Some(mut guard) => {
                let component = guard.get_mut();
                let ghost held = *component;
                self.setter.set(component, value);
                proof {
                    assert(self.setter().sets(held, given, *component));
                    changed = Some(*component);
                }
            },
            None => {},
        }
        proof {
            match changed {
                Some(changed) => {
                    let component = before.world.value::<C>(target)->0;
                    assert(self.setter().sets(component, given, changed));
                    assert(context@ =~= (ContextState {
                        world: before.world.with_component(
                            target,
                            C::id(),
                            Stored { value: changed.stored(), changed: before.world.tick },
                        ),
                        ..before
                    }));
                    assert(written(self.setter(), target, before, given, context@));
                },
                None => {
                    assert(context@ =~= before);
                },
            }
        }
    }
}

/// The computation of a [`FieldEffect`] on one entity.
#[verifier::reject_recursive_types(T)]
#[verifier::reject_recursive_types(Src)]
pub struct FieldBody<C, T, Src: SourcesTypes, P: Fn(Src::Output) -> T, S> {
    /// The reactive field.
    pub field: Field<C, T, Src, P, S>,
    /// The build-time data of its sources.
    pub resolved: Arc<Src::Resolved>,
    /// The entity that it is written on.
    pub target: Entity,
}

impl<V, B, C: Component<V>, T, Src: ReactiveSources<V, B>, P: Fn(Src::Output) -> T, S: FieldSetter<C, T>>
    EffectBody<V, B> for FieldBody<C, T, Src, P, S> {
    /// The value is produced from what the sources hold, and written.
    open spec fn runs(&self, before: ContextState<V, B>, after: ContextState<V, B>) -> bool {
        exists|value: T, middle: ContextState<V, B>| #[trigger]
            field_ran(*self, before, value, middle, after)
    }

    fn run(&self, context: &mut EffectContext<'_, V, B>) {
        let ghost before = context@;
        let value = self.field.produce(&*self.resolved, context);
        let ghost (given, middle) = (value, context@);
        self.field.write(self.target, context, value);
        proof {
            assert(field_ran(*self, before, given, middle, context@));
        }
    }
}

/// Whether a run of `body` may produce `value`, leaving the context as `middle`, and write it,
/// leaving the context as `after`.
pub open spec fn field_ran<
    V,
    B,
    C: Component<V>,
    T,
    Src: ReactiveSources<V, B>,
    P: Fn(Src::Output) -> T,
    S: FieldSetter<C, T>,
>(
    body: FieldBody<C, T, Src, P, S>,
    before: ContextState<V, B>,
    value: T,
    middle: ContextState<V, B>,
    after: ContextState<V, B>,
) -> bool {
    &&& produced(body.field, *body.resolved, before, value, middle)
    &&& written(body.field.setter(), body.target, middle, value, after)
}

/// Whether registering a [`FieldEffect`] for `target` may turn the world `before` into the world
/// `after`: an effect is spawned for it that acts as a [`FieldBody`].
pub open spec fn field_registered<
    V,
    B: BodyFrom<V, FieldBody<C, T, Src, P, S>>,
    C: Component<V>,
    T,
    Src: ReactiveSources<V, B>,
    P: Fn(Src::Output) -> T,
    S: FieldSetter<C, T>,
>(
    field: Field<C, T, Src, P, S>,
    resolved: Src::Resolved,
    before: WorldState<V, B>,
    target: Entity,
    after: WorldState<V, B>,
) -> bool {
    exists|body: B| #[trigger]
        effect_spawned(before, body, Some(target), after) && acts_as(
            body,
            FieldBody { field, resolved: Arc::new(resolved), target },
        )
}

/// The registration that building a [`FieldEffect`] queues.
#[verifier::reject_recursive_types(T)]
#[verifier::reject_recursive_types(Src)]
pub struct FieldRegistration<C, T, Src: SourcesTypes, P: Fn(Src::Output) -> T, S> {
    /// The reactive field.
    pub field: Field<C, T, Src, P, S>,
    /// The build-time data of its sources.
    pub resolved: Arc<Src::Resolved>,
}

impl<
    V,
    B: BodyFrom<V, FieldBody<C, T, Src, P, S>>,
    C: Component<V>,
    T,
    Src: ReactiveSources<V, B>,
    P: Fn(Src::Output) -> T,
    S: FieldSetter<C, T>,
> EffectRegistration<V, B> for FieldRegistration<C, T, Src, P, S> {
    open spec fn registers(
        &self,
        before: WorldState<V, B>,
        target: Entity,
        after: WorldState<V, B>,
    ) -> bool {
        field_registered(self.field, *self.resolved, before, target, after)
    }

    fn register(&self, world: &mut World<V, B>, target: Entity) {
        let body = B::body_from(
            FieldBody { field: self.field.share(), resolved: self.resolved.clone(), target },
        );
        spawn_effect_for(world, target, body);
    }
}

/// Boxes the registration of a field.
fn field_registration<
    V: 'static,
    B: BodyFrom<V, FieldBody<C, T, Src, P, S>> + 'static,
    C: Component<V> + 'static,
    T: 'static,
    Src: ReactiveSources<V, B> + 'static,
    P: Fn(Src::Output) -> T + 'static,
    S: FieldSetter<C, T> + 'static,
>(
    field: Field<C, T, Src, P, S>,
    resolved: Src::Resolved,
) -> (registration: BoxedEffectRegistration<V, B>) where Src::Resolved: 'static
    ensures
        registers_field(registration, field, resolved),
{
    BoxedEffectRegistration(Box::new(FieldRegistration { field, resolved: Arc::new(resolved) }))
}

/// Whether queueing the registration of a [`FieldEffect`] may turn the context `before` into the
/// context `after`.
pub open spec fn field_queued<
    V,
    B: BodyFrom<V, FieldBody<C, T, Src, P, S>>,
    C: Component<V>,
    T,
    Src: ReactiveSources<V, B>,
    P: Fn(Src::Output) -> T,
    S: FieldSetter<C, T>,
>(
    field: Field<C, T, Src, P, S>,
    resolved: Src::Resolved,
    before: TemplateState<V, B>,
    after: TemplateState<V, B>,
) -> bool {
    &&& after == before.queueing(after.effects.last())
    &&& registers_field(after.effects.last(), field, resolved)
}

/// Whether `registration` does what registering the field does.
pub open spec fn registers_field<
    V,
    B: BodyFrom<V, FieldBody<C, T, Src, P, S>>,
    C: Component<V>,
    T,
    Src: ReactiveSources<V, B>,
    P: Fn(Src::Output) -> T,
    S: FieldSetter<C, T>,
>(
    registration: BoxedEffectRegistration<V, B>,
    field: Field<C, T, Src, P, S>,
    resolved: Src::Resolved,
) -> bool {
    forall|before: WorldState<V, B>, target: Entity, after: WorldState<V, B>| #[trigger]
        registration.0.registers(before, target, after) <==> field_registered(
            field,
            resolved,
            before,
            target,
            after,
        )
}

/// A [`Template`] that reactively writes one field of the component `C`.
///
/// It holds three parts:
/// - `sources`: what the field depends on, a [`ReactiveSource`], or a tuple of them.
/// - `producer`: a **pure** function from the sources' read values to the field's value. It gets no
///   world or effect access: everything it needs is already in the read values, which keeps the
///   field's dependencies exactly equal to its declared sources.
/// - `setter`: writes that value into a live `C`.
///
/// Building this template resolves the sources' build-time data (see [`ReactiveSource::resolve`])
/// and queues an effect registration on the [`TemplateContext`]. Once the entity has been fully
/// written, the effect is spawned (related to the entity via [`EffectOf`], so it despawns with it)
/// and run once, writing the initial value. From then on it re-runs whenever a tracked source
/// changes, and each run touches only `C` on that one entity.
///
/// `C` must already be present on the entity: the field write is a mutation, not an insert. Scene
/// code is responsible for also inserting `C`'s ordinary template.
///
/// [`ReactiveSource`]: crate::source::ReactiveSource
/// [`ReactiveSource::resolve`]: crate::source::ReactiveSource::resolve
/// [`EffectOf`]: crate::graph::EffectOf
#[verifier::reject_recursive_types(T)]
#[verifier::reject_recursive_types(Src)]
pub struct FieldEffect<C, T, Src: SourcesTypes, P: Fn(Src::Output) -> T, S> {
    field: Field<C, T, Src, P, S>,
}

impl<C, T, Src: SourcesTypes, P: Fn(Src::Output) -> T, S> FieldEffect<C, T, Src, P, S> {
    /// The reactive field that this template is about.
    pub closed spec fn field(self) -> Field<C, T, Src, P, S> {
        self.field
    }

    /// Creates a new [`FieldEffect`] from its sources, a pure producer, and a field setter.
    pub fn new(sources: Src, producer: P, setter: S) -> (effect: FieldEffect<C, T, Src, P, S>)
        requires
            forall|values: Src::Output| #[trigger] call_requires(producer, (values,)),
        ensures
            effect.field().sources() == sources,
            effect.field().producer() == producer,
            effect.field().setter() == setter,
    {
        FieldEffect { field: Field::new(sources, producer, setter) }
    }

    /// The same template once more.
    pub fn clone_template(&self) -> (effect: FieldEffect<C, T, Src, P, S>)
        ensures
            effect == *self,
    {
        FieldEffect { field: self.field.share() }
    }
}

impl<
    V: 'static,
    B: BodyFrom<V, FieldBody<C, T, Src, P, S>> + 'static,
    C: Component<V> + 'static,
    T: 'static,
    Src: ReactiveSources<V, B> + 'static,
    P: Fn(Src::Output) -> T + 'static,
    S: FieldSetter<C, T> + 'static,
> Template<V, B> for FieldEffect<C, T, Src, P, S> where Src::Resolved: 'static {
    /// The sources are resolved. If that fails, so does building, and nothing is queued. Otherwise
    /// the registration of the field is queued.
    open spec fn builds(
        &self,
        before: TemplateState<V, B>,
        result: Result<(), TemplateError>,
        after: TemplateState<V, B>,
    ) -> bool {
        exists|resolved: Result<Src::Resolved, TemplateError>, middle: TemplateState<V, B>| #[trigger]
            self.field().sources().resolves_all(before, resolved, middle) && match resolved {
                Ok(resolved) => result is Ok && field_queued(self.field(), resolved, middle, after),
                Err(error) => result == Err::<(), TemplateError>(error) && after == middle,
            }
    }

    fn build_template(&self, context: &mut TemplateContext<'_, V, B>) -> (result: Result<
        (),
        TemplateError,
    >) {
        let ghost before = context@;
        // This is the only point where names within a scene can be turned into real entities. The
        // result is kept for every run of the effect.
        match self.field.sources.resolve_all(context) {
            Ok(resolved) => {
                let ghost (kept, middle) = (resolved, context@);
                proof {
                    assert(self.field().sources().resolves_all(before, Ok(kept), middle));
                }
                context.queue_effect(field_registration(self.field.share(), resolved));
                Ok(())
            },
            Err(error) => {
                proof {
                    assert(self.field().sources().resolves_all(before, Err(error), context@));
                }
                Err(error)
            },
        }
    }
}

/// The value a [`DedupedFieldEffect`] produced on its last run, cached on the effect entity.
pub struct LastValue<T>(pub T);

/// Whether comparing `value` with what `effect` produced on its last run may find them the same.
/// There is nothing to compare with before the first run.
pub open spec fn repeats<V, B, T: PartialEq>(
    world: WorldState<V, B>,
    effect: Entity,
    value: T,
    same: bool,
) -> bool where LastValue<T>: Component<V> {
    match world.value::<LastValue<T>>(effect) {
        Some(last) => call_ensures(<T as PartialEq>::eq, (&last.0, &value), same),
        None => !same,
    }
}

/// The context once `value` is remembered as what the running effect produced.
pub open spec fn remembering<V, B, T>(context: ContextState<V, B>, value: T) -> ContextState<V, B> where
    LastValue<T>: Component<V>,
 {
    if context.world.alive(context.effect) {
        ContextState {
            world: context.world.with_component(
                context.effect,
                <LastValue<T> as Component<V>>::id(),
                Stored { value: LastValue(value).stored(), changed: context.world.tick },
            ),
            ..context
        }
    } else {
        context
    }
}

/// Whether taking note of `value` and writing it may leave the context as `after`.
pub open spec fn renewed<V, B, C: Component<V>, T: Clone, S: FieldSetter<C, T>>(
    setter: S,
    target: Entity,
    before: ContextState<V, B>,
    value: T,
    after: ContextState<V, B>,
) -> bool where LastValue<T>: Component<V> {
    exists|kept: T| #[trigger]
        cloned(value, kept) && written(setter, target, remembering(before, kept), value, after) && (
        before.world.alive(before.effect) ==> remembering(before, kept).world.value::<LastValue<T>>(
            before.effect,
        ) == Some(LastValue(kept)))
}

/// Whether a run of `body` may produce `value`, leaving the context as `middle`, find it to be the
/// `same` as the last one or not, and leave the context as `after`: nothing is written if it is the
/// same.
pub open spec fn deduped_ran<
    V,
    B,
    C: Component<V>,
    T: PartialEq + Clone,
    Src: ReactiveSources<V, B>,
    P: Fn(Src::Output) -> T,
    S: FieldSetter<C, T>,
>(
    body: DedupedFieldBody<C, T, Src, P, S>,
    before: ContextState<V, B>,
    value: T,
    middle: ContextState<V, B>,
    same: bool,
    after: ContextState<V, B>,
) -> bool where LastValue<T>: Component<V> {
    &&& produced(body.field, *body.resolved, before, value, middle)
    &&& repeats(middle.world, middle.effect, value, same)
    &&& if same {
        after == middle
    } else {
        renewed(body.field.setter(), body.target, middle, value, after)
    }
}

/// The computation of a [`DedupedFieldEffect`] on one entity.
#[verifier::reject_recursive_types(T)]
#[verifier::reject_recursive_types(Src)]
pub struct DedupedFieldBody<C, T, Src: SourcesTypes, P: Fn(Src::Output) -> T, S> {
    /// The reactive field.
    pub field: Field<C, T, Src, P, S>,
    /// The build-time data of its sources.
    pub resolved: Arc<Src::Resolved>,
    /// The entity that it is written on.
    pub target: Entity,
}

impl<
    V,
    B,
    C: Component<V>,
    T: PartialEq + Clone,
    Src: ReactiveSources<V, B>,
    P: Fn(Src::Output) -> T,
    S: FieldSetter<C, T>,
> EffectBody<V, B> for DedupedFieldBody<C, T, Src, P, S> where LastValue<T>: Component<V> {
    /// The value is produced from what the sources hold. It is written only if it is not the one
    /// that was produced last.
    open spec fn runs(&self, before: ContextState<V, B>, after: ContextState<V, B>) -> bool {
        exists|value: T, middle: ContextState<V, B>, same: bool| #[trigger]
            deduped_ran(*self, before, value, middle, same, after)
    }

    fn run(&self, context: &mut EffectContext<'_, V, B>) {
        let ghost before = context@;
        let value = self.field.produce(&*self.resolved, context);
        let ghost (given, middle) = (value, context@);
        let effect = context.effect();
        // Unchanged output: skip the write entirely, leaving the component's change tick untouched
        // so nothing downstream is woken.
        let same = match context.world().get::<LastValue<T>>(effect) {
            Some(last) => last.0.eq(&value),
            None => false,
        };
        proof {
            assert(produced(self.field, *self.resolved, before, given, middle));
            assert(repeats(middle.world, middle.effect, given, same));
            assert(context@ =~= middle);
        }
        if same {
            proof {
                assert(deduped_ran(*self, before, given, middle, same, context@));
            }
            return;
        }
        let kept = value.clone();
        let ghost noted = kept;
        context.world().insert(effect, LastValue(kept));
        proof {
            assert(cloned(given, noted));
            assert(context@ =~= remembering(middle, noted));
        }
        self.field.write(self.target, context, value);
        proof {
            assert(renewed(self.field.setter(), self.target, middle, given, context@));
            assert(deduped_ran(*self, before, given, middle, same, context@));
        }
    }
}

/// Whether registering a [`DedupedFieldEffect`] for `target` may turn the world `before` into the
/// world `after`: an effect is spawned for it that acts as a [`DedupedFieldBody`].
pub open spec fn deduped_registered<
    V,
    B: BodyFrom<V, DedupedFieldBody<C, T, Src, P, S>>,
    C: Component<V>,
    T: PartialEq + Clone,
    Src: ReactiveSources<V, B>,
    P: Fn(Src::Output) -> T,
    S: FieldSetter<C, T>,
>(
    field: Field<C, T, Src, P, S>,
    resolved: Src::Resolved,
    before: WorldState<V, B>,
    target: Entity,
    after: WorldState<V, B>,
) -> bool where LastValue<T>: Component<V> {
    exists|body: B| #[trigger]
        effect_spawned(before, body, Some(target), after) && acts_as(
            body,
            DedupedFieldBody { field, resolved: Arc::new(resolved), target },
        )
}

/// The registration that building a [`DedupedFieldEffect`] queues.
#[verifier::reject_recursive_types(T)]
#[verifier::reject_recursive_types(Src)]
pub struct DedupedFieldRegistration<C, T, Src: SourcesTypes, P: Fn(Src::Output) -> T, S> {
    /// The reactive field.
    pub field: Field<C, T, Src, P, S>,
    /// The build-time data of its sources.
    pub resolved: Arc<Src::Resolved>,
}

impl<
    V,
    B: BodyFrom<V, DedupedFieldBody<C, T, Src, P, S>>,
    C: Component<V>,
    T: PartialEq + Clone,
    Src: ReactiveSources<V, B>,
    P: Fn(Src::Output) -> T,
    S: FieldSetter<C, T>,
> EffectRegistration<V, B> for DedupedFieldRegistration<C, T, Src, P, S> where LastValue<T>: Component<V> {
    open spec fn registers(
        &self,
        before: WorldState<V, B>,
        target: Entity,
        after: WorldState<V, B>,
    ) -> bool {
        deduped_registered(self.field, *self.resolved, before, target, after)
    }

    fn register(&self, world: &mut World<V, B>, target: Entity) {
        let body = B::body_from(
            DedupedFieldBody { field: self.field.share(), resolved: self.resolved.clone(), target },
        );
        spawn_effect_for(world, target, body);
    }
}

/// Whether `registration` does what registering the deduplicated field does.
pub open spec fn registers_deduped<
    V,
    B: BodyFrom<V, DedupedFieldBody<C, T, Src, P, S>>,
    C: Component<V>,
    T: PartialEq + Clone,
    Src: ReactiveSources<V, B>,
    P: Fn(Src::Output) -> T,
    S: FieldSetter<C, T>,
>(
    registration: BoxedEffectRegistration<V, B>,
    field: Field<C, T, Src, P, S>,
    resolved: Src::Resolved,
) -> bool where LastValue<T>: Component<V> {
    forall|before: WorldState<V, B>, target: Entity, after: WorldState<V, B>| #[trigger]
        registration.0.registers(before, target, after) <==> deduped_registered(
            field,
            resolved,
            before,
            target,
            after,
        )
}

/// Boxes the registration of a deduplicated field.
fn deduped_registration<
    V: 'static,
    B: BodyFrom<V, DedupedFieldBody<C, T, Src, P, S>> + 'static,
    C: Component<V> + 'static,
    T: PartialEq + Clone + 'static,
    Src: ReactiveSources<V, B> + 'static,
    P: Fn(Src::Output) -> T + 'static,
    S: FieldSetter<C, T> + 'static,
>(
    field: Field<C, T, Src, P, S>,
    resolved: Src::Resolved,
) -> (registration: BoxedEffectRegistration<V, B>) where
    Src::Resolved: 'static,
    LastValue<T>: Component<V>,

    ensures
        registers_deduped(registration, field, resolved),
{
    BoxedEffectRegistration(
        Box::new(DedupedFieldRegistration { field, resolved: Arc::new(resolved) }),
    )
}

/// Whether queueing the registration of a [`DedupedFieldEffect`] may turn the context `before` into
/// the context `after`.
pub open spec fn deduped_queued<
    V,
    B: BodyFrom<V, DedupedFieldBody<C, T, Src, P, S>>,
    C: Component<V>,
    T: PartialEq + Clone,
    Src: ReactiveSources<V, B>,
    P: Fn(Src::Output) -> T,
    S: FieldSetter<C, T>,
>(
    field: Field<C, T, Src, P, S>,
    resolved: Src::Resolved,
    before: TemplateState<V, B>,
    after: TemplateState<V, B>,
) -> bool where LastValue<T>: Component<V> {
    &&& after == before.queueing(after.effects.last())
    &&& registers_deduped(after.effects.last(), field, resolved)
}

/// A [`FieldEffect`] that skips the component write when the produced value is unchanged.
///
/// This is the equality cutoff that keeps deep reactive graphs cheap. Change ticks bump on any
/// write, even when the written value is identical, so without dedup an effect that recomputes to
/// the same value still marks its target component changed and needlessly re-runs everything
/// downstream of it.
///
/// The last produced value is cached on the effect entity in a [`LastValue<T>`], so no getter for
/// the field is required: dedup happens on the producer's output, before the write.
///
/// Prefer this over [`FieldEffect`] whenever `T: PartialEq`.
#[verifier::reject_recursive_types(T)]
#[verifier::reject_recursive_types(Src)]
pub struct DedupedFieldEffect<C, T, Src: SourcesTypes, P: Fn(Src::Output) -> T, S>(
    FieldEffect<C, T, Src, P, S>,
);

impl<C, T, Src: SourcesTypes, P: Fn(Src::Output) -> T, S> DedupedFieldEffect<C, T, Src, P, S> {
    /// The reactive field that this template is about.
    pub closed spec fn field(self) -> Field<C, T, Src, P, S> {
        self.0.field
    }

    /// Creates a new [`DedupedFieldEffect`]. See [`FieldEffect::new`].
    pub fn new(sources: Src, producer: P, setter: S) -> (effect: DedupedFieldEffect<C, T, Src, P, S>)
        requires
            forall|values: Src::Output| #[trigger] call_requires(producer, (values,)),
        ensures
            effect.field().sources() == sources,
            effect.field().producer() == producer,
            effect.field().setter() == setter,
    {
        DedupedFieldEffect(FieldEffect::new(sources, producer, setter))
    }

    /// The same template once more.
    pub fn clone_template(&self) -> (effect: DedupedFieldEffect<C, T, Src, P, S>)
        ensures
            effect == *self,
    {
        DedupedFieldEffect(self.0.clone_template())
    }
}

impl<
    V: 'static,
    B: BodyFrom<V, DedupedFieldBody<C, T, Src, P, S>> + 'static,
    C: Component<V> + 'static,
    T: PartialEq + Clone + 'static,
    Src: ReactiveSources<V, B> + 'static,
    P: Fn(Src::Output) -> T + 'static,
    S: FieldSetter<C, T> + 'static,
> Template<V, B> for DedupedFieldEffect<C, T, Src, P, S> where
    Src::Resolved: 'static,
    LastValue<T>: Component<V>,
 {
    /// The sources are resolved. If that fails, so does building, and nothing is queued. Otherwise
    /// the registration of the field is queued.
    open spec fn builds(
        &self,
        before: TemplateState<V, B>,
        result: Result<(), TemplateError>,
        after: TemplateState<V, B>,
    ) -> bool {
        exists|resolved: Result<Src::Resolved, TemplateError>, middle: TemplateState<V, B>| #[trigger]
            self.field().sources().resolves_all(before, resolved, middle) && match resolved {
                Ok(resolved) => result is Ok && deduped_queued(self.field(), resolved, middle, after),
                Err(error) => result == Err::<(), TemplateError>(error) && after == middle,
            }
    }

    fn build_template(&self, context: &mut TemplateContext<'_, V, B>) -> (result: Result<
        (),
        TemplateError,
    >) {
        let ghost before = context@;
        match self.0.field.sources.resolve_all(context) {
            Ok(resolved) => {
                let ghost (kept, middle) = (resolved, context@);
                proof {
                    assert(self.field().sources().resolves_all(before, Ok(kept), middle));
                }
                context.queue_effect(deduped_registration(self.0.field.share(), resolved));
                Ok(())
            },
            Err(error) => {
                proof {
                    assert(self.field().sources().resolves_all(before, Err(error), context@));
                }
                Err(error)
            },
        }
    }
}

} // verus!
