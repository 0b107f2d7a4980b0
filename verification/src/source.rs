//! Reactive sources: the things a reactive field can depend on.
//!
//! ## Two phases
//!
//! A source is read on every effect re-run, but some sources need data that is only available once,
//! while a scene is being applied. A name within the scene is the motivating case: it is an
//! [`EntityTemplate`] that only becomes an [`Entity`] while templates are built, via
//! [`TemplateContext::get_entity`].
//!
//! So [`ReactiveSource`] is split:
//! - [`ReactiveSource::resolve`] runs **once**, during scene application, with a
//!   [`TemplateContext`]. Its output is stored in the effect.
//! - [`ReactiveSource::read`] runs on **every** effect run, with an [`EffectContext`], and records
//!   the dependency.
//!
//! Sources that need no build-time data (a [`Signal`], or a component on the effect's own entity)
//! simply use `Resolved = ()`.
use crate::component::Component;
use crate::context::{ContextState, EffectContext};
use crate::id::{Entity, Source};
use crate::lifetime::{lemma_evolves_refl, lemma_evolves_trans};
use crate::signal::{Signal, SignalValue};
use crate::template::{EntityTemplate, TemplateContext, TemplateError, TemplateState};
use std::marker::PhantomData;
use vstd::prelude::*;
use vstd::std_specs::convert::IntoSpec;

verus! {

broadcast use {lemma_evolves_refl, lemma_evolves_trans};

/// The types that a source deals in.
pub trait SourceTypes {
    /// The value handed to the reactive expression.
    type Output;

    /// Data resolved once, while the scene is applied. Use `()` if none is needed.
    type Resolved;
}

/// Something a reactive field can depend on, in a world of `V`s and `B`s.
///
/// See the [module docs](self) for why this has two phases.
pub trait ReactiveSource<V, B>: SourceTypes + Clone {
    /// What resolving may do. What it is, each source says for itself.
    open spec fn resolves(
        &self,
        before: TemplateState<V, B>,
        resolved: Result<Self::Resolved, TemplateError>,
        after: TemplateState<V, B>,
    ) -> bool {
        arbitrary()
    }

    /// What reading may do. What it is, each source says for itself.
    open spec fn reads(
        &self,
        resolved: Self::Resolved,
        before: ContextState<V, B>,
        value: Self::Output,
        after: ContextState<V, B>,
    ) -> bool {
        arbitrary()
    }

    /// Resolves build-time data for this source. Called once per spawned entity.
    fn resolve(&self, context: &mut TemplateContext<'_, V, B>) -> (resolved: Result<
        Self::Resolved,
        TemplateError,
    >)
        requires
            old(context).wf(),
        ensures
            final(context).wf(),
            *final(final(context).borrow()) == *final(old(context).borrow()),
            old(context)@.world.evolves_to(final(context)@.world),
            self.resolves(old(context)@, resolved, final(context)@),
    ;

    /// Reads the current value and records a dependency on it. Called on every effect run.
    fn read(&self, resolved: &Self::Resolved, context: &mut EffectContext<'_, V, B>) -> (value: Self::Output)
        requires
            old(context).wf(),
        ensures
            final(context).wf(),
            *final(final(context).borrow()) == *final(old(context).borrow()),
            old(context)@.world.evolves_to(final(context)@.world),
            self.reads(*resolved, old(context)@, value, final(context)@),
    ;
}

/// Whether `value` may be read of something that currently holds `held`: a clone of it, or the
/// default if there is nothing.
pub open spec fn read_as<T: Clone + Default>(held: Option<T>, value: T) -> bool {
    match held {
        Some(h) => cloned(h, value),
        None => call_ensures(T::default, (), value),
    }
}

impl<T> SourceTypes for Signal<T> {
    type Output = T;

    type Resolved = ();
}

/// A [`Signal`] is a source with no build-time data.
///
/// Yields the signal's value, or [`Default`] if the signal entity has been despawned.
impl<V, B, T: Clone + Default> ReactiveSource<V, B> for Signal<T> where SignalValue<T>: Component<V> {
    open spec fn resolves(
        &self,
        before: TemplateState<V, B>,
        resolved: Result<(), TemplateError>,
        after: TemplateState<V, B>,
    ) -> bool {
        resolved is Ok && after == before
    }

    open spec fn reads(
        &self,
        resolved: (),
        before: ContextState<V, B>,
        value: T,
        after: ContextState<V, B>,
    ) -> bool {
        &&& after == before.with(
            Source::Component { entity: self@, component: <SignalValue<T> as Component<V>>::id() },
        )
        &&& read_as(
            match before.world.value::<SignalValue<T>>(self@) {
                Some(held) => Some(held.0),
                None => None,
            },
            value,
        )
    }

    fn resolve(&self, context: &mut TemplateContext<'_, V, B>) -> (resolved: Result<(), TemplateError>) {
        Ok(())
    }

    fn read(&self, resolved: &(), context: &mut EffectContext<'_, V, B>) -> (value: T) {
        match context.track(*self) {
            Some(value) => value,
            None => T::default(),
        }
    }
}

/// Component `C` on the entity the effect is attached to.
///
/// This needs no entity plumbing at all: the effect already knows its own target.
pub struct Own<C>(PhantomData<C>);

impl<C> Default for Own<C> {
    fn default() -> (own: Own<C>) {
        Own(PhantomData)
    }
}

impl<C> Clone for Own<C> {
    fn clone(&self) -> (own: Own<C>)
        ensures
            own == *self,
    {
        Own(PhantomData)
    }
}

impl<C> SourceTypes for Own<C> {
    type Output = C;

    type Resolved = ();
}

impl<V, B, C: Component<V> + Clone + Default> ReactiveSource<V, B> for Own<C> {
    open spec fn resolves(
        &self,
        before: TemplateState<V, B>,
        resolved: Result<(), TemplateError>,
        after: TemplateState<V, B>,
    ) -> bool {
        resolved is Ok && after == before
    }

    open spec fn reads(
        &self,
        resolved: (),
        before: ContextState<V, B>,
        value: C,
        after: ContextState<V, B>,
    ) -> bool {
        match before.target {
            Some(target) => {
                &&& after == before.with(Source::Component { entity: target, component: C::id() })
                &&& read_as(before.world.value::<C>(target), value)
            },
            None => after == before && read_as(None::<C>, value),
        }
    }

    fn resolve(&self, context: &mut TemplateContext<'_, V, B>) -> (resolved: Result<(), TemplateError>) {
        Ok(())
    }

    fn read(&self, resolved: &(), context: &mut EffectContext<'_, V, B>) -> (value: C) {
        let target = match context.target() {
            Some(target) => target,
            None => {
                return C::default();
            },
        };
        match context.track_component::<C>(target) {
            Some(value) => value,
            None => C::default(),
        }
    }
}

/// Component `C` on a specific [`Entity`] that is already known when the scene is built.
///
/// The entity slot is an [`EntityTemplate`], so this covers both a plain `Entity` value and a name
/// within the scene, which is resolved during scene application.
pub struct On<C>(pub EntityTemplate, pub PhantomData<C>);

impl<C> On<C> {
    /// Tracks `C` on the entity described by `entity`.
    pub fn new<E: Into<EntityTemplate>>(entity: E) -> (on: On<C>)
        ensures
            <E as IntoSpec<EntityTemplate>>::obeys_into_spec() ==> on.0 == <E as IntoSpec<
                EntityTemplate,
            >>::into_spec(entity),
    {
        On(entity.into(), PhantomData)
    }
}

impl<C> Clone for On<C> {
    fn clone(&self) -> (on: On<C>)
        ensures
            on == *self,
    {
        On(self.0, PhantomData)
    }
}

impl<C> SourceTypes for On<C> {
    type Output = C;

    type Resolved = Entity;
}

impl<V, B, C: Component<V> + Clone + Default> ReactiveSource<V, B> for On<C> {
    open spec fn resolves(
        &self,
        before: TemplateState<V, B>,
        resolved: Result<Entity, TemplateError>,
        after: TemplateState<V, B>,
    ) -> bool {
        resolved == Ok::<Entity, TemplateError>(self.0.described(before)) && after
            == self.0.describing(before)
    }

    open spec fn reads(
        &self,
        resolved: Entity,
        before: ContextState<V, B>,
        value: C,
        after: ContextState<V, B>,
    ) -> bool {
        &&& after == before.with(Source::Component { entity: resolved, component: C::id() })
        &&& read_as(before.world.value::<C>(resolved), value)
    }

    fn resolve(&self, context: &mut TemplateContext<'_, V, B>) -> (resolved: Result<Entity, TemplateError>) {
        Ok(self.0.build_template(context))
    }

    fn read(&self, resolved: &Entity, context: &mut EffectContext<'_, V, B>) -> (value: C) {
        // A forward name can resolve to an entity whose components have not been written yet.
        // `track_component` records the dependency even when the component is absent, so the
        // effect re-runs once it is inserted.
        match context.track_component::<C>(*resolved) {
            Some(value) => value,
            None => C::default(),
        }
    }
}

/// Resource `R` as a reactive source.
///
/// Resources carry change ticks like components do, so this slots into the same machinery.
pub struct OnResource<R>(PhantomData<R>);

impl<R> Default for OnResource<R> {
    fn default() -> (source: OnResource<R>) {
        OnResource(PhantomData)
    }
}

impl<R> Clone for OnResource<R> {
    fn clone(&self) -> (source: OnResource<R>)
        ensures
            source == *self,
    {
        OnResource(PhantomData)
    }
}

impl<R> SourceTypes for OnResource<R> {
    type Output = R;

    type Resolved = ();
}

impl<V, B, R: Component<V> + Clone + Default> ReactiveSource<V, B> for OnResource<R> {
    open spec fn resolves(
        &self,
        before: TemplateState<V, B>,
        resolved: Result<(), TemplateError>,
        after: TemplateState<V, B>,
    ) -> bool {
        resolved is Ok && after == before
    }

    open spec fn reads(
        &self,
        resolved: (),
        before: ContextState<V, B>,
        value: R,
        after: ContextState<V, B>,
    ) -> bool {
        &&& after == before.with(Source::Resource { resource: R::id() })
        &&& read_as(before.world.resource::<R>(), value)
    }

    fn resolve(&self, context: &mut TemplateContext<'_, V, B>) -> (resolved: Result<(), TemplateError>) {
        Ok(())
    }

    fn read(&self, resolved: &(), context: &mut EffectContext<'_, V, B>) -> (value: R) {
        // The dependency is recorded even when the resource is absent, so inserting it later wakes
        // the effect.
        match context.track_resource::<R>() {
            Some(value) => value,
            None => R::default(),
        }
    }
}

/// The types that a collection of sources deals in.
pub trait SourcesTypes {
    /// The values handed to the reactive expression.
    type Output;

    /// The build-time resolved data.
    type Resolved;
}

/// One or more [`ReactiveSource`]s: what a reactive field actually depends on.
///
/// Implemented for tuples and for a single source on its own, so `hp` and `(hp,)` are both valid,
/// the former yielding `T` where the latter yields `(T,)`.
///
/// Resolving and reading happen for the whole collection at once, so the reactive expression can be
/// a *pure* function of the read values: it never touches an [`EffectContext`] itself.
pub trait ReactiveSources<V, B>: SourcesTypes {
    /// What resolving may do. What it is, each collection says for itself.
    open spec fn resolves_all(
        &self,
        before: TemplateState<V, B>,
        resolved: Result<Self::Resolved, TemplateError>,
        after: TemplateState<V, B>,
    ) -> bool {
        arbitrary()
    }

    /// What reading may do. What it is, each collection says for itself.
    open spec fn reads_all(
        &self,
        resolved: Self::Resolved,
        before: ContextState<V, B>,
        values: Self::Output,
        after: ContextState<V, B>,
    ) -> bool {
        arbitrary()
    }

    /// Resolves every source. Called once per spawned entity.
    fn resolve_all(&self, context: &mut TemplateContext<'_, V, B>) -> (resolved: Result<
        Self::Resolved,
        TemplateError,
    >)
        requires
            old(context).wf(),
        ensures
            final(context).wf(),
            *final(final(context).borrow()) == *final(old(context).borrow()),
            old(context)@.world.evolves_to(final(context)@.world),
            self.resolves_all(old(context)@, resolved, final(context)@),
    ;

    /// Reads every source, recording a dependency on each.
    fn read_all(&self, resolved: &Self::Resolved, context: &mut EffectContext<'_, V, B>) -> (values: Self::Output)
        requires
            old(context).wf(),
        ensures
            final(context).wf(),
            *final(final(context).borrow()) == *final(old(context).borrow()),
            old(context)@.world.evolves_to(final(context)@.world),
            self.reads_all(*resolved, old(context)@, values, final(context)@),
    ;
}

impl<S: SourceTypes> SourcesTypes for S {
    type Output = S::Output;

    type Resolved = S::Resolved;
}

/// A single source is a collection of one, yielding its value directly rather than a 1-tuple.
impl<V, B, S: SourceTypes + ReactiveSource<V, B>> ReactiveSources<V, B> for S {
    open spec fn resolves_all(
        &self,
        before: TemplateState<V, B>,
        resolved: Result<<S as SourceTypes>::Resolved, TemplateError>,
        after: TemplateState<V, B>,
    ) -> bool {
        self.resolves(before, resolved, after)
    }

    open spec fn reads_all(
        &self,
        resolved: <S as SourceTypes>::Resolved,
        before: ContextState<V, B>,
        values: <S as SourceTypes>::Output,
        after: ContextState<V, B>,
    ) -> bool {
        self.reads(resolved, before, values, after)
    }

    fn resolve_all(&self, context: &mut TemplateContext<'_, V, B>) -> (resolved: Result<
        <S as SourceTypes>::Resolved,
        TemplateError,
    >) {
        self.resolve(context)
    }

    fn read_all(
        &self,
        resolved: &<S as SourceTypes>::Resolved,
        context: &mut EffectContext<'_, V, B>,
    ) -> (values: <S as SourceTypes>::Output) {
        self.read(resolved, context)
    }
}

} // verus!
