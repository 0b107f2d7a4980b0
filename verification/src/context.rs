//! What an effect sees while it runs.
use crate::component::Component;
use crate::graph::{Effect, EffectIndex};
use crate::id::{contains_source, ComponentId, Entity, Source, EFFECT_ID, EFFECT_INDEX_ID};
use crate::state::WorldState;
use crate::world::World;
use vstd::prelude::*;

verus! {

/// What an [`EffectContext`] holds.
#[verifier::ext_equal]
pub struct ContextState<V, B> {
    /// The world.
    pub world: WorldState<V, B>,
    /// The effect that is running.
    pub effect: Entity,
    /// The entity that the effect is attached to.
    pub target: Option<Entity>,
    /// The sources read so far, in the order of their first read.
    pub reads: Seq<Source>,
}

impl<V, B> ContextState<V, B> {
    /// The context once `source` is recorded: last, unless it was recorded already.
    pub open spec fn with(self, source: Source) -> ContextState<V, B> {
        if self.reads.contains(source) {
            self
        } else {
            ContextState { reads: self.reads.push(source), ..self }
        }
    }
}

/// The context passed to an effect body while it runs.
///
/// Use [`EffectContext::track_component`] or [`EffectContext::track`] to read reactively, and
/// [`EffectContext::world`] for arbitrary world access.
pub struct EffectContext<'w, V, B> {
    world: &'w mut World<V, B>,
    effect: Entity,
    target: Option<Entity>,
    reads: Vec<Source>,
}

impl<'w, V, B> EffectContext<'w, V, B> {
    /// What the context holds.
    pub closed spec fn view(&self) -> ContextState<V, B> {
        ContextState {
            world: (*self.world)@,
            effect: self.effect,
            target: self.target,
            reads: self.reads@,
        }
    }

    /// The borrow of the world.
    pub closed spec fn borrow(&self) -> &'w mut World<V, B> {
        self.world
    }

    /// The world is well-formed, and no source is recorded twice.
    pub closed spec fn wf(&self) -> bool {
        (*self.world).wf() && self.reads@.no_duplicates()
    }
}

impl<'w, V, B> EffectContext<'w, V, B> {
    /// The context that a run of `effect` starts with.
    pub(crate) fn new(
        world: &'w mut World<V, B>,
        effect: Entity,
        target: Option<Entity>,
    ) -> (context: EffectContext<'w, V, B>)
        ensures
            old(world).wf() ==> context.wf(),
            *final(context.borrow()) == *final(world),
            context@ == (ContextState {
                world: old(world)@,
                effect,
                target,
                reads: Seq::empty(),
            }),
    {
        EffectContext { world, effect, target, reads: Vec::new() }
    }

    /// Ends the run, and tells which sources it read.
    pub(crate) fn into_reads(self) -> (reads: Vec<Source>)
        requires
            self.wf(),
        ensures
            reads@ == self@.reads,
            reads@.no_duplicates(),
            (*final(self.borrow()))@ == self@.world,
            (*final(self.borrow())).wf(),
    {
        self.reads
    }

    /// The entity backing the currently running effect.
    pub fn effect(&self) -> (effect: Entity)
        ensures
            effect == self@.effect,
    {
        self.effect
    }

    /// The entity this effect is attached to, if it was spawned for one.
    ///
    /// This is what [`Own`](crate::source::Own) tracks against, so a reactive field can depend on a
    /// component of its own entity without any entity plumbing.
    pub fn target(&self) -> (target: Option<Entity>)
        ensures
            target == self@.target,
    {
        self.target
    }

    /// Mutable access to the [`World`].
    ///
    /// Reads performed through this world are *not* tracked.
    pub fn world(&mut self) -> (world: &mut World<V, B>)
        requires
            old(self).wf(),
        ensures
            world.wf(),
            world@ == old(self)@.world,
            final(world).wf() ==> final(self).wf(),
            final(self)@ == (ContextState { world: final(world)@, ..old(self)@ }),
            *final(final(self).borrow()) == *final(old(self).borrow()),
    {
        &mut *self.world
    }

    /// Reads component `C` from `entity` and records a dependency on it, so this effect re-runs
    /// whenever that component changes.
    ///
    /// Returns `None` if the entity or component is absent. The dependency is recorded either way,
    /// so an effect will re-run if a currently-missing component is later inserted.
    pub fn track_component<C: Component<V> + Clone>(&mut self, entity: Entity) -> (component: Option<C>)
        requires
            old(self).wf(),
        ensures
            final(self).wf(),
            final(self)@ == old(self)@.with(Source::Component { entity, component: C::id() }),
            *final(final(self).borrow()) == *final(old(self).borrow()),
            match component {
                Some(c) => {
                    &&& old(self)@.world.value::<C>(entity) is Some
                    &&& cloned(old(self)@.world.value::<C>(entity)->0, c)
                },
                None => old(self)@.world.value::<C>(entity) is None,
            },
    {
        let component = C::component_id();
        self.record(Source::Component { entity, component });
        match self.world.get::<C>(entity) {
            Some(c) => Some(c.clone()),
            None => None,
        }
    }

    /// Records a dependency on `source` without reading it.
    pub fn track_source(&mut self, source: Source)
        requires
            old(self).wf(),
        ensures
            final(self).wf(),
            final(self)@ == old(self)@.with(source),
            *final(final(self).borrow()) == *final(old(self).borrow()),
    {
        self.record(source);
    }

    /// Reads resource `R` and records a dependency on it, so this effect re-runs whenever the
    /// resource changes.
    ///
    /// Returns `None` if the resource is absent. The dependency is recorded either way, so an
    /// effect will re-run if a currently-missing resource is later inserted.
    pub fn track_resource<R: Component<V> + Clone>(&mut self) -> (resource: Option<R>)
        requires
            old(self).wf(),
        ensures
            final(self).wf(),
            final(self)@ == old(self)@.with(Source::Resource { resource: R::id() }),
            *final(final(self).borrow()) == *final(old(self).borrow()),
            match resource {
                Some(r) => {
                    &&& old(self)@.world.resource::<R>() is Some
                    &&& cloned(old(self)@.world.resource::<R>()->0, r)
                },
                None => old(self)@.world.resource::<R>() is None,
            },
    {
        let resource = R::component_id();
        self.record(Source::Resource { resource });
        match self.world.get_resource::<R>() {
            Some(r) => Some(r.clone()),
            None => None,
        }
    }

    /// Reads the function that the effect `entity` runs, and records a dependency on it, as
    /// [`EffectContext::track_component`] does for an ordinary component.
    pub fn track_effect(&mut self, entity: Entity) -> (effect: Option<Effect<B>>)
        requires
            old(self).wf(),
        ensures
            final(self).wf(),
            final(self)@ == old(self)@.with(
                Source::Component { entity, component: ComponentId(EFFECT_ID) },
            ),
            *final(final(self).borrow()) == *final(old(self).borrow()),
            match effect {
                Some(e) => {
                    &&& old(self)@.world.alive(entity)
                    &&& old(self)@.world.entities[entity].effect == Some(*e.0)
                },
                None => old(self)@.world.alive(entity)
                    ==> old(self)@.world.entities[entity].effect is None,
            },
    {
        let component = Effect::<B>::component_id();
        self.record(Source::Component { entity, component });
        self.world.effect(entity)
    }

    /// Reads the place of the effect `entity` in the order of registration, and records a dependency
    /// on it, as [`EffectContext::track_component`] does for an ordinary component.
    pub fn track_effect_index(&mut self, entity: Entity) -> (index: Option<EffectIndex>)
        requires
            old(self).wf(),
        ensures
            final(self).wf(),
            final(self)@ == old(self)@.with(
                Source::Component { entity, component: ComponentId(EFFECT_INDEX_ID) },
            ),
            *final(final(self).borrow()) == *final(old(self).borrow()),
            index == (if old(self)@.world.alive(entity) {
                old(self)@.world.entities[entity].index
            } else {
                None
            }),
    {
        let component = EffectIndex::component_id();
        self.record(Source::Component { entity, component });
        self.world.effect_index(entity)
    }

    fn record(&mut self, source: Source)
        requires
            old(self).wf(),
        ensures
            final(self).wf(),
            final(self)@ == old(self)@.with(source),
            *final(final(self).borrow()) == *final(old(self).borrow()),
    {
        if !contains_source(&self.reads, source) {
            self.reads.push(source);
        }
    }
}

/// The computation of an effect in a world of `V`s and `B`s.
pub trait EffectBody<V, B> {
    /// What a run may do. What it is, each computation says for itself.
    open spec fn runs(&self, before: ContextState<V, B>, after: ContextState<V, B>) -> bool {
        arbitrary()
    }

    /// Runs the computation. It may change the world in every way, but not put another one in its
    /// place: entities that were spawned stay spawned, or dead, and effects keep their place in the
    /// order of registration.
    fn run(&self, context: &mut EffectContext<'_, V, B>)
        requires
            old(context).wf(),
        ensures
            final(context).wf(),
            *final(final(context).borrow()) == *final(old(context).borrow()),
            old(context)@.world.evolves_to(final(context)@.world),
            self.runs(old(context)@, final(context)@),
    ;
}

/// Whether whatever `body` may do, `inner` may do.
pub open spec fn acts_as<V, B: EffectBody<V, B>, F: EffectBody<V, B>>(body: B, inner: F) -> bool {
    forall|before: ContextState<V, B>, after: ContextState<V, B>| #[trigger]
        body.runs(before, after) ==> inner.runs(before, after)
}

/// Computations that can take in computations of type `F`, as a world of mixed effects needs it.
pub trait BodyFrom<V, F: EffectBody<V, Self>>: EffectBody<V, Self> + Sized {
    /// Takes in `inner`: what is given back does what `inner` does.
    fn body_from(inner: F) -> (body: Self)
        ensures
            acts_as(body, inner),
    ;
}

/// A world with effects of one type takes them as they are.
impl<V, B: EffectBody<V, B>> BodyFrom<V, B> for B {
    fn body_from(inner: B) -> (body: B) {
        inner
    }
}

} // verus!
