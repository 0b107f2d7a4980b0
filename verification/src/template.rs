//! Templates: how an entity is built, with effects that are registered once it is fully written.
use crate::id::Entity;
use crate::lifetime::{lemma_evolves_refl, lemma_evolves_trans};
use crate::state::{EntityState, WorldState};
use crate::world::World;
use std::collections::HashMap;
use vstd::prelude::*;

verus! {

broadcast use {lemma_evolves_refl, lemma_evolves_trans};

/// A one-shot registration that spawns an effect for a target entity.
pub trait EffectRegistration<V, B> {
    /// What registering may do. What it is, each registration says for itself.
    open spec fn registers(
        &self,
        before: WorldState<V, B>,
        target: Entity,
        after: WorldState<V, B>,
    ) -> bool {
        arbitrary()
    }

    /// Spawns the effect for `target`. Entities that were spawned stay spawned, or dead.
    fn register(&self, world: &mut World<V, B>, target: Entity)
        requires
            old(world).wf(),
        ensures
            final(world).wf(),
            old(world)@.evolves_to(final(world)@),
            self.registers(old(world)@, target, final(world)@),
    ;
}

/// A boxed [`EffectRegistration`].
#[verifier::reject_recursive_types(V)]
#[verifier::reject_recursive_types(B)]
pub struct BoxedEffectRegistration<V, B>(pub Box<dyn EffectRegistration<V, B>>);

/// Effect registrations accumulated while building templates for one entity.
///
/// Effects cannot be spawned _during_ template building: registering an effect needs world access,
/// and the component the effect writes to does not exist on the entity yet. So registrations are
/// queued here and flushed by the caller once the entity is fully written.
#[verifier::reject_recursive_types(V)]
#[verifier::reject_recursive_types(B)]
pub struct QueuedEffects<V, B>(Vec<BoxedEffectRegistration<V, B>>);

impl<V, B> View for QueuedEffects<V, B> {
    type V = Seq<BoxedEffectRegistration<V, B>>;

    closed spec fn view(&self) -> Seq<BoxedEffectRegistration<V, B>> {
        self.0@
    }
}

impl<V, B> Default for QueuedEffects<V, B> {
    fn default() -> (queued: QueuedEffects<V, B>)
        ensures
            queued@ == Seq::<BoxedEffectRegistration<V, B>>::empty(),
    {
        QueuedEffects(Vec::new())
    }
}

/// Whether running the registrations `queued` for `target`, one after the other, may turn the world
/// `before` into the world `after`.
pub open spec fn all_registered<V, B>(
    before: WorldState<V, B>,
    queued: Seq<BoxedEffectRegistration<V, B>>,
    target: Entity,
    after: WorldState<V, B>,
) -> bool
    decreases queued.len(),
{
    if queued.len() == 0 {
        after == before
    } else {
        exists|middle: WorldState<V, B>|
            all_registered(before, queued.drop_last(), target, middle)
                && #[trigger] queued.last().0.registers(middle, target, after)
    }
}

impl<V, B> QueuedEffects<V, B> {
    /// Returns true if no effects are queued.
    pub fn is_empty(&self) -> (empty: bool)
        ensures
            empty == (self@.len() == 0),
    {
        self.0.len() == 0
    }

    /// Queues an effect registration, to be run with the target entity once it is fully written.
    pub fn push(&mut self, registration: BoxedEffectRegistration<V, B>)
        ensures
            final(self)@ == old(self)@.push(registration),
    {
        self.0.push(registration);
    }

    /// Takes the queued registrations, leaving this empty.
    pub fn take(&mut self) -> (queued: Vec<BoxedEffectRegistration<V, B>>)
        ensures
            queued@ == old(self)@,
            final(self)@ == Seq::<BoxedEffectRegistration<V, B>>::empty(),
    {
        let mut queued: Vec<BoxedEffectRegistration<V, B>> = Vec::new();
        std::mem::swap(&mut queued, &mut self.0);
        queued
    }

    /// Runs every queued registration against `target` and clears the queue.
    pub fn flush(&mut self, world: &mut World<V, B>, target: Entity)
        requires
            old(world).wf(),
        ensures
            final(world).wf(),
            old(world)@.evolves_to(final(world)@),
            all_registered(old(world)@, old(self)@, target, final(world)@),
            final(self)@ == Seq::<BoxedEffectRegistration<V, B>>::empty(),
    {
        let ghost before = world@;
        let queued = self.take();
        let mut i: usize = 0;
        while i < queued.len()
            invariant
                i <= queued.len(),
                world.wf(),
                before.evolves_to(world@),
                all_registered(before, queued@.take(i as int), target, world@),
            decreases queued.len() - i,
        {
            let ghost middle = world@;
            queued[i].0.register(world, target);
            proof {
                let sofar = queued@.take(i + 1);
                assert(sofar.drop_last() =~= queued@.take(i as int));
                assert(sofar.last().0.registers(middle, target, world@));
            }
            i += 1;
        }
        proof {
            assert(queued@.take(i as int) =~= queued@);
        }
    }
}

/// Why building a template failed.
#[derive(Debug)]
pub struct TemplateError {
    /// What went wrong, for a reader.
    pub message: String,
}

/// A name within a scene, by its number. It stands for an entity that is only known once the scene
/// is applied.
#[derive(Copy, Clone, PartialEq, Eq, Debug, Structural)]
pub struct ScopedEntityIndex(pub u64);

/// The entities that the names of a scene stand for, as far as they were needed.
pub struct ScopedEntities {
    entities: HashMap<u64, Entity>,
}

impl View for ScopedEntities {
    type V = Map<u64, Entity>;

    closed spec fn view(&self) -> Map<u64, Entity> {
        self.entities@
    }
}

impl Default for ScopedEntities {
    fn default() -> (scoped: ScopedEntities)
        ensures
            scoped@ == Map::<u64, Entity>::empty(),
    {
        ScopedEntities { entities: HashMap::new() }
    }
}

impl ScopedEntities {
    /// The entity that `index` stands for, if it was needed already.
    pub fn get(&self, index: ScopedEntityIndex) -> (entity: Option<Entity>)
        ensures
            entity == (if self@.contains_key(index.0) {
                Some(self@[index.0])
            } else {
                None
            }),
    {
        broadcast use vstd::std_specs::hash::group_hash_axioms;

        match self.entities.get(&index.0) {
            Some(entity) => Some(*entity),
            None => None,
        }
    }

    /// Makes `index` stand for `entity`.
    pub fn set(&mut self, index: ScopedEntityIndex, entity: Entity)
        ensures
            final(self)@ == old(self)@.insert(index.0, entity),
    {
        broadcast use vstd::std_specs::hash::group_hash_axioms;

        self.entities.insert(index.0, entity);
    }
}

/// What a [`TemplateContext`] holds.
#[verifier::ext_equal]
#[verifier::reject_recursive_types(V)]
#[verifier::reject_recursive_types(B)]
pub struct TemplateState<V, B> {
    /// The world.
    pub world: WorldState<V, B>,
    /// The entity that is being built.
    pub entity: Entity,
    /// The entities that names stand for.
    pub scoped: Map<u64, Entity>,
    /// The effect registrations queued so far.
    pub effects: Seq<BoxedEffectRegistration<V, B>>,
}

impl<V, B> TemplateState<V, B> {
    /// The entity that `index` stands for: a fresh one if it was not needed before.
    pub open spec fn named(self, index: ScopedEntityIndex) -> Entity {
        if self.scoped.contains_key(index.0) {
            self.scoped[index.0]
        } else {
            self.world.fresh()
        }
    }

    /// The context once the entity of `index` is needed.
    pub open spec fn naming(self, index: ScopedEntityIndex) -> TemplateState<V, B> {
        if self.scoped.contains_key(index.0) {
            self
        } else {
            TemplateState {
                world: self.world.spawned(EntityState::empty()),
                scoped: self.scoped.insert(index.0, self.world.fresh()),
                ..self
            }
        }
    }

    /// The context with one more registration queued.
    pub open spec fn queueing(self, registration: BoxedEffectRegistration<V, B>) -> TemplateState<V, B> {
        TemplateState { effects: self.effects.push(registration), ..self }
    }
}

/// The context passed to a template while it is built for one entity.
#[verifier::reject_recursive_types(V)]
#[verifier::reject_recursive_types(B)]
pub struct TemplateContext<'w, V, B> {
    world: &'w mut World<V, B>,
    entity: Entity,
    scoped: ScopedEntities,
    effects: QueuedEffects<V, B>,
}

impl<'w, V, B> TemplateContext<'w, V, B> {
    /// What the context holds.
    pub closed spec fn view(&self) -> TemplateState<V, B> {
        TemplateState {
            world: (*self.world)@,
            entity: self.entity,
            scoped: self.scoped@,
            effects: self.effects@,
        }
    }

    /// The borrow of the world.
    pub closed spec fn borrow(&self) -> &'w mut World<V, B> {
        self.world
    }

    /// The world is well-formed.
    pub closed spec fn wf(&self) -> bool {
        (*self.world).wf()
    }

    /// The context to build `entity` with, where names stand for `scoped`.
    pub fn new(
        world: &'w mut World<V, B>,
        entity: Entity,
        scoped: ScopedEntities,
    ) -> (context: TemplateContext<'w, V, B>)
        requires
            old(world).wf(),
        ensures
            context.wf(),
            *final(context.borrow()) == *final(world),
            context@ == (TemplateState {
                world: old(world)@,
                entity,
                scoped: scoped@,
                effects: Seq::empty(),
            }),
    {
        TemplateContext { world, entity, scoped, effects: QueuedEffects::default() }
    }

    /// Ends the building, and hands out what names stand for by now.
    pub fn into_scoped(self) -> (scoped: ScopedEntities)
        requires
            self.wf(),
        ensures
            scoped@ == self@.scoped,
            (*final(self.borrow()))@ == self@.world,
            (*final(self.borrow())).wf(),
    {
        self.scoped
    }

    /// The entity that is being built.
    pub fn entity(&self) -> (entity: Entity)
        ensures
            entity == self@.entity,
    {
        self.entity
    }

    /// Mutable access to the [`World`].
    pub fn world(&mut self) -> (world: &mut World<V, B>)
        requires
            old(self).wf(),
        ensures
            world.wf(),
            world@ == old(self)@.world,
            final(world).wf() ==> final(self).wf(),
            final(self)@ == (TemplateState { world: final(world)@, ..old(self)@ }),
            *final(final(self).borrow()) == *final(old(self).borrow()),
    {
        &mut *self.world
    }

    /// The entity that `index` stands for. It is spawned, empty, when it is first needed: what it
    /// holds may be written later.
    pub fn get_entity(&mut self, index: ScopedEntityIndex) -> (entity: Entity)
        requires
            old(self).wf(),
        ensures
            final(self).wf(),
            old(self)@.world.evolves_to(final(self)@.world),
            entity == old(self)@.named(index),
            final(self)@ == old(self)@.naming(index),
            *final(final(self).borrow()) == *final(old(self).borrow()),
    {
        match self.scoped.get(index) {
            Some(entity) => entity,
            None => {
                let entity = self.world.spawn_empty();
                self.scoped.set(index, entity);
                entity
            },
        }
    }

    /// Queues an effect registration, to be run once the entity is fully written.
    pub fn queue_effect(&mut self, registration: BoxedEffectRegistration<V, B>)
        requires
            old(self).wf(),
        ensures
            final(self).wf(),
            final(self)@ == old(self)@.queueing(registration),
            *final(final(self).borrow()) == *final(old(self).borrow()),
    {
        self.effects.push(registration);
    }

    /// Takes the queued registrations, leaving none.
    pub fn take_effects(&mut self) -> (queued: QueuedEffects<V, B>)
        requires
            old(self).wf(),
        ensures
            final(self).wf(),
            queued@ == old(self)@.effects,
            final(self)@ == (TemplateState { effects: Seq::empty(), ..old(self)@ }),
            *final(final(self).borrow()) == *final(old(self).borrow()),
    {
        let mut queued: QueuedEffects<V, B> = QueuedEffects::default();
        std::mem::swap(&mut queued, &mut self.effects);
        queued
    }
}

/// Describes an entity: one that is known, or a name to be resolved when the scene is applied.
#[derive(Copy, Clone, Debug)]
pub enum EntityTemplate {
    /// A known entity.
    Entity(Entity),
    /// A name within the scene.
    Scoped(ScopedEntityIndex),
}

impl From<Entity> for EntityTemplate {
    fn from(entity: Entity) -> (template: EntityTemplate) {
        EntityTemplate::Entity(entity)
    }
}

impl vstd::std_specs::convert::FromSpecImpl<Entity> for EntityTemplate {
    open spec fn obeys_from_spec() -> bool {
        true
    }

    open spec fn from_spec(entity: Entity) -> EntityTemplate {
        EntityTemplate::Entity(entity)
    }
}

impl From<ScopedEntityIndex> for EntityTemplate {
    fn from(index: ScopedEntityIndex) -> (template: EntityTemplate) {
        EntityTemplate::Scoped(index)
    }
}

impl vstd::std_specs::convert::FromSpecImpl<ScopedEntityIndex> for EntityTemplate {
    open spec fn obeys_from_spec() -> bool {
        true
    }

    open spec fn from_spec(index: ScopedEntityIndex) -> EntityTemplate {
        EntityTemplate::Scoped(index)
    }
}

impl EntityTemplate {
    /// The entity that this describes, where `context` says what names stand for.
    pub open spec fn described<V, B>(self, context: TemplateState<V, B>) -> Entity {
        match self {
            EntityTemplate::Entity(entity) => entity,
            EntityTemplate::Scoped(index) => context.named(index),
        }
    }

    /// The context once the described entity is needed.
    pub open spec fn describing<V, B>(self, context: TemplateState<V, B>) -> TemplateState<V, B> {
        match self {
            EntityTemplate::Entity(entity) => context,
            EntityTemplate::Scoped(index) => context.naming(index),
        }
    }

    /// Resolves the described entity.
    pub fn build_template<V, B>(&self, context: &mut TemplateContext<'_, V, B>) -> (entity: Entity)
        requires
            old(context).wf(),
        ensures
            final(context).wf(),
            old(context)@.world.evolves_to(final(context)@.world),
            entity == self.described(old(context)@),
            final(context)@ == self.describing(old(context)@),
            *final(final(context).borrow()) == *final(old(context).borrow()),
    {
        match *self {
            EntityTemplate::Entity(entity) => entity,
            EntityTemplate::Scoped(index) => context.get_entity(index),
        }
    }
}

/// Something that takes part in building an entity without inserting components itself, such as a
/// reactive field: it may queue effects.
pub trait Template<V, B> {
    /// What building may do. What it is, each template says for itself.
    open spec fn builds(
        &self,
        before: TemplateState<V, B>,
        result: Result<(), TemplateError>,
        after: TemplateState<V, B>,
    ) -> bool {
        arbitrary()
    }

    /// Builds this template for the entity of `context`. Entities that were spawned stay spawned, or
    /// dead.
    fn build_template(&self, context: &mut TemplateContext<'_, V, B>) -> (result: Result<
        (),
        TemplateError,
    >)
        requires
            old(context).wf(),
        ensures
            final(context).wf(),
            *final(final(context).borrow()) == *final(old(context).borrow()),
            old(context)@.world.evolves_to(final(context)@.world),
            self.builds(old(context)@, result, final(context)@),
    ;
}

} // verus!
