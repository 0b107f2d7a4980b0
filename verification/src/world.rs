//! The world: entities with their components, resources, and the change tick.
use crate::component::{stamped, Bundle, Component, Components, Mut, Stored};
use crate::graph::{
    lemma_released, list_at, listing, Dependencies, DirtyEffects, Effect, EffectIndex, EffectOf, Effects,
    EntitySubscribers, HostState, Lists, ResourceSubscribers, Subscribers,
};
use crate::id::{
    ComponentId, Entity, Source, DEPENDENCIES_ID, EFFECTS_ID, EFFECT_ID, EFFECT_INDEX_ID,
    EFFECT_OF_ID, FIRST_OWN_ID, SUBSCRIBERS_ID,
};
use crate::lifetime::{
    lemma_component_wf, lemma_components_wf, lemma_evolves, lemma_evolves_trans, lemma_graph_wf, lemma_resource_wf,
    lemma_spawned_wf,
};
use crate::state::{EntityState, Stamps, WorldState};
use crate::tick::Tick;
use crate::timing::{lemma_same_time, lemma_ticked_wf};
use vstd::prelude::*;

verus! {

/// What a world stores of one entity.
pub struct Record<V, B> {
    /// The ordinary components.
    pub components: Components<V>,
    /// The function of an effect.
    pub effect: Option<Effect<B>>,
    /// What an effect tracked.
    pub dependencies: Option<Dependencies>,
    /// An effect's place in the order of registration.
    pub index: Option<EffectIndex>,
    /// The entity an effect is attached to.
    pub effect_of: Option<EffectOf>,
    /// The effects attached to the entity.
    pub effects: Option<Effects>,
    /// When the entity became an effect.
    pub born: Tick,
    /// When it was last recorded what the effect depends on.
    pub recorded: Tick,
    /// When an effect was last attached to the entity, or detached from it.
    pub tied: Tick,
}

impl<V, B> View for Record<V, B> {
    type V = EntityState<V, B>;

    open spec fn view(&self) -> EntityState<V, B> {
        EntityState {
            components: self.components@,
            effect: match self.effect {
                Some(e) => Some(*e.0),
                None => None,
            },
            dependencies: match self.dependencies {
                Some(d) => Some(d@),
                None => None,
            },
            index: self.index,
            effect_of: match self.effect_of {
                Some(t) => Some(t.0),
                None => None,
            },
            effects: match self.effects {
                Some(e) => Some(e@),
                None => None,
            },
            stamps: Stamps { born: self.born, recorded: self.recorded, tied: self.tied },
        }
    }
}

impl<V, B> Record<V, B> {
    /// The record of an entity that holds nothing.
    pub fn new() -> (record: Record<V, B>)
        ensures
            record.components.wf(),
            record@ == EntityState::<V, B>::empty(),
    {
        Record {
            components: Components::new(),
            effect: None,
            dependencies: None,
            index: None,
            effect_of: None,
            effects: None,
            born: Tick(0),
            recorded: Tick(0),
            tied: Tick(0),
        }
    }

    /// When a component last changed that the library itself puts on entities, if it is there.
    fn own_changed(&self, component: ComponentId) -> (tick: Option<Tick>)
        ensures
            tick == self@.own_tick(component),
    {
        if component.0 == EFFECT_ID && self.effect.is_some() {
            Some(self.born)
        } else if component.0 == EFFECT_INDEX_ID && self.index.is_some() {
            Some(self.born)
        } else if component.0 == EFFECT_OF_ID && self.effect_of.is_some() {
            Some(self.born)
        } else if component.0 == EFFECTS_ID && self.effects.is_some() {
            Some(self.tied)
        } else if component.0 == DEPENDENCIES_ID && self.dependencies.is_some() {
            Some(self.recorded)
        } else {
            None
        }
    }
}

/// A world of entities whose components are stored as `V`s and whose effects run `B`s.
pub struct World<V, B> {
    tick: Tick,
    elapsed: Ghost<nat>,
    slots: Vec<Option<Record<V, B>>>,
    resources: Components<V>,
    subscribers: EntitySubscribers,
    resource_subscribers: ResourceSubscribers,
    dirty: DirtyEffects,
    pending: Ghost<Set<Entity>>,
}

/// The entities alive in `slots`: entity `n` is in slot `n`.
spec fn entities_of<V, B>(slots: Seq<Option<Record<V, B>>>) -> Map<Entity, EntityState<V, B>> {
    Map::new(
        |e: Entity| e.0 < slots.len() && slots[e.0 as int] is Some,
        |e: Entity| (slots[e.0 as int]->0)@,
    )
}

impl<V, B> View for World<V, B> {
    type V = WorldState<V, B>;

    closed spec fn view(&self) -> WorldState<V, B> {
        WorldState {
            tick: self.tick,
            elapsed: self.elapsed@,
            next: self.slots@.len(),
            entities: entities_of(self.slots@),
            resources: self.resources@,
            subscribers: listing(self.subscribers@, self.resource_subscribers@),
            noticed: Map::new(
                |e: Entity|
                    self.subscribers@.contains_key(e) && (entities_of(self.slots@).contains_key(e)
                        || e.0 >= self.slots@.len()),
                |e: Entity| self.subscribers@[e].changed,
            ),
            dirty: self.dirty@,
            pending: self.pending@,
        }
    }
}

impl<V, B> World<V, B> {
    /// The storage is in order, whatever the graph of effects looks like.
    pub closed spec fn sound(&self) -> bool {
        &&& forall|i: int|
            0 <= i < self.slots@.len() && (#[trigger] self.slots@[i]) is Some ==> (
            self.slots@[i]->0).components.wf()
        &&& self.resources.wf()
        &&& self.subscribers.wf()
        &&& self.dirty.wf()
    }

    /// The storage is in order, and so is the graph of effects.
    pub open spec fn wf(&self) -> bool {
        self.sound() && self@.wf()
    }

    /// What a world holds before anything was spawned: nothing. The first tick is one, so that
    /// whatever is inserted right away is newer than the tick that nothing happened at.
    pub open spec fn initial() -> WorldState<V, B> {
        WorldState {
            tick: Tick(1),
            elapsed: 0,
            next: 0,
            entities: Map::empty(),
            resources: Map::empty(),
            subscribers: |source: Source| Seq::empty(),
            noticed: Map::empty(),
            dirty: crate::graph::DirtyState {
                queue: Seq::empty(),
                last_poll: Tick(0),
                next_index: 0,
            },
            pending: Set::empty(),
        }
    }

    /// Creates an empty world.
    pub fn new() -> (world: World<V, B>)
        ensures
            world.wf(),
            world@ == World::<V, B>::initial(),
    {
        let world = World {
            tick: Tick(1),
            elapsed: Ghost(0),
            slots: Vec::new(),
            resources: Components::new(),
            subscribers: EntitySubscribers::new(),
            resource_subscribers: ResourceSubscribers::default(),
            dirty: DirtyEffects::default(),
            pending: Ghost(Set::empty()),
        };
        proof {
            assert(world@.entities =~= Map::empty());
            assert(world@ =~= World::<V, B>::initial());
        }
        world
    }

    /// The current change tick.
    pub fn change_tick(&self) -> (tick: Tick)
        ensures
            tick == self@.tick,
    {
        self.tick
    }

    /// Advances the change tick. Whatever is written from now on is stamped newer than what was
    /// written before.
    pub fn increment_change_tick(&mut self)
        requires
            old(self).sound(),
        ensures
            final(self).sound(),
            final(self)@ == old(self)@.ticked(),
            old(self).wf() ==> final(self).wf() && old(self)@.evolves_to(final(self)@),
    {
        self.tick = self.tick.following();
        self.elapsed = Ghost((self.elapsed@ + 1) as nat);
        proof {
            lemma_ticked_wf(old(self)@);
            if old(self).wf() {
                lemma_evolves(old(self)@, self@);
            }
        }
    }

    /// How many entities were ever spawned.
    pub(crate) fn allocated(&self) -> (count: usize)
        ensures
            count == self@.next,
    {
        self.slots.len()
    }

    /// Looks at the record of an entity.
    pub(crate) fn record(&self, entity: Entity) -> (record: Option<&Record<V, B>>)
        requires
            self.sound(),
        ensures
            match record {
                Some(r) => {
                    &&& self@.alive(entity)
                    &&& self@.entities[entity] == r@
                    &&& r.components.wf()
                },
                None => !self@.alive(entity),
            },
    {
        if entity.0 < self.slots.len() as u64 {
            match &self.slots[entity.0 as usize] {
                Some(r) => Some(r),
                None => None,
            }
        } else {
            None
        }
    }

    /// Hands out the record of an entity, to be changed in place.
    pub(crate) fn record_mut(&mut self, entity: Entity) -> (record: Option<&mut Record<V, B>>)
        requires
            old(self).sound(),
        ensures
            match record {
                Some(r) => {
                    &&& old(self)@.alive(entity)
                    &&& old(self)@.entities[entity] == r@
                    &&& r.components.wf()
                    &&& final(self)@ == old(self)@.put(entity, final(r)@)
                    &&& final(r).components.wf() ==> final(self).sound()
                },
                None => {
                    &&& !old(self)@.alive(entity)
                    &&& final(self)@ == old(self)@
                    &&& final(self).sound()
                },
            },
    {
        if entity.0 < self.slots.len() as u64 {
            let ghost slots = self.slots@;
            match &mut self.slots[entity.0 as usize] {
                Some(r) => {
                    proof {
                        let after = slots.update(entity.0 as int, Some(*final(r)));
                        assert(entities_of(after) =~= entities_of(slots).insert(entity, final(r)@));
                    }
                    Some(r)
                },
                None => None,
            }
        } else {
            None
        }
    }

    /// Adds one more entity, which holds what `record` says.
    pub(crate) fn allocate(&mut self, record: Record<V, B>) -> (entity: Entity)
        requires
            old(self).sound(),
            record.components.wf(),
        ensures
            final(self).sound(),
            entity == old(self)@.fresh(),
            old(self)@.next < usize::MAX,
            final(self)@ == old(self)@.spawned(record@),
    {
        let ghost slots = self.slots@;
        let entity = Entity(self.slots.len() as u64);
        self.slots.push(Some(record));
        let ghost listed = self.subscribers@;
        self.subscribers.touch(entity, self.tick);
        proof {
            assert(listing(self.subscribers@, self.resource_subscribers@) =~= listing(
                listed,
                self.resource_subscribers@,
            ));
            assert(self.slots.len() == slots.len() + 1);
            assert(entities_of(self.slots@) =~= entities_of(slots).insert(entity, record@));
        }
        entity
    }

    /// Whether `entity` was spawned, and is not alive any more.
    pub(crate) fn is_gone(&self, entity: Entity) -> (gone: bool)
        requires
            self.sound(),
        ensures
            gone == !self@.reachable(entity),
    {
        entity.0 < self.slots.len() as u64 && !self.contains(entity)
    }

    /// Removes an entity from its slot. Its subscriber lists go with it, unless something is still
    /// subscribed to it.
    pub(crate) fn vacate(&mut self, entity: Entity)
        requires
            old(self).sound(),
            old(self)@.alive(entity),
        ensures
            final(self).sound(),
            final(self)@ == (WorldState {
                entities: old(self)@.entities.remove(entity),
                noticed: old(self)@.noticed.remove(entity),
                ..old(self)@
            }),
    {
        let ghost slots = self.slots@;
        proof {
            assert(entity.0 < self.slots.len());
        }
        self.slots[entity.0 as usize] = None;
        let ghost listed = self.subscribers@;
        self.subscribers.release(entity);
        proof {
            lemma_released(listed, self.subscribers@, self.resource_subscribers@, entity);
            assert(self.slots@ == slots.update(entity.0 as int, None));
            assert forall|e: Entity| #[trigger]
                entities_of(self.slots@).contains_key(e) == entities_of(slots).remove(entity).contains_key(e) by {
                assert(e.0 == entity.0 ==> e == entity);
            }
            assert(entities_of(self.slots@) =~= entities_of(slots).remove(entity));
        }
    }
}

impl<V, B> World<V, B> {
    /// Spawns an entity that holds nothing.
    pub fn spawn_empty(&mut self) -> (entity: Entity)
        requires
            old(self).wf(),
        ensures
            final(self).wf(),
            old(self)@.evolves_to(final(self)@),
            entity == old(self)@.fresh(),
            final(self)@ == old(self)@.spawned(EntityState::empty()),
    {
        let entity = self.allocate(Record::new());
        proof {
            lemma_spawned_wf(old(self)@, EntityState::empty(), old(self)@.dirty.next_index);
        }
        entity
    }

    /// Spawns an entity that holds `component`.
    pub fn spawn<C: Component<V>>(&mut self, component: C) -> (entity: Entity)
        requires
            old(self).wf(),
        ensures
            final(self).wf(),
            old(self)@.evolves_to(final(self)@),
            entity == old(self)@.fresh(),
            final(self)@ == old(self)@.spawned(EntityState::empty()).with_component(
                entity,
                C::id(),
                Stored { value: component.stored(), changed: old(self)@.tick },
            ),
            final(self)@.value::<C>(entity) == Some(component),
    {
        let entity = self.spawn_empty();
        let ghost middle = self@;
        self.insert(entity, component);
        proof {
            lemma_evolves_trans(old(self)@, middle, self@);
        }
        entity
    }

    /// Returns whether `entity` is alive.
    pub fn contains(&self, entity: Entity) -> (alive: bool)
        requires
            self.sound(),
        ensures
            alive == self@.alive(entity),
    {
        self.record(entity).is_some()
    }

    /// Inserts `component` on `entity`, in place of the one of that type that was there. Returns
    /// whether the entity is alive; nothing happens if it is not.
    pub fn insert<C: Component<V>>(&mut self, entity: Entity, component: C) -> (alive: bool)
        requires
            old(self).wf(),
        ensures
            final(self).wf(),
            old(self)@.evolves_to(final(self)@),
            alive == old(self)@.alive(entity),
            final(self)@ == if alive {
                old(self)@.with_component(
                    entity,
                    C::id(),
                    Stored { value: component.stored(), changed: old(self)@.tick },
                )
            } else {
                old(self)@
            },
            alive ==> final(self)@.value::<C>(entity) == Some(component),
    {
        let tick = self.tick;
        match self.record_mut(entity) {
            Some(record) => {
                let stored = Stored { value: component.into_stored(), changed: tick };
                proof {
                    lemma_components_wf(
                        old(self)@,
                        entity,
                        old(self)@.entities[entity].components.insert(C::id(), stored),
                    );
                }
                record.components.insert(C::component_id(), stored);
                true
            },
            None => {
                proof {
                    lemma_evolves(old(self)@, old(self)@);
                }
                false
            },
        }
    }

    /// Inserts every component of `bundle` on `entity` at once. Returns whether the entity is alive;
    /// nothing happens if it is not.
    pub fn insert_bundle(&mut self, entity: Entity, bundle: Bundle<V>) -> (alive: bool)
        requires
            old(self).wf(),
            bundle.wf(),
        ensures
            final(self).wf(),
            old(self)@.evolves_to(final(self)@),
            alive == old(self)@.alive(entity),
            final(self)@ == old(self)@.with_bundle(entity, bundle@),
    {
        let tick = self.tick;
        match self.record_mut(entity) {
            Some(record) => {
                proof {
                    lemma_components_wf(
                        old(self)@,
                        entity,
                        old(self)@.entities[entity].components.union_prefer_right(
                            stamped(bundle@, tick),
                        ),
                    );
                }
                record.components.write(bundle, tick);
                true
            },
            None => {
                proof {
                    lemma_evolves(old(self)@, old(self)@);
                }
                false
            },
        }
    }

    /// Reads the component `C` of `entity`.
    pub fn get<C: Component<V>>(&self, entity: Entity) -> (component: Option<&C>)
        requires
            self.sound(),
        ensures
            match component {
                Some(c) => self@.value::<C>(entity) == Some(*c),
                None => self@.value::<C>(entity) is None,
            },
    {
        match self.record(entity) {
            Some(record) => match record.components.get(C::component_id()) {
                Some(stored) => C::held_ref(&stored.value),
                None => None,
            },
            None => None,
        }
    }

    /// Mutably accesses the component `C` of `entity`. It is marked changed only if it is written
    /// through the guard. Whoever gives the guard's tick a value of its own goes past change
    /// detection, and may leave effects stale.
    pub fn get_mut<C: Component<V>>(&mut self, entity: Entity) -> (component: Option<Mut<'_, C>>)
        requires
            old(self).wf(),
        ensures
            match component {
                Some(m) => {
                    &&& *final(m.changed) == *m.changed || *final(m.changed) == m.this_run
                        ==> final(self).wf() && old(self)@.evolves_to(final(self)@)
                    &&& old(self)@.value::<C>(entity) == Some(*m.value)
                    &&& *m.changed == old(self)@.entities[entity].components[C::id()].changed
                    &&& m.this_run == old(self)@.tick
                    &&& final(self)@ == old(self)@.with_component(
                        entity,
                        C::id(),
                        Stored { value: (*final(m.value)).stored(), changed: *final(m.changed) },
                    )
                    &&& final(self)@.value::<C>(entity) == Some(*final(m.value))
                },
                None => {
                    &&& old(self)@.value::<C>(entity) is None
                    &&& final(self)@ == old(self)@
                    &&& final(self).wf()
                },
            },
    {
        let this_run = self.tick;
        let ghost before = self@;
        match self.record_mut(entity) {
            Some(record) => match record.components.get_mut(C::component_id()) {
                Some(stored) => {
                    proof {
                        lemma_component_wf(before, entity, C::id(), *final(stored));
                    }
                    match C::held_mut(&mut stored.value) {
                        Some(value) => Some(Mut { value, changed: &mut stored.changed, this_run }),
                        None => {
                            proof {
                                assert(before.with_component(
                                    entity,
                                    C::id(),
                                    before.entities[entity].components[C::id()],
                                ) =~~= before);
                            }
                            None
                        },
                    }
                },
                None => {
                    proof {
                        assert(before.put(entity, before.entities[entity]) =~~= before);
                    }
                    None
                },
            },
            None => None,
        }
    }
}

impl<V, B> World<V, B> {
    /// Inserts the resource `resource`, in place of the one of that type that was there.
    pub fn insert_resource<R: Component<V>>(&mut self, resource: R)
        requires
            old(self).wf(),
        ensures
            final(self).wf(),
            old(self)@.evolves_to(final(self)@),
            final(self)@ == old(self)@.with_resource(
                R::id(),
                Stored { value: resource.stored(), changed: old(self)@.tick },
            ),
            final(self)@.resource::<R>() == Some(resource),
    {
        let stored = Stored { value: resource.into_stored(), changed: self.tick };
        self.resources.insert(R::component_id(), stored);
        proof {
            lemma_resource_wf(old(self)@, R::id(), stored);
        }
    }

    /// Reads the resource `R`.
    pub fn get_resource<R: Component<V>>(&self) -> (resource: Option<&R>)
        requires
            self.sound(),
        ensures
            match resource {
                Some(r) => self@.resource::<R>() == Some(*r),
                None => self@.resource::<R>() is None,
            },
    {
        match self.resources.get(R::component_id()) {
            Some(stored) => R::held_ref(&stored.value),
            None => None,
        }
    }

    /// Mutably accesses the resource `R`. It is marked changed only if it is written through the
    /// guard, as a component is: see [`World::get_mut`].
    pub fn get_resource_mut<R: Component<V>>(&mut self) -> (resource: Option<Mut<'_, R>>)
        requires
            old(self).wf(),
        ensures
            match resource {
                Some(m) => {
                    &&& *final(m.changed) == *m.changed || *final(m.changed) == m.this_run
                        ==> final(self).wf() && old(self)@.evolves_to(final(self)@)
                    &&& old(self)@.resource::<R>() == Some(*m.value)
                    &&& *m.changed == old(self)@.resources[R::id()].changed
                    &&& m.this_run == old(self)@.tick
                    &&& final(self)@ == old(self)@.with_resource(
                        R::id(),
                        Stored { value: (*final(m.value)).stored(), changed: *final(m.changed) },
                    )
                    &&& final(self)@.resource::<R>() == Some(*final(m.value))
                },
                None => {
                    &&& old(self)@.resource::<R>() is None
                    &&& final(self)@ == old(self)@
                    &&& final(self).wf()
                },
            },
    {
        let this_run = self.tick;
        let ghost before = self@;
        match self.resources.get_mut(R::component_id()) {
            Some(stored) => {
                proof {
                    lemma_resource_wf(before, R::id(), *final(stored));
                }
                match R::held_mut(&mut stored.value) {
                    Some(value) => Some(Mut { value, changed: &mut stored.changed, this_run }),
                    None => {
                        proof {
                            assert(before.with_resource(R::id(), before.resources[R::id()]) =~~= before);
                        }
                        None
                    },
                }
            },
            None => None,
        }
    }

    /// When the component `component` of `entity` last changed, if it exists. Those that the library
    /// itself puts on entities are components like any other.
    pub fn component_changed(&self, entity: Entity, component: ComponentId) -> (tick: Option<Tick>)
        requires
            self.sound(),
        ensures
            tick == self@.changed_tick(Source::Component { entity, component }),
    {
        match self.record(entity) {
            Some(record) => match record.components.get(component) {
                Some(stored) => Some(stored.changed),
                None => if component.0 == SUBSCRIBERS_ID {
                    match self.subscribers.get(entity) {
                        Some(host) => Some(host.changed),
                        None => None,
                    }
                } else {
                    record.own_changed(component)
                },
            },
            None => None,
        }
    }

    /// When the resource `resource` last changed, if it exists.
    pub fn resource_changed(&self, resource: ComponentId) -> (tick: Option<Tick>)
        requires
            self.sound(),
        ensures
            tick == self@.changed_tick(Source::Resource { resource }),
    {
        match self.resources.get(resource) {
            Some(stored) => Some(stored.changed),
            None => None,
        }
    }

    /// The subscriber lists of `entity`, if it is alive and ever had a subscriber.
    pub fn subscribers(&self, entity: Entity) -> (subscribers: Option<&Subscribers>)
        requires
            self.sound(),
        ensures
            match subscribers {
                Some(s) => {
                    &&& self@.alive(entity)
                    &&& self@.noticed.contains_key(entity)
                    &&& forall|component: ComponentId| #[trigger]
                        list_at(s@, component) == self@.subscribers_of(
                            Source::Component { entity, component },
                        )
                },
                None => !self@.alive(entity) || !self@.noticed.contains_key(entity),
            },
    {
        match self.record(entity) {
            Some(_) => match self.subscribers.get(entity) {
                Some(host) => Some(&host.lists),
                None => None,
            },
            None => None,
        }
    }

    /// The subscriber lists by entity.
    pub closed spec fn entity_lists(&self) -> Map<Entity, HostState> {
        self.subscribers@
    }

    /// The subscriber lists of the resources.
    pub closed spec fn resource_lists(&self) -> Lists {
        self.resource_subscribers@
    }

    /// No ordinary component stands under an identifier that is kept for the library's own ones.
    pub proof fn lemma_ids(&self)
        requires
            self.sound(),
        ensures
            forall|e: Entity, id: ComponentId|
                self@.alive(e) && #[trigger] self@.entities[e].components.contains_key(id) ==> id.0
                    < FIRST_OWN_ID,
    {
        assert forall|e: Entity, id: ComponentId|
            self@.alive(e) && #[trigger] self@.entities[e].components.contains_key(id) implies id.0
            < FIRST_OWN_ID by {
            (self.slots@[e.0 as int]->0).components.lemma_ids();
        }
    }

    /// What is subscribed to a source is what these lists say.
    pub proof fn lemma_listing(&self)
        ensures
            self@.subscribers == listing(self.entity_lists(), self.resource_lists()),
    {
    }

    /// The subscriber lists of every entity that was ever tracked.
    pub(crate) fn entity_subscribers(&self) -> (subscribers: &EntitySubscribers)
        requires
            self.sound(),
        ensures
            subscribers.wf(),
            subscribers@ == self.entity_lists(),
            self@.subscribers == listing(self.entity_lists(), self.resource_lists()),
    {
        &self.subscribers
    }

    /// The subscriber lists of every entity that was ever tracked, to be changed in place.
    pub(crate) fn entity_subscribers_mut(&mut self) -> (subscribers: &mut EntitySubscribers)
        requires
            old(self).sound(),
        ensures
            subscribers.wf(),
            subscribers@ == old(self).entity_lists(),
            old(self)@.subscribers == listing(old(self).entity_lists(), old(self).resource_lists()),
            forall|e: Entity| #[trigger]
                old(self)@.noticed.contains_key(e) <==> old(self).entity_lists().contains_key(e)
                    && old(self)@.reachable(e),
            forall|e: Entity| #[trigger]
                old(self)@.noticed.contains_key(e) ==> old(self)@.noticed[e]
                    == old(self).entity_lists()[e].changed,
            final(subscribers).wf() ==> final(self).sound(),
            final(self).entity_lists() == final(subscribers)@,
            final(self).resource_lists() == old(self).resource_lists(),
            final(self)@ == (WorldState {
                subscribers: listing(final(subscribers)@, old(self).resource_lists()),
                noticed: Map::new(
                    |e: Entity| final(subscribers)@.contains_key(e) && old(self)@.reachable(e),
                    |e: Entity| final(subscribers)@[e].changed,
                ),
                ..old(self)@
            }),
    {
        &mut self.subscribers
    }

    /// The dependencies of the effect `entity`.
    pub fn dependencies(&self, entity: Entity) -> (dependencies: Option<&Dependencies>)
        requires
            self.sound(),
        ensures
            match dependencies {
                Some(d) => self@.tracking(entity) && self@.dependencies_of(entity) == d@,
                None => !self@.tracking(entity),
            },
    {
        match self.record(entity) {
            Some(record) => record.dependencies.as_ref(),
            None => None,
        }
    }

    /// The place of the effect `entity` in the order of registration.
    pub fn effect_index(&self, entity: Entity) -> (index: Option<EffectIndex>)
        requires
            self.sound(),
        ensures
            index == (if self@.alive(entity) {
                self@.entities[entity].index
            } else {
                None
            }),
    {
        match self.record(entity) {
            Some(record) => record.index,
            None => None,
        }
    }

    /// The function that the effect `entity` runs.
    pub fn effect(&self, entity: Entity) -> (effect: Option<Effect<B>>)
        requires
            self.sound(),
        ensures
            match effect {
                Some(e) => self@.alive(entity) && self@.entities[entity].effect == Some(*e.0),
                None => self@.alive(entity) ==> self@.entities[entity].effect is None,
            },
    {
        match self.record(entity) {
            Some(record) => match &record.effect {
                Some(effect) => Some(effect.clone()),
                None => None,
            },
            None => None,
        }
    }

    /// The entity that the effect `entity` is tied to.
    pub fn effect_of(&self, entity: Entity) -> (target: Option<EffectOf>)
        requires
            self.sound(),
        ensures
            match target {
                Some(t) => self@.alive(entity) && self@.entities[entity].effect_of == Some(t.0),
                None => self@.alive(entity) ==> self@.entities[entity].effect_of is None,
            },
    {
        match self.record(entity) {
            Some(record) => record.effect_of,
            None => None,
        }
    }

    /// The effects tied to `entity`.
    pub fn effects(&self, entity: Entity) -> (effects: Option<&Effects>)
        requires
            self.sound(),
        ensures
            match effects {
                Some(e) => self@.alive(entity) && self@.entities[entity].effects == Some(e@),
                None => self@.alive(entity) ==> self@.entities[entity].effects is None,
            },
    {
        match self.record(entity) {
            Some(record) => record.effects.as_ref(),
            None => None,
        }
    }

    /// The effects subscribed to each resource.
    pub fn resource_subscribers(&self) -> (subscribers: &ResourceSubscribers)
        ensures
            subscribers@ == self.resource_lists(),
            forall|resource: ComponentId| #[trigger]
                list_at(subscribers@, resource) == self@.subscribers_of(Source::Resource { resource }),
    {
        &self.resource_subscribers
    }

    /// The effects subscribed to each resource, to be changed in place.
    pub(crate) fn resource_subscribers_mut(&mut self) -> (subscribers: &mut ResourceSubscribers)
        requires
            old(self).sound(),
        ensures
            subscribers@ == old(self).resource_lists(),
            old(self)@.subscribers == listing(old(self).entity_lists(), old(self).resource_lists()),
            final(self).sound(),
            final(self)@ == (WorldState {
                subscribers: listing(old(self).entity_lists(), final(subscribers)@),
                ..old(self)@
            }),
    {
        &mut self.resource_subscribers
    }

    /// The queue of effects that may be dirty.
    pub fn dirty_effects(&self) -> (dirty: &DirtyEffects)
        requires
            self.sound(),
        ensures
            dirty.wf(),
            dirty@ == self@.dirty,
    {
        &self.dirty
    }

    /// The queue of effects that may be dirty, to be changed in place.
    pub(crate) fn dirty_effects_mut(&mut self) -> (dirty: &mut DirtyEffects)
        requires
            old(self).sound(),
        ensures
            dirty.wf(),
            dirty@ == old(self)@.dirty,
            final(dirty).wf() ==> final(self).sound(),
            final(self)@ == (WorldState { dirty: final(dirty)@, ..old(self)@ }),
    {
        &mut self.dirty
    }

    /// Queues `effect` to be re-checked in the next flush, unless it already is.
    pub fn mark_dirty(&mut self, effect: Entity)
        requires
            old(self).wf(),
        ensures
            final(self).wf(),
            old(self)@.evolves_to(final(self)@),
            final(self)@ == (WorldState { dirty: old(self)@.dirty.with(effect), ..old(self)@ }),
    {
        let ghost before = self@;
        self.dirty.push(effect);
        proof {
            lemma_graph_wf(before, self@);
            lemma_evolves(before, self@);
            assert forall|e: Entity|
                before.dirty.queue.contains(e) || before.pending.contains(e) implies #[trigger] self@.dirty.queue.contains(
            e) || self@.pending.contains(e) by {
                vstd::seq_lib::lemma_seq_contains_after_push(before.dirty.queue, effect, e);
            }
            assert forall|s: Source| #[trigger] self@.changed_tick(s) == before.changed_tick(s) by {}
            assert forall|e: Entity| #[trigger] self@.dependencies_of(e) == before.dependencies_of(e) by {}
            lemma_same_time(before, self@);
        }
    }

    /// Notes which effects the flushes under way have still to re-check.
    pub(crate) fn note_pending(&mut self, pending: Ghost<Set<Entity>>)
        requires
            old(self).sound(),
        ensures
            final(self).sound(),
            final(self)@ == old(self)@.awaiting(pending@),
    {
        self.pending = pending;
    }
}

} // verus!
