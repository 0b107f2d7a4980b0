//! The mathematical model of a world: what it holds, what its graph of effects must satisfy, and
//! how each step of the reactive machinery changes it.
use crate::component::{stamped, Component, Stored, Table};
use crate::graph::{sources_of, DirtyState, EffectIndex};
use crate::id::{
    without, ComponentId, Dependency, Entity, Source, DEPENDENCIES_ID, EFFECTS_ID, EFFECT_ID,
    EFFECT_INDEX_ID, EFFECT_OF_ID, SUBSCRIBERS_ID,
};
use crate::tick::{Tick, TICK_PERIOD};
use vstd::prelude::*;

verus! {

/// When the components that the library itself puts on an entity last changed, as far as it has them.
pub struct Stamps {
    /// When the entity became an effect: its function, its index and what it is tied to stay as they
    /// are from then on.
    pub born: Tick,
    /// When it was last recorded what the effect depends on.
    pub recorded: Tick,
    /// When an effect was last tied to the entity, or parted from it.
    pub tied: Tick,
}

impl Stamps {
    /// The stamps of what happens all at once.
    pub open spec fn at(tick: Tick) -> Stamps {
        Stamps { born: tick, recorded: tick, tied: tick }
    }
}

/// What a world holds of one entity.
#[verifier::ext_equal]
pub struct EntityState<V, B> {
    /// The ordinary components.
    pub components: Table<V>,
    /// The function to run, if this entity is an effect.
    pub effect: Option<B>,
    /// What the effect tracked on its last run.
    pub dependencies: Option<Seq<Dependency>>,
    /// The effect's place in the order of registration.
    pub index: Option<EffectIndex>,
    /// The entity whose lifetime the effect is tied to.
    pub effect_of: Option<Entity>,
    /// The effects whose lifetime is tied to this entity.
    pub effects: Option<Seq<Entity>>,
    /// When what the library itself keeps of the entity last changed.
    pub stamps: Stamps,
}

impl<V, B> EntityState<V, B> {
    /// An entity that holds nothing.
    pub open spec fn empty() -> EntityState<V, B> {
        EntityState {
            components: Map::empty(),
            effect: None,
            dependencies: None,
            index: None,
            effect_of: None,
            effects: None,
            stamps: Stamps::at(Tick(0)),
        }
    }

    /// When a component last changed that the library itself puts on entities, if it is there. Of
    /// the subscriber lists the world keeps track itself.
    pub open spec fn own_tick(self, component: ComponentId) -> Option<Tick> {
        if component.0 == EFFECT_ID && self.effect is Some {
            Some(self.stamps.born)
        } else if component.0 == EFFECT_INDEX_ID && self.index is Some {
            Some(self.stamps.born)
        } else if component.0 == EFFECT_OF_ID && self.effect_of is Some {
            Some(self.stamps.born)
        } else if component.0 == EFFECTS_ID && self.effects is Some {
            Some(self.stamps.tied)
        } else if component.0 == DEPENDENCIES_ID && self.dependencies is Some {
            Some(self.stamps.recorded)
        } else {
            None
        }
    }
}

/// The test for not being one of `doomed`.
pub open spec fn outside(doomed: Set<Entity>) -> spec_fn(Entity) -> bool {
    |e: Entity| !doomed.contains(e)
}

/// A list of effects as an entity holds it: not at all if it is empty.
pub open spec fn nonempty(list: Seq<Entity>) -> Option<Seq<Entity>> {
    if list.len() == 0 {
        None
    } else {
        Some(list)
    }
}

/// What a world holds.
#[verifier::ext_equal]
pub struct WorldState<V, B> {
    /// The current change tick.
    pub tick: Tick,
    /// How often the tick was advanced since the beginning.
    pub elapsed: nat,
    /// How many entities were ever spawned: the next one gets this number.
    pub next: nat,
    /// The entities that are alive.
    pub entities: Map<Entity, EntityState<V, B>>,
    /// The resources.
    pub resources: Table<V>,
    /// The effects subscribed to each source, also to those that do not exist.
    pub subscribers: spec_fn(Source) -> Seq<Entity>,
    /// The entities that something was ever subscribed to, but for those that died, and when their
    /// lists last changed.
    pub noticed: Map<Entity, Tick>,
    /// The queue of effects that may be dirty.
    pub dirty: DirtyState,
    /// The effects that flushes under way have taken off the queue and will re-check. There are
    /// none outside of a flush.
    pub pending: Set<Entity>,
}

/// The list once `effect` is on it: last, unless it was there already.
pub open spec fn enlisted(list: Seq<Entity>, effect: Entity) -> Seq<Entity> {
    if list.contains(effect) {
        list
    } else {
        list.push(effect)
    }
}

/// The list of a source that `effect` has read, or has not read, on its last run.
pub open spec fn relisted(list: Seq<Entity>, is_read: bool, effect: Entity) -> Seq<Entity> {
    if is_read {
        enlisted(list, effect)
    } else {
        without(list, effect)
    }
}

/// Whether a component of `entity` is among `sources`, but not among `others`.
pub open spec fn hosts_but(sources: Seq<Source>, others: Seq<Source>, entity: Entity) -> bool {
    exists|component: ComponentId| #[trigger]
        sources.contains(Source::Component { entity, component }) && !others.contains(
            Source::Component { entity, component },
        )
}

/// Whether one of `sources` is a component of `entity`.
pub open spec fn hosts(sources: Seq<Source>, entity: Entity) -> bool {
    exists|component: ComponentId| #[trigger]
        sources.contains(Source::Component { entity, component })
}

impl<V, B> WorldState<V, B> {
    /// Whether `entity` is alive.
    pub open spec fn alive(self, entity: Entity) -> bool {
        self.entities.contains_key(entity)
    }

    /// Whether `entity` is alive, or yet to be spawned.
    pub open spec fn reachable(self, entity: Entity) -> bool {
        self.alive(entity) || entity.0 >= self.next
    }

    /// The world with `state` as what it holds of `entity`.
    pub open spec fn put(self, entity: Entity, state: EntityState<V, B>) -> WorldState<V, B> {
        WorldState { entities: self.entities.insert(entity, state), ..self }
    }

    /// When the subscriber lists of `entity` last changed, if it ever had a subscriber.
    pub open spec fn noticed_tick(self, entity: Entity) -> Option<Tick> {
        if self.noticed.contains_key(entity) {
            Some(self.noticed[entity])
        } else {
            None
        }
    }

    /// When a source last changed, if it exists.
    pub open spec fn changed_tick(self, source: Source) -> Option<Tick> {
        match source {
            Source::Component { entity, component } => if !self.alive(entity) {
                None
            } else if self.entities[entity].components.contains_key(component) {
                Some(self.entities[entity].components[component].changed)
            } else if component.0 == SUBSCRIBERS_ID {
                self.noticed_tick(entity)
            } else {
                self.entities[entity].own_tick(component)
            },
            Source::Resource { resource } => if self.resources.contains_key(resource) {
                Some(self.resources[resource].changed)
            } else {
                None
            },
        }
    }

    /// What a source holds, and when it last changed, if it exists.
    pub open spec fn stored_at(self, source: Source) -> Option<Stored<V>> {
        match source {
            Source::Component { entity, component } => if self.alive(entity)
                && self.entities[entity].components.contains_key(component) {
                Some(self.entities[entity].components[component])
            } else {
                None
            },
            Source::Resource { resource } => if self.resources.contains_key(resource) {
                Some(self.resources[resource])
            } else {
                None
            },
        }
    }

    /// Whether every source that this world and `after` hold differently was written since, and
    /// carries the tick of that, or is gone. It is so where all writes go through change detection.
    pub open spec fn detects(self, after: WorldState<V, B>) -> bool {
        forall|s: Source|
            {
                ||| #[trigger] after.stored_at(s) == self.stored_at(s)
                ||| after.stored_at(s) is None
                ||| (after.stored_at(s)->0).changed.0 >= self.tick.0
            }
    }

    /// The effects subscribed to `source`.
    pub open spec fn subscribers_of(self, source: Source) -> Seq<Entity> {
        (self.subscribers)(source)
    }

    /// The world with `list` as what is subscribed to `source`.
    pub open spec fn with_list(self, source: Source, list: Seq<Entity>) -> WorldState<V, B> {
        WorldState {
            subscribers: |s: Source|
                if s == source {
                    list
                } else {
                    self.subscribers_of(s)
                },
            ..self
        }
    }

    /// The world once `effect` is subscribed to `source`.
    pub open spec fn subscribed(self, source: Source, effect: Entity) -> WorldState<V, B> {
        WorldState {
            noticed: match source {
                Source::Component { entity, .. } => if self.reachable(entity) {
                    self.noticed.insert(entity, self.tick)
                } else {
                    self.noticed
                },
                Source::Resource { .. } => self.noticed,
            },
            ..self.with_list(source, enlisted(self.subscribers_of(source), effect))
        }
    }

    /// The world once `effect` is no longer subscribed to `source`.
    pub open spec fn unsubscribed(self, source: Source, effect: Entity) -> WorldState<V, B> {
        WorldState {
            noticed: match source {
                Source::Component { entity, .. } => if self.noticed.contains_key(entity) {
                    self.noticed.insert(entity, self.tick)
                } else {
                    self.noticed
                },
                Source::Resource { .. } => self.noticed,
            },
            ..self.with_list(source, without(self.subscribers_of(source), effect))
        }
    }

    /// When the lists of each entity last changed, once something left those of `sources`.
    pub open spec fn left(self, sources: Seq<Source>) -> Map<Entity, Tick> {
        Map::new(
            |x: Entity| self.noticed.contains_key(x),
            |x: Entity|
                if hosts(sources, x) {
                    self.tick
                } else {
                    self.noticed[x]
                },
        )
    }

    /// The world once `effect` is no longer subscribed to any of `sources`.
    pub open spec fn unsubscribed_all(self, sources: Seq<Source>, effect: Entity) -> WorldState<V, B> {
        WorldState {
            subscribers: |s: Source|
                if sources.contains(s) {
                    without(self.subscribers_of(s), effect)
                } else {
                    self.subscribers_of(s)
                },
            noticed: self.left(sources),
            ..self
        }
    }

    /// Whether `entity` keeps a record of what it tracks.
    pub open spec fn tracking(self, entity: Entity) -> bool {
        self.alive(entity) && self.entities[entity].dependencies is Some
    }

    /// The dependencies of `effect`, none if it keeps no record.
    pub open spec fn dependencies_of(self, effect: Entity) -> Seq<Dependency> {
        if self.tracking(effect) {
            self.entities[effect].dependencies->0
        } else {
            Seq::empty()
        }
    }

    /// The sources that `effect` tracked on its last run.
    pub open spec fn tracked_by(self, effect: Entity) -> Seq<Source> {
        sources_of(self.dependencies_of(effect))
    }

    /// What an effect that read `reads` has observed by now: the tick at which each source last
    /// changed, or the current tick for a source that does not exist.
    pub open spec fn observed(self, reads: Seq<Source>) -> Seq<Dependency> {
        reads.map_values(
            |source: Source|
                Dependency {
                    source,
                    observed: match self.changed_tick(source) {
                        Some(changed) => changed,
                        None => self.tick,
                    },
                },
        )
    }

    /// The world once `effect` is subscribed to exactly `reads`, and about to record that.
    pub open spec fn linked(self, effect: Entity, reads: Seq<Source>) -> WorldState<V, B> {
        WorldState {
            subscribers: |s: Source|
                relisted(self.subscribers_of(s), reads.contains(s), effect),
            noticed: Map::new(
                |x: Entity|
                    self.noticed.contains_key(x) || self.reachable(x) && hosts_but(
                        reads,
                        self.tracked_by(effect),
                        x,
                    ),
                |x: Entity|
                    if self.reachable(x) && hosts_but(reads, self.tracked_by(effect), x)
                        || hosts_but(self.tracked_by(effect), reads, x) {
                        self.tick
                    } else {
                        self.noticed[x]
                    },
            ),
            ..self.put(
                effect,
                EntityState {
                    stamps: Stamps { recorded: self.tick, ..self.entities[effect].stamps },
                    ..self.entities[effect]
                },
            )
        }
    }

    /// The world once `effect` is subscribed to exactly `reads`, and its record says the same, with
    /// the ticks that it has observed by now. An effect that keeps no record stays as it is.
    pub open spec fn reconciled(self, effect: Entity, reads: Seq<Source>) -> WorldState<V, B> {
        if self.tracking(effect) {
            let linked = self.linked(effect, reads);
            linked.put(
                effect,
                EntityState {
                    dependencies: Some(linked.observed(reads)),
                    ..linked.entities[effect]
                },
            )
        } else {
            self
        }
    }

    /// The world one tick later.
    pub open spec fn ticked(self) -> WorldState<V, B> {
        WorldState { tick: self.tick.next(), elapsed: self.elapsed + 1, ..self }
    }

    /// Whether a dependency's source changed since it was observed.
    pub open spec fn dependency_advanced(self, dependency: Dependency) -> bool {
        match self.changed_tick(dependency.source) {
            Some(changed) => changed.newer_than(dependency.observed, self.tick),
            None => false,
        }
    }

    /// Whether a dependency of `effect` changed since it last ran.
    pub open spec fn behind(self, effect: Entity) -> bool {
        exists|i: int|
            0 <= i < self.dependencies_of(effect).len() && self.dependency_advanced(
                #[trigger] self.dependencies_of(effect)[i],
            )
    }

    /// Whether `effect` is to be run when it is re-checked: a dependency changed since it last ran,
    /// or it has no recorded dependencies, and so counts as dirty.
    pub open spec fn advanced(self, effect: Entity) -> bool {
        self.dependencies_of(effect).len() == 0 || self.behind(effect)
    }

    /// Whether `source` changed since the last poll.
    pub open spec fn moved(self, source: Source) -> bool {
        match self.changed_tick(source) {
            Some(changed) => changed.newer_than(self.dirty.last_poll, self.tick),
            None => false,
        }
    }

    /// Whether `source` changed since the last poll and `effect` is subscribed to it.
    pub open spec fn wakes(self, source: Source, effect: Entity) -> bool {
        self.moved(source) && self.subscribers_of(source).contains(effect)
    }

    /// Whether a poll finds a reason to queue `effect`: a source that it is subscribed to changed.
    pub open spec fn woken(self, effect: Entity) -> bool {
        exists|source: Source| #[trigger] self.wakes(source, effect)
    }

    /// Whether `after` is this world after a poll. The effects that were queued keep their places;
    /// in which order the woken ones follow is left open.
    pub open spec fn polled_to(self, after: WorldState<V, B>) -> bool {
        &&& after == WorldState {
            dirty: DirtyState {
                queue: after.dirty.queue,
                last_poll: self.tick,
                next_index: self.dirty.next_index,
            },
            ..self.ticked()
        }
        &&& self.dirty.queue.is_prefix_of(after.dirty.queue)
        &&& after.dirty.queue.no_duplicates()
        &&& forall|effect: Entity| #[trigger]
            after.dirty.queue.contains(effect) <==> self.dirty.queue.contains(effect) || self.woken(
                effect,
            )
    }

    /// The world with what was queued taken off, to be re-checked.
    pub open spec fn drained(self) -> WorldState<V, B> {
        WorldState {
            dirty: DirtyState { queue: Seq::empty(), ..self.dirty },
            pending: self.pending.union(self.dirty.queue.to_set()),
            ..self
        }
    }

    /// The world with other effects left to be re-checked by the flushes under way.
    pub open spec fn awaiting(self, pending: Set<Entity>) -> WorldState<V, B> {
        WorldState { pending, ..self }
    }

    /// What an effect is ordered by in a flush: its index, below all others if it has none.
    pub open spec fn rank(self, effect: Entity) -> int {
        if self.alive(effect) && self.entities[effect].index is Some {
            (self.entities[effect].index->0).0 as int
        } else {
            -1
        }
    }

    /// Whether `order` holds what `queue` holds, ordered by rank, and by place in the queue among
    /// those of equal rank.
    pub open spec fn in_order(self, queue: Seq<Entity>, order: Seq<Entity>) -> bool {
        &&& order.no_duplicates()
        &&& forall|e: Entity| #[trigger] order.contains(e) <==> queue.contains(e)
        &&& forall|i: int, j: int|
            0 <= i < j < order.len() ==> {
                ||| self.rank(#[trigger] order[i]) < self.rank(#[trigger] order[j])
                ||| self.rank(order[i]) == self.rank(order[j]) && queue.index_of(order[i])
                    < queue.index_of(order[j])
            }
    }

    /// The world with one more entity, which holds `state`. If something is subscribed to it already,
    /// its lists count as new.
    pub open spec fn spawned(self, state: EntityState<V, B>) -> WorldState<V, B> {
        WorldState {
            next: self.next + 1,
            noticed: if self.noticed.contains_key(self.fresh()) {
                self.noticed.insert(self.fresh(), self.tick)
            } else {
                self.noticed
            },
            ..self.put(self.fresh(), state)
        }
    }

    /// The entity that the next spawn gives.
    pub open spec fn fresh(self) -> Entity {
        Entity(self.next as u64)
    }

    /// The world with other ordinary components on `entity`.
    pub open spec fn with_components(self, entity: Entity, components: Table<V>) -> WorldState<V, B> {
        self.put(entity, EntityState { components, ..self.entities[entity] })
    }

    /// The world with `stored` as the component `id` of `entity`.
    pub open spec fn with_component(
        self,
        entity: Entity,
        id: ComponentId,
        stored: Stored<V>,
    ) -> WorldState<V, B> {
        self.with_components(entity, self.entities[entity].components.insert(id, stored))
    }

    /// The world once `values` are written to `entity`, unless that is not alive.
    pub open spec fn with_bundle(self, entity: Entity, values: Map<ComponentId, V>) -> WorldState<V, B> {
        if self.alive(entity) {
            self.with_components(
                entity,
                self.entities[entity].components.union_prefer_right(stamped(values, self.tick)),
            )
        } else {
            self
        }
    }

    /// The world with `stored` as the resource `id`.
    pub open spec fn with_resource(self, id: ComponentId, stored: Stored<V>) -> WorldState<V, B> {
        WorldState { resources: self.resources.insert(id, stored), ..self }
    }

    /// The component `C` of `entity`, if the entity is alive and has one.
    pub open spec fn value<C: Component<V>>(self, entity: Entity) -> Option<C> {
        if self.alive(entity) && self.entities[entity].components.contains_key(C::id()) {
            C::held(self.entities[entity].components[C::id()].value)
        } else {
            None
        }
    }

    /// The resource `R`, if there is one.
    pub open spec fn resource<R: Component<V>>(self) -> Option<R> {
        if self.resources.contains_key(R::id()) {
            R::held(self.resources[R::id()].value)
        } else {
            None
        }
    }

    /// The world with a fresh effect that runs `func` and has tracked nothing yet, last in the
    /// order of registration.
    pub open spec fn enrolled(self, func: B) -> WorldState<V, B> {
        WorldState {
            dirty: DirtyState { next_index: self.dirty.next_index + 1, ..self.dirty },
            ..self.spawned(
                EntityState {
                    effect: Some(func),
                    dependencies: Some(Seq::empty()),
                    index: Some(EffectIndex(self.dirty.next_index as u64)),
                    stamps: Stamps::at(self.tick),
                    ..EntityState::empty()
                },
            )
        }
    }

    /// The world once the lifetime of `effect` is tied to `target`.
    pub open spec fn attached(self, effect: Entity, target: Entity) -> WorldState<V, B> {
        self.put(
            effect,
            EntityState { effect_of: Some(target), ..self.entities[effect] },
        ).put(
            target,
            EntityState {
                effects: Some(
                    match self.entities[target].effects {
                        Some(list) => list.push(effect),
                        None => seq![effect],
                    },
                ),
                stamps: Stamps { tied: self.tick, ..self.entities[target].stamps },
                ..self.entities[target]
            },
        )
    }

    /// The world with a fresh effect, tied to `target` if that is alive.
    pub open spec fn registered(self, func: B, target: Option<Entity>) -> WorldState<V, B> {
        match target {
            Some(t) => if self.alive(t) {
                self.enrolled(func).attached(self.fresh(), t)
            } else {
                self.enrolled(func)
            },
            None => self.enrolled(func),
        }
    }

    /// The world once the record of what `effect` tracks is removed: its sources forget it.
    pub open spec fn forgotten(self, effect: Entity) -> WorldState<V, B> {
        WorldState {
            subscribers: |s: Source| without(self.subscribers_of(s), effect),
            noticed: self.left(self.tracked_by(effect)),
            entities: if self.alive(effect) {
                self.entities.insert(
                    effect,
                    EntityState { dependencies: None, ..self.entities[effect] },
                )
            } else {
                self.entities
            },
            ..self
        }
    }

    /// Whether `entity` is `root`, or an effect tied to it, or to one of those, and so on.
    pub open spec fn under(self, root: Entity, entity: Entity) -> bool
        decreases entity.0,
    {
        &&& self.alive(entity)
        &&& {
            ||| entity == root
            ||| match self.entities[entity].effect_of {
                Some(target) => target.0 < entity.0 && self.under(root, target),
                None => false,
            }
        }
    }

    /// What dies with `root`.
    pub open spec fn tree(self, root: Entity) -> Set<Entity> {
        Set::new(|entity: Entity| self.under(root, entity))
    }

    /// Whether one of `doomed` is tied to `entity`.
    pub open spec fn bereaved(self, doomed: Set<Entity>, entity: Entity) -> bool {
        exists|e: Entity| #[trigger]
            doomed.contains(e) && self.alive(e) && self.entities[e].effect_of == Some(entity)
    }

    /// Whether one of `doomed` tracks a component of `entity`.
    pub open spec fn deserted(self, doomed: Set<Entity>, entity: Entity) -> bool {
        exists|e: Entity| #[trigger] doomed.contains(e) && hosts(self.tracked_by(e), entity)
    }

    /// What is held of `entity` once `doomed` died: those of its effects that are left.
    pub open spec fn pruned_state(self, doomed: Set<Entity>, entity: Entity) -> EntityState<V, B> {
        let state = self.entities[entity];
        EntityState {
            effects: match state.effects {
                Some(list) => nonempty(list.filter(outside(doomed))),
                None => None,
            },
            stamps: if self.bereaved(doomed, entity) {
                Stamps { tied: self.tick, ..state.stamps }
            } else {
                state.stamps
            },
            ..state
        }
    }

    /// The world once `doomed` died: they are no longer subscribed to anything.
    pub open spec fn pruned(self, doomed: Set<Entity>) -> WorldState<V, B> {
        WorldState {
            entities: Map::new(
                |e: Entity| self.alive(e) && !doomed.contains(e),
                |e: Entity| self.pruned_state(doomed, e),
            ),
            subscribers: |s: Source| self.subscribers_of(s).filter(outside(doomed)),
            noticed: Map::new(
                |x: Entity| self.noticed.contains_key(x) && !doomed.contains(x),
                |x: Entity|
                    if self.deserted(doomed, x) {
                        self.tick
                    } else {
                        self.noticed[x]
                    },
            ),
            ..self
        }
    }

    /// The same entities are alive, are effects, and are tied to each other.
    pub open spec fn same_lives(self, other: WorldState<V, B>) -> bool {
        &&& self.next == other.next
        &&& self.dirty.next_index == other.dirty.next_index
        &&& self.entities.dom() == other.entities.dom()
        &&& forall|e: Entity| #[trigger]
            self.alive(e) ==> {
                &&& self.entities[e].effect == other.entities[e].effect
                &&& self.entities[e].index == other.entities[e].index
                &&& self.entities[e].effect_of == other.entities[e].effect_of
                &&& self.entities[e].effects == other.entities[e].effects
            }
    }

    /// The same effects are subscribed to the same sources, and recorded the same.
    pub open spec fn same_edges(self, other: WorldState<V, B>) -> bool {
        &&& self.subscribers == other.subscribers
        &&& self.entities.dom() == other.entities.dom()
        &&& forall|e: Entity| #[trigger]
            self.alive(e) ==> {
                &&& self.entities[e].dependencies == other.entities[e].dependencies
                &&& self.entities[e].effect is Some == other.entities[e].effect is Some
            }
    }

    /// Whether `after` may be what this world is like later on: entities are not forgotten or brought
    /// back, effects keep their function and their place in the order of registration, later ones
    /// come after them, and flushes under way still have the same to do.
    pub open spec fn evolves_to(self, after: WorldState<V, B>) -> bool {
        self.ids_wf() ==> {
            &&& after.ids_wf()
            &&& self.next <= after.next
            &&& self.elapsed <= after.elapsed
            &&& self.dirty.next_index <= after.dirty.next_index
            &&& self.pending == after.pending
            &&& forall|e: Entity|
                self.alive(e) && after.alive(e) ==> self.entities[e].index == (
                #[trigger] after.entities[e]).index && self.entities[e].effect
                    == after.entities[e].effect
            &&& forall|e: Entity| #[trigger] after.alive(e) && !self.alive(e) ==> e.0 >= self.next
            &&& forall|e: Entity| #[trigger]
                after.alive(e) && !self.alive(e) && after.rank(e) >= 0 ==> after.rank(e)
                    >= self.dirty.next_index
        }
    }
}

impl<V, B> WorldState<V, B> {
    /// Whether `effect` recorded `source` on its last run.
    pub open spec fn tracks(self, effect: Entity, source: Source) -> bool {
        self.tracking(effect) && self.tracked_by(effect).contains(source)
    }

    /// Entities carry numbers that were handed out.
    pub open spec fn ids_wf(self) -> bool {
        forall|e: Entity| #[trigger] self.alive(e) ==> e.0 < self.next
    }

    /// No effect is subscribed to a source twice.
    pub open spec fn lists_wf(self) -> bool {
        forall|s: Source| (#[trigger] self.subscribers_of(s)).no_duplicates()
    }

    /// No effect depends on a source twice, and only effects keep a record.
    pub open spec fn dependencies_wf(self) -> bool {
        &&& forall|e: Entity| (#[trigger] self.tracked_by(e)).no_duplicates()
        &&& forall|e: Entity| #[trigger] self.tracking(e) ==> self.entities[e].effect is Some
    }

    /// The two ends of every edge agree: an effect is subscribed to what it tracks, and to nothing
    /// else.
    pub open spec fn inverse_wf(self) -> bool {
        forall|e: Entity, s: Source|
            #![trigger self.tracks(e, s)]
            #![trigger self.subscribers_of(s).contains(e)]
            self.subscribers_of(s).contains(e) <==> self.tracks(e, s)
    }

    /// Whether the tick has not started over yet.
    pub open spec fn young(self) -> bool {
        self.elapsed + 1 < TICK_PERIOD
    }

    /// Whether a dependency was observed by now, and at the last change of its source or before.
    pub open spec fn plausible(self, dependency: Dependency) -> bool {
        &&& dependency.observed.0 <= self.tick.0
        &&& self.changed_tick(dependency.source) matches Some(changed) ==> dependency.observed.0
            <= changed.0
    }

    /// As long as the tick has not started over, it counts how often it was advanced, nothing
    /// carries a tick of the future, the last poll lies in the past, and a source has not changed
    /// before what was observed of it.
    pub open spec fn times_wf(self) -> bool {
        self.young() ==> {
            &&& self.tick.0 == self.elapsed + 1
            &&& self.dirty.last_poll.0 < self.tick.0
            &&& forall|s: Source| (#[trigger] self.changed_tick(s)) matches Some(changed) ==> changed.0
                <= self.tick.0
            &&& forall|e: Entity, i: int|
                0 <= i < self.dependencies_of(e).len() ==> self.plausible(
                    #[trigger] self.dependencies_of(e)[i],
                )
        }
    }

    /// Whether whoever depends on `source` will be re-checked for its sake: because the next poll
    /// finds it, or because `effect` is queued, or because a flush under way will come to it.
    pub open spec fn attended(self, effect: Entity, source: Source) -> bool {
        self.moved(source) || self.dirty.queue.contains(effect) || self.pending.contains(effect)
    }

    /// No effect is left stale: one whose dependency changed since it last ran will be re-checked.
    pub open spec fn current_wf(self) -> bool {
        self.young() ==> forall|e: Entity, i: int|
            0 <= i < self.dependencies_of(e).len() && self.dependency_advanced(
                #[trigger] self.dependencies_of(e)[i],
            ) ==> self.attended(e, self.dependencies_of(e)[i].source)
    }

    /// Effects carry an index, no two the same, below the next one to hand out.
    pub open spec fn indexes_wf(self) -> bool {
        &&& self.dirty.next_index <= self.next
        &&& forall|e: Entity| #[trigger]
            self.alive(e) && self.entities[e].effect is Some ==> self.entities[e].index is Some
        &&& forall|e: Entity| #[trigger] self.alive(e) ==> self.rank(e) < self.dirty.next_index
        &&& forall|e: Entity, f: Entity|
            #![trigger self.alive(e), self.alive(f)]
            self.alive(e) && self.alive(f) && e != f && self.rank(e) >= 0 ==> self.rank(e)
                != self.rank(f)
    }

    /// An entity that is tied to another is younger than that, and listed by it while alive.
    pub open spec fn tied_wf(self, entity: Entity) -> bool {
        match self.entities[entity].effect_of {
            Some(target) => {
                &&& target.0 < entity.0
                &&& self.alive(target)
                &&& self.entities[target].effects is Some
                &&& (self.entities[target].effects->0).contains(entity)
            },
            None => true,
        }
    }

    /// An entity lists effects that are tied to it, each once, and at least one if it has a list.
    pub open spec fn tying_wf(self, entity: Entity) -> bool {
        match self.entities[entity].effects {
            Some(list) => {
                &&& list.len() > 0
                &&& list.no_duplicates()
                &&& forall|e: Entity| #[trigger]
                    list.contains(e) ==> self.alive(e) && self.entities[e].effect_of == Some(entity)
            },
            None => true,
        }
    }

    /// Both ends of every tie between an effect and the entity that it dies with agree.
    pub open spec fn lifetimes_wf(self) -> bool {
        &&& forall|e: Entity| #[trigger] self.alive(e) ==> self.tied_wf(e)
        &&& forall|e: Entity| #[trigger] self.alive(e) ==> self.tying_wf(e)
    }

    /// What is subscribed and what is recorded agree.
    pub open spec fn edges_wf(self) -> bool {
        &&& self.lists_wf()
        &&& self.dependencies_wf()
        &&& self.inverse_wf()
    }

    /// The graph of effects is in order.
    pub open spec fn graph_wf(self) -> bool {
        &&& self.next <= u64::MAX
        &&& self.dirty.queue.no_duplicates()
        &&& self.ids_wf()
        &&& self.edges_wf()
        &&& self.indexes_wf()
        &&& self.lifetimes_wf()
    }

    /// What every world satisfies.
    pub open spec fn wf(self) -> bool {
        &&& self.graph_wf()
        &&& self.times_wf()
        &&& self.current_wf()
    }
}

} // verus!
