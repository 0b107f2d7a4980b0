//! The subscription graph: which effects listen to which sources, and which of them may be dirty.
use crate::collections::{
    bits_clear, bits_default, bits_insert, listed, lists_default, lists_entry_or_default, lists_get,
    lists_get_mut, lists_iter, members, EntityBits, EntityLists,
};
use crate::id::{
    contains_entity, retain_others, without, ComponentId, Dependency, Entity, Source, DEPENDENCIES_ID,
    EFFECTS_ID, EFFECT_ID, EFFECT_INDEX_ID, EFFECT_OF_ID, SUBSCRIBERS_ID,
};
use crate::tick::Tick;
use std::collections::HashMap;
use std::sync::Arc;
use vstd::prelude::*;

verus! {

/// Effects listed by component.
pub type Lists = Map<ComponentId, Seq<Entity>>;

/// The same lists, under component identifiers instead of their numbers.
pub open spec fn by_component(lists: Map<u64, Seq<Entity>>) -> Lists {
    Map::new(|c: ComponentId| lists.contains_key(c.0), |c: ComponentId| lists[c.0])
}

/// The effects listed under `component`: none if there is no such list.
pub open spec fn list_at(lists: Lists, component: ComponentId) -> Seq<Entity> {
    if lists.contains_key(component) {
        lists[component]
    } else {
        Seq::empty()
    }
}

/// The lists once `effect` is listed under `component`: last, unless it was there already.
pub open spec fn lists_with(lists: Lists, component: ComponentId, effect: Entity) -> Lists {
    let list = list_at(lists, component);
    lists.insert(
        component,
        if list.contains(effect) {
            list
        } else {
            list.push(effect)
        },
    )
}

/// The lists once `effect` is no longer listed under `component`.
pub open spec fn lists_without(lists: Lists, component: ComponentId, effect: Entity) -> Lists {
    if lists.contains_key(component) {
        lists.insert(component, without(lists[component], effect))
    } else {
        lists
    }
}

/// Lists `effect` under `component`, unless it is listed there already.
fn list_effect(lists: &mut EntityLists, component: ComponentId, effect: Entity)
    ensures
        by_component(listed(*final(lists))) == lists_with(
            by_component(listed(*old(lists))),
            component,
            effect,
        ),
{
    let list = lists_entry_or_default(lists, component.0);
    if !contains_entity(list, effect) {
        list.push(effect);
    }
}

/// Removes `effect` from the list under `component`, if there is such a list.
fn unlist_effect(lists: &mut EntityLists, component: ComponentId, effect: Entity)
    ensures
        by_component(listed(*final(lists))) == lists_without(
            by_component(listed(*old(lists))),
            component,
            effect,
        ),
{
    match lists_get_mut(lists, component.0) {
        Some(list) => retain_others(list, effect),
        None => {},
    }
}

/// The effects subscribed to each tracked component of an entity.
///
/// This is the inverse of [`Dependencies`]; both sides are maintained together. It appears the first
/// time one of the entity's components is tracked.
#[derive(Debug)]
pub struct Subscribers(EntityLists);

impl View for Subscribers {
    type V = Lists;

    closed spec fn view(&self) -> Lists {
        by_component(listed(self.0))
    }
}

impl Default for Subscribers {
    fn default() -> (subscribers: Subscribers)
        ensures
            subscribers@ == Lists::empty(),
    {
        let lists = lists_default();
        proof {
            assert(by_component(listed(lists)) =~= Lists::empty());
        }
        Subscribers(lists)
    }
}

/// Whether `entries` are the lists of `lists`, each with the component it stands under.
pub open spec fn entries_of(entries: Seq<(ComponentId, &Vec<Entity>)>, lists: Lists) -> bool {
    &&& forall|i: int|
        0 <= i < entries.len() ==> lists.contains_key((#[trigger] entries[i]).0)
            && lists[entries[i].0] == entries[i].1@
    &&& forall|c: ComponentId| #[trigger]
        lists.contains_key(c) ==> exists|i: int|
            0 <= i < entries.len() && (#[trigger] entries[i]).0 == c
}

/// Hands out every list with the component it stands under, in an order that is left open.
fn list_entries(lists: &EntityLists) -> (entries: Vec<(ComponentId, &Vec<Entity>)>)
    ensures
        entries_of(entries@, by_component(listed(*lists))),
{
    let raw = lists_iter(lists);
    let mut entries: Vec<(ComponentId, &Vec<Entity>)> = Vec::new();
    let mut i: usize = 0;
    while i < raw.len()
        invariant
            i <= raw.len(),
            entries@.len() == i,
            forall|j: int|
                0 <= j < i ==> (#[trigger] entries@[j]).0 == ComponentId(raw@[j].0) && entries@[j].1
                    == raw@[j].1,
        decreases raw.len() - i,
    {
        entries.push((ComponentId(raw[i].0), raw[i].1));
        i += 1;
    }
    proof {
        assert forall|c: ComponentId| #[trigger]
            by_component(listed(*lists)).contains_key(c) implies exists|j: int|
            0 <= j < entries@.len() && (#[trigger] entries@[j]).0 == c by {
            assert(listed(*lists).contains_key(c.0));
            let j = choose|j: int| 0 <= j < raw@.len() && (#[trigger] raw@[j]).0 == c.0;
            assert(entries@[j].0 == c);
        }
        assert forall|j: int| 0 <= j < entries@.len() implies by_component(
            listed(*lists),
        ).contains_key((#[trigger] entries@[j]).0) && by_component(listed(*lists))[entries@[j].0]
            == entries@[j].1@ by {
            assert(listed(*lists).contains_key(raw@[j].0));
        }
    }
    entries
}

/// Returns whether every list is empty.
fn all_lists_empty(lists: &EntityLists) -> (empty: bool)
    ensures
        empty == (forall|c: ComponentId| #[trigger] list_at(by_component(listed(*lists)), c).len() == 0),
{
    let ghost held = by_component(listed(*lists));
    let entries = list_entries(lists);
    let mut i: usize = 0;
    while i < entries.len()
        invariant
            i <= entries.len(),
            entries_of(entries@, held),
            held == by_component(listed(*lists)),
            forall|j: int| 0 <= j < i ==> (#[trigger] entries@[j]).1@.len() == 0,
        decreases entries.len() - i,
    {
        if entries[i].1.len() != 0 {
            proof {
                assert(list_at(held, entries@[i as int].0).len() != 0);
            }
            return false;
        }
        i += 1;
    }
    proof {
        assert forall|c: ComponentId| #[trigger] list_at(held, c).len() == 0 by {
            if held.contains_key(c) {
                let j = choose|j: int| 0 <= j < entries@.len() && (#[trigger] entries@[j]).0 == c;
                assert(entries@[j].1@.len() == 0);
            }
        }
    }
    true
}

impl Subscribers {
    /// The identifier of this component type.
    pub fn component_id() -> (id: ComponentId)
        ensures
            id == ComponentId(SUBSCRIBERS_ID),
    {
        ComponentId(SUBSCRIBERS_ID)
    }

    /// The effects subscribed to the given component of this entity.
    pub fn get(&self, component: ComponentId) -> (effects: &[Entity])
        ensures
            effects@ == list_at(self@, component),
    {
        match lists_get(&self.0, component.0) {
            Some(list) => list.as_slice(),
            None => &[],
        }
    }

    /// Returns true if no effects are subscribed to any component of this entity.
    pub fn is_empty(&self) -> (empty: bool)
        ensures
            empty == all_empty(self@),
    {
        proof {
            assert(self@ == by_component(listed(self.0)));
        }
        all_lists_empty(&self.0)
    }

    /// Every list, with the component that its effects are subscribed to.
    pub(crate) fn entries(&self) -> (entries: Vec<(ComponentId, &Vec<Entity>)>)
        ensures
            entries_of(entries@, self@),
    {
        list_entries(&self.0)
    }

    /// Subscribes `effect` to `component`, unless it already is.
    pub(crate) fn add(&mut self, component: ComponentId, effect: Entity)
        ensures
            final(self)@ == lists_with(old(self)@, component, effect),
    {
        list_effect(&mut self.0, component, effect);
    }

    /// Unsubscribes `effect` from `component`.
    pub(crate) fn remove(&mut self, component: ComponentId, effect: Entity)
        ensures
            final(self)@ == lists_without(old(self)@, component, effect),
    {
        unlist_effect(&mut self.0, component, effect);
    }
}

/// The subscriber lists of an entity that was ever tracked, and when they last changed.
pub struct Host {
    /// The entity.
    pub entity: Entity,
    /// Its lists.
    pub lists: Subscribers,
    /// When they last changed.
    pub changed: Tick,
}

/// What is known of an entity that was ever tracked.
#[verifier::ext_equal]
pub struct HostState {
    /// Its lists.
    pub lists: Lists,
    /// When they last changed.
    pub changed: Tick,
}

impl View for Host {
    type V = HostState;

    open spec fn view(&self) -> HostState {
        HostState { lists: self.lists@, changed: self.changed }
    }
}

/// The subscriber lists of every entity that was ever tracked.
///
/// They are kept beside the entities, so that an effect can be subscribed to an entity that is yet
/// to be spawned, and so that a poll looks at the tracked entities alone.
pub struct EntitySubscribers {
    places: HashMap<u64, usize>,
    hosts: Vec<Host>,
}

impl View for EntitySubscribers {
    type V = Map<Entity, HostState>;

    closed spec fn view(&self) -> Map<Entity, HostState> {
        Map::new(
            |e: Entity| self.places@.contains_key(e.0),
            |e: Entity| self.hosts@[self.places@[e.0] as int]@,
        )
    }
}

/// The lists of `entity`: none if nothing was ever subscribed to it.
pub open spec fn lists_of(hosts: Map<Entity, HostState>, entity: Entity) -> Lists {
    if hosts.contains_key(entity) {
        hosts[entity].lists
    } else {
        Map::empty()
    }
}

/// Whether `entries` are the lists of `hosts`, each with the entity it belongs to.
pub open spec fn hosts_in(entries: Seq<Host>, hosts: Map<Entity, HostState>) -> bool {
    &&& forall|i: int|
        0 <= i < entries.len() ==> hosts.contains_key((#[trigger] entries[i]).entity)
            && hosts[entries[i].entity] == entries[i]@
    &&& forall|e: Entity| #[trigger]
        hosts.contains_key(e) ==> exists|i: int|
            0 <= i < entries.len() && (#[trigger] entries[i]).entity == e
}

/// Whether nothing is listed.
pub open spec fn all_empty(lists: Lists) -> bool {
    forall|c: ComponentId| #[trigger] list_at(lists, c).len() == 0
}

impl EntitySubscribers {
    /// The lists of an entity are where they are looked up.
    pub closed spec fn wf(&self) -> bool {
        &&& forall|k: u64| #[trigger]
            self.places@.contains_key(k) ==> self.places@[k] < self.hosts@.len()
                && self.hosts@[self.places@[k] as int].entity == Entity(k)
        &&& forall|i: int|
            0 <= i < self.hosts@.len() ==> self.places@.contains_key(
                (#[trigger] self.hosts@[i]).entity.0,
            ) && self.places@[self.hosts@[i].entity.0] == i
    }

    /// No lists at all.
    pub(crate) fn new() -> (subscribers: EntitySubscribers)
        ensures
            subscribers.wf(),
            subscribers@ == Map::<Entity, HostState>::empty(),
    {
        let subscribers = EntitySubscribers { places: HashMap::new(), hosts: Vec::new() };
        proof {
            assert(subscribers@ =~= Map::empty());
        }
        subscribers
    }

    /// What is known of `entity`, if something was ever subscribed to it.
    pub(crate) fn get(&self, entity: Entity) -> (host: Option<&Host>)
        requires
            self.wf(),
        ensures
            match host {
                Some(h) => self@.contains_key(entity) && self@[entity] == h@,
                None => !self@.contains_key(entity),
            },
    {
        broadcast use vstd::std_specs::hash::group_hash_axioms;

        match self.places.get(&entity.0) {
            Some(place) => Some(&self.hosts[*place]),
            None => None,
        }
    }

    /// Every entity that something was ever subscribed to, with its lists.
    pub(crate) fn hosts(&self) -> (hosts: &Vec<Host>)
        requires
            self.wf(),
        ensures
            hosts_in(hosts@, self@),
    {
        proof {
            assert forall|e: Entity| #[trigger] self@.contains_key(e) implies exists|i: int|
                0 <= i < self.hosts@.len() && (#[trigger] self.hosts@[i]).entity == e by {
                assert(self.hosts@[self.places@[e.0] as int].entity == Entity(e.0));
            }
        }
        &self.hosts
    }

    /// Subscribes `effect` to `component` of `entity`, unless it already is. The lists count as
    /// changed at `now`.
    pub(crate) fn add(&mut self, entity: Entity, component: ComponentId, effect: Entity, now: Tick)
        requires
            old(self).wf(),
        ensures
            final(self).wf(),
            final(self)@ == old(self)@.insert(
                entity,
                HostState {
                    lists: lists_with(lists_of(old(self)@, entity), component, effect),
                    changed: now,
                },
            ),
    {
        broadcast use vstd::std_specs::hash::group_hash_axioms;

        let ghost before = self@;
        let place: usize = match self.places.get(&entity.0) {
            Some(place) => *place,
            None => {
                let place: usize = self.hosts.len();
                self.places.insert(entity.0, place);
                self.hosts.push(Host { entity, lists: Subscribers::default(), changed: now });
                place
            },
        };
        let ghost middle = self@;
        proof {
            assert(self.wf());
            assert(middle[entity].lists =~= lists_of(before, entity));
            assert forall|e: Entity| #[trigger] middle.contains_key(e) <==> before.contains_key(e) || e
                == entity by {
                assert(self.places@.contains_key(e.0) <==> before.contains_key(e) || e == entity);
            }
        }
        let host = &mut self.hosts[place];
        host.lists.add(component, effect);
        host.changed = now;
        proof {
            assert(self@ =~= before.insert(
                entity,
                HostState {
                    lists: lists_with(lists_of(before, entity), component, effect),
                    changed: now,
                },
            ));
        }
    }

    /// Unsubscribes `effect` from `component` of `entity`. The lists, if there are any, count as
    /// changed at `now`.
    pub(crate) fn remove(&mut self, entity: Entity, component: ComponentId, effect: Entity, now: Tick)
        requires
            old(self).wf(),
        ensures
            final(self).wf(),
            final(self)@ == if old(self)@.contains_key(entity) {
                old(self)@.insert(
                    entity,
                    HostState {
                        lists: lists_without(old(self)@[entity].lists, component, effect),
                        changed: now,
                    },
                )
            } else {
                old(self)@
            },
    {
        broadcast use vstd::std_specs::hash::group_hash_axioms;

        let ghost before = self@;
        match self.places.get(&entity.0) {
            Some(place) => {
                let place: usize = *place;
                let host = &mut self.hosts[place];
                host.lists.remove(component, effect);
                host.changed = now;
                proof {
                    assert(self@ =~= before.insert(
                        entity,
                        HostState {
                            lists: lists_without(before[entity].lists, component, effect),
                            changed: now,
                        },
                    ));
                }
            },
            None => {},
        }
    }

    /// Counts the lists of `entity`, if there are any, as changed at `now`.
    pub(crate) fn touch(&mut self, entity: Entity, now: Tick)
        requires
            old(self).wf(),
        ensures
            final(self).wf(),
            final(self)@ == if old(self)@.contains_key(entity) {
                old(self)@.insert(
                    entity,
                    HostState { lists: old(self)@[entity].lists, changed: now },
                )
            } else {
                old(self)@
            },
    {
        broadcast use vstd::std_specs::hash::group_hash_axioms;

        let ghost before = self@;
        match self.places.get(&entity.0) {
            Some(place) => {
                let place: usize = *place;
                self.hosts[place].changed = now;
                proof {
                    assert(self@ =~= before.insert(
                        entity,
                        HostState { lists: before[entity].lists, changed: now },
                    ));
                }
            },
            None => {},
        }
    }

    /// Lets go of the lists of `entity` if nothing is listed in them.
    pub(crate) fn release(&mut self, entity: Entity)
        requires
            old(self).wf(),
        ensures
            final(self).wf(),
            final(self)@ == if old(self)@.contains_key(entity) && all_empty(
                old(self)@[entity].lists,
            ) {
                old(self)@.remove(entity)
            } else {
                old(self)@
            },
    {
        broadcast use vstd::std_specs::hash::group_hash_axioms;

        let ghost before = *self;
        let place: usize = match self.places.get(&entity.0) {
            Some(place) => *place,
            None => {
                return;
            },
        };
        if !self.hosts[place].lists.is_empty() {
            return;
        }
        self.places.remove(&entity.0);
        self.hosts.swap_remove(place);
        if place < self.hosts.len() {
            let moved = self.hosts[place].entity;
            self.places.insert(moved.0, place);
        }
        proof {
            let last = before.hosts@.len() - 1;
            assert(before.hosts@[last].entity != entity || place == last);
            assert(before.places@[before.hosts@[last].entity.0] == last);
            assert forall|k: u64| #[trigger] self.places@.contains_key(k) implies {
                &&& self.places@[k] < self.hosts@.len()
                &&& self.hosts@[self.places@[k] as int].entity == Entity(k)
                &&& before.places@.contains_key(k)
                &&& self.hosts@[self.places@[k] as int] == before.hosts@[before.places@[k] as int]
            } by {
                assert(before.places@.contains_key(k));
                assert(before.hosts@[before.places@[k] as int].entity == Entity(k));
            }
            assert forall|i: int| 0 <= i < self.hosts@.len() implies self.places@.contains_key(
                (#[trigger] self.hosts@[i]).entity.0,
            ) && self.places@[self.hosts@[i].entity.0] == i by {
                if i != place {
                    assert(self.hosts@[i] == before.hosts@[i]);
                }
                assert(before.places@.contains_key(before.hosts@[i].entity.0));
                assert(before.places@[before.hosts@[i].entity.0] == i);
            }
            assert forall|e: Entity| #[trigger] self@.contains_key(e) <==> before@.remove(
                entity,
            ).contains_key(e) by {
                assert(self.places@.contains_key(e.0) <==> before.places@.contains_key(e.0) && e.0
                    != entity.0);
            }
            assert(self@ =~= before@.remove(entity));
        }
    }
}

/// The effects subscribed to each source, by the lists that it is listed in.
pub open spec fn listing(hosts: Map<Entity, HostState>, resources: Lists) -> spec_fn(Source) -> Seq<Entity> {
    |source: Source|
        match source {
            Source::Component { entity, component } => list_at(lists_of(hosts, entity), component),
            Source::Resource { resource } => list_at(resources, resource),
        }
}

/// Letting go of empty lists changes nothing of what is subscribed.
pub proof fn lemma_released(
    before: Map<Entity, HostState>,
    after: Map<Entity, HostState>,
    resources: Lists,
    entity: Entity,
)
    requires
        after == before || before.contains_key(entity) && all_empty(before[entity].lists) && after
            == before.remove(entity),
    ensures
        listing(after, resources) == listing(before, resources),
{
    let have = listing(after, resources);
    let want = listing(before, resources);
    assert forall|s: Source| #[trigger] have(s) == want(s) by {
        if let Source::Component { entity: host, component } = s {
            if host == entity && after != before {
                assert(list_at(before[entity].lists, component).len() == 0);
                assert(want(s) =~= Seq::empty());
                assert(have(s) =~= Seq::empty());
            }
        }
    }
    assert(have =~= want);
}

/// The effects subscribed to each tracked resource.
///
/// The resource-side counterpart of [`Subscribers`]. Resources have no entity to store a component
/// on, so their subscriber lists live here.
#[derive(Debug)]
pub struct ResourceSubscribers(EntityLists);

impl View for ResourceSubscribers {
    type V = Lists;

    closed spec fn view(&self) -> Lists {
        by_component(listed(self.0))
    }
}

impl Default for ResourceSubscribers {
    fn default() -> (subscribers: ResourceSubscribers)
        ensures
            subscribers@ == Lists::empty(),
    {
        let lists = lists_default();
        proof {
            assert(by_component(listed(lists)) =~= Lists::empty());
        }
        ResourceSubscribers(lists)
    }
}

impl ResourceSubscribers {
    /// The effects subscribed to the given resource.
    pub fn get(&self, resource: ComponentId) -> (effects: &[Entity])
        ensures
            effects@ == list_at(self@, resource),
    {
        match lists_get(&self.0, resource.0) {
            Some(list) => list.as_slice(),
            None => &[],
        }
    }

    /// Every list, with the resource that its effects are subscribed to.
    pub(crate) fn entries(&self) -> (entries: Vec<(ComponentId, &Vec<Entity>)>)
        ensures
            entries_of(entries@, self@),
    {
        list_entries(&self.0)
    }

    /// Subscribes `effect` to `resource`, unless it already is.
    pub(crate) fn add(&mut self, resource: ComponentId, effect: Entity)
        ensures
            final(self)@ == lists_with(old(self)@, resource, effect),
    {
        list_effect(&mut self.0, resource, effect);
    }

    /// Unsubscribes `effect` from `resource`.
    pub(crate) fn remove(&mut self, resource: ComponentId, effect: Entity)
        ensures
            final(self)@ == lists_without(old(self)@, resource, effect),
    {
        unlist_effect(&mut self.0, resource, effect);
    }
}

/// The sources an effect read on its most recent run, and the ticks it observed for them.
///
/// This is the inverse of [`Subscribers`]. When this component is removed (including when the
/// effect entity is despawned), the effect is unsubscribed from each of its sources.
#[derive(Debug)]
pub struct Dependencies(Vec<Dependency>);

impl View for Dependencies {
    type V = Seq<Dependency>;

    closed spec fn view(&self) -> Seq<Dependency> {
        self.0@
    }
}

impl Default for Dependencies {
    fn default() -> (dependencies: Dependencies)
        ensures
            dependencies@ == Seq::<Dependency>::empty(),
    {
        Dependencies(Vec::new())
    }
}

/// The sources of some dependencies, in their order.
pub open spec fn sources_of(dependencies: Seq<Dependency>) -> Seq<Source> {
    dependencies.map_values(|d: Dependency| d.source)
}

impl Dependencies {
    /// The identifier of this component type.
    pub fn component_id() -> (id: ComponentId)
        ensures
            id == ComponentId(DEPENDENCIES_ID),
    {
        ComponentId(DEPENDENCIES_ID)
    }

    /// The dependencies recorded on the effect's last run, in the order they were tracked.
    pub fn iter(&self) -> (dependencies: Vec<Dependency>)
        ensures
            dependencies@ == self@,
    {
        let mut dependencies: Vec<Dependency> = Vec::new();
        let mut i: usize = 0;
        while i < self.0.len()
            invariant
                i <= self.0.len(),
                dependencies@ == self.0@.take(i as int),
            decreases self.0.len() - i,
        {
            dependencies.push(self.0[i]);
            proof {
                assert(self.0@.take(i + 1) =~= self.0@.take(i as int).push(self.0@[i as int]));
            }
            i += 1;
        }
        proof {
            assert(self.0@.take(i as int) =~= self.0@);
        }
        dependencies
    }

    /// The sources of the dependencies.
    pub(crate) fn sources(&self) -> (sources: Vec<Source>)
        ensures
            sources@ == sources_of(self@),
    {
        let mut sources: Vec<Source> = Vec::new();
        let mut i: usize = 0;
        while i < self.0.len()
            invariant
                i <= self.0.len(),
                sources@ == sources_of(self.0@.take(i as int)),
            decreases self.0.len() - i,
        {
            sources.push(self.0[i].source);
            proof {
                assert(sources@ =~= sources_of(self.0@.take(i + 1)));
            }
            i += 1;
        }
        proof {
            assert(self.0@.take(i as int) =~= self.0@);
        }
        sources
    }

    /// Records `dependencies` in place of what was recorded before.
    pub(crate) fn set(&mut self, dependencies: Vec<Dependency>)
        ensures
            final(self)@ == dependencies@,
    {
        self.0 = dependencies;
    }
}

/// A reactive computation. The function re-runs when a source it tracked changes.
pub struct Effect<B>(pub Arc<B>);

impl<B> Clone for Effect<B> {
    fn clone(&self) -> (effect: Effect<B>)
        ensures
            effect == *self,
    {
        Effect(self.0.clone())
    }
}

impl<B> Effect<B> {
    /// The identifier of this component type.
    pub fn component_id() -> (id: ComponentId)
        ensures
            id == ComponentId(EFFECT_ID),
    {
        ComponentId(EFFECT_ID)
    }
}

/// Relates an effect entity to the entity whose lifetime it is tied to.
#[derive(Copy, Clone, Debug)]
pub struct EffectOf(pub Entity);

impl EffectOf {
    /// The identifier of this component type.
    pub fn component_id() -> (id: ComponentId)
        ensures
            id == ComponentId(EFFECT_OF_ID),
    {
        ComponentId(EFFECT_OF_ID)
    }
}

/// The effects whose lifetime is tied to an entity. See [`EffectOf`].
#[derive(Debug)]
pub struct Effects(Vec<Entity>);

impl View for Effects {
    type V = Seq<Entity>;

    closed spec fn view(&self) -> Seq<Entity> {
        self.0@
    }
}

impl Effects {
    /// The identifier of this component type.
    pub fn component_id() -> (id: ComponentId)
        ensures
            id == ComponentId(EFFECTS_ID),
    {
        ComponentId(EFFECTS_ID)
    }

    /// How many effects are tied to the entity.
    pub fn len(&self) -> (len: usize)
        ensures
            len == self@.len(),
    {
        self.0.len()
    }

    /// The effects tied to the entity, in the order they were attached.
    pub fn get(&self) -> (effects: &[Entity])
        ensures
            effects@ == self@,
    {
        self.0.as_slice()
    }

    /// The list that holds `effect` alone.
    pub(crate) fn one(effect: Entity) -> (effects: Effects)
        ensures
            effects@ == seq![effect],
    {
        let mut list: Vec<Entity> = Vec::new();
        list.push(effect);
        Effects(list)
    }

    /// Attaches one more effect.
    pub(crate) fn add(&mut self, effect: Entity)
        ensures
            final(self)@ == old(self)@.push(effect),
    {
        self.0.push(effect);
    }

    /// Detaches an effect.
    pub(crate) fn remove(&mut self, effect: Entity)
        ensures
            final(self)@ == without(old(self)@, effect),
    {
        retain_others(&mut self.0, effect);
    }
}

/// The order an effect runs in, relative to other effects, within a flush.
///
/// Assigned from a monotonic counter when the effect is spawned, so ordering follows registration
/// order and is stable across runs.
#[derive(Copy, Clone, PartialEq, Eq, PartialOrd, Ord, Debug)]
pub struct EffectIndex(pub u64);

impl EffectIndex {
    /// The identifier of this component type.
    pub fn component_id() -> (id: ComponentId)
        ensures
            id == ComponentId(EFFECT_INDEX_ID),
    {
        ComponentId(EFFECT_INDEX_ID)
    }
}

/// What a [`DirtyEffects`] holds.
#[verifier::ext_equal]
pub struct DirtyState {
    /// The queued effects, first queued first, each once.
    pub queue: Seq<Entity>,
    /// The tick of the last poll.
    pub last_poll: Tick,
    /// The next effect index to hand out.
    pub next_index: nat,
}

impl DirtyState {
    /// The state once `effect` is queued: last, unless it was queued already.
    pub open spec fn with(self, effect: Entity) -> DirtyState {
        if self.queue.contains(effect) {
            self
        } else {
            DirtyState { queue: self.queue.push(effect), ..self }
        }
    }
}

/// The queue of effects that may need to re-run, plus the tick of the last poll.
pub struct DirtyEffects {
    queue: Vec<Entity>,
    queued: EntityBits,
    last_poll: Tick,
    next_index: u64,
}

impl View for DirtyEffects {
    type V = DirtyState;

    closed spec fn view(&self) -> DirtyState {
        DirtyState {
            queue: self.queue@,
            last_poll: self.last_poll,
            next_index: self.next_index as nat,
        }
    }
}

impl Default for DirtyEffects {
    fn default() -> (dirty: DirtyEffects)
        ensures
            dirty.wf(),
            dirty@ == (DirtyState { queue: Seq::empty(), last_poll: Tick(0), next_index: 0 }),
    {
        DirtyEffects {
            queue: Vec::new(),
            queued: bits_default(),
            last_poll: Tick(0),
            next_index: 0,
        }
    }
}

impl DirtyEffects {
    /// No effect is queued twice, and the set of queued effects agrees with the queue.
    pub closed spec fn wf(&self) -> bool {
        &&& self.queue@.no_duplicates()
        &&& forall|e: Entity| #[trigger] members(self.queued).contains(e.0) <==> self.queue@.contains(e)
    }

    /// Queues `effect` to be re-checked and possibly re-run, if it isn't already queued.
    ///
    /// This only marks the effect as *maybe*-dirty. Whether it actually re-runs is decided by the
    /// pull check against its dependencies' ticks.
    pub fn push(&mut self, effect: Entity)
        requires
            old(self).wf(),
        ensures
            final(self).wf(),
            final(self)@ == old(self)@.with(effect),
    {
        broadcast use vstd::seq_lib::lemma_seq_contains_after_push;

        if bits_insert(&mut self.queued, effect.0) {
            self.queue.push(effect);
        }
    }

    /// Returns true if no effects are currently queued.
    pub fn is_empty(&self) -> (empty: bool)
        ensures
            empty == (self@.queue.len() == 0),
    {
        self.queue.len() == 0
    }

    /// Takes the queued effects, leaving the queue empty.
    pub(crate) fn take(&mut self) -> (queue: Vec<Entity>)
        ensures
            final(self).wf(),
            queue@ == old(self)@.queue,
            final(self)@ == (DirtyState { queue: Seq::empty(), ..old(self)@ }),
    {
        bits_clear(&mut self.queued);
        let mut queue: Vec<Entity> = Vec::new();
        std::mem::swap(&mut queue, &mut self.queue);
        queue
    }

    /// Allocates the next [`EffectIndex`].
    pub(crate) fn next_index(&mut self) -> (index: u64)
        requires
            old(self).wf(),
            old(self)@.next_index < u64::MAX,
        ensures
            final(self).wf(),
            index == old(self)@.next_index,
            final(self)@ == (DirtyState { next_index: old(self)@.next_index + 1, ..old(self)@ }),
    {
        let index: u64 = self.next_index;
        self.next_index = index + 1;
        index
    }

    /// The tick of the last poll.
    pub fn last_poll(&self) -> (tick: Tick)
        ensures
            tick == self@.last_poll,
    {
        self.last_poll
    }

    /// Records the tick of a poll.
    pub(crate) fn set_last_poll(&mut self, tick: Tick)
        requires
            old(self).wf(),
        ensures
            final(self).wf(),
            final(self)@ == (DirtyState { last_poll: tick, ..old(self)@ }),
    {
        self.last_poll = tick;
    }
}

} // verus!
