//! Proofs that spawning entities and effects, and writing components, keep the graph of effects in
//! order, and leave no effect stale.
use crate::component::{Stored, Table};
use crate::id::{ComponentId, Entity, Source};
use crate::state::{EntityState, Stamps, WorldState};
use crate::timing::lemma_same_time;
use vstd::prelude::*;

verus! {

/// Writing ordinary components keeps the world in order, as long as what is written carries the
/// current tick.
pub proof fn lemma_components_wf<V, B>(w: WorldState<V, B>, entity: Entity, components: Table<V>)
    requires
        w.wf(),
        w.alive(entity),
        forall|c: ComponentId| #[trigger]
            components.contains_key(c) ==> components[c].changed == w.tick || (
            w.entities[entity].components.contains_key(c) && components[c].changed
                == w.entities[entity].components[c].changed),
        forall|c: ComponentId|
            w.entities[entity].components.contains_key(c) ==> #[trigger] components.contains_key(c),
    ensures
        w.with_components(entity, components).wf(),
        w.evolves_to(w.with_components(entity, components)),
{
    let after = w.with_components(entity, components);
    assert(after.entities.dom() =~= w.entities.dom());
    lemma_graph_wf(w, after);
    lemma_evolves(w, after);
    assert forall|s: Source|
        {
            ||| #[trigger] after.changed_tick(s) == w.changed_tick(s)
            ||| after.changed_tick(s) is None
            ||| after.changed_tick(s) == Some(w.tick)
        } by {
        if let Source::Component { entity: host, component } = s {
            if host == entity && components.contains_key(component) {}
        }
    }
    assert forall|e: Entity| #[trigger] after.dependencies_of(e) == w.dependencies_of(e) by {}
    lemma_same_time(w, after);
}

/// Writing one component keeps the world in order, as long as it carries the current tick, or was
/// not marked changed.
pub proof fn lemma_component_wf<V, B>(
    w: WorldState<V, B>,
    entity: Entity,
    id: ComponentId,
    stored: Stored<V>,
)
    requires
        w.wf(),
        w.alive(entity),
    ensures
        stored.changed == w.tick || w.entities[entity].components.contains_key(id) && stored.changed
            == w.entities[entity].components[id].changed ==> w.with_component(entity, id, stored).wf() && w.evolves_to(
            w.with_component(entity, id, stored),
        ),
{
    if stored.changed == w.tick || w.entities[entity].components.contains_key(id) && stored.changed
        == w.entities[entity].components[id].changed {
        lemma_components_wf(w, entity, w.entities[entity].components.insert(id, stored));
    }
}

/// Writing a resource keeps the world in order, as long as it carries the current tick, or was not
/// marked changed.
pub proof fn lemma_resource_wf<V, B>(w: WorldState<V, B>, id: ComponentId, stored: Stored<V>)
    requires
        w.wf(),
    ensures
        stored.changed == w.tick || w.changed_tick(Source::Resource { resource: id }) == Some(
            stored.changed,
        ) ==> w.with_resource(id, stored).wf() && w.evolves_to(w.with_resource(id, stored)),
{
    if stored.changed == w.tick || w.changed_tick(Source::Resource { resource: id }) == Some(
        stored.changed,
    ) {
        let after = w.with_resource(id, stored);
        lemma_graph_wf(w, after);
        lemma_evolves(w, after);
        assert forall|e: Entity| #[trigger] after.dependencies_of(e) == w.dependencies_of(e) by {}
        lemma_same_time(w, after);
    }
}

/// Whatever leaves the lives of entities as they are is a way for the world to evolve.
pub proof fn lemma_evolves<V, B>(w: WorldState<V, B>, after: WorldState<V, B>)
    requires
        w.same_lives(after),
        w.elapsed <= after.elapsed,
        w.pending == after.pending,
    ensures
        w.evolves_to(after),
{
    lemma_same_lives(w, after);
    assert forall|e: Entity| w.alive(e) && after.alive(e) implies w.entities[e].index == (
    #[trigger] after.entities[e]).index by {
        assert(w.alive(e));
    }
    assert forall|e: Entity| #[trigger] after.alive(e) implies w.alive(e) by {
        assert(w.alive(e) == after.alive(e));
    }
}

/// Nothing happening is a way for the world to evolve.
pub broadcast proof fn lemma_evolves_refl<V, B>(w: WorldState<V, B>)
    ensures
        #[trigger] w.evolves_to(w),
{
}

/// What a world evolves to evolves further.
pub broadcast proof fn lemma_evolves_trans<V, B>(
    a: WorldState<V, B>,
    b: WorldState<V, B>,
    c: WorldState<V, B>,
)
    requires
        #[trigger] a.evolves_to(b),
        #[trigger] b.evolves_to(c),
    ensures
        a.evolves_to(c),
{
    if a.ids_wf() {
        assert forall|e: Entity| #[trigger] c.alive(e) && !a.alive(e) implies e.0 >= a.next by {
            if b.alive(e) {
                assert(e.0 >= a.next);
            }
        }
        assert forall|e: Entity| a.alive(e) && c.alive(e) implies a.entities[e].index == (
        #[trigger] c.entities[e]).index by {
            assert(c.alive(e));
            assert(b.alive(e));
            assert(b.entities[e].index == a.entities[e].index);
        }
        assert forall|e: Entity| #[trigger]
            c.alive(e) && !a.alive(e) && c.rank(e) >= 0 implies c.rank(e) >= a.dirty.next_index by {
            if b.alive(e) {
                assert(c.entities[e].index == b.entities[e].index);
                assert(b.rank(e) == c.rank(e));
            }
        }
    }
}

/// Where the same entities are alive and tied to each other, the same of them are in order.
pub proof fn lemma_same_lives<V, B>(a: WorldState<V, B>, b: WorldState<V, B>)
    requires
        a.same_lives(b),
    ensures
        forall|e: Entity| #[trigger] a.alive(e) == b.alive(e),
        forall|e: Entity| #[trigger] a.rank(e) == b.rank(e),
        a.ids_wf() ==> b.ids_wf(),
        a.indexes_wf() ==> b.indexes_wf(),
        a.lifetimes_wf() ==> b.lifetimes_wf(),
{
    assert forall|e: Entity| #[trigger] a.alive(e) == b.alive(e) by {
        assert(a.entities.dom().contains(e) == b.entities.dom().contains(e));
    }
    assert forall|e: Entity| #[trigger] a.rank(e) == b.rank(e) by {
        assert(a.alive(e) == b.alive(e));
    }
    if a.ids_wf() {
        assert forall|e: Entity| #[trigger] b.alive(e) implies e.0 < b.next by {
            assert(a.alive(e));
        }
    }
    if a.indexes_wf() {
        assert forall|e: Entity| #[trigger] b.alive(e) implies b.rank(e) < b.dirty.next_index by {
            assert(a.alive(e));
            assert(a.rank(e) == b.rank(e));
        }
        assert forall|e: Entity| #[trigger] b.alive(e) && b.entities[e].effect is Some implies b.entities[e].index is Some by {
            assert(a.alive(e));
        }
        assert forall|e: Entity, f: Entity|
            #![trigger b.alive(e), b.alive(f)]
            b.alive(e) && b.alive(f) && e != f && b.rank(e) >= 0 implies b.rank(e) != b.rank(f) by {
            assert(a.alive(e) && a.alive(f));
            assert(a.rank(e) == b.rank(e) && a.rank(f) == b.rank(f));
        }
    }
    if a.lifetimes_wf() {
        assert forall|e: Entity| #[trigger] b.alive(e) implies b.tied_wf(e) by {
            assert(a.alive(e));
            if let Some(t) = a.entities[e].effect_of {
                assert(a.alive(t));
            }
        }
        assert forall|t: Entity| #[trigger] b.alive(t) implies b.tying_wf(t) by {
            assert(a.alive(t));
            if let Some(list) = a.entities[t].effects {
                assert forall|e: Entity| #[trigger] list.contains(e) implies b.alive(e)
                    && b.entities[e].effect_of == Some(t) by {
                    assert(a.alive(e));
                }
            }
        }
    }
}

/// Where the same effects are subscribed and recorded, the same of that is in order.
pub proof fn lemma_same_edges<V, B>(a: WorldState<V, B>, b: WorldState<V, B>)
    requires
        a.same_edges(b),
    ensures
        forall|s: Source| #[trigger] a.subscribers_of(s) == b.subscribers_of(s),
        forall|e: Entity| #[trigger] a.tracking(e) == b.tracking(e),
        forall|e: Entity| #[trigger] a.tracked_by(e) == b.tracked_by(e),
        forall|e: Entity, s: Source| #[trigger] a.tracks(e, s) == b.tracks(e, s),
        a.edges_wf() ==> b.edges_wf(),
{
    assert forall|e: Entity| #[trigger] a.alive(e) == b.alive(e) by {
        assert(a.entities.dom().contains(e) == b.entities.dom().contains(e));
    }
    assert forall|e: Entity| #[trigger] a.tracking(e) == b.tracking(e) by {
        assert(a.alive(e) == b.alive(e));
    }
    assert forall|e: Entity| #[trigger] a.tracked_by(e) == b.tracked_by(e) by {
        assert(a.tracking(e) == b.tracking(e));
    }
    assert forall|e: Entity, s: Source| #[trigger] a.tracks(e, s) == b.tracks(e, s) by {
        assert(a.tracking(e) == b.tracking(e));
        assert(a.tracked_by(e) == b.tracked_by(e));
    }
    if a.edges_wf() {
        assert forall|s: Source| (#[trigger] b.subscribers_of(s)).no_duplicates() by {
            assert(a.subscribers_of(s).no_duplicates());
        }
        assert forall|e: Entity| (#[trigger] b.tracked_by(e)).no_duplicates() by {
            assert(a.tracked_by(e).no_duplicates());
        }
        assert forall|e: Entity| #[trigger] b.tracking(e) implies b.entities[e].effect is Some by {
            assert(a.tracking(e));
            assert(a.alive(e));
        }
        assert forall|e: Entity, s: Source|
            #![trigger b.tracks(e, s)]
            #![trigger b.subscribers_of(s).contains(e)]
            b.subscribers_of(s).contains(e) <==> b.tracks(e, s) by {
            assert(a.tracks(e, s) == b.tracks(e, s));
        }
    }
}

/// Two worlds with the same graph are both in order or both not.
pub proof fn lemma_graph_wf<V, B>(w: WorldState<V, B>, after: WorldState<V, B>)
    requires
        w.graph_wf(),
        after.dirty.queue.no_duplicates(),
        w.same_lives(after),
        w.same_edges(after),
    ensures
        after.graph_wf(),
{
    lemma_same_lives(w, after);
    lemma_same_edges(w, after);
}

/// A fresh entity that takes no part in the graph leaves the graph in order. So does one that is
/// an effect, as long as it comes last in the order of registration and has tracked nothing.
pub proof fn lemma_spawned_wf<V, B>(
    w: WorldState<V, B>,
    state: EntityState<V, B>,
    next_index: nat,
)
    requires
        w.wf(),
        w.next < u64::MAX,
        state.components == Table::<V>::empty(),
        state.effect is None && state.index is None && state.dependencies is None || state.stamps
            == Stamps::at(w.tick),
        state.effect_of is None,
        state.effects is None,
        state.dependencies matches Some(d) ==> d.len() == 0 && state.effect is Some,
        state.effect is Some ==> state.index is Some,
        match state.index {
            Some(index) => index.0 == w.dirty.next_index && next_index == w.dirty.next_index + 1,
            None => next_index == w.dirty.next_index,
        },
    ensures
        ({
            let spawned = w.spawned(state);
            let after = WorldState {
                dirty: crate::graph::DirtyState { next_index, ..spawned.dirty },
                ..spawned
            };
            after.wf() && w.evolves_to(after)
        }),
{
    let spawned = w.spawned(state);
    let after = WorldState {
        dirty: crate::graph::DirtyState { next_index, ..spawned.dirty },
        ..spawned
    };
    let new = w.fresh();
    assert(!w.alive(new));
    assert forall|e: Entity| #[trigger] after.alive(e) == (w.alive(e) || e == new) by {}
    assert forall|e: Entity| #[trigger] after.rank(e) == if e == new {
        match state.index {
            Some(index) => index.0 as int,
            None => -1,
        }
    } else {
        w.rank(e)
    } by {}
    assert forall|e: Entity| #[trigger] after.dependencies_of(e) == w.dependencies_of(e) by {
        if e == new {
            assert(after.dependencies_of(e) =~= Seq::empty());
        }
    }
    assert forall|e: Entity| #[trigger] after.tracked_by(e) == w.tracked_by(e) by {
        if e == new {
            assert(after.tracked_by(e) =~= Seq::empty());
            assert(w.tracked_by(e) =~= Seq::empty());
        }
    }
    assert forall|e: Entity, s: Source| #[trigger] after.tracks(e, s) == w.tracks(e, s) by {
        assert(after.tracked_by(e) == w.tracked_by(e));
        if e == new {
            assert(w.tracked_by(e) =~= Seq::empty());
        }
    }
    assert(after.lists_wf()) by {
        assert forall|s: Source| (#[trigger] after.subscribers_of(s)).no_duplicates() by {
            assert(w.subscribers_of(s).no_duplicates());
        }
    }
    assert(after.dependencies_wf()) by {
        assert forall|e: Entity| (#[trigger] after.tracked_by(e)).no_duplicates() by {
            assert(w.tracked_by(e).no_duplicates());
        }
        assert forall|e: Entity| #[trigger] after.tracking(e) implies after.entities[e].effect is Some by {
            if e != new {
                assert(w.tracking(e));
            }
        }
    }
    assert(after.inverse_wf()) by {
        assert forall|e: Entity, s: Source|
            #![trigger after.tracks(e, s)]
            #![trigger after.subscribers_of(s).contains(e)]
            after.subscribers_of(s).contains(e) <==> after.tracks(e, s) by {
            assert(after.tracks(e, s) == w.tracks(e, s));
            assert(after.subscribers_of(s) == w.subscribers_of(s));
        }
    }
    assert(after.indexes_wf()) by {
        assert forall|e: Entity| #[trigger] after.alive(e) && after.entities[e].effect is Some implies after.entities[e].index is Some by {
            assert(w.alive(e) || e == new);
        }
        assert forall|e: Entity| #[trigger] after.alive(e) implies after.rank(e)
            < after.dirty.next_index by {
            assert(w.alive(e) || e == new);
        }
        assert forall|e: Entity, f: Entity|
            #![trigger after.alive(e), after.alive(f)]
            after.alive(e) && after.alive(f) && e != f && after.rank(e) >= 0 implies after.rank(e)
            != after.rank(f) by {
            assert(w.alive(e) || e == new);
            assert(w.alive(f) || f == new);
        }
    }
    assert(after.lifetimes_wf()) by {
        assert forall|t: Entity| #[trigger] after.alive(t) implies after.tying_wf(t) by {
            if t != new {
                assert(w.alive(t));
                if w.entities[t].effects is Some {
                    let list = w.entities[t].effects->0;
                    assert forall|e: Entity| #[trigger] list.contains(e) implies after.alive(e)
                        && after.entities[e].effect_of == Some(t) by {
                        assert(w.alive(e));
                    }
                }
            }
        }
        assert forall|e: Entity| #[trigger] after.alive(e) implies after.tied_wf(e) by {
            if e != new {
                assert(w.alive(e));
                if let Some(t) = w.entities[e].effect_of {
                    assert(w.alive(t));
                }
            }
        }
    }
    assert forall|s: Source|
        #[trigger] after.changed_tick(s) == w.changed_tick(s) || after.changed_tick(s) is None
            || after.changed_tick(s) == Some(w.tick) by {
        if let Source::Component { entity, component } = s {
            assert(after.alive(entity) == (w.alive(entity) || entity == new));
        }
    }
    lemma_same_time(w, after);
    assert(w.evolves_to(after)) by {
        assert forall|e: Entity| w.alive(e) && after.alive(e) implies w.entities[e].index == (
        #[trigger] after.entities[e]).index by {
            assert(e != new);
        }
    }
}

/// A fresh effect leaves the graph in order, whether it is tied to an entity or not.
pub proof fn lemma_registered_wf<V, B>(w: WorldState<V, B>, func: B, target: Option<Entity>)
    requires
        w.wf(),
        w.next < u64::MAX,
    ensures
        w.registered(func, target).wf(),
        w.evolves_to(w.registered(func, target)),
{
    let state = EntityState::<V, B> {
        effect: Some(func),
        dependencies: Some(Seq::empty()),
        index: Some(crate::graph::EffectIndex(w.dirty.next_index as u64)),
        stamps: Stamps::at(w.tick),
        ..EntityState::empty()
    };
    lemma_spawned_wf(w, state, w.dirty.next_index + 1);
    let enrolled = w.enrolled(func);
    assert(enrolled.wf());
    if target is Some && w.alive(target->0) {
        lemma_attached_wf(enrolled, w.fresh(), target->0);
        lemma_evolves_trans(w, enrolled, enrolled.attached(w.fresh(), target->0));
    }
}

/// Tying an effect to an older entity that is alive leaves the graph in order.
pub proof fn lemma_attached_wf<V, B>(w: WorldState<V, B>, effect: Entity, target: Entity)
    requires
        w.wf(),
        w.alive(effect),
        w.alive(target),
        target.0 < effect.0,
        w.entities[effect].effect_of is None,
        w.entities[effect].stamps.born == w.tick,
    ensures
        w.attached(effect, target).wf(),
        w.evolves_to(w.attached(effect, target)),
{
    broadcast use vstd::seq_lib::lemma_seq_contains_after_push;

    let after = w.attached(effect, target);
    assert(after.entities.dom() =~= w.entities.dom());
    assert(w.same_edges(after));
    lemma_same_edges(w, after);
    assert forall|e: Entity| #[trigger] after.alive(e) == w.alive(e) by {}
    assert forall|e: Entity| #[trigger] after.rank(e) == w.rank(e) by {}
    let before_list = w.entities[target].effects;
    let list = after.entities[target].effects->0;
    assert(before_list is Some ==> !(before_list->0).contains(effect));
    assert(list.contains(effect)) by {
        if before_list is None {
            assert(list[0] == effect);
        } else {
            assert(list.last() == effect);
        }
    }
    assert(after.lifetimes_wf()) by {
        assert forall|t: Entity| #[trigger] after.alive(t) implies after.tying_wf(t) by {
            assert(w.alive(t));
            if after.entities[t].effects is Some {
                let list = after.entities[t].effects->0;
                assert forall|e: Entity| #[trigger] list.contains(e) implies after.alive(e)
                    && after.entities[e].effect_of == Some(t) by {
                    if t == target && e == effect {
                    } else {
                        if w.entities[t].effects is Some {
                            assert((w.entities[t].effects->0).contains(e));
                            assert(w.alive(e));
                        }
                    }
                }
            }
        }
        assert forall|e: Entity| #[trigger] after.alive(e) implies after.tied_wf(e) by {
            assert(w.alive(e));
            if e != effect {
                if let Some(t) = w.entities[e].effect_of {
                    assert(w.alive(t));
                    assert((w.entities[t].effects->0).contains(e));
                }
            }
        }
    }
    assert(after.indexes_wf()) by {
        assert forall|e: Entity| #[trigger] after.alive(e) && after.entities[e].effect is Some implies after.entities[e].index is Some by {
            assert(w.alive(e));
        }
        assert forall|e: Entity, f: Entity|
            #![trigger after.alive(e), after.alive(f)]
            after.alive(e) && after.alive(f) && e != f && after.rank(e) >= 0 implies after.rank(e)
            != after.rank(f) by {
            assert(w.alive(e) && w.alive(f));
        }
    }
    assert forall|s: Source|
        #[trigger] after.changed_tick(s) == w.changed_tick(s) || after.changed_tick(s) == Some(w.tick) by {
        if let Source::Component { entity, component } = s {
            assert(after.alive(entity) == w.alive(entity));
        }
    }
    assert forall|e: Entity| #[trigger] after.dependencies_of(e) == w.dependencies_of(e) by {
        assert(after.alive(e) == w.alive(e));
    }
    lemma_same_time(w, after);
    assert(w.evolves_to(after)) by {
        assert forall|e: Entity| w.alive(e) && after.alive(e) implies w.entities[e].index == (
        #[trigger] after.entities[e]).index by {}
        assert forall|e: Entity| #[trigger] after.alive(e) implies e.0 < w.next by {
            assert(w.alive(e));
        }
    }
}

} // verus!
