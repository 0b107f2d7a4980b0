//! The end of entities and effects: removing an effect's record, and despawning an entity with
//! everything that is tied to it.
use crate::effect::{lemma_unsubscribed_all, unsubscribe};
use crate::graph::Dependencies;
use crate::id::{lemma_filtered, lemma_filtered_without, lemma_without, without, Entity, Source};
use crate::lifetime::{lemma_evolves, lemma_same_lives};
use crate::state::{hosts, nonempty, outside, EntityState, Stamps, WorldState};
use crate::timing::{lemma_same_time, up_to_date};
use crate::world::World;
use vstd::prelude::*;

verus! {

/// If nobody dies, nothing changes.
proof fn lemma_pruned_none<V, B>(w: WorldState<V, B>)
    requires
        w.lifetimes_wf(),
    ensures
        w.pruned(Set::empty()) == w,
{
    let none = Set::<Entity>::empty();
    let after = w.pruned(none);
    assert forall|s: Source| #[trigger] (after.subscribers)(s) == (w.subscribers)(s) by {
        lemma_filtered(w.subscribers_of(s), outside(none));
    }
    assert(after.subscribers =~= w.subscribers);
    assert(after.noticed =~= w.noticed);
    assert forall|e: Entity| w.alive(e) implies #[trigger] after.entities[e] == w.entities[e] by {
        if let Some(list) = w.entities[e].effects {
            lemma_filtered(list, outside(none));
            assert(w.alive(e));
        }
    }
    assert(after.entities =~= w.entities);
}

/// The world once `effect` is no longer tied to `target`.
spec fn detached<V, B>(w: WorldState<V, B>, target: Entity, effect: Entity) -> WorldState<V, B> {
    if w.alive(target) && w.entities[target].effects is Some {
        w.put(
            target,
            EntityState {
                effects: nonempty(without(w.entities[target].effects->0, effect)),
                stamps: Stamps { tied: w.tick, ..w.entities[target].stamps },
                ..w.entities[target]
            },
        )
    } else {
        w
    }
}

/// The world once one entity is gone: its sources forget it, and so does the entity it was tied
/// to.
spec fn buried<V, B>(w: WorldState<V, B>, entity: Entity) -> WorldState<V, B> {
    let quiet = w.unsubscribed_all(w.tracked_by(entity), entity);
    let loose = match w.entities[entity].effect_of {
        Some(target) => detached(quiet, target, entity),
        None => quiet,
    };
    WorldState {
        entities: loose.entities.remove(entity),
        noticed: loose.noticed.remove(entity),
        ..loose
    }
}

/// Burying one more entity is as if it had been among those that died.
proof fn lemma_buried<V, B>(w: WorldState<V, B>, doomed: Set<Entity>, entity: Entity)
    requires
        w.wf(),
        w.alive(entity),
        !doomed.contains(entity),
    ensures
        buried(w.pruned(doomed), entity) == w.pruned(doomed.insert(entity)),
{
    let before = w.pruned(doomed);
    let all = doomed.insert(entity);
    let goal = w.pruned(all);
    let sources = w.tracked_by(entity);
    assert(before.entities[entity].dependencies == w.entities[entity].dependencies);
    assert(before.tracked_by(entity) == sources);
    let quiet = before.unsubscribed_all(sources, entity);
    let after = buried(before, entity);
    assert forall|s: Source| #[trigger] (quiet.subscribers)(s) == (goal.subscribers)(s) by {
        let list = w.subscribers_of(s);
        lemma_filtered_without(list, outside(doomed), entity, outside(all));
        lemma_filtered(list, outside(doomed));
        lemma_without(list.filter(outside(doomed)), entity);
        assert(list.contains(entity) <==> w.tracks(entity, s));
    }
    assert(quiet.subscribers =~= goal.subscribers);
    assert forall|x: Entity| w.deserted(all, x) <==> w.deserted(doomed, x) || #[trigger] hosts(sources, x) by {
        assert(all.contains(entity));
        if w.deserted(doomed, x) {
            let e = choose|e: Entity| #[trigger] doomed.contains(e) && hosts(w.tracked_by(e), x);
            assert(all.contains(e));
        }
        if w.deserted(all, x) {
            let e = choose|e: Entity| #[trigger] all.contains(e) && hosts(w.tracked_by(e), x);
            assert(e == entity || doomed.contains(e));
        }
    }
    assert(after.noticed.dom() =~= goal.noticed.dom());
    assert forall|x: Entity| goal.noticed.contains_key(x) implies #[trigger] after.noticed[x]
        == goal.noticed[x] by {
        assert(w.deserted(all, x) <==> w.deserted(doomed, x) || hosts(sources, x));
    }
    assert(after.noticed =~= goal.noticed);
    assert forall|e: Entity| #[trigger] w.bereaved(all, e) <==> w.bereaved(doomed, e)
        || w.entities[entity].effect_of == Some(e) by {
        assert(all.contains(entity));
        if w.bereaved(doomed, e) {
            let x = choose|x: Entity| #[trigger]
                doomed.contains(x) && w.alive(x) && w.entities[x].effect_of == Some(e);
            assert(all.contains(x));
        }
        if w.bereaved(all, e) {
            let x = choose|x: Entity| #[trigger]
                all.contains(x) && w.alive(x) && w.entities[x].effect_of == Some(e);
            assert(x == entity || doomed.contains(x));
        }
    }
    assert forall|e: Entity| #[trigger] after.entities.contains_key(e) <==> goal.entities.contains_key(
        e,
    ) by {
    }
    assert forall|e: Entity| goal.entities.contains_key(e) implies #[trigger] after.entities[e]
        == goal.entities[e] by {
        assert(before.alive(e));
        assert(before.entities.contains_key(e));
        if let Some(list) = w.entities[e].effects {
            lemma_filtered_without(list, outside(doomed), entity, outside(all));
            lemma_filtered(list, outside(doomed));
            lemma_without(list.filter(outside(doomed)), entity);
            assert(w.alive(entity));
            if w.entities[entity].effect_of != Some(e) {
                assert(!list.contains(entity)) by {
                    assert(w.alive(e));
                }
            }
        }
        assert(w.bereaved(all, e) <==> w.bereaved(doomed, e) || w.entities[entity].effect_of == Some(e));
        if w.entities[entity].effect_of == Some(e) {
            assert(before.entities[entity].effect_of == Some(e));
            assert(w.alive(entity));
            let list = w.entities[e].effects->0;
            assert(list.contains(entity));
            assert(list.filter(outside(doomed)).contains(entity));
        }
    }
    assert(after.entities =~= goal.entities);
}

/// Whether whatever is tied to one of `doomed` is itself one of them.
spec fn takes_all<V, B>(w: WorldState<V, B>, doomed: Set<Entity>) -> bool {
    forall|e: Entity| #[trigger]
        w.alive(e) ==> match w.entities[e].effect_of {
            Some(target) => doomed.contains(target) ==> doomed.contains(e),
            None => true,
        }
}

/// If whatever is tied to those that die dies with them, the graph stays in order.
proof fn lemma_pruned_wf<V, B>(w: WorldState<V, B>, doomed: Set<Entity>)
    requires
        w.wf(),
        takes_all(w, doomed),
    ensures
        w.pruned(doomed).wf(),
        w.evolves_to(w.pruned(doomed)),
{
    let after = w.pruned(doomed);
    assert forall|e: Entity| #[trigger] after.alive(e) <==> w.alive(e) && !doomed.contains(e) by {}
    assert forall|e: Entity| #[trigger] after.tracked_by(e) == if after.alive(e) {
        w.tracked_by(e)
    } else {
        Seq::empty()
    } by {
        assert(after.tracked_by(e) =~= if after.alive(e) {
            w.tracked_by(e)
        } else {
            Seq::empty()
        });
    }
    assert forall|e: Entity, s: Source| #[trigger] after.tracks(e, s) <==> w.tracks(e, s)
        && !doomed.contains(e) by {
        assert(after.alive(e) <==> w.alive(e) && !doomed.contains(e));
        assert(after.tracked_by(e) == after.tracked_by(e));
    }
    assert(after.lists_wf()) by {
        assert forall|s: Source| (#[trigger] after.subscribers_of(s)).no_duplicates() by {
            lemma_filtered(w.subscribers_of(s), outside(doomed));
            assert(w.subscribers_of(s).no_duplicates());
        }
    }
    assert(after.dependencies_wf()) by {
        assert forall|e: Entity| (#[trigger] after.tracked_by(e)).no_duplicates() by {
            assert(w.tracked_by(e).no_duplicates());
        }
        assert forall|e: Entity| #[trigger] after.tracking(e) implies after.entities[e].effect is Some by {
            assert(w.tracking(e));
        }
    }
    assert(after.inverse_wf()) by {
        assert forall|e: Entity, s: Source|
            #![trigger after.tracks(e, s)]
            #![trigger after.subscribers_of(s).contains(e)]
            after.subscribers_of(s).contains(e) <==> after.tracks(e, s) by {
            lemma_filtered(w.subscribers_of(s), outside(doomed));
            assert(w.subscribers_of(s).filter(outside(doomed)).contains(e)
                == after.subscribers_of(s).contains(e));
            assert(w.subscribers_of(s).contains(e) <==> w.tracks(e, s));
        }
    }
    assert(after.indexes_wf()) by {
        assert forall|e: Entity| #[trigger] after.alive(e) implies after.rank(e) == w.rank(e) by {}
        assert forall|e: Entity| #[trigger] after.alive(e) && after.entities[e].effect is Some implies after.entities[e].index is Some by {
            assert(w.alive(e));
        }
        assert forall|e: Entity| #[trigger] after.alive(e) implies after.rank(e) < after.dirty.next_index by {
            assert(w.alive(e));
        }
        assert forall|e: Entity, f: Entity|
            #![trigger after.alive(e), after.alive(f)]
            after.alive(e) && after.alive(f) && e != f && after.rank(e) >= 0 implies after.rank(e)
            != after.rank(f) by {
            assert(w.alive(e) && w.alive(f));
        }
    }
    assert(after.lifetimes_wf()) by {
        assert forall|e: Entity| #[trigger] after.alive(e) implies after.tied_wf(e) by {
            assert(w.alive(e));
            if let Some(t) = w.entities[e].effect_of {
                let list = w.entities[t].effects->0;
                assert(w.alive(t));
                lemma_filtered(list, outside(doomed));
                assert(list.filter(outside(doomed)).contains(e));
            }
        }
        assert forall|t: Entity| #[trigger] after.alive(t) implies after.tying_wf(t) by {
            assert(w.alive(t));
            if let Some(list) = w.entities[t].effects {
                lemma_filtered(list, outside(doomed));
                let left = list.filter(outside(doomed));
                assert forall|e: Entity| #[trigger] left.contains(e) implies after.alive(e)
                    && after.entities[e].effect_of == Some(t) by {
                    assert(list.contains(e));
                    assert(w.alive(e));
                }
            }
        }
    }
    assert forall|s: Source|
        #[trigger] after.changed_tick(s) == w.changed_tick(s) || after.changed_tick(s) is None
            || after.changed_tick(s) == Some(w.tick) by {
        if let Source::Component { entity, component } = s {
            assert(after.alive(entity) <==> w.alive(entity) && !doomed.contains(entity));
        }
    }
    assert forall|e: Entity|
        #[trigger] after.dependencies_of(e) == w.dependencies_of(e) || up_to_date(after, e) by {
        assert(after.alive(e) <==> w.alive(e) && !doomed.contains(e));
        if !after.alive(e) {
            assert(after.dependencies_of(e).len() == 0);
        }
    }
    lemma_same_time(w, after);
    assert(w.evolves_to(after)) by {
        assert forall|e: Entity| w.alive(e) && after.alive(e) implies w.entities[e].index == (
        #[trigger] after.entities[e]).index by {
            assert(after.alive(e));
        }
        assert forall|e: Entity| #[trigger] after.alive(e) implies e.0 < w.next by {
            assert(w.alive(e));
        }
    }
}

/// Despawning an entity leaves the world in order.
pub proof fn lemma_despawned_wf<V, B>(w: WorldState<V, B>, root: Entity)
    requires
        w.wf(),
    ensures
        w.pruned(w.tree(root)).wf(),
        w.evolves_to(w.pruned(w.tree(root))),
{
    let tree = w.tree(root);
    assert forall|e: Entity| #[trigger] w.alive(e) implies match w.entities[e].effect_of {
        Some(target) => tree.contains(target) ==> tree.contains(e),
        None => true,
    } by {}
    lemma_pruned_wf(w, tree);
}

/// Removing the record of what an effect tracks leaves the graph in order.
proof fn lemma_forgotten_wf<V, B>(w: WorldState<V, B>, effect: Entity)
    requires
        w.wf(),
    ensures
        w.forgotten(effect).wf(),
        w.evolves_to(w.forgotten(effect)),
{
    let none = Seq::<Source>::empty();
    let after = w.forgotten(effect);
    assert(after.entities.dom() =~= w.entities.dom());
    assert(w.same_lives(after));
    lemma_same_lives(w, after);
    lemma_evolves(w, after);
    assert forall|e: Entity| #[trigger] after.tracked_by(e) == if e == effect {
        none
    } else {
        w.tracked_by(e)
    } by {
        assert(after.alive(e) == w.alive(e));
        assert(after.tracked_by(e) =~= if e == effect {
            none
        } else {
            w.tracked_by(e)
        });
    }
    assert forall|e: Entity, s: Source| #[trigger] after.tracks(e, s) <==> w.tracks(e, s) && e != effect by {
        assert(after.alive(e) == w.alive(e));
        assert(after.tracked_by(e) == after.tracked_by(e));
    }
    assert(after.lists_wf()) by {
        assert forall|s: Source| (#[trigger] after.subscribers_of(s)).no_duplicates() by {
            lemma_without(w.subscribers_of(s), effect);
            assert(w.subscribers_of(s).no_duplicates());
        }
    }
    assert(after.dependencies_wf()) by {
        assert forall|e: Entity| (#[trigger] after.tracked_by(e)).no_duplicates() by {
            assert(w.tracked_by(e).no_duplicates());
        }
        assert forall|e: Entity| #[trigger] after.tracking(e) implies after.entities[e].effect is Some by {
            assert(after.alive(e) == w.alive(e));
            assert(w.tracking(e));
        }
    }
    assert(after.inverse_wf()) by {
        assert forall|e: Entity, s: Source|
            #![trigger after.tracks(e, s)]
            #![trigger after.subscribers_of(s).contains(e)]
            after.subscribers_of(s).contains(e) <==> after.tracks(e, s) by {
            lemma_without(w.subscribers_of(s), effect);
            assert(without(w.subscribers_of(s), effect).contains(e) == after.subscribers_of(
                s,
            ).contains(e));
            assert(w.subscribers_of(s).contains(e) <==> w.tracks(e, s));
        }
    }
    assert forall|s: Source|
        #[trigger] after.changed_tick(s) == w.changed_tick(s) || after.changed_tick(s) is None
            || after.changed_tick(s) == Some(w.tick) by {
        if let Source::Component { entity, component } = s {
            assert(after.alive(entity) == w.alive(entity));
        }
    }
    assert forall|e: Entity|
        #[trigger] after.dependencies_of(e) == w.dependencies_of(e) || up_to_date(after, e) by {
        assert(after.alive(e) == w.alive(e));
        if e == effect {
            assert(after.dependencies_of(e).len() == 0);
        }
    }
    lemma_same_time(w, after);
}

/// Whoever tracks something is unsubscribed from all that it is subscribed to.
proof fn lemma_unsubscribed<V, B>(w: WorldState<V, B>, effect: Entity)
    requires
        w.inverse_wf(),
    ensures
        w.unsubscribed_all(w.tracked_by(effect), effect) == (WorldState {
            subscribers: |s: Source| without(w.subscribers_of(s), effect),
            noticed: w.left(w.tracked_by(effect)),
            ..w
        }),
{
    let have = w.unsubscribed_all(w.tracked_by(effect), effect);
    let want = |s: Source| without(w.subscribers_of(s), effect);
    assert forall|s: Source| #[trigger] (have.subscribers)(s) == want(s) by {
        lemma_without(w.subscribers_of(s), effect);
        assert(w.subscribers_of(s).contains(effect) <==> w.tracks(effect, s));
    }
    assert(have.subscribers =~= want);
}

impl Dependencies {
    /// What happens when the record of the effect `entity` is about to be removed: the effect is
    /// unsubscribed from each of its sources.
    pub(crate) fn on_remove<V, B>(world: &mut World<V, B>, entity: Entity)
        requires
            old(world).sound(),
        ensures
            final(world).sound(),
            final(world)@ == old(world)@.unsubscribed_all(old(world)@.tracked_by(entity), entity),
    {
        let ghost before = world@;
        let sources: Vec<Source> = match world.dependencies(entity) {
            Some(dependencies) => dependencies.sources(),
            None => Vec::new(),
        };
        proof {
            assert(sources@ =~= before.tracked_by(entity));
            assert(world@ =~= before.unsubscribed_all(sources@.take(0), entity));
        }
        let mut i: usize = 0;
        while i < sources.len()
            invariant
                i <= sources.len(),
                world.sound(),
                world@ == before.unsubscribed_all(sources@.take(i as int), entity),
            decreases sources.len() - i,
        {
            proof {
                assert(sources@.take(i + 1) =~= sources@.take(i as int).push(sources@[i as int]));
                lemma_unsubscribed_all(before, sources@.take(i as int), sources@[i as int], entity);
            }
            unsubscribe(world, sources[i], entity);
            i += 1;
        }
        proof {
            assert(sources@.take(i as int) =~= sources@);
        }
    }
}

/// Removes one entity, which has no effects tied to it that are still alive.
fn bury<V, B>(world: &mut World<V, B>, entity: Entity)
    requires
        old(world).sound(),
        old(world)@.alive(entity),
    ensures
        final(world).sound(),
        final(world)@ == buried(old(world)@, entity),
{
    let ghost before = world@;
    let target: Option<Entity> = match world.effect_of(entity) {
        Some(target) => Some(target.0),
        None => None,
    };
    Dependencies::on_remove(world, entity);
    match target {
        Some(target) => detach(world, target, entity),
        None => {},
    }
    proof {
        assert(world@.entities.dom() =~= before.entities.dom());
        assert(world@.alive(entity)) by {
            assert(before.entities.dom().contains(entity));
        }
    }
    world.vacate(entity);
}

/// Removes `effect` from those tied to `target`. The list goes with the last of them.
fn detach<V, B>(world: &mut World<V, B>, target: Entity, effect: Entity)
    requires
        old(world).sound(),
    ensures
        final(world).sound(),
        final(world)@ == detached(old(world)@, target, effect),
{
    let ghost before = world@;
    let now = world.change_tick();
    match world.record_mut(target) {
        Some(record) => match &mut record.effects {
            Some(effects) => {
                record.tied = now;
                effects.remove(effect);
                if effects.len() == 0 {
                    record.effects = None;
                }
            },
            None => {
                proof {
                    assert(before.put(target, before.entities[target]) =~~= before);
                }
            },
        },
        None => {},
    }
}

/// Tells of every entity ever spawned whether it is `root`, or tied to it, directly or not.
fn mark_doomed<V, B>(world: &World<V, B>, root: Entity) -> (doomed: Vec<bool>)
    requires
        world.wf(),
    ensures
        doomed@.len() == world@.next,
        forall|i: int|
            0 <= i < doomed@.len() ==> #[trigger] doomed@[i] == world@.under(root, Entity(i as u64)),
{
    let mut doomed: Vec<bool> = Vec::new();
    let mut i: usize = 0;
    while i < world.allocated()
        invariant
            world.wf(),
            i <= world@.next,
            doomed@.len() == i,
            forall|j: int|
                0 <= j < i ==> #[trigger] doomed@[j] == world@.under(root, Entity(j as u64)),
        decreases world@.next - i,
    {
        let entity = Entity(i as u64);
        let dies = if entity == root {
            world.contains(entity)
        } else {
            match world.effect_of(entity) {
                Some(target) => {
                    proof {
                        assert(world@.alive(entity));
                    }
                    doomed[target.0.0 as usize]
                },
                None => false,
            }
        };
        doomed.push(dies);
        i += 1;
    }
    doomed
}

impl<V, B> World<V, B> {
    /// Removes the record of what the effect `entity` tracks. Returns whether there was one.
    ///
    /// The effect is unsubscribed from each of its sources.
    pub fn remove_dependencies(&mut self, entity: Entity) -> (removed: bool)
        requires
            old(self).wf(),
        ensures
            final(self).wf(),
            old(self)@.evolves_to(final(self)@),
            removed == old(self)@.tracking(entity),
            final(self)@ == old(self)@.forgotten(entity),
    {
        let ghost before = self@;
        let removed = self.dependencies(entity).is_some();
        Dependencies::on_remove(self, entity);
        proof {
            lemma_forgotten_wf(before, entity);
            lemma_unsubscribed(before, entity);
        }
        match self.record_mut(entity) {
            Some(record) => {
                record.dependencies = None;
            },
            None => {},
        }
        removed
    }

    /// Despawns `entity`, and along with it the effects whose lifetime is tied to it. Returns
    /// whether it was alive.
    ///
    /// Whatever dies is unsubscribed from the sources that it tracked, and no longer listed by the
    /// entity that it was tied to.
    pub fn despawn(&mut self, entity: Entity) -> (alive: bool)
        requires
            old(self).wf(),
        ensures
            final(self).wf(),
            old(self)@.evolves_to(final(self)@),
            alive == old(self)@.alive(entity),
            !alive ==> final(self)@ == old(self)@,
            final(self)@ == old(self)@.pruned(old(self)@.tree(entity)),
    {
        let ghost before = self@;
        let alive = self.contains(entity);
        let doomed = mark_doomed(self, entity);
        let mut left: usize = doomed.len();
        proof {
            lemma_pruned_none(before);
            assert(dead_from(before, entity, left as int) =~= Set::empty());
        }
        while left > 0
            invariant
                before.wf(),
                doomed@.len() == before.next,
                left <= doomed@.len(),
                forall|i: int|
                    0 <= i < doomed@.len() ==> #[trigger] doomed@[i] == before.under(
                        entity,
                        Entity(i as u64),
                    ),
                self.sound(),
                self@ == before.pruned(dead_from(before, entity, left as int)),
            decreases left,
        {
            left -= 1;
            let next = Entity(left as u64);
            let ghost dead = dead_from(before, entity, left + 1);
            proof {
                assert(doomed@[left as int] == before.under(entity, next));
                assert(!dead.contains(next));
            }
            if doomed[left] {
                proof {
                    lemma_buried(before, dead, next);
                    assert(dead_from(before, entity, left as int) =~= dead.insert(next));
                }
                bury(self, next);
            } else {
                proof {
                    assert(dead_from(before, entity, left as int) =~= dead);
                }
            }
        }
        proof {
            let tree = before.tree(entity);
            assert(dead_from(before, entity, 0) =~= tree);
            lemma_despawned_wf(before, entity);
            if !alive {
                assert forall|e: Entity| !#[trigger] tree.contains(e) by {
                    if before.under(entity, e) {
                        lemma_under_alive(before, entity, e);
                    }
                }
                assert(tree =~= Set::empty());
                lemma_pruned_none(before);
            }
        }
        alive
    }
}

/// Nothing is tied to what is not alive.
proof fn lemma_under_alive<V, B>(w: WorldState<V, B>, root: Entity, entity: Entity)
    requires
        w.under(root, entity),
    ensures
        w.alive(root),
    decreases entity.0,
{
    if entity != root {
        if let Some(target) = w.entities[entity].effect_of {
            lemma_under_alive(w, root, target);
        }
    }
}

/// What dies with `root` and has at least the number `bound`.
spec fn dead_from<V, B>(w: WorldState<V, B>, root: Entity, bound: int) -> Set<Entity> {
    Set::new(|e: Entity| w.under(root, e) && e.0 >= bound)
}

} // verus!
