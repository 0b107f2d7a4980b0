//! The flush: polling sources for changes, and running the effects that they wake.
use crate::context::EffectBody;
use crate::effect::{lemma_maybe_ran, maybe_ran, maybe_run_effect};
use crate::graph::{entries_of, hosts_in, list_at, lists_of, DirtyState, Lists};
use crate::id::{source_at, ComponentId, Entity, Source};
use crate::lifetime::{lemma_evolves, lemma_evolves_trans, lemma_graph_wf};
use crate::state::WorldState;
use crate::tick::Tick;
use crate::timing::{lemma_checked_wf, lemma_idled, lemma_polled_wf, lemma_same_time};
use crate::world::World;
use vstd::prelude::*;
use vstd::seq_lib::{lemma_seq_concat_contains_all_elements, lemma_seq_contains_after_push};

verus! {

/// The maximum number of times [`World::run_effects`] will poll and drain in a single flush before
/// giving up. This is a backstop against genuine oscillation (effects whose values keep actually
/// changing); ordinary self-writes are handled by the ticks, not by this limit.
pub const MAX_EFFECT_ITERATIONS: usize = 128;

/// Whether some source held by `host` wakes `effect`.
pub open spec fn woken_at<V, B>(world: WorldState<V, B>, host: Option<Entity>, effect: Entity) -> bool {
    exists|component: ComponentId| #[trigger] world.wakes(source_at(host, component), effect)
}

/// Appends `subscribers` to `dirty`.
fn extend(dirty: &mut Vec<Entity>, subscribers: &Vec<Entity>)
    ensures
        final(dirty)@ == old(dirty)@ + subscribers@,
{
    let ghost before = dirty@;
    let mut i: usize = 0;
    while i < subscribers.len()
        invariant
            i <= subscribers.len(),
            dirty@ == before + subscribers@.take(i as int),
        decreases subscribers.len() - i,
    {
        dirty.push(subscribers[i]);
        proof {
            assert(dirty@ =~= before + subscribers@.take(i + 1));
        }
        i += 1;
    }
    proof {
        assert(subscribers@.take(i as int) =~= subscribers@);
    }
}

/// The subscriber lists of `host`, or those of the resources if there is none.
spec fn lists_at<V, B>(world: &World<V, B>, host: Option<Entity>) -> Lists {
    match host {
        Some(entity) => lists_of(world.entity_lists(), entity),
        None => world.resource_lists(),
    }
}

/// What is subscribed to a source is what its list says.
proof fn lemma_listed<V, B>(world: &World<V, B>, host: Option<Entity>, component: ComponentId)
    ensures
        world@.subscribers_of(source_at(host, component)) == list_at(lists_at(world, host), component),
{
    world.lemma_listing();
}

/// Appends to `dirty` the effects that a source of `host` wakes, given the subscriber lists of
/// that host.
fn collect_woken<V, B>(
    world: &World<V, B>,
    host: Option<Entity>,
    entries: Vec<(ComponentId, &Vec<Entity>)>,
    dirty: &mut Vec<Entity>,
)
    requires
        world.sound(),
        entries_of(entries@, lists_at(world, host)),
    ensures
        forall|e: Entity| #[trigger]
            final(dirty)@.contains(e) <==> old(dirty)@.contains(e) || woken_at(world@, host, e),
{
    let ghost before = dirty@;
    let ghost lists = lists_at(world, host);
    let now = world.change_tick();
    let last_poll = world.dirty_effects().last_poll();
    let mut i: usize = 0;
    while i < entries.len()
        invariant
            world.sound(),
            now == world@.tick,
            last_poll == world@.dirty.last_poll,
            lists == lists_at(world, host),
            entries_of(entries@, lists),
            i <= entries.len(),
            forall|e: Entity| #[trigger]
                dirty@.contains(e) <==> before.contains(e) || exists|j: int|
                    0 <= j < i && world@.wakes(source_at(host, (#[trigger] entries@[j]).0), e),
        decreases entries.len() - i,
    {
        let component = entries[i].0;
        let changed: Option<Tick> = match host {
            Some(entity) => world.component_changed(entity, component),
            None => world.resource_changed(component),
        };
        let moved = match changed {
            Some(changed) => changed.is_newer_than(last_poll, now),
            None => false,
        };
        let ghost source = source_at(host, component);
        let ghost earlier = dirty@;
        proof {
            lemma_listed(world, host, component);
            assert(lists.contains_key(entries@[i as int].0));
            assert(world@.subscribers_of(source) == entries@[i as int].1@);
            assert(moved == world@.moved(source));
        }
        if moved {
            extend(dirty, entries[i].1);
        }
        proof {
            assert forall|e: Entity| #[trigger]
                dirty@.contains(e) <==> before.contains(e) || exists|j: int|
                0 <= j < i + 1 && world@.wakes(source_at(host, (#[trigger] entries@[j]).0), e) by {
                lemma_seq_concat_contains_all_elements(
                    earlier,
                    entries@[i as int].1@,
                    e,
                );
                assert(dirty@.contains(e) <==> earlier.contains(e) || world@.wakes(source, e));
                if world@.wakes(source, e) {
                    assert(world@.wakes(source_at(host, entries@[i as int].0), e));
                }
            }
        }
        i += 1;
    }
    proof {
        assert forall|e: Entity| #[trigger]
            dirty@.contains(e) <==> before.contains(e) || woken_at(world@, host, e) by {
            if woken_at(world@, host, e) {
                let c = choose|c: ComponentId| #[trigger] world@.wakes(source_at(host, c), e);
                lemma_listed(world, host, c);
                assert(lists.contains_key(c));
                let j = choose|j: int| 0 <= j < entries@.len() && (#[trigger] entries@[j]).0 == c;
                assert(world@.wakes(source_at(host, entries@[j].0), e));
            }
        }
    }
}

/// The effects that are woken by a source that changed since the last poll, possibly more than
/// once each. Only entities that were ever tracked are looked at.
fn woken_effects<V, B>(world: &World<V, B>) -> (dirty: Vec<Entity>)
    requires
        world.sound(),
    ensures
        forall|e: Entity| #[trigger] dirty@.contains(e) <==> world@.woken(e),
{
    let hosts = world.entity_subscribers().hosts();
    let mut dirty: Vec<Entity> = Vec::new();
    let mut i: usize = 0;
    while i < hosts.len()
        invariant
            world.sound(),
            hosts_in(hosts@, world.entity_lists()),
            i <= hosts.len(),
            forall|e: Entity| #[trigger]
                dirty@.contains(e) <==> exists|j: int|
                    0 <= j < i && woken_at(world@, Some((#[trigger] hosts@[j]).entity), e),
        decreases hosts.len() - i,
    {
        let entity = hosts[i].entity;
        let ghost earlier = dirty@;
        proof {
            assert(world.entity_lists().contains_key(hosts@[i as int].entity));
        }
        collect_woken(world, Some(entity), hosts[i].lists.entries(), &mut dirty);
        proof {
            assert forall|e: Entity| #[trigger]
                dirty@.contains(e) <==> exists|j: int|
                0 <= j < i + 1 && woken_at(world@, Some((#[trigger] hosts@[j]).entity), e) by {
                assert(dirty@.contains(e) <==> earlier.contains(e) || woken_at(
                    world@,
                    Some(entity),
                    e,
                ));
                if woken_at(world@, Some(entity), e) {
                    assert(woken_at(world@, Some(hosts@[i as int].entity), e));
                }
            }
        }
        i += 1;
    }
    let ghost earlier = dirty@;
    collect_woken(world, None, world.resource_subscribers().entries(), &mut dirty);
    proof {
        assert forall|e: Entity| #[trigger] dirty@.contains(e) <==> world@.woken(e) by {
            if earlier.contains(e) {
                let j = choose|j: int|
                    0 <= j < hosts@.len() && woken_at(world@, Some((#[trigger] hosts@[j]).entity), e);
                let c = choose|c: ComponentId| #[trigger]
                    world@.wakes(source_at(Some(hosts@[j].entity), c), e);
                assert(world@.woken(e));
            }
            if woken_at(world@, None, e) {
                let c = choose|c: ComponentId| #[trigger] world@.wakes(source_at(None, c), e);
                assert(world@.woken(e));
            }
            if world@.woken(e) {
                let s = choose|s: Source| #[trigger] world@.wakes(s, e);
                match s {
                    Source::Component { entity, component } => {
                        assert(world@.wakes(source_at(Some(entity), component), e));
                        assert(woken_at(world@, Some(entity), e));
                        lemma_listed(world, Some(entity), component);
                        assert(world.entity_lists().contains_key(entity));
                        let j = choose|j: int|
                            0 <= j < hosts@.len() && (#[trigger] hosts@[j]).entity == entity;
                        assert(woken_at(world@, Some(hosts@[j].entity), e));
                        assert(earlier.contains(e));
                    },
                    Source::Resource { resource } => {
                        assert(world@.wakes(source_at(None, resource), e));
                    },
                }
            }
        }
    }
    dirty
}

/// Queues each of `effects`, unless it is queued already.
fn queue_all<V, B>(world: &mut World<V, B>, effects: Vec<Entity>)
    requires
        old(world).wf(),
    ensures
        final(world).wf(),
        final(world)@ == (WorldState {
            dirty: DirtyState { queue: final(world)@.dirty.queue, ..old(world)@.dirty },
            ..old(world)@
        }),
        old(world)@.dirty.queue.is_prefix_of(final(world)@.dirty.queue),
        forall|e: Entity| #[trigger]
            final(world)@.dirty.queue.contains(e) <==> old(world)@.dirty.queue.contains(e)
                || effects@.contains(e),
{
    let ghost before = world@;
    let mut i: usize = 0;
    while i < effects.len()
        invariant
            i <= effects.len(),
            world.wf(),
            world@ == (WorldState {
                dirty: DirtyState { queue: world@.dirty.queue, ..before.dirty },
                ..before
            }),
            before.dirty.queue.is_prefix_of(world@.dirty.queue),
            forall|e: Entity| #[trigger]
                world@.dirty.queue.contains(e) <==> before.dirty.queue.contains(e) || effects@.take(
                    i as int,
                ).contains(e),
        decreases effects.len() - i,
    {
        proof {
            assert(effects@.take(i + 1) =~= effects@.take(i as int).push(effects@[i as int]));
        }
        let ghost earlier = world@.dirty.queue;
        world.mark_dirty(effects[i]);
        proof {
            assert forall|e: Entity| #[trigger]
                world@.dirty.queue.contains(e) <==> before.dirty.queue.contains(e) || effects@.take(
                i + 1,
            ).contains(e) by {
                lemma_seq_contains_after_push(earlier, effects@[i as int], e);
                lemma_seq_contains_after_push(effects@.take(i as int), effects@[i as int], e);
            }
        }
        i += 1;
    }
    proof {
        assert(effects@.take(i as int) =~= effects@);
    }
}

/// Scans every tracked source and queues the subscribers of any whose `changed` tick advanced
/// since the last poll.
///
/// This is the "push" half of the update flow. It is deliberately conservative: it only marks
/// effects as maybe-dirty, and the per-effect pull check decides whether a re-run is actually
/// warranted.
///
/// The tick is advanced afterwards, so that any write made after this poll is stamped strictly
/// newer than it.
pub fn poll_sources<V, B>(world: &mut World<V, B>)
    requires
        old(world).wf(),
    ensures
        final(world).wf(),
        old(world)@.evolves_to(final(world)@),
        old(world)@.polled_to(final(world)@),
{
    let ghost before = world@;
    let now = world.change_tick();
    let dirty = woken_effects(world);
    queue_all(world, dirty);
    world.dirty_effects_mut().set_last_poll(now);
    world.increment_change_tick();
    proof {
        lemma_polled_wf(before, world@);
        lemma_evolves(before, world@);
    }
}

/// The index that `effect` is ordered by, if it has one.
fn index_of_effect<V, B>(world: &World<V, B>, effect: Entity) -> (index: Option<u64>)
    requires
        world.sound(),
    ensures
        match index {
            Some(i) => world@.rank(effect) == i,
            None => world@.rank(effect) == -1,
        },
{
    match world.effect_index(effect) {
        Some(index) => Some(index.0),
        None => None,
    }
}

/// Returns whether an effect of index `a` runs after one of index `b`. Those without an index come
/// first.
fn runs_after(a: Option<u64>, b: Option<u64>) -> (after: bool)
    ensures
        after == match (a, b) {
            (Some(x), Some(y)) => x > y,
            (Some(x), None) => true,
            (None, _) => false,
        },
{
    match a {
        Some(x) => match b {
            Some(y) => x > y,
            None => true,
        },
        None => false,
    }
}

/// Sorts queued effects by their index, keeping the order of the queue among equals.
fn sort_by_index<V, B>(world: &World<V, B>, queue: Vec<Entity>) -> (order: Vec<Entity>)
    requires
        world.sound(),
        queue@.no_duplicates(),
    ensures
        world@.in_order(queue@, order@),
{
    let mut order: Vec<Entity> = Vec::new();
    let mut i: usize = 0;
    while i < queue.len()
        invariant
            world.sound(),
            queue@.no_duplicates(),
            i <= queue.len(),
            order@.len() == i,
            sorted_so_far(world@, queue@, i as int, order@),
        decreases queue.len() - i,
    {
        let effect = queue[i];
        let index = index_of_effect(world, effect);
        let mut place: usize = i;
        while place > 0 && runs_after(index_of_effect(world, order[place - 1]), index)
            invariant
                world.sound(),
                place <= i,
                order@.len() == i,
                match index {
                    Some(x) => world@.rank(effect) == x,
                    None => world@.rank(effect) == -1,
                },
                forall|j: int|
                    place <= j < i ==> world@.rank(effect) < world@.rank(#[trigger] order@[j]),
            ensures
                place > 0 ==> world@.rank(order@[place - 1]) <= world@.rank(effect),
            decreases place,
        {
            place -= 1;
        }
        proof {
            lemma_inserted(world@, queue@, i as int, order@, place as int);
        }
        order.insert(place, effect);
        i += 1;
    }
    proof {
        assert(queue@.take(i as int) =~= queue@);
    }
    order
}

/// Whether `order` holds the first `count` of `queue`, ordered by rank and then by place in the
/// queue.
spec fn sorted_so_far<V, B>(
    world: WorldState<V, B>,
    queue: Seq<Entity>,
    count: int,
    order: Seq<Entity>,
) -> bool {
    &&& order.no_duplicates()
    &&& forall|e: Entity| #[trigger] order.contains(e) <==> queue.take(count).contains(e)
    &&& forall|i: int, j: int|
        0 <= i < j < order.len() ==> {
            ||| world.rank(#[trigger] order[i]) < world.rank(#[trigger] order[j])
            ||| world.rank(order[i]) == world.rank(order[j]) && queue.index_of(order[i])
                < queue.index_of(order[j])
        }
}

/// Putting the next queued effect before those of higher rank, and after the others, keeps the
/// order.
proof fn lemma_inserted<V, B>(
    world: WorldState<V, B>,
    queue: Seq<Entity>,
    count: int,
    order: Seq<Entity>,
    place: int,
)
    requires
        queue.no_duplicates(),
        0 <= count < queue.len(),
        order.len() == count,
        sorted_so_far(world, queue, count, order),
        0 <= place <= count,
        forall|j: int|
            place <= j < count ==> world.rank(queue[count]) < world.rank(#[trigger] order[j]),
        place > 0 ==> world.rank(order[place - 1]) <= world.rank(queue[count]),
    ensures
        sorted_so_far(world, queue, count + 1, order.insert(place, queue[count])),
{
    let effect = queue[count];
    let after = order.insert(place, effect);
    assert forall|e: Entity| #[trigger] order.contains(e) implies queue.index_of(e) < count by {
        assert(queue.take(count).contains(e));
        let k = choose|k: int| 0 <= k < count && queue.take(count)[k] == e;
        assert(queue[k] == e);
        assert(queue.contains(e));
        assert(queue[queue.index_of(e)] == e);
    }
    assert(queue.contains(effect));
    assert(queue[queue.index_of(effect)] == effect);
    assert(queue.index_of(effect) == count);
    assert(!order.contains(effect));
    assert(forall|j: int| 0 <= j < order.len() ==> #[trigger] order.contains(order[j]));
    assert forall|e: Entity| #[trigger] after.contains(e) <==> queue.take(count + 1).contains(e) by {
        assert(queue.take(count + 1) =~= queue.take(count).push(effect));
        lemma_seq_contains_after_push(queue.take(count), effect, e);
        if after.contains(e) {
            let k = choose|k: int| 0 <= k < after.len() && after[k] == e;
            if k < place {
                assert(order[k] == e);
            } else if k > place {
                assert(order[k - 1] == e);
            }
            assert(order.contains(e) || e == effect);
        }
        if order.contains(e) {
            let k = choose|k: int| 0 <= k < order.len() && order[k] == e;
            if k < place {
                assert(after[k] == e);
            } else {
                assert(after[k + 1] == e);
            }
        }
        assert(after[place] == effect);
    }
    assert forall|j: int| 0 <= j < place implies world.rank(#[trigger] order[j]) <= world.rank(effect) by {
        if j < place - 1 {
            assert(world.rank(order[j]) <= world.rank(order[place - 1]));
        }
    }
    assert forall|i: int, j: int| 0 <= i < j < after.len() implies {
        ||| world.rank(#[trigger] after[i]) < world.rank(#[trigger] after[j])
        ||| world.rank(after[i]) == world.rank(after[j]) && queue.index_of(after[i])
            < queue.index_of(after[j])
    } by {
        let p = if i < place { i } else { i - 1 };
        let q = if j < place { j } else { j - 1 };
        if i == place {
            assert(after[j] == order[q]);
        } else if j == place {
            assert(after[i] == order[p]);
            assert(order.contains(order[p]));
        } else {
            assert(after[i] == order[p] && after[j] == order[q]);
        }
    }
    assert(after.no_duplicates()) by {
        assert forall|i: int, j: int| 0 <= i < after.len() && 0 <= j < after.len() && i != j implies after[i]
            != after[j] by {
            let p = if i < place { i } else { i - 1 };
            let q = if j < place { j } else { j - 1 };
            if i == place {
                assert(order.contains(order[q]));
            } else if j == place {
                assert(order.contains(order[p]));
            } else {
                assert(order[p] != order[q]);
            }
        }
    }
}

/// Whether re-checking `effect`, which a flush took off the queue, may turn the world `before` into
/// the world `after`.
pub open spec fn rechecked<V, B: EffectBody<V, B>>(
    before: WorldState<V, B>,
    effect: Entity,
    after: WorldState<V, B>,
) -> bool {
    &&& maybe_ran(before, effect, after.awaiting(before.pending))
    &&& after.pending == before.pending.remove(effect)
}

/// Whether re-checking the effects `order`, one after the other, may turn the world `before` into
/// the world `after`.
pub open spec fn all_ran<V, B: EffectBody<V, B>>(
    before: WorldState<V, B>,
    order: Seq<Entity>,
    after: WorldState<V, B>,
) -> bool
    decreases order.len(),
{
    if order.len() == 0 {
        after == before
    } else {
        exists|middle: WorldState<V, B>|
            all_ran(before, order.drop_last(), middle) && #[trigger] rechecked(
                middle,
                order.last(),
                after,
            )
    }
}

/// Whether draining the queue, and re-checking `order`, may turn the world `polled` into the world
/// `after`. Whatever flushes under way had still to do is not touched.
pub open spec fn drained_to<V, B: EffectBody<V, B>>(
    polled: WorldState<V, B>,
    order: Seq<Entity>,
    after: WorldState<V, B>,
) -> bool {
    &&& all_ran(
        polled.drained(),
        order,
        after.awaiting(polled.drained().pending.difference(order.to_set())),
    )
    &&& after.pending == polled.pending
}

/// Whether one pass of a flush may turn the world `before` into the world `after`: a poll found
/// something dirty, and the queue was drained and re-checked in the order of registration.
pub open spec fn passed<V, B: EffectBody<V, B>>(before: WorldState<V, B>, after: WorldState<V, B>) -> bool {
    exists|polled: WorldState<V, B>, order: Seq<Entity>|
        {
            &&& before.polled_to(polled)
            &&& polled.dirty.queue.len() > 0
            &&& #[trigger] polled.in_order(polled.dirty.queue, order)
            &&& drained_to(polled, order, after)
        }
}

/// Whether `count` passes in a row may turn the world `before` into the world `after`.
pub open spec fn passes<V, B: EffectBody<V, B>>(
    before: WorldState<V, B>,
    after: WorldState<V, B>,
    count: nat,
) -> bool
    decreases count,
{
    if count == 0 {
        after == before
    } else {
        exists|middle: WorldState<V, B>|
            passes(before, middle, (count - 1) as nat) && #[trigger] passed(middle, after)
    }
}

/// Whether `after` is the world `before` after a poll that found nothing dirty.
pub open spec fn idled<V, B>(before: WorldState<V, B>, after: WorldState<V, B>) -> bool {
    before.polled_to(after) && after.dirty.queue.len() == 0
}

/// Whether nothing is left to do in `world`: no effect is queued, and none would be by a poll.
pub open spec fn settled<V, B>(world: WorldState<V, B>) -> bool {
    world.dirty.queue.len() == 0 && forall|effect: Entity| !#[trigger] world.woken(effect)
}

/// Whether a flush may turn the world `before` into the world `after`, and report `done`. Passes
/// follow each other until a poll finds nothing dirty. If that has not happened after
/// [`MAX_EFFECT_ITERATIONS`] of them, the flush gives up, and is done only if nothing happens to
/// be left.
pub open spec fn flushed<V, B: EffectBody<V, B>>(
    before: WorldState<V, B>,
    after: WorldState<V, B>,
    done: bool,
) -> bool {
    ||| done && exists|middle: WorldState<V, B>, count: nat|
        count < MAX_EFFECT_ITERATIONS && #[trigger] passes(before, middle, count) && idled(middle, after)
    ||| passes(before, after, MAX_EFFECT_ITERATIONS as nat) && done == settled(after)
}

/// Re-checking one effect keeps the world in order.
pub proof fn lemma_rechecked<V, B: EffectBody<V, B>>(
    before: WorldState<V, B>,
    effect: Entity,
    after: WorldState<V, B>,
)
    requires
        before.wf(),
        rechecked(before, effect, after),
    ensures
        after.wf(),
        before.evolves_to(after.awaiting(before.pending)),
{
    let ran = after.awaiting(before.pending);
    lemma_maybe_ran(before, effect, ran);
    lemma_checked_wf(ran, effect);
    assert(after =~= ran.awaiting(ran.pending.remove(effect)));
}

/// Re-checking one effect after the other keeps the world in order.
pub proof fn lemma_all_ran<V, B: EffectBody<V, B>>(
    before: WorldState<V, B>,
    order: Seq<Entity>,
    after: WorldState<V, B>,
)
    requires
        before.wf(),
        all_ran(before, order, after),
    ensures
        after.wf(),
        before.evolves_to(after.awaiting(before.pending)),
        after.pending == before.pending.difference(order.to_set()),
    decreases order.len(),
{
    if order.len() == 0 {
        assert(after.awaiting(before.pending) =~= before);
        lemma_evolves(before, before);
        assert(after.pending =~= before.pending.difference(order.to_set()));
    } else {
        let rest = order.drop_last();
        let middle = choose|middle: WorldState<V, B>|
            all_ran(before, rest, middle) && #[trigger] rechecked(middle, order.last(), after);
        lemma_all_ran(before, rest, middle);
        lemma_rechecked(middle, order.last(), after);
        let a = middle.awaiting(before.pending);
        let b = after.awaiting(before.pending);
        assert(a.evolves_to(b)) by {
            let c = after.awaiting(middle.pending);
            assert(middle.evolves_to(c));
            lemma_evolves_awaiting(middle, c, before.pending);
            assert(c.awaiting(before.pending) =~= b);
        }
        lemma_evolves_trans(before, a, b);
        assert forall|e: Entity| #[trigger] after.pending.contains(e) <==> before.pending.difference(
            order.to_set(),
        ).contains(e) by {
            assert(order =~= rest.push(order.last()));
            lemma_seq_contains_after_push(rest, order.last(), e);
        }
        assert(after.pending =~= before.pending.difference(order.to_set()));
    }
}

/// How a world evolves does not depend on what flushes under way have still to do.
pub proof fn lemma_evolves_awaiting<V, B>(a: WorldState<V, B>, b: WorldState<V, B>, pending: Set<Entity>)
    requires
        a.evolves_to(b),
    ensures
        a.awaiting(pending).evolves_to(b.awaiting(pending)),
{
    let c = a.awaiting(pending);
    let d = b.awaiting(pending);
    assert forall|e: Entity| #[trigger] a.alive(e) == c.alive(e) by {}
    assert forall|e: Entity| #[trigger] d.alive(e) == b.alive(e) by {}
    assert forall|e: Entity| #[trigger] d.rank(e) == b.rank(e) by {}
    if c.ids_wf() {
        assert forall|e: Entity| #[trigger] a.alive(e) implies e.0 < a.next by {
            assert(c.alive(e));
        }
        assert forall|e: Entity| c.alive(e) && d.alive(e) implies c.entities[e].index == (
        #[trigger] d.entities[e]).index by {
            assert(b.entities[e].index == a.entities[e].index);
        }
    }
}

/// Taking the queue off leaves no effect stale: they will be re-checked.
pub proof fn lemma_drained_wf<V, B>(w: WorldState<V, B>)
    requires
        w.wf(),
    ensures
        w.drained().wf(),
{
    let after = w.drained();
    lemma_graph_wf(w, after);
    assert forall|s: Source| #[trigger] after.changed_tick(s) == w.changed_tick(s) by {}
    assert forall|e: Entity| #[trigger] after.dependencies_of(e) == w.dependencies_of(e) by {}
    lemma_same_time(w, after);
}

/// Draining the queue keeps the world in order.
pub proof fn lemma_drained_to<V, B: EffectBody<V, B>>(
    polled: WorldState<V, B>,
    order: Seq<Entity>,
    after: WorldState<V, B>,
)
    requires
        polled.wf(),
        polled.in_order(polled.dirty.queue, order),
        drained_to(polled, order, after),
    ensures
        after.wf(),
        polled.evolves_to(after),
{
    let start = polled.drained();
    let end = after.awaiting(start.pending.difference(order.to_set()));
    lemma_drained_wf(polled);
    lemma_all_ran(start, order, end);
    assert(after =~= end.awaiting(polled.pending));
    lemma_graph_wf(end, after);
    assert forall|e: Entity|
        end.dirty.queue.contains(e) || end.pending.contains(e) implies #[trigger] after.dirty.queue.contains(
    e) || after.pending.contains(e) by {
        assert(order.contains(e) <==> polled.dirty.queue.contains(e));
    }
    assert forall|s: Source| #[trigger] after.changed_tick(s) == end.changed_tick(s) by {}
    assert forall|e: Entity| #[trigger] after.dependencies_of(e) == end.dependencies_of(e) by {}
    lemma_same_time(end, after);
    lemma_evolves_awaiting(start, end.awaiting(start.pending), polled.pending);
    let calm = start.awaiting(polled.pending);
    lemma_evolves(polled, calm);
    assert(end.awaiting(start.pending).awaiting(polled.pending) =~= after);
    lemma_evolves_trans(polled, calm, after);
}

/// A pass keeps the world in order.
pub proof fn lemma_passed<V, B: EffectBody<V, B>>(before: WorldState<V, B>, after: WorldState<V, B>)
    requires
        before.wf(),
        passed(before, after),
    ensures
        after.wf(),
        before.evolves_to(after),
{
    let (polled, order) = choose|polled: WorldState<V, B>, order: Seq<Entity>|
        {
            &&& before.polled_to(polled)
            &&& polled.dirty.queue.len() > 0
            &&& #[trigger] polled.in_order(polled.dirty.queue, order)
            &&& drained_to(polled, order, after)
        };
    lemma_polled_wf(before, polled);
    lemma_evolves(before, polled);
    lemma_drained_to(polled, order, after);
    lemma_evolves_trans(before, polled, after);
}

/// Several passes keep the world in order.
pub proof fn lemma_passes<V, B: EffectBody<V, B>>(
    before: WorldState<V, B>,
    after: WorldState<V, B>,
    count: nat,
)
    requires
        before.wf(),
        passes(before, after, count),
    ensures
        after.wf(),
        before.evolves_to(after),
    decreases count,
{
    if count == 0 {
        lemma_evolves(before, before);
    } else {
        let middle = choose|middle: WorldState<V, B>|
            passes(before, middle, (count - 1) as nat) && #[trigger] passed(middle, after);
        lemma_passes(before, middle, (count - 1) as nat);
        lemma_passed(middle, after);
        lemma_evolves_trans(before, middle, after);
    }
}

/// A flush keeps the world in order. If it is done, nothing is left to do.
pub proof fn lemma_flushed<V, B: EffectBody<V, B>>(
    before: WorldState<V, B>,
    after: WorldState<V, B>,
    done: bool,
)
    requires
        before.wf(),
        flushed(before, after, done),
    ensures
        after.wf(),
        before.evolves_to(after),
        done && after.young() ==> settled(after),
{
    if done && exists|middle: WorldState<V, B>, count: nat|
        count < MAX_EFFECT_ITERATIONS && #[trigger] passes(before, middle, count) && idled(
            middle,
            after,
        ) {
        let (middle, count) = choose|middle: WorldState<V, B>, count: nat|
            count < MAX_EFFECT_ITERATIONS && #[trigger] passes(before, middle, count) && idled(
                middle,
                after,
            );
        lemma_passes(before, middle, count);
        lemma_polled_wf(middle, after);
        lemma_evolves(middle, after);
        lemma_evolves_trans(before, middle, after);
        if after.young() {
            lemma_idled(middle, after);
        }
    } else {
        lemma_passes(before, after, MAX_EFFECT_ITERATIONS as nat);
    }
}

/// Re-checks `order`, one effect after the other.
fn run_all<V, B: EffectBody<V, B>>(world: &mut World<V, B>, order: Vec<Entity>)
    requires
        old(world).wf(),
    ensures
        final(world).wf(),
        all_ran(old(world)@, order@, final(world)@),
{
    let ghost before = world@;
    let mut i: usize = 0;
    while i < order.len()
        invariant
            i <= order.len(),
            world.wf(),
            all_ran(before, order@.take(i as int), world@),
        decreases order.len() - i,
    {
        let ghost middle = world@;
        maybe_run_effect(world, order[i]);
        let ghost ran = world@;
        world.note_pending(Ghost(ran.pending.remove(order@[i as int])));
        proof {
            let sofar = order@.take(i + 1);
            assert(sofar.drop_last() =~= order@.take(i as int));
            assert(world@.awaiting(middle.pending) =~= ran);
            assert(rechecked(middle, sofar.last(), world@));
            lemma_rechecked(middle, sofar.last(), world@);
        }
        i += 1;
    }
    proof {
        assert(order@.take(i as int) =~= order@);
    }
}

/// Re-checks every queued effect, in the order of registration. Effects queued meanwhile stay
/// queued.
fn drain<V, B: EffectBody<V, B>>(world: &mut World<V, B>)
    requires
        old(world).wf(),
    ensures
        final(world).wf(),
        old(world)@.evolves_to(final(world)@),
        exists|order: Seq<Entity>|
            {
                &&& #[trigger] old(world)@.in_order(old(world)@.dirty.queue, order)
                &&& drained_to(old(world)@, order, final(world)@)
            },
{
    let ghost before = world@;
    let queue = world.dirty_effects_mut().take();
    world.note_pending(Ghost(before.drained().pending));
    proof {
        lemma_drained_wf(before);
        assert(world@ == before.drained());
    }
    let order = sort_by_index(world, queue);
    let ghost sorted = order@;
    proof {
        assert forall|e: Entity| #[trigger] world@.rank(e) == before.rank(e) by {
            assert(world@.alive(e) == before.alive(e));
        }
        assert(before.in_order(before.dirty.queue, sorted));
    }
    run_all(world, order);
    let ghost end = world@;
    world.note_pending(Ghost(before.pending));
    proof {
        lemma_all_ran(before.drained(), sorted, end);
        assert(world@.awaiting(before.drained().pending.difference(sorted.to_set())) =~= end);
        assert(drained_to(before, sorted, world@));
        lemma_drained_to(before, sorted, world@);
    }
}

impl<V, B: EffectBody<V, B>> World<V, B> {
    /// Polls tracked sources and runs every effect whose dependencies actually changed, repeating
    /// until nothing further is dirty.
    ///
    /// Effects that write sources other effects depend on cascade within this same call. If things
    /// have not settled after [`MAX_EFFECT_ITERATIONS`] passes, this gives up and returns false,
    /// which indicates genuine oscillation in the effect graph. The remaining effects will run on
    /// the next flush.
    pub fn run_effects(&mut self) -> (done: bool)
        requires
            old(self).wf(),
        ensures
            final(self).wf(),
            old(self)@.evolves_to(final(self)@),
            flushed(old(self)@, final(self)@, done),
    {
        let ghost before = self@;
        proof {
            lemma_evolves(before, before);
        }
        let mut count: usize = 0;
        while count < MAX_EFFECT_ITERATIONS
            invariant
                count <= MAX_EFFECT_ITERATIONS,
                self.wf(),
                before.wf(),
                before.evolves_to(self@),
                before == old(self)@,
                passes(before, self@, count as nat),
            decreases MAX_EFFECT_ITERATIONS - count,
        {
            let ghost middle = self@;
            poll_sources(self);
            if self.dirty_effects().is_empty() {
                proof {
                    assert(passes(before, middle, count as nat) && idled(middle, self@));
                    lemma_evolves_trans(before, middle, self@);
                }
                return true;
            }
            let ghost polled = self@;
            drain(self);
            proof {
                let order = choose|order: Seq<Entity>|
                    {
                        &&& #[trigger] polled.in_order(polled.dirty.queue, order)
                        &&& drained_to(polled, order, self@)
                    };
                assert(passed(middle, self@));
                assert(passes(before, middle, ((count + 1) - 1) as nat));
                assert(passes(before, self@, (count + 1) as nat));
                lemma_evolves_trans(before, middle, polled);
                lemma_evolves_trans(before, polled, self@);
            }
            count += 1;
        }
        let woken = woken_effects(self);
        proof {
            if woken@.len() > 0 {
                assert(woken@.contains(woken@[0]));
                assert(self@.woken(woken@[0]));
            } else {
                assert forall|effect: Entity| !#[trigger] self@.woken(effect) by {
                    assert(!woken@.contains(effect));
                }
            }
        }
        self.dirty_effects().is_empty() && woken.len() == 0
    }
}

/// Polls sources and runs every dirty effect. See [`World::run_effects`].
pub fn run_effects<V, B: EffectBody<V, B>>(world: &mut World<V, B>) -> (done: bool)
    requires
        old(world).wf(),
    ensures
        final(world).wf(),
        old(world)@.evolves_to(final(world)@),
        flushed(old(world)@, final(world)@, done),
{
    world.run_effects()
}

} // verus!
