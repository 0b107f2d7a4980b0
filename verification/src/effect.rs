//! Effects: how a reactive computation is spawned, run, and wired to what it read.
use crate::component::{stamped, Bundle};
use crate::context::{ContextState, EffectBody, EffectContext};
use crate::graph::{lemma_released, Dependencies, Effect, EffectIndex, EffectOf, Effects};
use crate::id::{contains_source, lemma_without, without, ComponentId, Dependency, Entity, Source};
use crate::lifetime::{lemma_evolves, lemma_evolves_trans, lemma_registered_wf};
use crate::rewire::{lemma_observed_now, lemma_reconciled, lemma_reconciled_wf};
use crate::state::{enlisted, hosts, hosts_but, relisted, WorldState};
use crate::tick::Tick;
use crate::timing::lemma_ticked_wf;
use crate::world::{Record, World};
use std::sync::Arc;
use vstd::prelude::*;
use vstd::seq_lib::lemma_seq_contains_after_push;

verus! {

/// Returns a source's current `changed` tick, if the source exists.
pub(crate) fn source_changed_tick<V, B>(world: &World<V, B>, source: Source) -> (tick: Option<Tick>)
    requires
        world.sound(),
    ensures
        tick == world@.changed_tick(source),
{
    match source {
        Source::Component { entity, component } => world.component_changed(entity, component),
        Source::Resource { resource } => world.resource_changed(resource),
    }
}

/// Subscribes `effect` to `source`. It need not exist, nor need its entity have been spawned.
pub(crate) fn subscribe<V, B>(world: &mut World<V, B>, source: Source, effect: Entity)
    requires
        old(world).sound(),
    ensures
        final(world).sound(),
        final(world)@ == old(world)@.subscribed(source, effect),
{
    match source {
        Source::Component { entity, component } => {
            let now = world.change_tick();
            world.entity_subscribers_mut().add(entity, component, effect, now);
        },
        Source::Resource { resource } => world.resource_subscribers_mut().add(resource, effect),
    }
    proof {
        let after = old(world)@.subscribed(source, effect);
        assert(world@.subscribers =~= after.subscribers);
        assert(world@.noticed =~= after.noticed);
    }
}

/// Unsubscribes `effect` from `source`.
pub(crate) fn unsubscribe<V, B>(world: &mut World<V, B>, source: Source, effect: Entity)
    requires
        old(world).sound(),
    ensures
        final(world).sound(),
        final(world)@ == old(world)@.unsubscribed(source, effect),
{
    match source {
        Source::Component { entity, component } => {
            let now = world.change_tick();
            world.entity_subscribers_mut().remove(entity, component, effect, now);
            let ghost middle = world@;
            proof {
                assert(middle.noticed =~= old(world)@.unsubscribed(source, effect).noticed);
            }
            if world.is_gone(entity) {
                let ghost listed = world.entity_lists();
                world.entity_subscribers_mut().release(entity);
                proof {
                    lemma_released(listed, world.entity_lists(), world.resource_lists(), entity);
                    assert(!middle.reachable(entity));
                    assert(world@.noticed =~= middle.noticed);
                }
            }
        },
        Source::Resource { resource } => world.resource_subscribers_mut().remove(resource, effect),
    }
    proof {
        lemma_without(Seq::<Entity>::empty(), effect);
        assert(!Seq::<Entity>::empty().contains(effect));
        let after = old(world)@.unsubscribed(source, effect);
        assert(world@.subscribers =~= after.subscribers);
        assert(world@.noticed =~= after.noticed);
    }
}

/// What an effect that read `reads` has observed by now, for each source in turn.
///
/// A source that is absent right now is recorded at the current tick, so it counts as changed once
/// it is actually inserted.
fn observe<V, B>(world: &World<V, B>, reads: Vec<Source>) -> (dependencies: Vec<Dependency>)
    requires
        world.sound(),
    ensures
        dependencies@ == world@.observed(reads@),
{
    let now = world.change_tick();
    let mut dependencies: Vec<Dependency> = Vec::new();
    let mut i: usize = 0;
    while i < reads.len()
        invariant
            world.sound(),
            now == world@.tick,
            i <= reads.len(),
            dependencies@ == world@.observed(reads@.take(i as int)),
        decreases reads.len() - i,
    {
        let source = reads[i];
        let observed = match source_changed_tick(world, source) {
            Some(changed) => changed,
            None => now,
        };
        dependencies.push(Dependency { source, observed });
        proof {
            assert(dependencies@ =~= world@.observed(reads@.take(i + 1)));
        }
        i += 1;
    }
    proof {
        assert(reads@.take(i as int) =~= reads@);
    }
    dependencies
}

/// Updates the subscription edges for `effect` to exactly `reads`, and records the current
/// `changed` tick of each source.
///
/// Capturing the ticks *here*, after the body has run and therefore after any writes it made, is
/// what prevents an effect from re-triggering itself. The record counts as changed by this run, and
/// an effect that tracks its own record has observed that too.
///
/// An effect that keeps no record, because it was despawned while it ran, or because the record was
/// removed, is not subscribed to anything.
pub(crate) fn reconcile_dependencies<V, B>(world: &mut World<V, B>, effect: Entity, reads: Vec<Source>)
    requires
        old(world).wf(),
        reads@.no_duplicates(),
    ensures
        final(world).wf(),
        old(world)@.evolves_to(final(world)@),
        final(world)@ == old(world)@.reconciled(effect, reads@),
{
    let ghost before = world@;
    proof {
        lemma_reconciled_wf(before, effect, reads@);
    }
    let previous: Vec<Source> = match world.dependencies(effect) {
        Some(dependencies) => dependencies.sources(),
        None => {
            return;
        },
    };
    let ghost tracked_reads = reads@;
    proof {
        assert(previous@.take(0) =~= Seq::empty());
        lemma_hosts_none();
        assert(world@ =~= rewired(before, previous@.take(0), tracked_reads, Seq::empty(), effect));
    }
    let mut i: usize = 0;
    while i < previous.len()
        invariant
            i <= previous.len(),
            reads@ == tracked_reads,
            world.sound(),
            world@ == rewired(before, previous@.take(i as int), tracked_reads, Seq::empty(), effect),
        decreases previous.len() - i,
    {
        proof {
            lemma_dropped_next(before, previous@, tracked_reads, i as int, effect);
        }
        if !contains_source(&reads, previous[i]) {
            unsubscribe(world, previous[i], effect);
        }
        i += 1;
    }
    proof {
        assert(previous@.take(i as int) =~= previous@);
        assert(tracked_reads.take(0) =~= Seq::empty());
    }
    let mut j: usize = 0;
    while j < reads.len()
        invariant
            j <= reads.len(),
            reads@ == tracked_reads,
            world.sound(),
            world@ == rewired(before, previous@, tracked_reads, tracked_reads.take(j as int), effect),
        decreases reads.len() - j,
    {
        proof {
            lemma_added_next(before, previous@, tracked_reads, j as int, effect);
        }
        if !contains_source(&previous, reads[j]) {
            subscribe(world, reads[j], effect);
        }
        j += 1;
    }
    let now = world.change_tick();
    proof {
        assert(tracked_reads.take(j as int) =~= tracked_reads);
    }
    match world.record_mut(effect) {
        Some(record) => {
            record.recorded = now;
        },
        None => {},
    }
    let ghost linked = world@;
    proof {
        assert(previous@ == before.tracked_by(effect));
        assert forall|s: Source| #[trigger] (linked.subscribers)(s) == relisted(
            before.subscribers_of(s),
            tracked_reads.contains(s),
            effect,
        ) by {
            lemma_without(before.subscribers_of(s), effect);
            assert(before.subscribers_of(s).contains(effect) <==> before.tracks(effect, s));
        }
        assert(linked.subscribers =~= before.linked(effect, tracked_reads).subscribers);
        assert(linked.noticed =~= before.linked(effect, tracked_reads).noticed);
        assert(linked =~= before.linked(effect, tracked_reads));
    }
    let dependencies = observe(world, reads);
    match world.record_mut(effect) {
        Some(record) => match &mut record.dependencies {
            Some(slot) => slot.set(dependencies),
            None => {},
        },
        None => {},
    }
    proof {
        assert(world@ =~= before.reconciled(effect, tracked_reads));
    }
}

/// Unsubscribing from one more source is unsubscribing from all of them.
pub proof fn lemma_unsubscribed_all<V, B>(
    w: WorldState<V, B>,
    sources: Seq<Source>,
    last: Source,
    effect: Entity,
)
    ensures
        w.unsubscribed_all(sources, effect).unsubscribed(last, effect) == w.unsubscribed_all(
            sources.push(last),
            effect,
        ),
{
    let have = w.unsubscribed_all(sources, effect).unsubscribed(last, effect);
    let want = w.unsubscribed_all(sources.push(last), effect);
    assert forall|s: Source| #[trigger] (have.subscribers)(s) == (want.subscribers)(s) by {
        lemma_seq_contains_after_push(sources, last, s);
        let list = w.subscribers_of(s);
        lemma_without(list, effect);
        lemma_without(without(list, effect), effect);
        assert(!without(list, effect).contains(effect));
    }
    assert(have.subscribers =~= want.subscribers);
    assert forall|x: Entity| have.noticed.contains_key(x) implies #[trigger] have.noticed[x]
        == want.noticed[x] by {
        lemma_hosts_push(sources, last, x);
    }
    assert(have.noticed =~= want.noticed);
}

/// The world once `effect` is no longer subscribed to those of `previous` that are not among
/// `reads`, and is subscribed to those of `added` that are not among `previous`.
spec fn rewired<V, B>(
    w: WorldState<V, B>,
    previous: Seq<Source>,
    reads: Seq<Source>,
    added: Seq<Source>,
    effect: Entity,
) -> WorldState<V, B> {
    WorldState {
        subscribers: |s: Source|
            if added.contains(s) && !previous.contains(s) {
                enlisted(w.subscribers_of(s), effect)
            } else if previous.contains(s) && !reads.contains(s) {
                without(w.subscribers_of(s), effect)
            } else {
                w.subscribers_of(s)
            },
        noticed: Map::new(
            |x: Entity|
                w.noticed.contains_key(x) || w.reachable(x) && hosts_but(added, previous, x),
            |x: Entity|
                if w.reachable(x) && hosts_but(added, previous, x) || hosts_but(previous, reads, x) {
                    w.tick
                } else {
                    w.noticed[x]
                },
        ),
        ..w
    }
}

/// No source is a component of any entity if there is no source.
proof fn lemma_hosts_none()
    ensures
        forall|others: Seq<Source>, x: Entity| !#[trigger] hosts_but(Seq::empty(), others, x),
{
}

/// One more source is a component of an entity, or the others are.
proof fn lemma_hosts_but_push(
    sources: Seq<Source>,
    last: Source,
    others: Seq<Source>,
    entity: Entity,
)
    ensures
        hosts_but(sources.push(last), others, entity) <==> hosts_but(sources, others, entity)
            || match last {
            Source::Component { entity: host, .. } => host == entity && !others.contains(last),
            Source::Resource { .. } => false,
        },
{
    let all = sources.push(last);
    assert forall|component: ComponentId| #[trigger]
        all.contains(Source::Component { entity, component }) <==> sources.contains(
        Source::Component { entity, component }) || last == (Source::Component { entity, component }) by {
        lemma_seq_contains_after_push(sources, last, Source::Component { entity, component });
    }
    if hosts_but(sources, others, entity) {
        let component = choose|component: ComponentId| #[trigger]
            sources.contains(Source::Component { entity, component }) && !others.contains(
                Source::Component { entity, component },
            );
        assert(all.contains(Source::Component { entity, component }));
    }
    if let Source::Component { entity: host, component } = last {
        if host == entity {
            assert(all.contains(Source::Component { entity, component }));
        }
    }
    if hosts_but(all, others, entity) {
        let component = choose|component: ComponentId| #[trigger]
            all.contains(Source::Component { entity, component }) && !others.contains(
                Source::Component { entity, component },
            );
        assert(sources.contains(Source::Component { entity, component }) || last == (
        Source::Component { entity, component }));
    }
}

/// Unsubscribing from one more source, unless it is still read.
proof fn lemma_dropped_next<V, B>(
    w: WorldState<V, B>,
    previous: Seq<Source>,
    reads: Seq<Source>,
    i: int,
    effect: Entity,
)
    requires
        0 <= i < previous.len(),
    ensures
        ({
            let before = rewired(w, previous.take(i), reads, Seq::empty(), effect);
            rewired(w, previous.take(i + 1), reads, Seq::empty(), effect) == if reads.contains(previous[i]) {
                before
            } else {
                before.unsubscribed(previous[i], effect)
            }
        }),
{
    let before = rewired(w, previous.take(i), reads, Seq::empty(), effect);
    let have = if reads.contains(previous[i]) {
        before
    } else {
        before.unsubscribed(previous[i], effect)
    };
    let want = rewired(w, previous.take(i + 1), reads, Seq::empty(), effect);
    assert(previous.take(i + 1) =~= previous.take(i).push(previous[i]));
    lemma_hosts_none();
    assert forall|s: Source| #[trigger] (have.subscribers)(s) == (want.subscribers)(s) by {
        lemma_seq_contains_after_push(previous.take(i), previous[i], s);
        let list = w.subscribers_of(s);
        lemma_without(list, effect);
        lemma_without(without(list, effect), effect);
        assert(!without(list, effect).contains(effect));
        assert(!Seq::<Source>::empty().contains(s));
    }
    assert(have.subscribers =~= want.subscribers);
    assert(have.noticed.dom() =~= want.noticed.dom());
    assert forall|x: Entity| want.noticed.contains_key(x) implies #[trigger] have.noticed[x]
        == want.noticed[x] by {
        lemma_hosts_but_push(previous.take(i), previous[i], reads, x);
    }
    assert(have.noticed =~= want.noticed);
}

/// Subscribing to one more of the sources that were read, unless it was tracked before.
proof fn lemma_added_next<V, B>(
    w: WorldState<V, B>,
    previous: Seq<Source>,
    reads: Seq<Source>,
    j: int,
    effect: Entity,
)
    requires
        0 <= j < reads.len(),
    ensures
        ({
            let before = rewired(w, previous, reads, reads.take(j), effect);
            rewired(w, previous, reads, reads.take(j + 1), effect) == if previous.contains(reads[j]) {
                before
            } else {
                before.subscribed(reads[j], effect)
            }
        }),
{
    let sofar = reads.take(j);
    let before = rewired(w, previous, reads, sofar, effect);
    let have = if previous.contains(reads[j]) {
        before
    } else {
        before.subscribed(reads[j], effect)
    };
    let want = rewired(w, previous, reads, reads.take(j + 1), effect);
    assert(reads.take(j + 1) =~= sofar.push(reads[j]));
    assert(reads.contains(reads[j]));
    assert forall|s: Source| #[trigger] (have.subscribers)(s) == (want.subscribers)(s) by {
        lemma_seq_contains_after_push(sofar, reads[j], s);
        lemma_seq_contains_after_push(w.subscribers_of(s), effect, effect);
    }
    assert(have.subscribers =~= want.subscribers);
    assert forall|x: Entity| #[trigger] before.reachable(x) == w.reachable(x) by {
        assert(before.alive(x) == w.alive(x));
    }
    assert forall|x: Entity| #[trigger] have.noticed.contains_key(x) <==> want.noticed.contains_key(x) by {
        lemma_hosts_but_push(sofar, reads[j], previous, x);
    }
    assert forall|x: Entity| want.noticed.contains_key(x) implies #[trigger] have.noticed[x]
        == want.noticed[x] by {
        lemma_hosts_but_push(sofar, reads[j], previous, x);
    }
    assert(have.noticed =~= want.noticed);
}

/// One more source is a component of an entity, or the others are.
pub proof fn lemma_hosts_push(sources: Seq<Source>, last: Source, entity: Entity)
    ensures
        hosts(sources.push(last), entity) <==> hosts(sources, entity) || match last {
            Source::Component { entity: host, .. } => host == entity,
            Source::Resource { .. } => false,
        },
{
    let none = Seq::<Source>::empty();
    lemma_hosts_but_push(sources, last, none, entity);
    assert(forall|s: Source| !none.contains(s));
    assert(hosts_but(sources, none, entity) == hosts(sources, entity));
    assert(hosts_but(sources.push(last), none, entity) == hosts(sources.push(last), entity));
}

/// Returns whether any of `effect`'s dependencies changed since it last ran.
///
/// An effect with no recorded dependencies has never run (or tracked nothing), so it is always
/// considered dirty.
pub(crate) fn dependencies_advanced<V, B>(world: &World<V, B>, effect: Entity) -> (advanced: bool)
    requires
        world.sound(),
    ensures
        advanced == world@.advanced(effect),
{
    let dependencies = match world.dependencies(effect) {
        Some(dependencies) => dependencies.iter(),
        None => {
            return true;
        },
    };
    if dependencies.len() == 0 {
        return true;
    }
    let now = world.change_tick();
    let mut i: usize = 0;
    while i < dependencies.len()
        invariant
            world.sound(),
            now == world@.tick,
            dependencies@ == world@.dependencies_of(effect),
            dependencies@.len() > 0,
            i <= dependencies.len(),
            forall|j: int|
                0 <= j < i ==> !world@.dependency_advanced(#[trigger] world@.dependencies_of(effect)[j]),
        decreases dependencies.len() - i,
    {
        let dependency = dependencies[i];
        proof {
            assert(dependency == world@.dependencies_of(effect)[i as int]);
        }
        match source_changed_tick(world, dependency.source) {
            Some(changed) => {
                if changed.is_newer_than(dependency.observed, now) {
                    return true;
                }
            },
            None => {},
        }
        i += 1;
    }
    false
}

/// What the body of `effect` starts with when it is run in the world `before`: a tick of its own,
/// and nothing read yet.
pub open spec fn opening<V, B>(before: WorldState<V, B>, effect: Entity) -> ContextState<V, B> {
    ContextState {
        world: before.ticked(),
        effect,
        target: before.entities[effect].effect_of,
        reads: Seq::empty(),
    }
}

/// Whether `entity` has a function to run.
pub open spec fn runnable<V, B>(world: WorldState<V, B>, entity: Entity) -> bool {
    world.alive(entity) && world.entities[entity].effect is Some
}

/// Whether the body of `effect`, run in the world `before`, may leave the context as `end`.
pub open spec fn body_ran<V, B: EffectBody<V, B>>(
    before: WorldState<V, B>,
    effect: Entity,
    end: ContextState<V, B>,
) -> bool {
    &&& (before.entities[effect].effect->0).runs(opening(before, effect), end)
    &&& end.world.wf()
    &&& end.reads.no_duplicates()
    &&& before.ticked().evolves_to(end.world)
}

/// Whether running `effect` in the world `before` may give the world `after`: the body ran, then
/// its edges were reconciled with what it read, and then the run's tick was closed. An entity
/// without a function to run changes nothing.
pub open spec fn effect_ran<V, B: EffectBody<V, B>>(
    before: WorldState<V, B>,
    effect: Entity,
    after: WorldState<V, B>,
) -> bool {
    if runnable(before, effect) {
        exists|end: ContextState<V, B>|
            #[trigger] body_ran(before, effect, end) && after == end.world.reconciled(
                effect,
                end.reads,
            ).ticked()
    } else {
        after == before
    }
}

/// A run keeps the world in order, and leaves the effect up to date.
pub proof fn lemma_effect_ran<V, B: EffectBody<V, B>>(
    before: WorldState<V, B>,
    effect: Entity,
    after: WorldState<V, B>,
)
    requires
        before.wf(),
        effect_ran(before, effect, after),
    ensures
        after.wf(),
        before.evolves_to(after),
        runnable(before, effect) ==> !after.behind(effect),
{
    if runnable(before, effect) {
        let end = choose|end: ContextState<V, B>|
            #[trigger] body_ran(before, effect, end) && after == end.world.reconciled(
                effect,
                end.reads,
            ).ticked();
        let reconciled = end.world.reconciled(effect, end.reads);
        lemma_ticked_wf(before);
        lemma_evolves(before, before.ticked());
        lemma_reconciled_wf(end.world, effect, end.reads);
        lemma_ticked_wf(reconciled);
        lemma_evolves(reconciled, after);
        lemma_evolves_trans(before, before.ticked(), end.world);
        lemma_evolves_trans(before, end.world, reconciled);
        lemma_evolves_trans(before, reconciled, after);
        if after.behind(effect) {
            let i = choose|i: int|
                0 <= i < after.dependencies_of(effect).len() && after.dependency_advanced(
                    #[trigger] after.dependencies_of(effect)[i],
                );
            assert(after.dependencies_of(effect) == reconciled.dependencies_of(effect));
            if end.world.tracking(effect) {
                lemma_reconciled(end.world, effect, end.reads);
                lemma_observed_now(end.world, effect, end.reads, i);
            }
        }
    } else {
        lemma_evolves(before, before);
    }
}

/// Re-checking an effect keeps the world in order, and leaves the effect up to date.
pub proof fn lemma_maybe_ran<V, B: EffectBody<V, B>>(
    before: WorldState<V, B>,
    effect: Entity,
    after: WorldState<V, B>,
)
    requires
        before.wf(),
        maybe_ran(before, effect, after),
    ensures
        after.wf(),
        before.evolves_to(after),
        !after.behind(effect),
{
    if before.advanced(effect) {
        lemma_effect_ran(before, effect, after);
        if !runnable(before, effect) {
            assert(!before.tracking(effect));
        }
    } else {
        lemma_evolves(before, before);
    }
}

/// Runs a single effect unconditionally, then reconciles its dependency edges and captures the
/// ticks it observed.
///
/// The run gets a tick of its own. Writing through a world reuses the current tick rather than
/// advancing it, so without this every write in a flush would be stamped identically, and
/// "changed since the last run" could not be told from "unchanged". Closing that tick afterwards
/// makes anything written later strictly newer than what was just observed, also for a source
/// that was absent and is recorded at the current tick.
///
/// Returns whether there was a function to run.
pub(crate) fn run_effect<V, B: EffectBody<V, B>>(world: &mut World<V, B>, effect: Entity) -> (ran: bool)
    requires
        old(world).wf(),
    ensures
        final(world).wf(),
        old(world)@.evolves_to(final(world)@),
        ran == runnable(old(world)@, effect),
        effect_ran(old(world)@, effect, final(world)@),
{
    let ghost before = world@;
    let func = match world.effect(effect) {
        Some(Effect(func)) => func,
        None => {
            proof {
                lemma_evolves(before, before);
            }
            return false;
        },
    };
    world.increment_change_tick();
    let target: Option<Entity> = match world.effect_of(effect) {
        Some(EffectOf(target)) => Some(target),
        None => None,
    };
    let mut context = EffectContext::new(&mut *world, effect, target);
    proof {
        assert(context@ == opening(before, effect));
    }
    func.run(&mut context);
    let ghost end = context@;
    let reads = context.into_reads();
    proof {
        assert(body_ran(before, effect, end));
    }
    reconcile_dependencies(world, effect, reads);
    world.increment_change_tick();
    proof {
        lemma_effect_ran(before, effect, world@);
    }
    true
}

/// Runs `effect` only if one of its dependencies' `changed` ticks advanced past the tick it
/// observed on its last run. Returns whether the effect actually ran.
///
/// This is the "pull" half of the update flow.
pub(crate) fn maybe_run_effect<V, B: EffectBody<V, B>>(world: &mut World<V, B>, effect: Entity) -> (ran: bool)
    requires
        old(world).wf(),
    ensures
        final(world).wf(),
        old(world)@.evolves_to(final(world)@),
        ran == (old(world)@.advanced(effect) && runnable(old(world)@, effect)),
        !ran ==> final(world)@ == old(world)@,
        maybe_ran(old(world)@, effect, final(world)@),
{
    if !dependencies_advanced(world, effect) {
        proof {
            lemma_evolves(old(world)@, old(world)@);
        }
        return false;
    }
    run_effect(world, effect)
}

/// Whether re-checking `effect` in the world `before` may give the world `after`: it is run if one
/// of its dependencies changed, and left alone otherwise.
pub open spec fn maybe_ran<V, B: EffectBody<V, B>>(
    before: WorldState<V, B>,
    effect: Entity,
    after: WorldState<V, B>,
) -> bool {
    if before.advanced(effect) {
        effect_ran(before, effect, after)
    } else {
        after == before
    }
}

/// Whether spawning `func` as an effect for `target` in the world `before` may give the world
/// `after`: the effect is registered, and has run once.
pub open spec fn effect_spawned<V, B: EffectBody<V, B>>(
    before: WorldState<V, B>,
    func: B,
    target: Option<Entity>,
    after: WorldState<V, B>,
) -> bool {
    effect_ran(before.registered(func, target), before.fresh(), after)
}

/// Spawns a standalone effect entity and runs `func` once immediately to record its initial
/// dependencies.
///
/// The effect entity is never despawned automatically. To tie an effect's lifetime to another
/// entity, use [`spawn_effect_for`].
pub fn spawn_effect<V, B: EffectBody<V, B>>(world: &mut World<V, B>, func: B) -> (effect: Entity)
    requires
        old(world).wf(),
    ensures
        final(world).wf(),
        old(world)@.evolves_to(final(world)@),
        final(world)@.next > old(world)@.next,
        effect == old(world)@.fresh(),
        effect_spawned(old(world)@, func, None, final(world)@),
{
    proof {
        lemma_empty_bundle(old(world)@.registered(func, None), old(world)@.fresh());
    }
    spawn_effect_inner(world, None, Bundle::new(), func)
}

/// Spawns an effect entity related to `target` via [`EffectOf`], so it is despawned along with
/// `target`. Runs `func` once immediately.
///
/// If `target` is not alive there is nothing to relate to, and the effect is a standalone one.
pub fn spawn_effect_for<V, B: EffectBody<V, B>>(
    world: &mut World<V, B>,
    target: Entity,
    func: B,
) -> (effect: Entity)
    requires
        old(world).wf(),
    ensures
        final(world).wf(),
        old(world)@.evolves_to(final(world)@),
        final(world)@.next > old(world)@.next,
        effect == old(world)@.fresh(),
        effect_spawned(old(world)@, func, Some(target), final(world)@),
{
    proof {
        lemma_empty_bundle(old(world)@.registered(func, Some(target)), old(world)@.fresh());
    }
    spawn_effect_inner(world, Some(target), Bundle::new(), func)
}

/// Writing nothing changes nothing.
proof fn lemma_empty_bundle<V, B>(w: WorldState<V, B>, entity: Entity)
    ensures
        w.with_bundle(entity, Map::empty()) == w,
{
    if w.alive(entity) {
        let components = w.entities[entity].components;
        assert(components.union_prefer_right(stamped(Map::empty(), w.tick)) =~= components);
        assert(w.with_bundle(entity, Map::empty()).entities =~= w.entities);
    }
}

/// Spawns an effect entity, optionally related to `target`, with the components of `extra` inserted
/// **before** the first run. That matters for effects whose body reads state off their own entity.
pub(crate) fn spawn_effect_inner<V, B: EffectBody<V, B>>(
    world: &mut World<V, B>,
    target: Option<Entity>,
    extra: Bundle<V>,
    func: B,
) -> (effect: Entity)
    requires
        old(world).wf(),
        extra.wf(),
    ensures
        final(world).wf(),
        old(world)@.evolves_to(final(world)@),
        final(world)@.next > old(world)@.next,
        effect == old(world)@.fresh(),
        effect_ran(
            old(world)@.registered(func, target).with_bundle(effect, extra@),
            effect,
            final(world)@,
        ),
{
    let ghost before = world@;
    let effect = register_effect(world, target, func);
    let ghost registered = world@;
    world.insert_bundle(effect, extra);
    let ghost dressed = world@;
    run_effect(world, effect);
    proof {
        lemma_evolves_trans(before, registered, dressed);
        lemma_evolves_trans(before, dressed, world@);
    }
    effect
}

/// Spawns an effect entity, optionally related to `target`, without running it.
fn register_effect<V, B>(world: &mut World<V, B>, target: Option<Entity>, func: B) -> (effect: Entity)
    requires
        old(world).wf(),
    ensures
        final(world).wf(),
        old(world)@.evolves_to(final(world)@),
        effect == old(world)@.fresh(),
        final(world)@ == old(world)@.registered(func, target),
        final(world)@.next == old(world)@.next + 1,
{
    let ghost before = world@;
    let now = world.change_tick();
    let effect = world.allocate(Record::new());
    let index: u64 = world.dirty_effects_mut().next_index();
    match world.record_mut(effect) {
        Some(record) => {
            record.effect = Some(Effect(Arc::new(func)));
            record.dependencies = Some(Dependencies::default());
            record.index = Some(EffectIndex(index));
            record.born = now;
            record.recorded = now;
            record.tied = now;
        },
        None => {},
    }
    proof {
        assert(!before.alive(effect));
        assert(world@ =~~= before.enrolled(func));
        lemma_registered_wf(before, func, target);
    }
    match target {
        Some(target) => attach(world, effect, target),
        None => {},
    }
    effect
}

/// Ties the lifetime of the fresh `effect` to `target`, unless that is not alive.
fn attach<V, B>(world: &mut World<V, B>, effect: Entity, target: Entity)
    requires
        old(world).sound(),
        old(world)@.alive(effect),
    ensures
        final(world).sound(),
        final(world)@ == if old(world)@.alive(target) && target != effect {
            old(world)@.attached(effect, target)
        } else {
            old(world)@
        },
{
    let ghost before = world@;
    if target == effect || !world.contains(target) {
        return;
    }
    match world.record_mut(effect) {
        Some(record) => {
            record.effect_of = Some(EffectOf(target));
        },
        None => {},
    }
    let now = world.change_tick();
    match world.record_mut(target) {
        Some(record) => {
            record.tied = now;
            match &mut record.effects {
                Some(effects) => effects.add(effect),
                None => {
                    record.effects = Some(Effects::one(effect));
                },
            }
        },
        None => {},
    }
    proof {
        assert(world@ =~~= before.attached(effect, target));
    }
}

} // verus!
