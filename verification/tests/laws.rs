//! What holds of the library as a whole, on concrete values.
use reactive_signal::component::{Bundle, Component};
use reactive_signal::context::{EffectBody, EffectContext};
use reactive_signal::effect::{spawn_effect, spawn_effect_for};
use reactive_signal::flush::{poll_sources, run_effects, MAX_EFFECT_ITERATIONS};
use reactive_signal::graph::{
    Dependencies, DirtyEffects, Effect, EffectIndex, EffectOf, Effects, ResourceSubscribers,
    Subscribers,
};
use reactive_signal::id::{ComponentId, Entity, Source};
use reactive_signal::signal::{Signal, SignalValue};
use reactive_signal::tick::{Tick, MAX_CHANGE_AGE};
use reactive_signal::world::World;
use std::any::Any;
use std::sync::Arc;

/// What the worlds of these tests store.
struct Val(Box<dyn Any>);

/// The effects of these tests: any closure.
struct Body(Arc<dyn Fn(&mut EffectContext<'_, Val, Body>)>);

impl Body {
    fn new(run: impl Fn(&mut EffectContext<'_, Val, Body>) + 'static) -> Body {
        Body(Arc::new(run))
    }
}

impl EffectBody<Val, Body> for Body {
    fn run(&self, context: &mut EffectContext<'_, Val, Body>) {
        (self.0)(context)
    }
}

type TestWorld = World<Val, Body>;
type TestContext<'w> = EffectContext<'w, Val, Body>;

impl Component<Val> for Value {
    fn component_id() -> ComponentId {
        ComponentId(0)
    }

    fn into_stored(self) -> Val {
        Val(Box::new(self))
    }

    fn held_ref(value: &Val) -> Option<&Self> {
        value.0.downcast_ref()
    }

    fn held_mut(value: &mut Val) -> Option<&mut Self> {
        value.0.downcast_mut()
    }
}

impl Component<Val> for Other {
    fn component_id() -> ComponentId {
        ComponentId(1)
    }

    fn into_stored(self) -> Val {
        Val(Box::new(self))
    }

    fn held_ref(value: &Val) -> Option<&Self> {
        value.0.downcast_ref()
    }

    fn held_mut(value: &mut Val) -> Option<&mut Self> {
        value.0.downcast_mut()
    }
}

impl Component<Val> for SignalValue<u32> {
    fn component_id() -> ComponentId {
        ComponentId(2)
    }

    fn into_stored(self) -> Val {
        Val(Box::new(self))
    }

    fn held_ref(value: &Val) -> Option<&Self> {
        value.0.downcast_ref()
    }

    fn held_mut(value: &mut Val) -> Option<&mut Self> {
        value.0.downcast_mut()
    }
}

#[derive(Default, Clone, Debug, PartialEq)]
struct Value(u32);

#[derive(Default, Clone, Debug, PartialEq)]
struct Other(u32);

fn id<C: Component<Val>>() -> ComponentId {
    C::component_id()
}

/// An effect that tracks `signal`, and counts its runs on `runs`.
fn counter(signal: Signal<u32>, runs: Entity) -> Body {
    Body::new(move |ctx: &mut TestContext<'_>| {
        ctx.track(signal);
        count(ctx, runs);
    })
}

fn count(ctx: &mut TestContext<'_>, runs: Entity) {
    if let Some(mut slot) = ctx.world().get_mut::<Value>(runs) {
        slot.get_mut().0 += 1;
    }
}

fn runs_of(world: &TestWorld, runs: Entity) -> u32 {
    world.get::<Value>(runs).unwrap().0
}

#[test]
fn ticks_compare_by_age() {
    let now = Tick(10);
    assert!(Tick(5).is_newer_than(Tick(3), now));
    assert!(!Tick(3).is_newer_than(Tick(5), now));
    assert!(!Tick(5).is_newer_than(Tick(5), now));
    // Ticks start over after the last one.
    assert_eq!(Tick(u32::MAX).following(), Tick(0));
    assert_eq!(Tick(7).following(), Tick(8));
    assert!(Tick(1).is_newer_than(Tick(u32::MAX), Tick(2)));
    assert!(!Tick(u32::MAX).is_newer_than(Tick(1), Tick(2)));
    // Beyond the largest age ticks cannot be told apart.
    let now = Tick(4_000_000_000);
    assert_eq!(MAX_CHANGE_AGE, 3_258_167_296);
    assert!(!Tick(500_000_000).is_newer_than(Tick(400_000_000), now));
    assert!(Tick(900_000_000).is_newer_than(Tick(400_000_000), now));
    assert_eq!(Tick::default(), Tick(0));
}

#[test]
fn a_new_world_is_at_its_first_tick() {
    let mut world = TestWorld::new();
    assert_eq!(world.change_tick(), Tick(1));
    world.increment_change_tick();
    assert_eq!(world.change_tick(), Tick(2));
    assert_eq!(world.dirty_effects().last_poll(), Tick(0));
}

#[test]
fn components_are_read_back_as_written() {
    let mut world = TestWorld::new();
    let entity = world.spawn(Value(1));
    assert_eq!(world.get::<Value>(entity), Some(&Value(1)));
    assert!(world.get::<Other>(entity).is_none());
    assert!(world.insert(entity, Other(2)));
    assert!(world.insert(entity, Value(3)));
    assert_eq!(world.get::<Value>(entity), Some(&Value(3)));
    assert_eq!(world.get::<Other>(entity), Some(&Other(2)));
    world.get_mut::<Other>(entity).unwrap().set(Other(9));
    assert_eq!(world.get::<Other>(entity), Some(&Other(9)));
    assert_eq!(world.get_mut::<Other>(entity).unwrap().get(), &Other(9));

    world.insert_resource(Other(5));
    assert_eq!(world.get_resource::<Other>(), Some(&Other(5)));
    world.get_resource_mut::<Other>().unwrap().get_mut().0 = 6;
    assert_eq!(world.get_resource::<Other>(), Some(&Other(6)));
    assert!(world.get_resource::<Value>().is_none());
    assert!(world.get_resource_mut::<Value>().is_none());
}

#[test]
fn writes_stamp_the_current_tick_and_reads_do_not() {
    let mut world = TestWorld::new();
    let entity = world.spawn(Value(1));
    assert_eq!(world.component_changed(entity, id::<Value>()), Some(Tick(1)));
    world.increment_change_tick();
    assert_eq!(world.get_mut::<Value>(entity).unwrap().get(), &Value(1));
    assert_eq!(world.component_changed(entity, id::<Value>()), Some(Tick(1)));
    world.get_mut::<Value>(entity).unwrap().get_mut().0 = 2;
    assert_eq!(world.component_changed(entity, id::<Value>()), Some(Tick(2)));
    assert_eq!(world.component_changed(entity, id::<Other>()), None);
    assert_eq!(world.resource_changed(id::<Value>()), None);
    world.insert_resource(Value(1));
    assert_eq!(world.resource_changed(id::<Value>()), Some(Tick(2)));
}

#[test]
fn a_bundle_is_written_at_once() {
    let mut world = TestWorld::new();
    let entity = world.spawn(Value(1));
    world.increment_change_tick();
    let mut bundle: Bundle<Val> = Bundle::new();
    bundle.insert(id::<Value>(), Value(5).into_stored());
    bundle.insert(id::<Other>(), Other(6).into_stored());
    bundle.insert(id::<Value>(), Value(7).into_stored());
    assert!(world.insert_bundle(entity, bundle));
    assert_eq!(world.get::<Value>(entity), Some(&Value(7)));
    assert_eq!(world.get::<Other>(entity), Some(&Other(6)));
    assert_eq!(world.component_changed(entity, id::<Value>()), Some(Tick(2)));
    assert!(!world.insert_bundle(Entity(99), Bundle::new()));
}

#[test]
fn nothing_happens_to_entities_that_are_not_alive() {
    let mut world = TestWorld::new();
    let entity = world.spawn(Value(1));
    assert!(world.despawn(entity));
    assert!(!world.despawn(entity));
    assert!(!world.contains(entity));
    assert!(!world.insert(entity, Value(2)));
    assert!(world.get::<Value>(entity).is_none());
    assert!(world.get_mut::<Value>(entity).is_none());
    assert!(world.subscribers(entity).is_none());
    assert!(world.dependencies(entity).is_none());
    assert!(world.effect(entity).is_none());
    assert!(world.effect_of(entity).is_none());
    assert!(world.effects(entity).is_none());
    assert!(world.effect_index(entity).is_none());
    // Entities are never used twice.
    assert_ne!(world.spawn_empty(), entity);
}

#[test]
fn signals_are_handles() {
    let mut world = TestWorld::new();
    let signal = world.spawn_signal(4u32);
    let copy = signal;
    assert!(copy == signal);
    assert!(copy.clone() == Signal::from_entity(signal.entity()));
    assert!(world.spawn_signal(4u32) != signal);
    assert_eq!(world.signal(signal), Some(&4));
    world.signal_mut(signal).unwrap().set(5);
    assert_eq!(world.signal(signal), Some(&5));
    world.despawn(signal.entity());
    assert!(world.signal(signal).is_none());
    assert!(world.signal_mut(signal).is_none());
}

#[test]
fn a_world_of_signals_alone_stores_them_as_they_are() {
    struct Nothing;
    impl EffectBody<SignalValue<u8>, Nothing> for Nothing {
        fn run(&self, _: &mut EffectContext<'_, SignalValue<u8>, Nothing>) {}
    }
    let mut world: World<SignalValue<u8>, Nothing> = World::new();
    let signal = world.spawn_signal(7u8);
    assert_eq!(world.signal(signal), Some(&7));
    world.signal_mut(signal).unwrap().set(8);
    assert_eq!(world.signal(signal), Some(&8));
    assert!(world.run_effects());
}

#[test]
fn an_effect_that_is_queued_without_a_change_is_skipped() {
    let mut world = TestWorld::new();
    let signal = world.spawn_signal(1u32);
    let runs = world.spawn(Value::default());
    let effect = spawn_effect(&mut world, counter(signal, runs));
    world.run_effects();
    assert_eq!(runs_of(&world, runs), 1);
    world.mark_dirty(effect);
    world.mark_dirty(effect);
    assert!(!world.dirty_effects().is_empty());
    assert!(world.run_effects());
    assert!(world.dirty_effects().is_empty());
    assert_eq!(runs_of(&world, runs), 1, "the pull check finds nothing newer");
}

#[test]
fn an_effect_without_dependencies_always_counts_as_dirty() {
    let mut world = TestWorld::new();
    let runs = world.spawn(Value::default());
    let effect = spawn_effect(&mut world, Body::new(move |ctx: &mut TestContext<'_>| count(ctx, runs)));
    assert!(world.run_effects());
    assert_eq!(runs_of(&world, runs), 1, "nothing wakes it by itself");
    world.mark_dirty(effect);
    world.run_effects();
    assert_eq!(runs_of(&world, runs), 2);
}

#[test]
fn oscillating_effects_are_given_up_on() {
    let mut world = TestWorld::new();
    let a = world.spawn_signal(0u32);
    let b = world.spawn_signal(0u32);
    let feed = |from: Signal<u32>, to: Signal<u32>| {
        Body::new(move |ctx: &mut TestContext<'_>| {
            let value = ctx.track(from).unwrap_or_default() + 1;
            ctx.world().signal_mut(to).unwrap().set(value);
        })
    };
    spawn_effect(&mut world, feed(a, b));
    spawn_effect(&mut world, feed(b, a));
    assert_eq!(world.signal(b), Some(&1));
    assert_eq!(world.signal(a), Some(&2));

    assert_eq!(MAX_EFFECT_ITERATIONS, 128);
    assert!(!run_effects(&mut world), "the effects keep changing each other's values");
    assert_eq!(world.signal(b), Some(&257));
    assert_eq!(world.signal(a), Some(&258));

    // The remaining effects run on the next flush.
    assert!(!world.run_effects());
    assert_eq!(world.signal(a), Some(&514));
}

#[test]
fn a_chain_that_just_settles_is_done() {
    // Every pass moves the value on by one signal, against the order of registration.
    let mut world = TestWorld::new();
    let signals: Vec<Signal<u32>> = (0..5).map(|_| world.spawn_signal(0u32)).collect();
    for i in (0..4usize).rev() {
        let (from, to) = (signals[i], signals[i + 1]);
        spawn_effect(
            &mut world,
            Body::new(move |ctx: &mut TestContext<'_>| {
                let value = ctx.track(from).unwrap_or_default();
                ctx.world().signal_mut(to).unwrap().set(value);
            }),
        );
    }
    world.run_effects();
    world.signal_mut(signals[0]).unwrap().set(9);
    assert!(world.run_effects());
    assert_eq!(world.signal(signals[4]), Some(&9));
}

#[test]
fn dependencies_record_what_was_observed() {
    let mut world = TestWorld::new();
    let signal = world.spawn_signal(1u32);
    let missing = world.spawn_empty();
    let effect = spawn_effect(
        &mut world,
        Body::new(move |ctx: &mut TestContext<'_>| {
            ctx.track(signal);
            ctx.track_component::<Other>(missing);
            ctx.track(signal);
            ctx.track_source(Source::Resource { resource: ComponentId(77) });
        }),
    );
    let dependencies: Vec<_> = world.dependencies(effect).map(Dependencies::iter).unwrap();
    assert_eq!(dependencies.len(), 3, "each source is recorded once");
    assert_eq!(
        dependencies[0].source,
        Source::Component { entity: signal.entity(), component: id::<SignalValue<u32>>() }
    );
    assert_eq!(dependencies[0].observed, Tick(1), "the tick that the signal was spawned at");
    assert_eq!(
        dependencies[1].source,
        Source::Component { entity: missing, component: id::<Other>() }
    );
    assert_eq!(dependencies[1].observed, Tick(2), "the tick of the run, as there is no component");
    assert_eq!(dependencies[2].source, Source::Resource { resource: ComponentId(77) });
    assert_eq!(world.change_tick(), Tick(3), "the run's tick is closed");

    assert_eq!(
        world.subscribers(signal.entity()).unwrap().get(id::<SignalValue<u32>>()),
        &[effect][..]
    );
    assert!(world.subscribers(signal.entity()).unwrap().get(id::<Other>()).is_empty());
    assert_eq!(world.subscribers(missing).unwrap().get(id::<Other>()), &[effect][..]);
    assert_eq!(world.resource_subscribers().get(ComponentId(77)), &[effect][..]);
    assert!(world.resource_subscribers().get(ComponentId(78)).is_empty());
}

#[test]
fn a_poll_queues_subscribers_of_what_changed() {
    let mut world = TestWorld::new();
    let a = world.spawn_signal(1u32);
    let b = world.spawn_signal(1u32);
    let runs = world.spawn(Value::default());
    let on_a = spawn_effect(&mut world, counter(a, runs));
    let on_b = spawn_effect(&mut world, counter(b, runs));
    world.run_effects();
    assert!(world.dirty_effects().is_empty());

    let polled = world.change_tick();
    poll_sources(&mut world);
    assert!(world.dirty_effects().is_empty(), "nothing changed");
    assert_eq!(world.dirty_effects().last_poll(), polled);
    assert_eq!(world.change_tick(), polled.following());

    world.signal_mut(b).unwrap().set(2);
    poll_sources(&mut world);
    assert!(!world.dirty_effects().is_empty());
    world.run_effects();
    assert_eq!(runs_of(&world, runs), 3, "only the effect on `b` ran again");
    assert!(world.contains(on_a) && world.contains(on_b));
}

#[test]
fn removing_the_record_unsubscribes() {
    let mut world = TestWorld::new();
    let signal = world.spawn_signal(1u32);
    world.insert_resource(Other(1));
    let runs = world.spawn(Value::default());
    let effect = spawn_effect(
        &mut world,
        Body::new(move |ctx: &mut TestContext<'_>| {
            ctx.track(signal);
            ctx.track_resource::<Other>();
            count(ctx, runs);
        }),
    );
    assert!(world.remove_dependencies(effect));
    assert!(!world.remove_dependencies(effect));
    assert!(world.subscribers(signal.entity()).is_some_and(Subscribers::is_empty));
    assert!(world.resource_subscribers().get(id::<Other>()).is_empty());
    world.signal_mut(signal).unwrap().set(2);
    world.get_resource_mut::<Other>().unwrap().get_mut().0 = 2;
    world.run_effects();
    assert_eq!(runs_of(&world, runs), 1);
}

#[test]
fn effects_tied_to_effects_die_with_the_root() {
    let mut world = TestWorld::new();
    let signal = world.spawn_signal(1u32);
    let runs = world.spawn(Value::default());
    let root = world.spawn_empty();
    let outer = spawn_effect_for(&mut world, root, counter(signal, runs));
    let inner = spawn_effect_for(&mut world, outer, counter(signal, runs));
    let other = spawn_effect(&mut world, counter(signal, runs));
    assert_eq!(world.effects(root).unwrap().get(), &[outer][..]);
    assert_eq!(world.effect_of(inner).unwrap().0, outer);
    assert!(world.effects(other).is_none());

    world.despawn(inner);
    assert!(world.effects(outer).is_none(), "the list goes with its last effect");
    let inner = spawn_effect_for(&mut world, outer, counter(signal, runs));

    assert!(world.despawn(root));
    assert!(!world.contains(outer) && !world.contains(inner));
    assert!(world.contains(other) && world.contains(runs));
    assert_eq!(
        world.subscribers(signal.entity()).unwrap().get(id::<SignalValue<u32>>()),
        &[other][..]
    );
}

#[test]
fn an_effect_for_a_dead_entity_stands_alone() {
    let mut world = TestWorld::new();
    let target = world.spawn_empty();
    world.despawn(target);
    let seen = world.spawn(Value(7));
    let effect = spawn_effect_for(
        &mut world,
        target,
        Body::new(move |ctx: &mut TestContext<'_>| {
            let mark = if ctx.target().is_none() { 1 } else { 2 };
            ctx.world().insert(seen, Value(mark));
        }),
    );
    assert_eq!(runs_of(&world, seen), 1);
    assert!(world.contains(effect));
    assert!(world.effect_of(effect).is_none());
}

#[test]
fn an_effect_knows_itself_and_its_target() {
    let mut world = TestWorld::new();
    let target = world.spawn_empty();
    let seen = world.spawn_empty();
    let effect = spawn_effect_for(
        &mut world,
        target,
        Body::new(move |ctx: &mut TestContext<'_>| {
            let (me, of) = (ctx.effect().0, ctx.target().unwrap().0);
            ctx.world().insert(seen, Value(me as u32));
            ctx.world().insert(seen, Other(of as u32));
        }),
    );
    assert_eq!(world.get::<Value>(seen), Some(&Value(effect.0 as u32)));
    assert_eq!(world.get::<Other>(seen), Some(&Other(target.0 as u32)));
}

#[test]
fn an_effect_that_despawns_itself_is_forgotten() {
    let mut world = TestWorld::new();
    let signal = world.spawn_signal(1u32);
    let effect = spawn_effect(
        &mut world,
        Body::new(move |ctx: &mut TestContext<'_>| {
            let value = ctx.track(signal).unwrap_or_default();
            if value > 1 {
                let me = ctx.effect();
                ctx.world().despawn(me);
            }
        }),
    );
    assert!(world.contains(effect));
    world.signal_mut(signal).unwrap().set(2);
    assert!(world.run_effects());
    assert!(!world.contains(effect));
    let subscribers = world.subscribers(signal.entity()).unwrap();
    assert!(subscribers.is_empty());
    assert!(subscribers.get(id::<SignalValue<u32>>()).is_empty());
    world.signal_mut(signal).unwrap().set(3);
    poll_sources(&mut world);
    assert!(world.dirty_effects().is_empty());
    assert!(world.run_effects());
    assert!(world.subscribers(signal.entity()).unwrap().is_empty());
}

#[test]
fn an_effect_that_removes_its_own_record_is_not_subscribed() {
    let mut world = TestWorld::new();
    let signal = world.spawn_signal(1u32);
    let effect = spawn_effect(
        &mut world,
        Body::new(move |ctx: &mut TestContext<'_>| {
            ctx.track(signal);
            let me = ctx.effect();
            ctx.world().remove_dependencies(me);
        }),
    );
    assert!(world.contains(effect));
    assert!(world.dependencies(effect).is_none());
    assert!(world.subscribers(signal.entity()).is_none_or(Subscribers::is_empty));
}

#[test]
fn an_entity_can_be_tracked_before_it_is_spawned() {
    let mut world = TestWorld::new();
    let runs = world.spawn(Value::default());
    let expected = Entity(2);
    let effect = spawn_effect(
        &mut world,
        Body::new(move |ctx: &mut TestContext<'_>| {
            ctx.track_component::<Other>(expected);
            count(ctx, runs);
        }),
    );
    assert_eq!(runs_of(&world, runs), 1);
    assert!(world.subscribers(expected).is_none(), "it is not alive");
    // A run in between changes nothing.
    world.mark_dirty(effect);
    assert!(world.run_effects());
    assert_eq!(runs_of(&world, runs), 1);

    let spawned = world.spawn_empty();
    assert_eq!(spawned, expected);
    assert_eq!(world.subscribers(spawned).unwrap().get(id::<Other>()), &[effect]);
    assert!(world.run_effects());
    assert_eq!(runs_of(&world, runs), 1, "there is nothing to read yet");

    world.insert(spawned, Other(5));
    assert!(world.run_effects());
    assert_eq!(runs_of(&world, runs), 2);
    assert_eq!(world.subscribers(spawned).unwrap().get(id::<Other>()), &[effect]);

    world.get_mut::<Other>(spawned).unwrap().set(Other(6));
    assert!(world.run_effects());
    assert_eq!(runs_of(&world, runs), 3);

    world.despawn(effect);
    assert!(world.subscribers(spawned).unwrap().is_empty());
}

#[test]
fn a_source_that_dies_lets_go_of_its_subscribers() {
    let mut world = TestWorld::new();
    let signal = world.spawn_signal(1u32);
    let other = world.spawn_signal(1u32);
    let runs = world.spawn(Value::default());
    let effect = spawn_effect(
        &mut world,
        Body::new(move |ctx: &mut TestContext<'_>| {
            ctx.track(signal);
            ctx.track(other);
            count(ctx, runs);
        }),
    );
    assert!(world.despawn(signal.entity()));
    assert!(world.subscribers(signal.entity()).is_none());
    assert!(world.run_effects());
    assert_eq!(runs_of(&world, runs), 1, "what is gone has not changed");
    // It is tracked as long as it is read, and can be forgotten after that.
    world.signal_mut(other).unwrap().set(2);
    assert!(world.run_effects());
    assert_eq!(runs_of(&world, runs), 2);
    assert_eq!(world.dependencies(effect).unwrap().iter().len(), 2);
    assert!(world.despawn(effect));
    assert!(world.subscribers(signal.entity()).is_none());
    assert!(world.subscribers(other.entity()).unwrap().is_empty());
}

#[test]
fn the_components_of_effects_are_sources() {
    let mut world = TestWorld::new();
    let signal = world.spawn_signal(1u32);
    let runs = world.spawn(Value::default());
    let seen = world.spawn(Other::default());
    let expected = Entity(4);
    spawn_effect(
        &mut world,
        Body::new(move |ctx: &mut TestContext<'_>| {
            let index = ctx.track_effect_index(expected);
            let known = ctx.track_effect(expected).is_some();
            assert_eq!(index.is_some(), known);
            ctx.world().insert(seen, Other(index.map_or(99, |index| index.0 as u32)));
            count(ctx, runs);
        }),
    );
    assert_eq!(runs_of(&world, runs), 1);
    assert_eq!(world.get::<Other>(seen), Some(&Other(99)));

    // Once there is an effect, it is seen.
    let tick = world.change_tick();
    let effect = spawn_effect_for(&mut world, runs, counter(signal, Entity(77)));
    assert_eq!(effect, expected);
    assert_eq!(world.component_changed(effect, EffectIndex::component_id()), Some(tick));
    assert_eq!(world.component_changed(effect, Effect::<Body>::component_id()), Some(tick));
    assert_eq!(world.component_changed(effect, EffectOf::component_id()), Some(tick));
    assert_eq!(world.component_changed(runs, Effects::component_id()), Some(tick));
    assert_eq!(world.component_changed(runs, EffectIndex::component_id()), None);
    assert!(world.run_effects());
    assert_eq!(runs_of(&world, runs), 2);
    assert_eq!(world.get::<Other>(seen), Some(&Other(1)));

    // It stays as it is, however often it runs.
    world.signal_mut(signal).unwrap().set(2);
    assert!(world.run_effects());
    assert_eq!(runs_of(&world, runs), 2);
    assert_eq!(world.component_changed(effect, EffectIndex::component_id()), Some(tick));
    assert_ne!(world.component_changed(effect, Dependencies::component_id()), Some(tick));
}

/// An effect that tracks a component by its identifier, and counts its runs on `runs`.
fn watcher(entity: Entity, component: ComponentId, runs: Entity) -> Body {
    Body::new(move |ctx: &mut TestContext<'_>| {
        ctx.track_source(Source::Component { entity, component });
        count(ctx, runs);
    })
}

#[test]
fn records_and_lists_can_be_watched() {
    let mut world = TestWorld::new();
    let signal = world.spawn_signal(1u32);
    let target = world.spawn(Other::default());
    let (ties, edges, lists) = (
        world.spawn(Value::default()),
        world.spawn(Value::default()),
        world.spawn(Value::default()),
    );
    let nobody = Entity(1000);
    let effect = spawn_effect(&mut world, counter(signal, nobody));
    spawn_effect(&mut world, watcher(target, Effects::component_id(), ties));
    spawn_effect(&mut world, watcher(effect, Dependencies::component_id(), edges));
    spawn_effect(&mut world, watcher(signal.entity(), Subscribers::component_id(), lists));
    assert!(world.run_effects());
    let counts = |world: &TestWorld| [ties, edges, lists].map(|runs| runs_of(world, runs));
    assert_eq!(counts(&world), [1, 1, 1]);

    // The record is written on each run; what it says stays the same.
    world.signal_mut(signal).unwrap().set(2);
    assert!(world.run_effects());
    assert_eq!(counts(&world), [1, 2, 1]);

    // One more effect is tied to the target, and subscribed to the signal.
    let other = spawn_effect_for(&mut world, target, counter(signal, nobody));
    assert!(world.run_effects());
    assert_eq!(counts(&world), [2, 2, 2]);

    // When it dies, both forget it.
    world.despawn(other);
    let tick = world.change_tick();
    assert_eq!(world.component_changed(target, Effects::component_id()), None);
    assert_eq!(world.component_changed(signal.entity(), Subscribers::component_id()), Some(tick));
    assert!(world.run_effects());
    assert_eq!(counts(&world), [2, 2, 3]);
}

#[test]
fn an_effect_may_watch_its_own_record() {
    let mut world = TestWorld::new();
    let signal = world.spawn_signal(1u32);
    let runs = world.spawn(Value::default());
    spawn_effect(
        &mut world,
        Body::new(move |ctx: &mut TestContext<'_>| {
            let me = ctx.effect();
            ctx.track_source(Source::Component {
                entity: me,
                component: Dependencies::component_id(),
            });
            ctx.track(signal);
            count(ctx, runs);
        }),
    );
    assert!(world.run_effects());
    assert_eq!(runs_of(&world, runs), 1);
    world.signal_mut(signal).unwrap().set(2);
    assert!(world.run_effects());
    assert_eq!(runs_of(&world, runs), 2);
}

#[test]
fn what_is_not_alive_is_not_run() {
    let mut world = TestWorld::new();
    let signal = world.spawn_signal(1u32);
    let runs = world.spawn(Value::default());
    let effect = spawn_effect(&mut world, counter(signal, runs));
    world.despawn(effect);
    world.mark_dirty(effect);
    let tick = world.change_tick();
    assert!(world.run_effects());
    assert_eq!(runs_of(&world, runs), 1);
    // One tick for each of two polls, and none for a run.
    assert_eq!(world.change_tick(), tick.following().following());
}

#[test]
fn later_effects_have_larger_indexes() {
    let mut world = TestWorld::new();
    let signal = world.spawn_signal(1u32);
    let runs = world.spawn(Value::default());
    let first = spawn_effect(&mut world, counter(signal, runs));
    let index = world.effect_index(first).unwrap();
    let second = spawn_effect(&mut world, counter(signal, runs));
    assert!(index < world.effect_index(second).unwrap());
    world.despawn(second);
    world.signal_mut(signal).unwrap().set(2);
    world.run_effects();
    let third = spawn_effect(&mut world, counter(signal, runs));
    world.signal_mut(signal).unwrap().set(3);
    world.run_effects();
    assert_eq!(world.effect_index(first), Some(index));
    assert!(index < world.effect_index(third).unwrap());
    assert_eq!(world.effect_index(second), None);
}

/// An effect that tracks `signals`, and writes down on `log` that it ran.
fn logger(signals: Vec<Signal<u32>>, name: u32, log: Entity) -> Body {
    Body::new(move |ctx: &mut TestContext<'_>| {
        for signal in &signals {
            ctx.track(*signal);
        }
        if let Some(mut slot) = ctx.world().get_mut::<Value>(log) {
            slot.get_mut().0 = slot.value.0 * 10 + name;
        }
    })
}

#[test]
fn each_stale_effect_runs_once_in_the_order_of_registration() {
    let mut world = TestWorld::new();
    let a = world.spawn_signal(1u32);
    let b = world.spawn_signal(1u32);
    let log = world.spawn(Value::default());
    spawn_effect(&mut world, logger(vec![b, a], 1, log));
    let second = spawn_effect(&mut world, logger(vec![a], 2, log));
    spawn_effect(&mut world, logger(vec![a, b], 3, log));
    assert_eq!(world.get::<Value>(log), Some(&Value(123)));
    world.get_mut::<Value>(log).unwrap().set(Value(0));

    world.signal_mut(b).unwrap().set(2);
    world.mark_dirty(second);
    assert!(world.run_effects());
    assert_eq!(world.get::<Value>(log), Some(&Value(13)));

    world.get_mut::<Value>(log).unwrap().set(Value(0));
    world.signal_mut(b).unwrap().set(3);
    world.signal_mut(a).unwrap().set(3);
    assert!(world.run_effects());
    assert_eq!(world.get::<Value>(log), Some(&Value(123)));
}

#[test]
fn a_flush_leaves_no_effect_stale() {
    let mut world = TestWorld::new();
    let a = world.spawn_signal(1u32);
    let b = world.spawn_signal(0u32);
    let c = world.spawn_signal(0u32);
    // Registered last to first, so that changes have to cascade.
    let last = spawn_effect(
        &mut world,
        Body::new(move |ctx: &mut TestContext<'_>| {
            let value = ctx.track(b).unwrap_or_default();
            ctx.world().signal_mut(c).unwrap().set(value + 1);
        }),
    );
    let first = spawn_effect(
        &mut world,
        Body::new(move |ctx: &mut TestContext<'_>| {
            let value = ctx.track(a).unwrap_or_default();
            ctx.world().signal_mut(b).unwrap().set(value + 1);
        }),
    );
    assert!(world.run_effects());
    world.signal_mut(a).unwrap().set(5);
    assert!(world.run_effects());
    assert_eq!(world.signal(b), Some(&6));
    assert_eq!(world.signal(c), Some(&7));
    for (effect, source) in [(first, a), (last, b)] {
        let observed = world.dependencies(effect).unwrap().iter()[0].observed;
        let changed = world.component_changed(source.entity(), id::<SignalValue<u32>>());
        assert_eq!(changed, Some(observed));
    }
    poll_sources(&mut world);
    assert!(world.dirty_effects().is_empty());
}

#[test]
fn effects_spawned_by_effects_take_part() {
    let mut world = TestWorld::new();
    let signal = world.spawn_signal(1u32);
    let runs = world.spawn(Value::default());
    spawn_effect(
        &mut world,
        Body::new(move |ctx: &mut TestContext<'_>| {
            spawn_effect(ctx.world(), counter(signal, runs));
        }),
    );
    assert_eq!(runs_of(&world, runs), 1);
    world.signal_mut(signal).unwrap().set(2);
    world.run_effects();
    assert_eq!(runs_of(&world, runs), 2);
}

#[test]
fn queues_and_lists_start_empty() {
    let mut dirty = DirtyEffects::default();
    assert!(dirty.is_empty());
    dirty.push(Entity(3));
    dirty.push(Entity(3));
    assert!(!dirty.is_empty());
    assert!(Subscribers::default().is_empty());
    assert!(ResourceSubscribers::default().get(ComponentId(0)).is_empty());
    assert!(Dependencies::default().iter().is_empty());
}
