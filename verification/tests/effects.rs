//! How effects run, and what wakes them.
use reactive_signal::component::Component;
use reactive_signal::context::{EffectBody, EffectContext};
use reactive_signal::effect::{spawn_effect, spawn_effect_for};
use reactive_signal::graph::Subscribers;
use reactive_signal::id::{ComponentId, Entity};
use reactive_signal::signal::{Signal, SignalValue};
use reactive_signal::world::World;
use std::any::Any;
use std::sync::Arc;

/// What the worlds of these tests store.
struct Val(Box<dyn Any>);

/// The effects of these tests: any closure.
struct Body(Arc<dyn Fn(&mut EffectContext<'_, Val, Body>)>);

impl Body {
    fn new(run: impl Fn(&mut EffectContext<'_, Val, Body>) + 'static) -> Body {
        Body(Arc::new(run))
    }
}

impl EffectBody<Val, Body> for Body {
    fn run(&self, context: &mut EffectContext<'_, Val, Body>) {
        (self.0)(context)
    }
}

type TestWorld = World<Val, Body>;
type TestContext<'w> = EffectContext<'w, Val, Body>;

impl Component<Val> for Value {
    fn component_id() -> ComponentId {
        ComponentId(0)
    }

    fn into_stored(self) -> Val {
        Val(Box::new(self))
    }

    fn held_ref(value: &Val) -> Option<&Self> {
        value.0.downcast_ref()
    }

    fn held_mut(value: &mut Val) -> Option<&mut Self> {
        value.0.downcast_mut()
    }
}

impl Component<Val> for Health {
    fn component_id() -> ComponentId {
        ComponentId(1)
    }

    fn into_stored(self) -> Val {
        Val(Box::new(self))
    }

    fn held_ref(value: &Val) -> Option<&Self> {
        value.0.downcast_ref()
    }

    fn held_mut(value: &mut Val) -> Option<&mut Self> {
        value.0.downcast_mut()
    }
}

impl Component<Val> for RunOrder {
    fn component_id() -> ComponentId {
        ComponentId(2)
    }

    fn into_stored(self) -> Val {
        Val(Box::new(self))
    }

    fn held_ref(value: &Val) -> Option<&Self> {
        value.0.downcast_ref()
    }

    fn held_mut(value: &mut Val) -> Option<&mut Self> {
        value.0.downcast_mut()
    }
}

impl Component<Val> for Scale {
    fn component_id() -> ComponentId {
        ComponentId(3)
    }

    fn into_stored(self) -> Val {
        Val(Box::new(self))
    }

    fn held_ref(value: &Val) -> Option<&Self> {
        value.0.downcast_ref()
    }

    fn held_mut(value: &mut Val) -> Option<&mut Self> {
        value.0.downcast_mut()
    }
}

impl Component<Val> for SignalValue<u32> {
    fn component_id() -> ComponentId {
        ComponentId(4)
    }

    fn into_stored(self) -> Val {
        Val(Box::new(self))
    }

    fn held_ref(value: &Val) -> Option<&Self> {
        value.0.downcast_ref()
    }

    fn held_mut(value: &mut Val) -> Option<&mut Self> {
        value.0.downcast_mut()
    }
}

impl Component<Val> for SignalValue<bool> {
    fn component_id() -> ComponentId {
        ComponentId(5)
    }

    fn into_stored(self) -> Val {
        Val(Box::new(self))
    }

    fn held_ref(value: &Val) -> Option<&Self> {
        value.0.downcast_ref()
    }

    fn held_mut(value: &mut Val) -> Option<&mut Self> {
        value.0.downcast_mut()
    }
}

#[derive(Default, Clone)]
struct Value(u32);

#[derive(Default, Clone)]
struct Health {
    current: u32,
    max: u32,
}

#[derive(Default)]
struct RunOrder(Vec<u64>);

#[derive(Default, Clone)]
struct Scale(u32);

/// A value that is kept at twice another.
#[test]
fn a_component_is_kept_at_twice_a_signal() {
    let mut world = TestWorld::new();
    let count = world.spawn_signal(1u32);
    let target = world.spawn(Value::default());

    spawn_effect(
        &mut world,
        Body::new(move |ctx: &mut TestContext<'_>| {
            let value = ctx.track(count).unwrap_or_default();
            if let Some(mut doubled) = ctx.world().get_mut::<Value>(target) {
                doubled.get_mut().0 = value * 2;
            }
        }),
    );
    assert_eq!(world.get::<Value>(target).unwrap().0, 2);

    world.signal_mut(count).unwrap().set(5);
    world.run_effects();
    assert_eq!(world.get::<Value>(target).unwrap().0, 10);
}

fn write_to(target: Entity, signal: Signal<u32>) -> Body {
    Body::new(move |ctx: &mut TestContext<'_>| {
        let value = ctx.track(signal).unwrap_or_default();
        if let Some(mut slot) = ctx.world().get_mut::<Value>(target) {
            slot.get_mut().0 = value;
        }
    })
}

#[test]
fn effect_runs_on_spawn_and_on_set() {
    let mut world = TestWorld::new();
    let signal = world.spawn_signal(1u32);
    let target = world.spawn(Value::default());

    spawn_effect(&mut world, write_to(target, signal));
    assert_eq!(world.get::<Value>(target).unwrap().0, 1);

    world.signal_mut(signal).unwrap().set(7);
    assert_eq!(
        world.get::<Value>(target).unwrap().0,
        1,
        "setting alone does not run effects"
    );

    world.run_effects();
    assert_eq!(world.get::<Value>(target).unwrap().0, 7);
}

#[test]
fn plain_component_mutation_is_a_reactive_source() {
    let mut world = TestWorld::new();
    let source = world.spawn(Health { current: 3, max: 10 });
    let target = world.spawn(Value::default());

    spawn_effect(
        &mut world,
        Body::new(move |ctx: &mut TestContext<'_>| {
            let current = ctx.track_component::<Health>(source).map_or(0, |h| h.current);
            if let Some(mut slot) = ctx.world().get_mut::<Value>(target) {
                slot.get_mut().0 = current;
            }
        }),
    );
    assert_eq!(world.get::<Value>(target).unwrap().0, 3);

    // Mutated the way any ordinary code would: no signal, no handle.
    world.get_mut::<Health>(source).unwrap().get_mut().current = 9;
    world.run_effects();
    assert_eq!(world.get::<Value>(target).unwrap().0, 9);
}

#[test]
fn untracked_source_does_not_re_run_effect() {
    let mut world = TestWorld::new();
    let read = world.spawn_signal(1u32);
    let unread = world.spawn_signal(100u32);
    let target = world.spawn(Value::default());

    spawn_effect(&mut world, write_to(target, read));

    world.signal_mut(unread).unwrap().set(500);
    world.run_effects();
    assert_eq!(world.get::<Value>(target).unwrap().0, 1);
}

#[test]
fn inspecting_a_signal_without_writing_does_not_wake_subscribers() {
    let mut world = TestWorld::new();
    let signal = world.spawn_signal(1u32);
    let runs = world.spawn(Value::default());

    spawn_effect(
        &mut world,
        Body::new(move |ctx: &mut TestContext<'_>| {
            ctx.track(signal);
            if let Some(mut slot) = ctx.world().get_mut::<Value>(runs) {
                slot.get_mut().0 += 1;
            }
        }),
    );
    assert_eq!(world.get::<Value>(runs).unwrap().0, 1);

    // Take the guard and only read through it. It marks changed on a *write*, so this must not
    // wake the effect.
    let observed = *world.signal_mut(signal).unwrap().get();
    assert_eq!(observed, 1);

    world.run_effects();
    assert_eq!(
        world.get::<Value>(runs).unwrap().0,
        1,
        "a read-only `signal_mut` guard must not mark the signal changed"
    );

    // ...but writing through it does.
    world.signal_mut(signal).unwrap().set(2);
    world.run_effects();
    assert_eq!(world.get::<Value>(runs).unwrap().0, 2);
}

#[test]
fn dependencies_are_re_recorded_each_run() {
    let mut world = TestWorld::new();
    let toggle = world.spawn_signal(false);
    let a = world.spawn_signal(1u32);
    let b = world.spawn_signal(2u32);
    let target = world.spawn(Value::default());

    spawn_effect(
        &mut world,
        Body::new(move |ctx: &mut TestContext<'_>| {
            let use_b = ctx.track(toggle).unwrap_or_default();
            let value = if use_b {
                ctx.track(b).unwrap_or_default()
            } else {
                ctx.track(a).unwrap_or_default()
            };
            if let Some(mut slot) = ctx.world().get_mut::<Value>(target) {
                slot.get_mut().0 = value;
            }
        }),
    );
    assert_eq!(world.get::<Value>(target).unwrap().0, 1);

    world.signal_mut(b).unwrap().set(20);
    world.run_effects();
    assert_eq!(world.get::<Value>(target).unwrap().0, 1, "`b` is not tracked yet");

    world.signal_mut(toggle).unwrap().set(true);
    world.run_effects();
    assert_eq!(world.get::<Value>(target).unwrap().0, 20);

    world.signal_mut(a).unwrap().set(10);
    world.run_effects();
    assert_eq!(world.get::<Value>(target).unwrap().0, 20, "`a` is no longer tracked");

    world.signal_mut(b).unwrap().set(30);
    world.run_effects();
    assert_eq!(world.get::<Value>(target).unwrap().0, 30);

    assert!(
        world.subscribers(a.entity()).is_none_or(Subscribers::is_empty),
        "`a` should have been unsubscribed once it stopped being read"
    );
}

#[test]
fn effects_cascade_within_one_flush() {
    let mut world = TestWorld::new();
    let source = world.spawn_signal(1u32);
    let doubled = world.spawn_signal(0u32);
    let target = world.spawn(Value::default());

    spawn_effect(
        &mut world,
        Body::new(move |ctx: &mut TestContext<'_>| {
            let value = ctx.track(source).unwrap_or_default() * 2;
            ctx.world().signal_mut(doubled).unwrap().set(value);
        }),
    );
    spawn_effect(&mut world, write_to(target, doubled));

    world.signal_mut(source).unwrap().set(5);
    world.run_effects();
    assert_eq!(world.get::<Value>(target).unwrap().0, 10);
}

/// The cycle case: an effect that both reads and writes the same component. The ticks observed
/// after the run must make this settle rather than spin.
#[test]
fn effect_writing_a_component_it_reads_does_not_re_trigger_itself() {
    let mut world = TestWorld::new();
    let source = world.spawn(Health { current: 0, max: 10 });
    let runs = world.spawn(Value::default());

    spawn_effect(
        &mut world,
        Body::new(move |ctx: &mut TestContext<'_>| {
            // Read and write the very same component.
            let max = ctx.track_component::<Health>(source).map_or(0, |h| h.max);
            if let Some(mut health) = ctx.world().get_mut::<Health>(source) {
                health.get_mut().current = max;
            }
            if let Some(mut slot) = ctx.world().get_mut::<Value>(runs) {
                slot.get_mut().0 += 1;
            }
        }),
    );
    assert_eq!(world.get::<Value>(runs).unwrap().0, 1);
    assert_eq!(world.get::<Health>(source).unwrap().current, 10);

    // A flush with no external change must not re-run it at all.
    world.run_effects();
    assert_eq!(
        world.get::<Value>(runs).unwrap().0,
        1,
        "the effect's own write must not re-trigger it"
    );

    // An external change still re-runs it exactly once.
    world.get_mut::<Health>(source).unwrap().get_mut().max = 20;
    world.run_effects();
    assert_eq!(world.get::<Value>(runs).unwrap().0, 2);
    assert_eq!(world.get::<Health>(source).unwrap().current, 20);

    world.run_effects();
    assert_eq!(world.get::<Value>(runs).unwrap().0, 2, "should have settled again");
}

/// A chain through a second effect must settle, and derivations must still propagate.
#[test]
fn chained_effects_settle_and_still_propagate() {
    let mut world = TestWorld::new();
    let a = world.spawn(Value(1));
    let b = world.spawn(Value(0));
    let runs = world.spawn(Value::default());

    // b = a * 2
    spawn_effect(
        &mut world,
        Body::new(move |ctx: &mut TestContext<'_>| {
            let value = ctx.track_component::<Value>(a).map_or(0, |v| v.0);
            if let Some(mut slot) = ctx.world().get_mut::<Value>(b) {
                slot.get_mut().0 = value * 2;
            }
            if let Some(mut slot) = ctx.world().get_mut::<Value>(runs) {
                slot.get_mut().0 += 1;
            }
        }),
    );
    assert_eq!(world.get::<Value>(b).unwrap().0, 2);

    world.get_mut::<Value>(a).unwrap().get_mut().0 = 5;
    world.run_effects();
    assert_eq!(
        world.get::<Value>(b).unwrap().0,
        10,
        "an effect's write is visible to downstream effects"
    );
    assert_eq!(world.get::<Value>(runs).unwrap().0, 2);

    world.run_effects();
    assert_eq!(
        world.get::<Value>(runs).unwrap().0,
        2,
        "no spurious re-runs once settled"
    );
}

#[test]
fn no_op_flush_runs_nothing() {
    let mut world = TestWorld::new();
    let signal = world.spawn_signal(1u32);
    let runs = world.spawn(Value::default());

    spawn_effect(
        &mut world,
        Body::new(move |ctx: &mut TestContext<'_>| {
            ctx.track(signal);
            if let Some(mut slot) = ctx.world().get_mut::<Value>(runs) {
                slot.get_mut().0 += 1;
            }
        }),
    );
    assert_eq!(world.get::<Value>(runs).unwrap().0, 1);

    for _ in 0..5 {
        world.run_effects();
    }
    assert_eq!(
        world.get::<Value>(runs).unwrap().0,
        1,
        "flushing without any change must not re-run effects"
    );
}

#[test]
fn despawning_target_despawns_effect_and_unsubscribes() {
    let mut world = TestWorld::new();
    let signal = world.spawn_signal(1u32);
    let target = world.spawn(Value::default());

    let effect = spawn_effect_for(&mut world, target, write_to(target, signal));
    assert!(!world.subscribers(signal.entity()).unwrap().is_empty());

    world.despawn(target);

    assert!(!world.contains(effect), "effect should despawn");
    assert!(
        world.subscribers(signal.entity()).unwrap().is_empty(),
        "despawned effect should be unsubscribed"
    );

    world.signal_mut(signal).unwrap().set(2);
    world.run_effects();
}

#[test]
fn effects_are_deduplicated_within_a_flush() {
    let mut world = TestWorld::new();
    let a = world.spawn_signal(1u32);
    let b = world.spawn_signal(1u32);
    let runs = world.spawn(Value::default());

    spawn_effect(
        &mut world,
        Body::new(move |ctx: &mut TestContext<'_>| {
            ctx.track(a);
            ctx.track(b);
            if let Some(mut slot) = ctx.world().get_mut::<Value>(runs) {
                slot.get_mut().0 += 1;
            }
        }),
    );
    assert_eq!(world.get::<Value>(runs).unwrap().0, 1);

    world.signal_mut(a).unwrap().set(2);
    world.signal_mut(b).unwrap().set(2);
    world.run_effects();

    assert_eq!(
        world.get::<Value>(runs).unwrap().0,
        2,
        "two sets before one flush should produce a single re-run"
    );
}

/// Effects run in registration order, not in whatever order they were marked dirty.
#[test]
fn effects_run_in_registration_order() {
    let mut world = TestWorld::new();
    world.insert_resource(RunOrder::default());
    let signal = world.spawn_signal(0u32);

    let record = |tag: u64| {
        Body::new(move |ctx: &mut TestContext<'_>| {
            ctx.track(signal);
            ctx.world().get_resource_mut::<RunOrder>().unwrap().get_mut().0.push(tag);
        })
    };
    let first = spawn_effect(&mut world, record(1));
    let second = spawn_effect(&mut world, record(2));
    assert!(world.effect_index(first).unwrap() < world.effect_index(second).unwrap());

    world.get_resource_mut::<RunOrder>().unwrap().get_mut().0.clear();

    // Queue them in the *reverse* of registration order before flushing.
    world.signal_mut(signal).unwrap().set(1);
    world.mark_dirty(second);
    world.mark_dirty(first);
    world.run_effects();

    assert_eq!(
        world.get_resource::<RunOrder>().unwrap().0,
        vec![1, 2],
        "the flush must sort by EffectIndex, not by queue order"
    );
}

/// A dependency is recorded even while its source is absent, so inserting the source later wakes
/// the effect.
#[test]
fn a_source_inserted_later_wakes_the_effect() {
    let mut world = TestWorld::new();
    let source = world.spawn_empty();
    let target = world.spawn(Value::default());

    spawn_effect(
        &mut world,
        Body::new(move |ctx: &mut TestContext<'_>| {
            let current = ctx.track_component::<Health>(source).map_or(0, |h| h.current);
            if let Some(mut slot) = ctx.world().get_mut::<Value>(target) {
                slot.get_mut().0 = current;
            }
        }),
    );
    assert_eq!(world.get::<Value>(target).unwrap().0, 0);

    world.insert(source, Health { current: 5, max: 10 });
    world.run_effects();
    assert_eq!(world.get::<Value>(target).unwrap().0, 5);
}

#[test]
fn resources_are_reactive_sources() {
    let mut world = TestWorld::new();
    world.insert_resource(Scale(2));
    let target = world.spawn(Value::default());

    spawn_effect(
        &mut world,
        Body::new(move |ctx: &mut TestContext<'_>| {
            let scale = ctx.track_resource::<Scale>().unwrap_or_default();
            if let Some(mut slot) = ctx.world().get_mut::<Value>(target) {
                slot.get_mut().0 = scale.0 * 10;
            }
        }),
    );
    assert_eq!(world.get::<Value>(target).unwrap().0, 20);

    world.get_resource_mut::<Scale>().unwrap().get_mut().0 = 7;
    world.run_effects();
    assert_eq!(world.get::<Value>(target).unwrap().0, 70);

    // An unrelated flush must not re-run it.
    world.run_effects();
    assert_eq!(world.get::<Value>(target).unwrap().0, 70);
}
