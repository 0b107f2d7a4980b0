//! Reactive fields, built by hand.
use reactive_signal::component::Component;
use reactive_signal::context::{BodyFrom, EffectBody, EffectContext};
use reactive_signal::field_effect::{
    DedupedFieldBody, DedupedFieldEffect, FieldBody, FieldEffect, FieldSetter, LastValue, SetWith,
};
use reactive_signal::id::{ComponentId, Entity, Source};
use reactive_signal::signal::SignalValue;
use reactive_signal::source::{
    On, OnResource, Own, ReactiveSource, ReactiveSources, SourceTypes, SourcesTypes,
};
use reactive_signal::template::{
    BoxedEffectRegistration, EffectRegistration, QueuedEffects, ScopedEntities, ScopedEntityIndex,
    Template, TemplateContext, TemplateError,
};
use reactive_signal::tick::Tick;
use reactive_signal::world::World;
use std::any::Any;
use std::sync::Arc;

/// What the worlds of these tests store.
struct Val(Box<dyn Any>);

/// The effects of these tests: any closure.
struct Body(Arc<dyn Fn(&mut EffectContext<'_, Val, Body>)>);

impl Body {
    fn new(run: impl Fn(&mut EffectContext<'_, Val, Body>) + 'static) -> Body {
        Body(Arc::new(run))
    }
}

impl EffectBody<Val, Body> for Body {
    fn run(&self, context: &mut EffectContext<'_, Val, Body>) {
        (self.0)(context)
    }
}

type TestWorld = World<Val, Body>;
type TestContext<'w> = EffectContext<'w, Val, Body>;

impl Component<Val> for Health {
    fn component_id() -> ComponentId {
        ComponentId(0)
    }

    fn into_stored(self) -> Val {
        Val(Box::new(self))
    }

    fn held_ref(value: &Val) -> Option<&Self> {
        value.0.downcast_ref()
    }

    fn held_mut(value: &mut Val) -> Option<&mut Self> {
        value.0.downcast_mut()
    }
}

impl Component<Val> for Label {
    fn component_id() -> ComponentId {
        ComponentId(1)
    }

    fn into_stored(self) -> Val {
        Val(Box::new(self))
    }

    fn held_ref(value: &Val) -> Option<&Self> {
        value.0.downcast_ref()
    }

    fn held_mut(value: &mut Val) -> Option<&mut Self> {
        value.0.downcast_mut()
    }
}

impl Component<Val> for Scale {
    fn component_id() -> ComponentId {
        ComponentId(2)
    }

    fn into_stored(self) -> Val {
        Val(Box::new(self))
    }

    fn held_ref(value: &Val) -> Option<&Self> {
        value.0.downcast_ref()
    }

    fn held_mut(value: &mut Val) -> Option<&mut Self> {
        value.0.downcast_mut()
    }
}

impl Component<Val> for SignalValue<u32> {
    fn component_id() -> ComponentId {
        ComponentId(3)
    }

    fn into_stored(self) -> Val {
        Val(Box::new(self))
    }

    fn held_ref(value: &Val) -> Option<&Self> {
        value.0.downcast_ref()
    }

    fn held_mut(value: &mut Val) -> Option<&mut Self> {
        value.0.downcast_mut()
    }
}

impl Component<Val> for LastValue<u32> {
    fn component_id() -> ComponentId {
        ComponentId(4)
    }

    fn into_stored(self) -> Val {
        Val(Box::new(self))
    }

    fn held_ref(value: &Val) -> Option<&Self> {
        value.0.downcast_ref()
    }

    fn held_mut(value: &mut Val) -> Option<&mut Self> {
        value.0.downcast_mut()
    }
}

impl<C, T, Src, P, S> BodyFrom<Val, FieldBody<C, T, Src, P, S>> for Body
where
    C: 'static,
    T: 'static,
    Src: SourcesTypes + 'static,
    P: Fn(Src::Output) -> T + 'static,
    S: 'static,
    FieldBody<C, T, Src, P, S>: EffectBody<Val, Body> + 'static,
{
    fn body_from(inner: FieldBody<C, T, Src, P, S>) -> Body {
        Body::new(move |ctx: &mut TestContext<'_>| inner.run(ctx))
    }
}

impl<C, T, Src, P, S> BodyFrom<Val, DedupedFieldBody<C, T, Src, P, S>> for Body
where
    C: 'static,
    T: 'static,
    Src: SourcesTypes + 'static,
    P: Fn(Src::Output) -> T + 'static,
    S: 'static,
    DedupedFieldBody<C, T, Src, P, S>: EffectBody<Val, Body> + 'static,
{
    fn body_from(inner: DedupedFieldBody<C, T, Src, P, S>) -> Body {
        Body::new(move |ctx: &mut TestContext<'_>| inner.run(ctx))
    }
}

/// A setter made of any closure that writes in place.
struct Setter<F>(F);

impl<C, T, F: Fn(&mut C, T)> FieldSetter<C, T> for Setter<F> {
    fn set(&self, component: &mut C, value: T) {
        (self.0)(component, value)
    }
}

#[derive(Default, Clone, PartialEq)]
struct Health {
    current: u32,
    max: u32,
}

#[derive(Default, Clone)]
struct Label(u32);

#[derive(Default, Clone)]
struct Scale(u32);

/// Builds `effect` against `target` the way scene application does, then flushes the queued
/// registration.
fn apply<E: Template<Val, Body>>(world: &mut TestWorld, target: Entity, effect: &E) {
    let mut context = TemplateContext::new(world, target, ScopedEntities::default());
    effect.build_template(&mut context).unwrap();
    let mut queued = context.take_effects();
    queued.flush(world, target);
}

fn health_changed(world: &TestWorld, entity: Entity) -> Tick {
    world
        .component_changed(entity, <Health as Component<Val>>::component_id())
        .unwrap()
}

/// A field at twice a signal, with the other field left alone.
#[test]
fn a_field_is_kept_at_twice_a_signal() {
    let mut world = TestWorld::new();
    let hp = world.spawn_signal(50u32);
    let effect: FieldEffect<Health, u32, _, _, _> = FieldEffect::new(
        hp,
        |hp: u32| hp * 2,
        Setter(|health: &mut Health, value: u32| health.current = value),
    );
    let target = world.spawn(Health { current: 0, max: 100 });
    apply(&mut world, target, &effect);
    assert_eq!(world.get::<Health>(target).unwrap().current, 100);
    assert_eq!(world.get::<Health>(target).unwrap().max, 100);
}

#[test]
fn field_effect_writes_only_its_own_field() {
    let mut world = TestWorld::new();
    let hp = world.spawn_signal(10u32);

    let effect: FieldEffect<Health, u32, _, _, _> = FieldEffect::new(
        hp,
        |hp: u32| hp,
        Setter(|health: &mut Health, value: u32| health.current = value),
    );

    let target = world.spawn(Health { current: 0, max: 100 });
    apply(&mut world, target, &effect);

    let health = world.get::<Health>(target).unwrap();
    assert_eq!(health.current, 10, "initial value should be written");
    assert_eq!(health.max, 100, "unrelated fields must be untouched");

    world.signal_mut(hp).unwrap().set(42);
    world.run_effects();

    let health = world.get::<Health>(target).unwrap();
    assert_eq!(health.current, 42);
    assert_eq!(health.max, 100);
}

/// A deduped effect must not bump its target component's change tick when the produced value is
/// unchanged: that is what stops redundant propagation downstream.
#[test]
fn deduped_field_effect_skips_redundant_writes() {
    let mut world = TestWorld::new();
    let hp = world.spawn_signal(10u32);

    // Deliberately lossy: distinct signal values can map to the same output.
    let effect: DedupedFieldEffect<Health, u32, _, _, _> = DedupedFieldEffect::new(
        hp,
        |hp: u32| hp.min(10),
        Setter(|health: &mut Health, value: u32| health.current = value),
    );

    let target = world.spawn(Health { current: 0, max: 100 });
    apply(&mut world, target, &effect);
    assert_eq!(world.get::<Health>(target).unwrap().current, 10);

    let tick_before = health_changed(&world, target);

    world.signal_mut(hp).unwrap().set(999);
    world.run_effects();

    assert_eq!(world.get::<Health>(target).unwrap().current, 10);
    assert_eq!(
        health_changed(&world, target),
        tick_before,
        "an unchanged value must not mark the target component changed"
    );

    world.signal_mut(hp).unwrap().set(4);
    world.run_effects();
    assert_eq!(world.get::<Health>(target).unwrap().current, 4);
}

/// `Own<C>` tracks a component on the effect's own entity, with no entity plumbing at all.
#[test]
fn a_deduplicated_field_agrees_with_an_ordinary_one() {
    let mut world = TestWorld::new();
    let hp = world.spawn_signal(10u32);
    let deduped: DedupedFieldEffect<Health, u32, _, _, _> = DedupedFieldEffect::new(
        hp,
        |hp: u32| hp / 10,
        Setter(|health: &mut Health, value: u32| health.current = value),
    );
    let ordinary: FieldEffect<Health, u32, _, _, _> = FieldEffect::new(
        hp,
        |hp: u32| hp / 10,
        Setter(|health: &mut Health, value: u32| health.current = value),
    );
    let one = world.spawn(Health { current: 7, max: 100 });
    let other = world.spawn(Health { current: 8, max: 100 });
    apply(&mut world, one, &deduped);
    apply(&mut world, other, &ordinary);
    let effect = world.effects(one).unwrap().get()[0];
    assert_eq!(world.get::<Health>(one).unwrap().current, 1);
    assert_eq!(world.get::<Health>(other).unwrap().current, 1);
    assert_eq!(world.get::<LastValue<u32>>(effect).unwrap().0, 1);

    let mut last = 1;
    for value in [19, 20, 20, 25, 4, 12, 100, 109] {
        let (tick, other_tick) = (health_changed(&world, one), health_changed(&world, other));
        world.signal_mut(hp).unwrap().set(value);
        assert!(world.run_effects());
        assert_eq!(world.get::<Health>(one).unwrap().current, value / 10);
        assert_eq!(world.get::<Health>(other).unwrap().current, value / 10);
        assert_eq!(world.get::<LastValue<u32>>(effect).unwrap().0, value / 10);
        // The one is stamped when its value changes, the other on every run.
        assert_eq!(health_changed(&world, one) == tick, value / 10 == last);
        assert_ne!(health_changed(&world, other), other_tick);
        last = value / 10;
    }
}

#[test]
fn fields_agree_after_their_source_died() {
    let mut world = TestWorld::new();
    let hp = world.spawn_signal(10u32);
    let deduped: DedupedFieldEffect<Health, u32, _, _, _> = DedupedFieldEffect::new(
        hp,
        |hp: u32| hp / 10,
        Setter(|health: &mut Health, value: u32| health.current = value),
    );
    let ordinary: FieldEffect<Health, u32, _, _, _> = FieldEffect::new(
        hp,
        |hp: u32| hp / 10,
        Setter(|health: &mut Health, value: u32| health.current = value),
    );
    let one = world.spawn(Health { current: 0, max: 100 });
    let other = world.spawn(Health { current: 0, max: 100 });
    apply(&mut world, one, &deduped);
    apply(&mut world, other, &ordinary);
    world.signal_mut(hp).unwrap().set(42);
    assert!(world.run_effects());
    world.despawn(hp.entity());
    assert!(world.run_effects());
    assert_eq!(world.get::<Health>(one).unwrap().current, 4);
    assert_eq!(world.get::<Health>(other).unwrap().current, 4);
}

#[test]
fn a_deduplicated_field_goes_by_what_it_produced() {
    let mut world = TestWorld::new();
    let hp = world.spawn_signal(10u32);
    let effect: DedupedFieldEffect<Health, u32, _, _, _> = DedupedFieldEffect::new(
        hp,
        |hp: u32| hp.min(10),
        Setter(|health: &mut Health, value: u32| health.current = value),
    );
    let target = world.spawn(Health { current: 0, max: 100 });
    apply(&mut world, target, &effect);
    // Somebody else writes the field: it stays so as long as the same is produced.
    world.get_mut::<Health>(target).unwrap().get_mut().current = 55;
    world.signal_mut(hp).unwrap().set(11);
    world.run_effects();
    assert_eq!(world.get::<Health>(target).unwrap().current, 55);
    world.signal_mut(hp).unwrap().set(3);
    world.run_effects();
    assert_eq!(world.get::<Health>(target).unwrap().current, 3);
}

#[test]
fn own_source_tracks_the_effects_own_entity() {
    let mut world = TestWorld::new();

    let effect: FieldEffect<Label, u32, _, _, _> = FieldEffect::new(
        (Own::<Health>::default(),),
        |(health,): (Health,)| health.current * 2,
        Setter(|label: &mut Label, value: u32| label.0 = value),
    );

    let target = world.spawn(Health { current: 3, max: 10 });
    world.insert(target, Label::default());
    apply(&mut world, target, &effect);

    assert_eq!(world.get::<Label>(target).unwrap().0, 6);

    // Ordinary mutation of the same entity's component drives the update.
    world.get_mut::<Health>(target).unwrap().get_mut().current = 8;
    world.run_effects();
    assert_eq!(world.get::<Label>(target).unwrap().0, 16);
}

#[test]
fn a_bare_source_needs_no_tuple() {
    let mut world = TestWorld::new();

    // Both a lone source and a 1-tuple of it are valid sources, and the producer's parameter shape
    // follows: a bare value in the first case, a 1-tuple in the second.
    let bare: FieldEffect<Label, u32, _, _, _> = FieldEffect::new(
        Own::<Health>::default(),
        |health: Health| health.current,
        Setter(|label: &mut Label, value: u32| label.0 = value),
    );
    let tupled: FieldEffect<Label, u32, _, _, _> = FieldEffect::new(
        (Own::<Health>::default(),),
        |(health,): (Health,)| health.current,
        Setter(|label: &mut Label, value: u32| label.0 = value),
    );

    let target = world.spawn(Health { current: 3, max: 10 });
    world.insert(target, Label::default());
    apply(&mut world, target, &bare);
    assert_eq!(world.get::<Label>(target).unwrap().0, 3);

    world.get_mut::<Health>(target).unwrap().get_mut().current = 8;
    world.run_effects();
    assert_eq!(world.get::<Label>(target).unwrap().0, 8, "bare source reacts");

    let target = world.spawn(Health { current: 3, max: 10 });
    world.insert(target, Label::default());
    apply(&mut world, target, &tupled);
    assert_eq!(world.get::<Label>(target).unwrap().0, 3);
}

/// Multiple sources of different kinds combine into one pure producer.
#[test]
fn multiple_sources_combine() {
    let mut world = TestWorld::new();
    let bonus = world.spawn_signal(100u32);

    let effect: FieldEffect<Label, u32, _, _, _> = FieldEffect::new(
        (Own::<Health>::default(), bonus),
        |(health, bonus): (Health, u32)| health.current + bonus,
        Setter(|label: &mut Label, value: u32| label.0 = value),
    );

    let target = world.spawn(Health { current: 1, max: 10 });
    world.insert(target, Label::default());
    apply(&mut world, target, &effect);
    assert_eq!(world.get::<Label>(target).unwrap().0, 101);

    // Either source re-runs the effect.
    world.get_mut::<Health>(target).unwrap().get_mut().current = 5;
    world.run_effects();
    assert_eq!(world.get::<Label>(target).unwrap().0, 105);

    world.signal_mut(bonus).unwrap().set(200);
    world.run_effects();
    assert_eq!(world.get::<Label>(target).unwrap().0, 205);
}

#[test]
fn a_cloned_template_builds_the_same_field() {
    let mut world = TestWorld::new();
    let hp = world.spawn_signal(6u32);
    let effect: FieldEffect<Health, u32, _, _, _> = FieldEffect::new(
        hp,
        |hp: u32| hp + 1,
        SetWith::new(|health: &Health, value: u32| Health { current: value, max: health.max }),
    );
    let copy = effect.clone_template();
    let target = world.spawn(Health { current: 0, max: 5 });
    apply(&mut world, target, &copy);
    assert_eq!(world.get::<Health>(target).unwrap().current, 7);
    assert_eq!(world.get::<Health>(target).unwrap().max, 5);

    let deduped: DedupedFieldEffect<Health, u32, _, _, _> = DedupedFieldEffect::new(
        hp,
        |hp: u32| hp + 2,
        SetWith::new(|health: &Health, value: u32| Health { current: value, max: health.max }),
    );
    let other = world.spawn(Health { current: 0, max: 9 });
    apply(&mut world, other, &deduped.clone_template());
    assert_eq!(world.get::<Health>(other).unwrap().current, 8);
}

#[test]
fn a_field_of_an_entity_without_the_component_is_not_written() {
    let mut world = TestWorld::new();
    let hp = world.spawn_signal(6u32);
    let effect: FieldEffect<Health, u32, _, _, _> = FieldEffect::new(
        hp,
        |hp: u32| hp,
        Setter(|health: &mut Health, value: u32| health.current = value),
    );
    let target = world.spawn_empty();
    apply(&mut world, target, &effect);
    assert!(world.get::<Health>(target).is_none());

    // Once it is there, the next change of the source writes it.
    world.insert(target, Health { current: 0, max: 1 });
    world.signal_mut(hp).unwrap().set(9);
    world.run_effects();
    assert_eq!(world.get::<Health>(target).unwrap().current, 9);
}

#[test]
fn a_source_on_another_entity_is_tracked_there() {
    let mut world = TestWorld::new();
    let model = world.spawn(Health { current: 4, max: 50 });
    let effect: FieldEffect<Label, u32, _, _, _> = FieldEffect::new(
        On::<Health>::new(model),
        |health: Health| health.current,
        Setter(|label: &mut Label, value: u32| label.0 = value),
    );
    let target = world.spawn(Label::default());
    apply(&mut world, target, &effect);
    assert_eq!(world.get::<Label>(target).unwrap().0, 4);

    world.get_mut::<Health>(model).unwrap().get_mut().current = 17;
    world.run_effects();
    assert_eq!(world.get::<Label>(target).unwrap().0, 17);
}

#[test]
fn sources_that_are_absent_read_as_default() {
    let mut world = TestWorld::new();
    let gone = world.spawn_signal(5u32);
    world.despawn(gone.entity());
    let effect: FieldEffect<Label, u32, _, _, _> = FieldEffect::new(
        (gone, Own::<Health>::default(), OnResource::<Scale>::default()),
        |(gone, health, scale): (u32, Health, Scale)| 1 + gone + health.current + scale.0,
        Setter(|label: &mut Label, value: u32| label.0 = value),
    );
    let target = world.spawn(Label::default());
    apply(&mut world, target, &effect);
    assert_eq!(world.get::<Label>(target).unwrap().0, 1);

    world.insert_resource(Scale(30));
    world.run_effects();
    assert_eq!(world.get::<Label>(target).unwrap().0, 31);

    world.insert(target, Health { current: 8, max: 8 });
    world.run_effects();
    assert_eq!(world.get::<Label>(target).unwrap().0, 39);
}

#[test]
fn a_field_without_sources_is_written_once() {
    let mut world = TestWorld::new();
    let effect: FieldEffect<Label, u32, _, _, _> = FieldEffect::new(
        (),
        |(): ()| 7,
        Setter(|label: &mut Label, value: u32| label.0 += value),
    );
    let target = world.spawn(Label::default());
    apply(&mut world, target, &effect);
    assert_eq!(world.get::<Label>(target).unwrap().0, 7);
    world.run_effects();
    assert_eq!(world.get::<Label>(target).unwrap().0, 7);
}

#[test]
fn as_many_as_twelve_sources_combine() {
    let mut world = TestWorld::new();
    let signals: Vec<_> = (0..12u32).map(|i| world.spawn_signal(1 << i)).collect();
    let s = &signals;
    let effect: FieldEffect<Label, u32, _, _, _> = FieldEffect::new(
        (s[0], s[1], s[2], s[3], s[4], s[5], s[6], s[7], s[8], s[9], s[10], s[11]),
        |(a, b, c, d, e, f, g, h, i, j, k, l): (
            u32,
            u32,
            u32,
            u32,
            u32,
            u32,
            u32,
            u32,
            u32,
            u32,
            u32,
            u32,
        )| a + b + c + d + e + f + g + h + i + j + k + l,
        Setter(|label: &mut Label, value: u32| label.0 = value),
    );
    let target = world.spawn(Label::default());
    apply(&mut world, target, &effect);
    assert_eq!(world.get::<Label>(target).unwrap().0, 4095);

    world.signal_mut(signals[11]).unwrap().set(0);
    world.run_effects();
    assert_eq!(world.get::<Label>(target).unwrap().0, 2047);
}

/// A source that cannot be resolved.
#[derive(Clone)]
struct Broken;

impl SourceTypes for Broken {
    type Output = u32;
    type Resolved = ();
}

impl ReactiveSource<Val, Body> for Broken {
    fn resolve(&self, _: &mut TemplateContext<'_, Val, Body>) -> Result<(), TemplateError> {
        Err(TemplateError { message: String::from("broken") })
    }

    fn read(&self, _: &(), _: &mut TestContext<'_>) -> u32 {
        0
    }
}

#[test]
fn a_source_that_cannot_be_resolved_fails_the_build() {
    let mut world = TestWorld::new();
    let name = ScopedEntityIndex(3);
    let effect: FieldEffect<Label, u32, _, _, _> = FieldEffect::new(
        (On::<Health>::new(name), Broken, On::<Health>::new(ScopedEntityIndex(4))),
        |(_, broken, _): (Health, u32, Health)| broken,
        Setter(|label: &mut Label, value: u32| label.0 = value),
    );
    let target = world.spawn(Label::default());
    let mut context = TemplateContext::new(&mut world, target, ScopedEntities::default());
    let result = effect.build_template(&mut context);
    assert_eq!(result.unwrap_err().message, "broken");
    assert!(context.take_effects().is_empty(), "nothing is queued");
    let scoped = context.into_scoped();
    assert!(scoped.get(name).is_some(), "the source before the failure was resolved");
    assert!(scoped.get(ScopedEntityIndex(4)).is_none(), "the one after it was not");

    let deduped: DedupedFieldEffect<Label, u32, _, _, _> = DedupedFieldEffect::new(
        Broken,
        |broken: u32| broken,
        Setter(|label: &mut Label, value: u32| label.0 = value),
    );
    let mut context = TemplateContext::new(&mut world, target, ScopedEntities::default());
    assert!(deduped.build_template(&mut context).is_err());
    assert!(context.take_effects().is_empty());
}

#[test]
fn a_single_source_resolves_and_reads_as_a_collection() {
    let mut world = TestWorld::new();
    let hp = world.spawn_signal(3u32);
    let target = world.spawn_empty();
    let mut context = TemplateContext::new(&mut world, target, ScopedEntities::default());
    assert!(ReactiveSources::resolve_all(&hp, &mut context).is_ok());
    assert_eq!(context.entity(), target);
}

#[test]
fn a_name_is_spawned_once_and_stays() {
    let mut world = TestWorld::new();
    let target = world.spawn_empty();
    let mut context = TemplateContext::new(&mut world, target, ScopedEntities::default());
    let a = context.get_entity(ScopedEntityIndex(1));
    let b = context.get_entity(ScopedEntityIndex(2));
    assert_ne!(a, b);
    assert_eq!(context.get_entity(ScopedEntityIndex(1)), a);
    assert!(context.world().contains(a));
}

/// A registration that counts on the target.
struct Count;

impl EffectRegistration<Val, Body> for Count {
    fn register(&self, world: &mut TestWorld, target: Entity) {
        if let Some(mut label) = world.get_mut::<Label>(target) {
            label.get_mut().0 += 1;
        }
    }
}

#[test]
fn queued_effects_are_run_once_and_cleared() {
    let mut world = TestWorld::new();
    let target = world.spawn(Label::default());
    let mut queued: QueuedEffects<Val, Body> = QueuedEffects::default();
    assert!(queued.is_empty());
    queued.push(BoxedEffectRegistration(Box::new(Count)));
    queued.push(BoxedEffectRegistration(Box::new(Count)));
    assert!(!queued.is_empty());
    queued.flush(&mut world, target);
    assert_eq!(world.get::<Label>(target).unwrap().0, 2);
    assert!(queued.is_empty());
    queued.flush(&mut world, target);
    assert_eq!(world.get::<Label>(target).unwrap().0, 2);

    queued.push(BoxedEffectRegistration(Box::new(Count)));
    assert_eq!(queued.take().len(), 1);
    assert!(queued.is_empty());
}

#[test]
fn a_field_of_a_signal_depends_on_it_alone() {
    let mut world = TestWorld::new();
    let hp = world.spawn_signal(1u32);
    let other = world.spawn(Health { current: 2, max: 3 });
    let effect: FieldEffect<Health, u32, _, _, _> = FieldEffect::new(
        hp,
        |hp: u32| hp,
        Setter(|health: &mut Health, value: u32| health.current = value),
    );
    let target = world.spawn(Health { current: 0, max: 1 });
    world.insert(target, Label(4));
    let label = <Label as Component<Val>>::component_id();
    let label_changed = world.component_changed(target, label);
    let other_changed = health_changed(&world, other);
    apply(&mut world, target, &effect);
    let spawned = world.effects(target).unwrap().get()[0];
    let dependencies = world.dependencies(spawned).unwrap().iter();
    assert_eq!(dependencies.len(), 1);
    assert_eq!(
        dependencies[0].source,
        Source::Component {
            entity: hp.entity(),
            component: <SignalValue<u32> as Component<Val>>::component_id(),
        }
    );
    // Nothing but the field's own component was touched.
    assert_eq!(world.component_changed(target, label), label_changed);
    assert_eq!(health_changed(&world, other), other_changed);
    assert_eq!(world.get::<Health>(other).unwrap().current, 2);
}

#[test]
fn a_field_effect_dies_with_its_entity() {
    let mut world = TestWorld::new();
    let hp = world.spawn_signal(1u32);
    let effect: FieldEffect<Health, u32, _, _, _> = FieldEffect::new(
        hp,
        |hp: u32| hp,
        Setter(|health: &mut Health, value: u32| health.current = value),
    );
    let target = world.spawn(Health { current: 0, max: 1 });
    apply(&mut world, target, &effect);
    let spawned = world.effects(target).unwrap().get()[0];
    assert_eq!(world.effect_of(spawned).unwrap().0, target);
    world.despawn(target);
    assert!(!world.contains(spawned));
    assert!(world.subscribers(hp.entity()).unwrap().is_empty());
}
