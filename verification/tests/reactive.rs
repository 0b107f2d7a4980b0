//! Reactive fields as parts of scenes.
use reactive_signal::component::Component;
use reactive_signal::context::{BodyFrom, EffectBody, EffectContext};
use reactive_signal::effect::spawn_effect;
use reactive_signal::field_effect::{DedupedFieldBody, FieldBody, FieldSetter, LastValue};
use reactive_signal::id::{ComponentId, Entity};
use reactive_signal::reactive::{reactive_field, reactive_field_deduped};
use reactive_signal::scene::{BoxedTemplate, ResolvedScene, Scene};
use reactive_signal::signal::SignalValue;
use reactive_signal::source::{On, OnResource, Own, SourcesTypes};
use reactive_signal::template::{
    ScopedEntities, ScopedEntityIndex, Template, TemplateContext, TemplateError,
};
use reactive_signal::world::World;
use std::any::Any;
use std::sync::Arc;

/// What the worlds of these tests store.
struct Val(Box<dyn Any>);

/// The effects of these tests: any closure.
struct Body(Arc<dyn Fn(&mut EffectContext<'_, Val, Body>)>);

impl Body {
    fn new(run: impl Fn(&mut EffectContext<'_, Val, Body>) + 'static) -> Body {
        Body(Arc::new(run))
    }
}

impl EffectBody<Val, Body> for Body {
    fn run(&self, context: &mut EffectContext<'_, Val, Body>) {
        (self.0)(context)
    }
}

type TestWorld = World<Val, Body>;
type TestContext<'w> = EffectContext<'w, Val, Body>;

impl Component<Val> for Health {
    fn component_id() -> ComponentId {
        ComponentId(0)
    }

    fn into_stored(self) -> Val {
        Val(Box::new(self))
    }

    fn held_ref(value: &Val) -> Option<&Self> {
        value.0.downcast_ref()
    }

    fn held_mut(value: &mut Val) -> Option<&mut Self> {
        value.0.downcast_mut()
    }
}

impl Component<Val> for Untouched {
    fn component_id() -> ComponentId {
        ComponentId(1)
    }

    fn into_stored(self) -> Val {
        Val(Box::new(self))
    }

    fn held_ref(value: &Val) -> Option<&Self> {
        value.0.downcast_ref()
    }

    fn held_mut(value: &mut Val) -> Option<&mut Self> {
        value.0.downcast_mut()
    }
}

impl Component<Val> for Label {
    fn component_id() -> ComponentId {
        ComponentId(2)
    }

    fn into_stored(self) -> Val {
        Val(Box::new(self))
    }

    fn held_ref(value: &Val) -> Option<&Self> {
        value.0.downcast_ref()
    }

    fn held_mut(value: &mut Val) -> Option<&mut Self> {
        value.0.downcast_mut()
    }
}

impl Component<Val> for Scale {
    fn component_id() -> ComponentId {
        ComponentId(3)
    }

    fn into_stored(self) -> Val {
        Val(Box::new(self))
    }

    fn held_ref(value: &Val) -> Option<&Self> {
        value.0.downcast_ref()
    }

    fn held_mut(value: &mut Val) -> Option<&mut Self> {
        value.0.downcast_mut()
    }
}

impl Component<Val> for Bonus {
    fn component_id() -> ComponentId {
        ComponentId(4)
    }

    fn into_stored(self) -> Val {
        Val(Box::new(self))
    }

    fn held_ref(value: &Val) -> Option<&Self> {
        value.0.downcast_ref()
    }

    fn held_mut(value: &mut Val) -> Option<&mut Self> {
        value.0.downcast_mut()
    }
}

impl Component<Val> for SignalValue<u32> {
    fn component_id() -> ComponentId {
        ComponentId(5)
    }

    fn into_stored(self) -> Val {
        Val(Box::new(self))
    }

    fn held_ref(value: &Val) -> Option<&Self> {
        value.0.downcast_ref()
    }

    fn held_mut(value: &mut Val) -> Option<&mut Self> {
        value.0.downcast_mut()
    }
}

impl Component<Val> for LastValue<u32> {
    fn component_id() -> ComponentId {
        ComponentId(6)
    }

    fn into_stored(self) -> Val {
        Val(Box::new(self))
    }

    fn held_ref(value: &Val) -> Option<&Self> {
        value.0.downcast_ref()
    }

    fn held_mut(value: &mut Val) -> Option<&mut Self> {
        value.0.downcast_mut()
    }
}

impl<C, T, Src, P, S> BodyFrom<Val, FieldBody<C, T, Src, P, S>> for Body
where
    C: 'static,
    T: 'static,
    Src: SourcesTypes + 'static,
    P: Fn(Src::Output) -> T + 'static,
    S: 'static,
    FieldBody<C, T, Src, P, S>: EffectBody<Val, Body> + 'static,
{
    fn body_from(inner: FieldBody<C, T, Src, P, S>) -> Body {
        Body::new(move |ctx: &mut TestContext<'_>| inner.run(ctx))
    }
}

impl<C, T, Src, P, S> BodyFrom<Val, DedupedFieldBody<C, T, Src, P, S>> for Body
where
    C: 'static,
    T: 'static,
    Src: SourcesTypes + 'static,
    P: Fn(Src::Output) -> T + 'static,
    S: 'static,
    DedupedFieldBody<C, T, Src, P, S>: EffectBody<Val, Body> + 'static,
{
    fn body_from(inner: DedupedFieldBody<C, T, Src, P, S>) -> Body {
        Body::new(move |ctx: &mut TestContext<'_>| inner.run(ctx))
    }
}

/// A setter made of any closure that writes in place.
struct Setter<F>(F);

impl<C, T, F: Fn(&mut C, T)> FieldSetter<C, T> for Setter<F> {
    fn set(&self, component: &mut C, value: T) {
        (self.0)(component, value)
    }
}

#[derive(Default, Clone, Debug)]
struct Health {
    current: u32,
    max: u32,
}

#[derive(Default, Clone)]
struct Untouched(u32);

#[derive(Default, Clone)]
struct Label(u32);

#[derive(Default, Clone)]
struct Scale(u32);

#[derive(Default, Clone)]
struct Bonus(u32);

type TestScene = ResolvedScene<Val, Body>;

#[test]
fn reactive_field_updates_only_that_field() {
    let mut world = TestWorld::new();
    let hp = world.spawn_signal(30u32);

    let mut scene = TestScene::default();
    scene.get_or_insert_template::<Health>().unwrap().max = 100;
    scene.get_or_insert_template::<Untouched>().unwrap().0 = 7;
    reactive_field::<Health, u32, _, _, _>(
        hp,
        |hp: u32| hp,
        Setter(|health: &mut Health, value: u32| health.current = value),
    )
    .resolve(&mut scene);
    let entity = world.spawn_scene(scene).unwrap();

    let health = world.get::<Health>(entity).unwrap();
    assert_eq!(health.current, 30, "effect writes the initial value");
    assert_eq!(health.max, 100, "static patch on the same component survives");
    assert_eq!(world.get::<Untouched>(entity).unwrap().0, 7);

    world.signal_mut(hp).unwrap().set(55);
    world.run_effects();

    let health = world.get::<Health>(entity).unwrap();
    assert_eq!(health.current, 55);
    assert_eq!(health.max, 100, "sibling field is not clobbered");
    assert_eq!(world.get::<Untouched>(entity).unwrap().0, 7);
}

/// A signal on its own drives a field, beside an ordinary patch of the same component.
#[test]
fn reactive_signal_sugar() {
    let mut world = TestWorld::new();
    let hp = world.spawn_signal(30u32);

    let mut scene = TestScene::default();
    reactive_field::<Health, u32, _, _, _>(
        hp,
        |hp: u32| hp,
        Setter(|health: &mut Health, value: u32| health.current = value),
    )
    .resolve(&mut scene);
    scene.get_or_insert_template::<Health>().unwrap().max = 100;
    scene.get_or_insert_template::<Untouched>().unwrap().0 = 7;
    let entity = world.spawn_scene(scene).unwrap();

    assert_eq!(world.get::<Health>(entity).unwrap().current, 30);
    assert_eq!(world.get::<Health>(entity).unwrap().max, 100);

    world.signal_mut(hp).unwrap().set(55);
    world.run_effects();
    assert_eq!(world.get::<Health>(entity).unwrap().current, 55);
    assert_eq!(world.get::<Health>(entity).unwrap().max, 100);
    assert_eq!(world.get::<Untouched>(entity).unwrap().0, 7);
}

/// An expression over several signals: its body is plain Rust over plain values.
#[test]
fn reactive_expression_over_multiple_signals() {
    let mut world = TestWorld::new();
    let hp = world.spawn_signal(2u32);
    let bonus = world.spawn_signal(100u32);

    let mut scene = TestScene::default();
    reactive_field::<Health, u32, _, _, _>(
        (hp, bonus),
        |(hp, bonus): (u32, u32)| hp * 2 + bonus,
        Setter(|health: &mut Health, value: u32| health.current = value),
    )
    .resolve(&mut scene);
    scene.get_or_insert_template::<Health>().unwrap().max = 100;
    let entity = world.spawn_scene(scene).unwrap();

    assert_eq!(world.get::<Health>(entity).unwrap().current, 104);

    world.signal_mut(hp).unwrap().set(5);
    world.run_effects();
    assert_eq!(world.get::<Health>(entity).unwrap().current, 110);

    world.signal_mut(bonus).unwrap().set(200);
    world.run_effects();
    assert_eq!(world.get::<Health>(entity).unwrap().current, 210);
}

/// A component on the entity being spawned, with no entity plumbing at all.
#[test]
fn reactive_own_component() {
    let mut world = TestWorld::new();

    let mut scene = TestScene::default();
    *scene.get_or_insert_template::<Health>().unwrap() = Health { current: 3, max: 10 };
    reactive_field::<Label, u32, _, _, _>(
        Own::<Health>::default(),
        |health: Health| health.current * 2,
        Setter(|label: &mut Label, value: u32| label.0 = value),
    )
    .resolve(&mut scene);
    let entity = world.spawn_scene(scene).unwrap();

    assert_eq!(world.get::<Label>(entity).unwrap().0, 6);

    // Ordinary mutation, from anywhere.
    world.get_mut::<Health>(entity).unwrap().get_mut().current = 8;
    world.run_effects();
    assert_eq!(world.get::<Label>(entity).unwrap().0, 16);
}

/// A component on an entity value in scope.
#[test]
fn reactive_component_on_another_entity() {
    let mut world = TestWorld::new();
    let model = world.spawn(Health { current: 4, max: 50 });

    let mut scene = TestScene::default();
    reactive_field::<Health, u32, _, _, _>(
        On::<Health>::new(model),
        |health: Health| health.current,
        Setter(|health: &mut Health, value: u32| health.current = value),
    )
    .resolve(&mut scene);
    scene.get_or_insert_template::<Health>().unwrap().max = 100;
    let view = world.spawn_scene(scene).unwrap();

    assert_eq!(world.get::<Health>(view).unwrap().current, 4);

    world.get_mut::<Health>(model).unwrap().get_mut().current = 17;
    world.run_effects();
    assert_eq!(world.get::<Health>(view).unwrap().current, 17);
    assert_eq!(world.get::<Health>(view).unwrap().max, 100);
}

/// A name within the scene, resolved when the scene is applied. This is the case that needs the
/// build-time phase.
#[test]
fn reactive_component_on_a_scene_ref() {
    let mut world = TestWorld::new();
    let name = ScopedEntityIndex(0);
    let mut scoped = ScopedEntities::default();

    let mut scene = TestScene::default();
    *scene.get_or_insert_template::<Health>().unwrap() = Health { current: 7, max: 10 };
    let root = world.spawn_empty();
    scoped.set(name, root);
    scene.apply(&mut world, root, &mut scoped).unwrap();

    let mut child_scene = TestScene::default();
    reactive_field::<Label, u32, _, _, _>(
        On::<Health>::new(name),
        |health: Health| health.current * 3,
        Setter(|label: &mut Label, value: u32| label.0 = value),
    )
    .resolve(&mut child_scene);
    let child = world.spawn_empty();
    child_scene.apply(&mut world, child, &mut scoped).unwrap();

    assert_eq!(world.get::<Label>(child).unwrap().0, 21);

    // Mutating the referenced entity drives the child's field.
    world.get_mut::<Health>(root).unwrap().get_mut().current = 9;
    world.run_effects();
    assert_eq!(world.get::<Label>(child).unwrap().0, 27);
}

/// Mixed source kinds in one expression.
#[test]
fn reactive_mixed_sources() {
    let mut world = TestWorld::new();
    let bonus = world.spawn_signal(100u32);

    let mut scene = TestScene::default();
    *scene.get_or_insert_template::<Health>().unwrap() = Health { current: 1, max: 10 };
    reactive_field::<Label, u32, _, _, _>(
        (Own::<Health>::default(), bonus),
        |(health, bonus): (Health, u32)| health.current + bonus,
        Setter(|label: &mut Label, value: u32| label.0 = value),
    )
    .resolve(&mut scene);
    let entity = world.spawn_scene(scene).unwrap();

    assert_eq!(world.get::<Label>(entity).unwrap().0, 101);

    world.get_mut::<Health>(entity).unwrap().get_mut().current = 5;
    world.run_effects();
    assert_eq!(world.get::<Label>(entity).unwrap().0, 105);

    world.signal_mut(bonus).unwrap().set(200);
    world.run_effects();
    assert_eq!(world.get::<Label>(entity).unwrap().0, 205);
}

/// A resource source: changing the resource updates the field.
#[test]
fn reactive_resource_source() {
    let mut world = TestWorld::new();
    world.insert_resource(Scale(10));
    let hp = world.spawn_signal(3u32);

    let mut scene = TestScene::default();
    reactive_field::<Label, u32, _, _, _>(
        (hp, OnResource::<Scale>::default()),
        |(hp, scale): (u32, Scale)| hp * scale.0,
        Setter(|label: &mut Label, value: u32| label.0 = value),
    )
    .resolve(&mut scene);
    let entity = world.spawn_scene(scene).unwrap();

    assert_eq!(world.get::<Label>(entity).unwrap().0, 30);

    // Changing the resource updates the field, with no source on the signal side moving.
    world.get_resource_mut::<Scale>().unwrap().get_mut().0 = 100;
    world.run_effects();
    assert_eq!(world.get::<Label>(entity).unwrap().0, 300);

    world.signal_mut(hp).unwrap().set(5);
    world.run_effects();
    assert_eq!(world.get::<Label>(entity).unwrap().0, 500);
}

/// A resource inserted *after* the effect first ran still wakes it, because the dependency is
/// recorded even while the resource is absent.
#[test]
fn reactive_resource_source_inserted_late() {
    let mut world = TestWorld::new();

    let mut scene = TestScene::default();
    reactive_field::<Label, u32, _, _, _>(
        OnResource::<Bonus>::default(),
        |bonus: Bonus| bonus.0 + 1,
        Setter(|label: &mut Label, value: u32| label.0 = value),
    )
    .resolve(&mut scene);
    let entity = world.spawn_scene(scene).unwrap();

    assert_eq!(world.get::<Label>(entity).unwrap().0, 1, "absent reads as Default");

    world.insert_resource(Bonus(41));
    world.run_effects();
    assert_eq!(world.get::<Label>(entity).unwrap().0, 42);
}

/// Two reactive fields on one component, each with its own source.
#[test]
fn two_reactive_fields_on_one_component() {
    let mut world = TestWorld::new();
    let current = world.spawn_signal(1u32);
    let max = world.spawn_signal(10u32);

    let mut scene = TestScene::default();
    reactive_field::<Health, u32, _, _, _>(
        current,
        |current: u32| current,
        Setter(|health: &mut Health, value: u32| health.current = value),
    )
    .resolve(&mut scene);
    reactive_field::<Health, u32, _, _, _>(
        max,
        |max: u32| max,
        Setter(|health: &mut Health, value: u32| health.max = value),
    )
    .resolve(&mut scene);
    let entity = world.spawn_scene(scene).unwrap();

    assert_eq!(world.get::<Health>(entity).unwrap().current, 1);
    assert_eq!(world.get::<Health>(entity).unwrap().max, 10);

    world.signal_mut(current).unwrap().set(4);
    world.run_effects();
    assert_eq!(world.get::<Health>(entity).unwrap().current, 4);
    assert_eq!(world.get::<Health>(entity).unwrap().max, 10);

    world.signal_mut(max).unwrap().set(99);
    world.run_effects();
    assert_eq!(world.get::<Health>(entity).unwrap().current, 4);
    assert_eq!(world.get::<Health>(entity).unwrap().max, 99);
}

#[test]
fn reactive_works_on_children_and_tuple_structs() {
    let mut world = TestWorld::new();
    let count = world.spawn_signal(2u32);

    let root = world.spawn_scene(TestScene::default()).unwrap();
    let mut child_scene = TestScene::default();
    reactive_field::<Untouched, u32, _, _, _>(
        count,
        |count: u32| count,
        Setter(|untouched: &mut Untouched, value: u32| untouched.0 = value),
    )
    .resolve(&mut child_scene);
    let child = world.spawn_scene(child_scene).unwrap();
    assert_ne!(root, child);
    assert_eq!(world.get::<Untouched>(child).unwrap().0, 2);

    world.signal_mut(count).unwrap().set(8);
    world.run_effects();
    assert_eq!(world.get::<Untouched>(child).unwrap().0, 8);
}

#[test]
fn each_spawn_gets_its_own_effect() {
    let mut world = TestWorld::new();
    let hp = world.spawn_signal(3u32);

    let scene = || {
        let mut scene = TestScene::default();
        reactive_field::<Health, u32, _, _, _>(
            hp,
            |hp: u32| hp,
            Setter(|health: &mut Health, value: u32| health.current = value),
        )
        .resolve(&mut scene);
        scene.get_or_insert_template::<Health>().unwrap().max = 100;
        scene
    };

    let a = world.spawn_scene(scene()).unwrap();
    let b = world.spawn_scene(scene()).unwrap();

    world.signal_mut(hp).unwrap().set(12);
    world.run_effects();

    // A signal captured outside the scene is shared, but each instance has its own effect.
    assert_eq!(world.get::<Health>(a).unwrap().current, 12);
    assert_eq!(world.get::<Health>(b).unwrap().current, 12);
    assert_eq!(world.effects(a).unwrap().len(), 1);
    assert_eq!(world.effects(b).unwrap().len(), 1);
}

#[test]
fn despawning_the_scene_entity_tears_down_its_effect() {
    let mut world = TestWorld::new();
    let hp = world.spawn_signal(1u32);

    let mut scene = TestScene::default();
    reactive_field::<Health, u32, _, _, _>(
        hp,
        |hp: u32| hp,
        Setter(|health: &mut Health, value: u32| health.current = value),
    )
    .resolve(&mut scene);
    scene.get_or_insert_template::<Health>().unwrap().max = 10;
    let entity = world.spawn_scene(scene).unwrap();

    world.despawn(entity);

    world.signal_mut(hp).unwrap().set(2);
    world.run_effects();
    // Nothing panics, and the effect is gone rather than writing to a dead entity.
    assert!(world.subscribers(hp.entity()).unwrap().is_empty());
}

#[test]
fn an_effect_may_spawn_a_scene() {
    let mut world = TestWorld::new();
    let hp = world.spawn_signal(30u32);
    let count = world.spawn_signal(1u32);
    let spawner = spawn_effect(
        &mut world,
        Body::new(move |ctx: &mut TestContext<'_>| {
            ctx.track(count);
            let mut scene = TestScene::default();
            reactive_field::<Health, u32, _, _, _>(
                hp,
                |hp: u32| hp,
                Setter(|health: &mut Health, value: u32| health.current = value),
            )
            .resolve(&mut scene);
            let entity = ctx.world().spawn_scene(scene).unwrap();
            ctx.world().insert(hp.entity(), Label(entity.0 as u32));
        }),
    );
    let spawned = Entity(world.get::<Label>(hp.entity()).unwrap().0 as u64);
    assert_eq!(world.get::<Health>(spawned).unwrap().current, 30);
    // What the scene registered comes after the effect that spawned it.
    let field = world.effects(spawned).unwrap().get()[0];
    assert!(world.effect_index(spawner).unwrap() < world.effect_index(field).unwrap());
    world.signal_mut(hp).unwrap().set(31);
    assert!(world.run_effects());
    assert_eq!(world.get::<Health>(spawned).unwrap().current, 31);
}

#[test]
fn a_deduped_field_in_a_scene_stops_redundant_writes() {
    let mut world = TestWorld::new();
    let hp = world.spawn_signal(4u32);
    let mut scene = TestScene::default();
    reactive_field_deduped::<Label, u32, _, _, _>(
        hp,
        |hp: u32| hp / 2,
        Setter(|label: &mut Label, value: u32| label.0 = value),
    )
    .resolve(&mut scene);
    let entity = world.spawn_scene(scene).unwrap();
    assert_eq!(world.get::<Label>(entity).unwrap().0, 2);
    let id = <Label as Component<Val>>::component_id();
    let tick = world.component_changed(entity, id);

    world.signal_mut(hp).unwrap().set(5);
    world.run_effects();
    assert_eq!(world.get::<Label>(entity).unwrap().0, 2);
    assert_eq!(world.component_changed(entity, id), tick);

    world.signal_mut(hp).unwrap().set(6);
    world.run_effects();
    assert_eq!(world.get::<Label>(entity).unwrap().0, 3);
    assert_ne!(world.component_changed(entity, id), tick);
}

/// A template that always fails.
struct Failing;

impl Template<Val, Body> for Failing {
    fn build_template(&self, _: &mut TemplateContext<'_, Val, Body>) -> Result<(), TemplateError> {
        Err(TemplateError { message: String::from("no") })
    }
}

#[test]
fn a_scene_that_cannot_be_built_registers_nothing() {
    let mut world = TestWorld::new();
    let hp = world.spawn_signal(4u32);
    let mut scene = TestScene::default();
    reactive_field::<Label, u32, _, _, _>(
        hp,
        |hp: u32| hp,
        Setter(|label: &mut Label, value: u32| label.0 = value),
    )
    .resolve(&mut scene);
    scene.push_bundle_template(BoxedTemplate(Box::new(Failing)));
    let result: Result<Entity, TemplateError> = world.spawn_scene(scene);
    assert_eq!(result.unwrap_err().message, "no");
    assert!(world.subscribers(hp.entity()).is_none());
}
