//! Reactive fields as parts of a scene, composed alongside ordinary components.
use crate::component::Component;
use crate::context::BodyFrom;
use crate::field_effect::{
    DedupedFieldBody, DedupedFieldEffect, FieldBody, FieldEffect, FieldSetter, LastValue,
};
use crate::scene::{BoxedTemplate, ResolvedScene, Scene, SceneState};
use crate::source::{ReactiveSources, SourcesTypes};
use crate::template::{Template, TemplateError, TemplateState};
use vstd::prelude::*;

verus! {

/// Whether `boxed` builds what `template` builds.
pub open spec fn builds_as<V, B, X: Template<V, B>>(boxed: BoxedTemplate<V, B>, template: X) -> bool {
    forall|
        before: TemplateState<V, B>,
        result: Result<(), TemplateError>,
        after: TemplateState<V, B>,
    | #[trigger]
        boxed.0.builds(before, result, after) <==> template.builds(before, result, after)
}

/// Whether `after` is the scene `before` with `template` pushed last.
pub open spec fn pushed<V, B, X: Template<V, B>>(
    before: SceneState<V, B>,
    template: X,
    after: SceneState<V, B>,
) -> bool {
    &&& after == before.with_template(after.templates.last())
    &&& builds_as(after.templates.last(), template)
}

/// A reactive field as part of a scene. See [`reactive_field`].
#[verifier::reject_recursive_types(T)]
#[verifier::reject_recursive_types(Src)]
pub struct ReactiveField<C, T, Src: SourcesTypes, P: Fn(Src::Output) -> T, S> {
    effect: FieldEffect<C, T, Src, P, S>,
}

impl<C, T, Src: SourcesTypes, P: Fn(Src::Output) -> T, S> ReactiveField<C, T, Src, P, S> {
    /// The template that is pushed to the scene.
    pub closed spec fn effect(self) -> FieldEffect<C, T, Src, P, S> {
        self.effect
    }
}

/// Returns a [`Scene`] that reactively drives a single field of the component `C`.
///
/// `sources` is what the field depends on; `producer` is a **pure** function from the sources' read
/// values to the field's value; `setter` writes that value into a live `C`.
///
/// This does two things to the resolved scene:
/// 1. Ensures `C`'s ordinary template is present, so `C` exists on the entity (with its other
///    fields patched as usual) after the scene's single bundle write.
/// 2. Pushes a [`FieldEffect`], which registers an effect once the entity is written.
///
/// Updates are surgical: when a tracked signal changes, only this field of this component on this
/// entity is written. The effect's lifetime is tied to the spawned entity, so it is despawned along
/// with it.
pub fn reactive_field<C, T, Src: SourcesTypes, P: Fn(Src::Output) -> T, S>(
    sources: Src,
    producer: P,
    setter: S,
) -> (scene: ReactiveField<C, T, Src, P, S>)
    requires
        forall|values: Src::Output| #[trigger] call_requires(producer, (values,)),
    ensures
        scene.effect().field().sources() == sources,
        scene.effect().field().producer() == producer,
        scene.effect().field().setter() == setter,
{
    ReactiveField { effect: FieldEffect::new(sources, producer, setter) }
}

/// Boxes the template of the field.
fn boxed_field<
    V: 'static,
    B: BodyFrom<V, FieldBody<C, T, Src, P, S>> + 'static,
    C: Component<V> + 'static,
    T: 'static,
    Src: ReactiveSources<V, B> + 'static,
    P: Fn(Src::Output) -> T + 'static,
    S: FieldSetter<C, T> + 'static,
>(effect: FieldEffect<C, T, Src, P, S>) -> (boxed: BoxedTemplate<V, B>) where
    Src::Resolved: 'static,

    ensures
        builds_as(boxed, effect),
{
    BoxedTemplate(Box::new(effect))
}

impl<
    V: 'static,
    B: BodyFrom<V, FieldBody<C, T, Src, P, S>> + 'static,
    C: Component<V> + Default + 'static,
    T: 'static,
    Src: ReactiveSources<V, B> + 'static,
    P: Fn(Src::Output) -> T + 'static,
    S: FieldSetter<C, T> + 'static,
> Scene<V, B> for ReactiveField<C, T, Src, P, S> where
    Src::Resolved: 'static,
 {
    open spec fn joins(&self, before: SceneState<V, B>, after: SceneState<V, B>) -> bool {
        exists|middle: SceneState<V, B>| #[trigger]
            before.ensured::<C>(middle) && pushed(middle, self.effect(), after)
    }

    fn resolve(self, scene: &mut ResolvedScene<V, B>) {
        let ghost before = scene@;
        // Make sure `C` itself is part of the scene; the effect mutates it, it does not insert it.
        scene.ensure_template::<C>();
        proof {
            assert(before.ensured::<C>(scene@));
        }
        scene.push_bundle_template(boxed_field(self.effect));
    }
}

/// A deduplicated reactive field as part of a scene. See [`reactive_field_deduped`].
#[verifier::reject_recursive_types(T)]
#[verifier::reject_recursive_types(Src)]
pub struct DedupedReactiveField<C, T, Src: SourcesTypes, P: Fn(Src::Output) -> T, S> {
    effect: DedupedFieldEffect<C, T, Src, P, S>,
}

impl<C, T, Src: SourcesTypes, P: Fn(Src::Output) -> T, S> DedupedReactiveField<C, T, Src, P, S> {
    /// The template that is pushed to the scene.
    pub closed spec fn effect(self) -> DedupedFieldEffect<C, T, Src, P, S> {
        self.effect
    }
}

/// Like [`reactive_field`], but skips the write when the produced value is unchanged.
///
/// Prefer this whenever `T: PartialEq`. Because change ticks bump on any write, a redundant write
/// marks the target component changed and needlessly wakes everything tracking it; deduping cuts
/// that propagation off at the source. See [`DedupedFieldEffect`].
pub fn reactive_field_deduped<C, T, Src: SourcesTypes, P: Fn(Src::Output) -> T, S>(
    sources: Src,
    producer: P,
    setter: S,
) -> (scene: DedupedReactiveField<C, T, Src, P, S>)
    requires
        forall|values: Src::Output| #[trigger] call_requires(producer, (values,)),
    ensures
        scene.effect().field().sources() == sources,
        scene.effect().field().producer() == producer,
        scene.effect().field().setter() == setter,
{
    DedupedReactiveField { effect: DedupedFieldEffect::new(sources, producer, setter) }
}

/// Boxes the template of the field.
fn boxed_deduped<
    V: 'static,
    B: BodyFrom<V, DedupedFieldBody<C, T, Src, P, S>> + 'static,
    C: Component<V> + 'static,
    T: PartialEq + Clone + 'static,
    Src: ReactiveSources<V, B> + 'static,
    P: Fn(Src::Output) -> T + 'static,
    S: FieldSetter<C, T> + 'static,
>(effect: DedupedFieldEffect<C, T, Src, P, S>) -> (boxed: BoxedTemplate<V, B>) where
    Src::Resolved: 'static,
    LastValue<T>: Component<V>,

    ensures
        builds_as(boxed, effect),
{
    BoxedTemplate(Box::new(effect))
}

impl<
    V: 'static,
    B: BodyFrom<V, DedupedFieldBody<C, T, Src, P, S>> + 'static,
    C: Component<V> + Default + 'static,
    T: PartialEq + Clone + 'static,
    Src: ReactiveSources<V, B> + 'static,
    P: Fn(Src::Output) -> T + 'static,
    S: FieldSetter<C, T> + 'static,
> Scene<V, B> for DedupedReactiveField<C, T, Src, P, S> where
    Src::Resolved: 'static,
    LastValue<T>: Component<V>,
 {
    open spec fn joins(&self, before: SceneState<V, B>, after: SceneState<V, B>) -> bool {
        exists|middle: SceneState<V, B>| #[trigger]
            before.ensured::<C>(middle) && pushed(middle, self.effect(), after)
    }

    fn resolve(self, scene: &mut ResolvedScene<V, B>) {
        let ghost before = scene@;
        // Make sure `C` itself is part of the scene; the effect mutates it, it does not insert it.
        scene.ensure_template::<C>();
        proof {
            assert(before.ensured::<C>(scene@));
        }
        scene.push_bundle_template(boxed_deduped(self.effect));
    }
}

} // verus!
