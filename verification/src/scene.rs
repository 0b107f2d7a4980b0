//! Scenes: descriptions of entities, with ordinary components and with reactive fields.
use crate::component::{Bundle, Component};
use crate::id::{ComponentId, Entity};
use crate::lifetime::{lemma_evolves_refl, lemma_evolves_trans};
use crate::state::{EntityState, WorldState};
use crate::template::{
    all_registered, ScopedEntities, Template, TemplateContext, TemplateError, TemplateState,
};
use crate::world::World;
use vstd::prelude::*;

verus! {

broadcast use {lemma_evolves_refl, lemma_evolves_trans};

/// A boxed [`Template`].
#[verifier::reject_recursive_types(V)]
#[verifier::reject_recursive_types(B)]
pub struct BoxedTemplate<V, B>(pub Box<dyn Template<V, B>>);

/// What a [`ResolvedScene`] holds.
#[verifier::ext_equal]
#[verifier::reject_recursive_types(V)]
#[verifier::reject_recursive_types(B)]
pub struct SceneState<V, B> {
    /// The ordinary components, by their type.
    pub components: Map<ComponentId, V>,
    /// What else takes part in building the entity, in order.
    pub templates: Seq<BoxedTemplate<V, B>>,
}

impl<V, B> SceneState<V, B> {
    /// Whether `after` is the scene once the component `C` is part of it: as it was if it is
    /// already, and with its default otherwise.
    pub open spec fn ensured<C: Component<V> + Default>(self, after: SceneState<V, B>) -> bool {
        if self.components.contains_key(C::id()) {
            after == self
        } else {
            exists|default: C| #[trigger]
                call_ensures(C::default, (), default) && after == (SceneState {
                    components: self.components.insert(C::id(), default.stored()),
                    ..self
                })
        }
    }

    /// The scene with one more template.
    pub open spec fn with_template(self, template: BoxedTemplate<V, B>) -> SceneState<V, B> {
        SceneState { templates: self.templates.push(template), ..self }
    }
}

/// What is to be built for one entity: its ordinary components, and the templates that take part.
#[verifier::reject_recursive_types(V)]
#[verifier::reject_recursive_types(B)]
pub struct ResolvedScene<V, B> {
    components: Bundle<V>,
    templates: Vec<BoxedTemplate<V, B>>,
}

impl<V, B> View for ResolvedScene<V, B> {
    type V = SceneState<V, B>;

    closed spec fn view(&self) -> SceneState<V, B> {
        SceneState { components: self.components@, templates: self.templates@ }
    }
}

impl<V, B> Default for ResolvedScene<V, B> {
    fn default() -> (scene: ResolvedScene<V, B>)
        ensures
            scene.wf(),
            scene@ == (SceneState::<V, B> { components: Map::empty(), templates: Seq::empty() }),
    {
        ResolvedScene { components: Bundle::new(), templates: Vec::new() }
    }
}

impl<V, B> ResolvedScene<V, B> {
    /// No component is there twice.
    pub closed spec fn wf(&self) -> bool {
        self.components.wf()
    }

    /// Makes the component `C` part of the scene, with its default unless it is already.
    pub fn ensure_template<C: Component<V> + Default>(&mut self)
        requires
            old(self).wf(),
        ensures
            final(self).wf(),
            old(self)@.ensured::<C>(final(self)@),
    {
        if self.components.get(C::component_id()).is_none() {
            let default = C::default();
            let ghost given = default;
            self.components.insert(C::component_id(), default.into_stored());
            proof {
                assert(call_ensures(C::default, (), given));
            }
        }
    }

    /// Hands out the component `C` of the scene to be patched, after making it part of the scene
    /// with its default unless it is already.
    pub fn get_or_insert_template<C: Component<V> + Default>(&mut self) -> (component: Option<&mut C>)
        requires
            old(self).wf(),
        ensures
            final(self).wf(),
            exists|middle: SceneState<V, B>| #[trigger]
                old(self)@.ensured::<C>(middle) && match component {
                    Some(c) => {
                        &&& C::held(middle.components[C::id()]) == Some(*c)
                        &&& final(self)@ == (SceneState {
                            components: middle.components.insert(C::id(), (*final(c)).stored()),
                            ..middle
                        })
                    },
                    None => {
                        &&& C::held(middle.components[C::id()]) is None
                        &&& final(self)@ == middle
                    },
                },
    {
        let ghost before = self@;
        self.ensure_template::<C>();
        let ghost middle = self@;
        proof {
            assert(before.ensured::<C>(middle));
        }
        match self.components.get_mut(C::component_id()) {
            Some(value) => match C::held_mut(value) {
                Some(component) => Some(component),
                None => {
                    proof {
                        assert(middle.components.insert(C::id(), middle.components[C::id()])
                            =~= middle.components);
                    }
                    None
                },
            },
            None => None,
        }
    }

    /// Adds a template that takes part in building the entity.
    pub fn push_bundle_template(&mut self, template: BoxedTemplate<V, B>)
        requires
            old(self).wf(),
        ensures
            final(self).wf(),
            final(self)@ == old(self)@.with_template(template),
    {
        self.templates.push(template);
    }
}

/// A description that can be made part of a scene.
pub trait Scene<V, B> {
    /// What becoming part of a scene may do to it. What it is, each description says for itself.
    open spec fn joins(&self, before: SceneState<V, B>, after: SceneState<V, B>) -> bool {
        arbitrary()
    }

    /// Makes this part of `scene`.
    fn resolve(self, scene: &mut ResolvedScene<V, B>) where Self: Sized
        requires
            old(scene).wf(),
        ensures
            final(scene).wf(),
            self.joins(old(scene)@, final(scene)@),
    ;
}

/// Whether building `template`, after those before it ended with `sofar`, may end with `result`:
/// nothing more is built once one has failed.
pub open spec fn builds_next<V, B>(
    template: BoxedTemplate<V, B>,
    sofar: Result<(), TemplateError>,
    before: TemplateState<V, B>,
    result: Result<(), TemplateError>,
    after: TemplateState<V, B>,
) -> bool {
    match sofar {
        Ok(done) => template.0.builds(before, result, after),
        Err(error) => result == sofar && after == before,
    }
}

/// Whether building `templates`, one after the other, may end with `result` and leave the context
/// as `after`.
pub open spec fn all_built<V, B>(
    before: TemplateState<V, B>,
    templates: Seq<BoxedTemplate<V, B>>,
    result: Result<(), TemplateError>,
    after: TemplateState<V, B>,
) -> bool
    decreases templates.len(),
{
    if templates.len() == 0 {
        result is Ok && after == before
    } else {
        exists|sofar: Result<(), TemplateError>, middle: TemplateState<V, B>|
            all_built(before, templates.drop_last(), sofar, middle) && #[trigger] builds_next(
                templates.last(),
                sofar,
                middle,
                result,
                after,
            )
    }
}

/// Whether applying `scene` to `entity` may end with `result`, with the world `after` and with names
/// that stand for `named`. The templates are built, then the components are written together, and
/// then the effects that were queued are registered. If building fails, nothing else is done.
pub open spec fn applied<V, B>(
    scene: SceneState<V, B>,
    before: WorldState<V, B>,
    entity: Entity,
    scoped: Map<u64, Entity>,
    result: Result<(), TemplateError>,
    after: WorldState<V, B>,
    named: Map<u64, Entity>,
) -> bool {
    exists|built: TemplateState<V, B>|
        {
            &&& #[trigger] all_built(
                TemplateState { world: before, entity, scoped, effects: Seq::empty() },
                scene.templates,
                result,
                built,
            )
            &&& named == built.scoped
            &&& match result {
                Ok(done) => all_registered(
                    built.world.with_bundle(entity, scene.components),
                    built.effects,
                    entity,
                    after,
                ),
                Err(error) => after == built.world,
            }
        }
}

/// Builds `templates`, one after the other, until one fails.
fn build_all<V, B>(
    templates: &Vec<BoxedTemplate<V, B>>,
    context: &mut TemplateContext<'_, V, B>,
) -> (result: Result<(), TemplateError>)
    requires
        old(context).wf(),
    ensures
        final(context).wf(),
        *final(final(context).borrow()) == *final(old(context).borrow()),
        old(context)@.world.evolves_to(final(context)@.world),
        all_built(old(context)@, templates@, result, final(context)@),
{
    let ghost before = context@;
    let mut result: Result<(), TemplateError> = Ok(());
    let mut i: usize = 0;
    while i < templates.len()
        invariant
            i <= templates.len(),
            context.wf(),
            *final(context.borrow()) == *final(old(context).borrow()),
            before.world.evolves_to(context@.world),
            all_built(before, templates@.take(i as int), result, context@),
        decreases templates.len() - i,
    {
        let ghost (sofar, middle) = (result, context@);
        if result.is_ok() {
            result = templates[i].0.build_template(context);
        }
        proof {
            let done = templates@.take(i + 1);
            assert(done.drop_last() =~= templates@.take(i as int));
            assert(builds_next(done.last(), sofar, middle, result, context@));
        }
        i += 1;
    }
    proof {
        assert(templates@.take(i as int) =~= templates@);
    }
    result
}

impl<V, B> ResolvedScene<V, B> {
    /// Builds `entity`, where names stand for `scoped`: its components are written together, and
    /// only then are the effects registered, so that what they write to exists.
    pub fn apply(
        self,
        world: &mut World<V, B>,
        entity: Entity,
        scoped: &mut ScopedEntities,
    ) -> (result: Result<(), TemplateError>)
        requires
            self.wf(),
            old(world).wf(),
        ensures
            final(world).wf(),
            old(world)@.evolves_to(final(world)@),
            applied(
                self@,
                old(world)@,
                entity,
                old(scoped)@,
                result,
                final(world)@,
                final(scoped)@,
            ),
    {
        let ghost scene = self@;
        let ghost (before, names) = (world@, scoped@);
        let mut taken = ScopedEntities::default();
        std::mem::swap(&mut taken, scoped);
        let mut context = TemplateContext::new(&mut *world, entity, taken);
        let result = build_all(&self.templates, &mut context);
        let ghost built = context@;
        let mut queued = context.take_effects();
        *scoped = context.into_scoped();
        proof {
            assert(all_built(
                TemplateState { world: before, entity, scoped: names, effects: Seq::empty() },
                scene.templates,
                result,
                built,
            ));
        }
        if result.is_ok() {
            world.insert_bundle(entity, self.components);
            queued.flush(world, entity);
        }
        result
    }
}

/// How spawning an entity ended, apart from which entity it is.
pub open spec fn outcome(spawned: Result<Entity, TemplateError>) -> Result<(), TemplateError> {
    match spawned {
        Ok(entity) => Ok(()),
        Err(error) => Err(error),
    }
}

impl<V, B> World<V, B> {
    /// Spawns an entity built as `scene` says.
    pub fn spawn_scene(&mut self, scene: ResolvedScene<V, B>) -> (entity: Result<Entity, TemplateError>)
        requires
            scene.wf(),
            old(self).wf(),
        ensures
            final(self).wf(),
            old(self)@.evolves_to(final(self)@),
            final(self)@.next > old(self)@.next,
            entity matches Ok(e) ==> e == old(self)@.fresh(),
            exists|named: Map<u64, Entity>| #[trigger]
                applied(
                    scene@,
                    old(self)@.spawned(EntityState::empty()),
                    old(self)@.fresh(),
                    Map::empty(),
                    outcome(entity),
                    final(self)@,
                    named,
                ),
    {
        let ghost described = scene@;
        let entity = self.spawn_empty();
        let ghost before = self@;
        let mut scoped = ScopedEntities::default();
        let result = scene.apply(self, entity, &mut scoped);
        let ghost end = result;
        let spawned = match result {
            Ok(()) => Ok(entity),
            Err(error) => Err(error),
        };
        proof {
            assert(end is Ok ==> end->Ok_0 == ());
            assert(outcome(spawned) == end);
            assert(applied(
                described,
                before,
                entity,
                Map::empty(),
                outcome(spawned),
                self@,
                scoped@,
            ));
        }
        spawned
    }
}

} // verus!
