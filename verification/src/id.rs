//! Identifiers: entities, component types, and the reactive sources made of them.
use crate::tick::Tick;
use vstd::prelude::*;
use vstd::seq_lib::lemma_seq_contains_after_push;

verus! {

/// An entity of a [`World`](crate::world::World). Identifiers are handed out in order and never
/// used twice.
#[derive(Copy, Clone, PartialEq, Eq, Hash, Debug, Structural)]
pub struct Entity(pub u64);

/// A component type, or a resource type.
#[derive(Copy, Clone, PartialEq, Eq, Hash, Debug, Structural)]
pub struct ComponentId(pub u64);

/// The identifiers from this one on are kept for the components that the library itself puts on
/// entities. These are sources like any other component.
pub const FIRST_OWN_ID: u64 = 0xffff_ffff_ffff_fff0;

/// The number of the component [`Effect`](crate::graph::Effect).
pub const EFFECT_ID: u64 = 0xffff_ffff_ffff_fff0;

/// The number of the component [`EffectIndex`](crate::graph::EffectIndex).
pub const EFFECT_INDEX_ID: u64 = 0xffff_ffff_ffff_fff1;

/// The number of the component [`EffectOf`](crate::graph::EffectOf).
pub const EFFECT_OF_ID: u64 = 0xffff_ffff_ffff_fff2;

/// The number of the component [`Effects`](crate::graph::Effects).
pub const EFFECTS_ID: u64 = 0xffff_ffff_ffff_fff3;

/// The number of the component [`Dependencies`](crate::graph::Dependencies).
pub const DEPENDENCIES_ID: u64 = 0xffff_ffff_ffff_fff4;

/// The number of the component [`Subscribers`](crate::graph::Subscribers).
pub const SUBSCRIBERS_ID: u64 = 0xffff_ffff_ffff_fff5;

/// A reactive source: something whose change can wake an effect.
#[derive(Copy, Clone, PartialEq, Eq, Hash, Debug, Structural)]
pub enum Source {
    /// A specific component on a specific entity.
    Component {
        /// The entity holding the component.
        entity: Entity,
        /// The component being tracked.
        component: ComponentId,
    },
    /// A resource. Its subscriber list has a place of its own, since there is no entity to list it
    /// under.
    Resource {
        /// The resource being tracked.
        resource: ComponentId,
    },
}

/// A dependency recorded by an effect: a [`Source`], plus the `changed` tick that source had when
/// the effect *finished* its last run.
#[derive(Copy, Clone, Debug)]
pub struct Dependency {
    /// The tracked source.
    pub source: Source,
    /// The source's `changed` tick as of the end of the effect's last run.
    pub observed: Tick,
}

/// The component `component` of `host`, or the resource of that number if there is no host.
pub open spec fn source_at(host: Option<Entity>, component: ComponentId) -> Source {
    match host {
        Some(entity) => Source::Component { entity, component },
        None => Source::Resource { resource: component },
    }
}

/// Returns whether `source` is one of `sources`.
pub fn contains_source(sources: &Vec<Source>, source: Source) -> (found: bool)
    ensures
        found == sources@.contains(source),
{
    let mut i: usize = 0;
    while i < sources.len()
        invariant
            i <= sources.len(),
            forall|j: int| 0 <= j < i ==> sources@[j] != source,
        decreases sources.len() - i,
    {
        if sources[i] == source {
            return true;
        }
        i += 1;
    }
    false
}

/// Returns whether `entity` is one of `entities`.
pub fn contains_entity(entities: &Vec<Entity>, entity: Entity) -> (found: bool)
    ensures
        found == entities@.contains(entity),
{
    let mut i: usize = 0;
    while i < entities.len()
        invariant
            i <= entities.len(),
            forall|j: int| 0 <= j < i ==> entities@[j] != entity,
        decreases entities.len() - i,
    {
        if entities[i] == entity {
            return true;
        }
        i += 1;
    }
    false
}

/// The test for being another entity than `entity`.
pub open spec fn other_than(entity: Entity) -> spec_fn(Entity) -> bool {
    |e: Entity| e != entity
}

/// `entities` without `entity`, the others in their order.
pub open spec fn without(entities: Seq<Entity>, entity: Entity) -> Seq<Entity> {
    entities.filter(other_than(entity))
}

/// What a filter leaves is what was there and passes, each as often as before.
pub proof fn lemma_filtered(entities: Seq<Entity>, passes: spec_fn(Entity) -> bool)
    ensures
        forall|e: Entity| #[trigger]
            entities.filter(passes).contains(e) <==> entities.contains(e) && passes(e),
        entities.no_duplicates() ==> entities.filter(passes).no_duplicates(),
        (forall|e: Entity| #[trigger] entities.contains(e) ==> passes(e)) ==> entities.filter(passes)
            == entities,
    decreases entities.len(),
{
    if entities.len() > 0 {
        let rest = entities.drop_last();
        let last = entities.last();
        lemma_filtered(rest, passes);
        rest.lemma_filter_push(last, passes);
        let kept = rest.filter(passes);
        assert(entities =~= rest.push(last));
        assert forall|e: Entity| #[trigger]
            entities.filter(passes).contains(e) <==> entities.contains(e) && passes(e) by {
            lemma_seq_contains_after_push(rest, last, e);
            lemma_seq_contains_after_push(kept, last, e);
            assert(kept.contains(e) <==> rest.contains(e) && passes(e));
        }
        if entities.no_duplicates() {
            assert(!rest.contains(last));
            assert(!kept.contains(last));
            assert(kept.push(last).no_duplicates());
        }
        if forall|e: Entity| #[trigger] entities.contains(e) ==> passes(e) {
            assert forall|e: Entity| #[trigger] rest.contains(e) implies passes(e) by {
                lemma_seq_contains_after_push(rest, last, e);
                assert(entities.contains(e));
            }
            assert(entities.contains(last));
        }
    } else {
        reveal(Seq::filter);
    }
}

/// What is left without an entity is what was there but for that entity, each as often as before.
pub proof fn lemma_without(entities: Seq<Entity>, entity: Entity)
    ensures
        forall|e: Entity| #[trigger]
            without(entities, entity).contains(e) <==> entities.contains(e) && e != entity,
        entities.no_duplicates() ==> without(entities, entity).no_duplicates(),
        !entities.contains(entity) ==> without(entities, entity) == entities,
{
    lemma_filtered(entities, other_than(entity));
}

/// Taking one more entity out of what a filter leaves is one filter that drops it as well.
pub proof fn lemma_filtered_without(
    entities: Seq<Entity>,
    passes: spec_fn(Entity) -> bool,
    entity: Entity,
    both: spec_fn(Entity) -> bool,
)
    requires
        forall|e: Entity| #[trigger] both(e) == (passes(e) && e != entity),
    ensures
        without(entities.filter(passes), entity) == entities.filter(both),
    decreases entities.len(),
{
    if entities.len() > 0 {
        let rest = entities.drop_last();
        let last = entities.last();
        lemma_filtered_without(rest, passes, entity, both);
        rest.lemma_filter_push(last, passes);
        rest.lemma_filter_push(last, both);
        rest.filter(passes).lemma_filter_push(last, other_than(entity));
        assert(entities =~= rest.push(last));
        assert(both(last) == (passes(last) && last != entity));
    } else {
        reveal(Seq::filter);
    }
}

/// Removes every occurrence of `entity`, keeping the others in their order.
pub fn retain_others(entities: &mut Vec<Entity>, entity: Entity)
    ensures
        final(entities)@ == without(old(entities)@, entity),
{
    let ghost before = entities@;
    let mut kept: Vec<Entity> = Vec::new();
    let mut i: usize = 0;
    while i < entities.len()
        invariant
            i <= entities.len(),
            entities@ == before,
            kept@ == without(before.take(i as int), entity),
        decreases entities.len() - i,
    {
        proof {
            assert(before.take(i + 1) =~= before.take(i as int).push(before[i as int]));
            before.take(i as int).lemma_filter_push(before[i as int], other_than(entity));
        }
        if entities[i] != entity {
            kept.push(entities[i]);
        }
        i += 1;
    }
    proof {
        assert(before.take(i as int) =~= before);
    }
    *entities = kept;
}

} // verus!
