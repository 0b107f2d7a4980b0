//! What holds of reactive fields, stated over the contracts of their functions.
use crate::component::Component;
use crate::context::{ContextState, EffectBody};
use crate::effect::{body_ran, effect_ran, opening, runnable};
use crate::field_effect::{
    deduped_ran, field_ran, produced, remembering, renewed, written, DedupedFieldBody, Field,
    FieldBody, FieldSetter, LastValue,
};
use crate::flush::{flushed, lemma_flushed};
use crate::id::{ComponentId, Entity, Source};
use crate::laws::{law_an_effect_has_seen_its_sources, law_no_effect_is_left_stale};
use crate::rewire::lemma_reconciled;
use crate::signal::{Signal, SignalValue};
use crate::source::ReactiveSources;
use crate::state::{EntityState, WorldState};
use crate::tick::MAX_CHANGE_AGE;
use vstd::prelude::*;
use vstd::std_specs::cmp::PartialEqSpec;

verus! {

/// Writing a reactive field touches one component of one entity, and nothing else: neither other
/// components, nor other entities, nor the graph, nor what the effect depends on.
pub proof fn law_a_field_write_is_surgical<V, B, C: Component<V>, T, S: FieldSetter<C, T>>(
    setter: S,
    target: Entity,
    before: ContextState<V, B>,
    value: T,
    after: ContextState<V, B>,
)
    requires
        written::<V, B, C, T, S>(setter, target, before, value, after),
    ensures
        after == (ContextState { world: after.world, ..before }),
        after.world == (WorldState { entities: after.world.entities, ..before.world }),
        after.world.entities.dom() == before.world.entities.dom(),
        forall|e: Entity| #[trigger]
            before.world.alive(e) ==> after.world.entities[e] == (EntityState {
                components: after.world.entities[e].components,
                ..before.world.entities[e]
            }),
        forall|e: Entity, id: ComponentId|
            before.world.alive(e) && !(e == target && id == C::id()) ==> #[trigger] after.world.changed_tick(
                Source::Component { entity: e, component: id },
            ) == before.world.changed_tick(Source::Component { entity: e, component: id }),
        forall|e: Entity, id: ComponentId|
            before.world.alive(e) && !(e == target && id == C::id())
                && before.world.entities[e].components.contains_key(id)
                ==> #[trigger] after.world.entities[e].components[id]
                == before.world.entities[e].components[id],
{
    assert(after.world.entities.dom() =~= before.world.entities.dom());
}

/// A reactive field that depends on a signal tracks that signal alone, and reading it changes
/// nothing.
pub proof fn law_a_field_of_a_signal_tracks_it_alone<
    V,
    B,
    C,
    T,
    X: Clone + Default,
    P: Fn(X) -> T,
    S,
>(
    field: Field<C, T, Signal<X>, P, S>,
    before: ContextState<V, B>,
    value: T,
    after: ContextState<V, B>,
) where SignalValue<X>: Component<V>
    requires
        before.reads.len() == 0,
        produced::<V, B, C, T, Signal<X>, P, S>(field, (), before, value, after),
    ensures
        after.world == before.world,
        after.reads == seq![
            Source::Component {
                entity: field.sources()@,
                component: <SignalValue<X> as Component<V>>::id(),
            },
        ],
{
    assert(after.reads =~= seq![
        Source::Component {
            entity: field.sources()@,
            component: <SignalValue<X> as Component<V>>::id(),
        },
    ]);
}

/// If a deduplicated field is produced as it was the last time, nothing is written: the run leaves
/// no more behind than reading its sources does, so nothing downstream is woken.
pub proof fn law_an_unchanged_value_is_not_written<
    V,
    B,
    C: Component<V>,
    T: PartialEq + Clone,
    Src: ReactiveSources<V, B>,
    P: Fn(Src::Output) -> T,
    S: FieldSetter<C, T>,
>(
    body: DedupedFieldBody<C, T, Src, P, S>,
    before: ContextState<V, B>,
    after: ContextState<V, B>,
) where LastValue<T>: Component<V>
    requires
        <T as PartialEqSpec>::obeys_eq_spec(),
        body.runs(before, after),
        forall|value: T, middle: ContextState<V, B>| #[trigger]
            produced(body.field, *body.resolved, before, value, middle) ==> match middle.world.value::<
                LastValue<T>,
            >(middle.effect) {
                Some(last) => last.0.eq_spec(&value),
                None => false,
            },
    ensures
        exists|value: T| #[trigger] produced(body.field, *body.resolved, before, value, after),
{
    let (value, middle, same) = choose|value: T, middle: ContextState<V, B>, same: bool| #[trigger]
        deduped_ran(body, before, value, middle, same, after);
    let last = middle.world.value::<LastValue<T>>(middle.effect)->0;
    assert(call_ensures(<T as PartialEq>::eq, (&last.0, &value), same));
    assert(same == last.0.eq_spec(&value));
}

/// If a deduplicated field is not produced as it was the last time, or was never produced before,
/// the value is taken note of and written.
pub proof fn law_a_changed_value_is_written<
    V,
    B,
    C: Component<V>,
    T: PartialEq + Clone,
    Src: ReactiveSources<V, B>,
    P: Fn(Src::Output) -> T,
    S: FieldSetter<C, T>,
>(
    body: DedupedFieldBody<C, T, Src, P, S>,
    before: ContextState<V, B>,
    after: ContextState<V, B>,
) where LastValue<T>: Component<V>
    requires
        <T as PartialEqSpec>::obeys_eq_spec(),
        body.runs(before, after),
        forall|value: T, middle: ContextState<V, B>| #[trigger]
            produced(body.field, *body.resolved, before, value, middle) ==> match middle.world.value::<
                LastValue<T>,
            >(middle.effect) {
                Some(last) => !last.0.eq_spec(&value),
                None => true,
            },
    ensures
        exists|value: T, middle: ContextState<V, B>| #[trigger]
            produced(body.field, *body.resolved, before, value, middle) && renewed(
                body.field.setter(),
                body.target,
                middle,
                value,
                after,
            ),
{
    let (value, middle, same) = choose|value: T, middle: ContextState<V, B>, same: bool| #[trigger]
        deduped_ran(body, before, value, middle, same, after);
    if let Some(last) = middle.world.value::<LastValue<T>>(middle.effect) {
        assert(call_ensures(<T as PartialEq>::eq, (&last.0, &value), same));
        assert(same == last.0.eq_spec(&value));
    }
}

/// One run of a reactive field.
pub struct FieldRun<V, B, T> {
    /// What it starts with.
    pub before: ContextState<V, B>,
    /// What it produces.
    pub value: T,
    /// What reading the sources leaves.
    pub middle: ContextState<V, B>,
    /// Whether a deduplicated field finds the value to be the one that it produced last.
    pub same: bool,
    /// What the run leaves.
    pub after: ContextState<V, B>,
}

/// What a deduplicated field has taken note of.
pub open spec fn kept<V, B, T>(context: ContextState<V, B>) -> Option<T> where
    LastValue<T>: Component<V>,
 {
    match context.world.value::<LastValue<T>>(context.effect) {
        Some(last) => Some(last.0),
        None => None,
    }
}

/// Whether being equal is an equivalence, and copies are equal.
pub open spec fn comparable<T: PartialEq + Clone>() -> bool {
    &&& <T as PartialEqSpec>::obeys_eq_spec()
    &&& forall|a: T| #[trigger] a.eq_spec(&a)
    &&& forall|a: T, b: T| #[trigger] a.eq_spec(&b) ==> b.eq_spec(&a)
    &&& forall|a: T, b: T, c: T| #[trigger]
        a.eq_spec(&b) && #[trigger] b.eq_spec(&c) ==> a.eq_spec(&c)
    &&& forall|a: T, b: T| #[trigger] cloned(a, b) ==> a.eq_spec(&b)
}

/// Whether something was taken note of that equals `value`.
pub open spec fn noted<T: PartialEq>(kept: Option<T>, value: T) -> bool {
    match kept {
        Some(last) => last.eq_spec(&value),
        None => false,
    }
}

/// Whether `runs` may be the runs of the deduplicated field `body`, the first of them the first one
/// ever, as long as its effect lives and nobody else touches what it takes note of.
pub open spec fn deduped_runs<
    V,
    B,
    C: Component<V>,
    T: PartialEq + Clone,
    Src: ReactiveSources<V, B>,
    P: Fn(Src::Output) -> T,
    S: FieldSetter<C, T>,
>(body: DedupedFieldBody<C, T, Src, P, S>, runs: Seq<FieldRun<V, B, T>>) -> bool where
    LastValue<T>: Component<V>,
 {
    forall|k: int|
        0 <= k < runs.len() ==> {
            let run = #[trigger] runs[k];
            &&& deduped_ran(body, run.before, run.value, run.middle, run.same, run.after)
            &&& run.middle.world.alive(run.middle.effect)
            &&& kept::<V, B, T>(run.middle) == if k == 0 {
                None
            } else {
                kept::<V, B, T>(runs[k - 1].after)
            }
        }
}

/// One run of a deduplicated field, given what was taken note of before.
proof fn lemma_deduped_run<
    V,
    B,
    C: Component<V>,
    T: PartialEq + Clone,
    Src: ReactiveSources<V, B>,
    P: Fn(Src::Output) -> T,
    S: FieldSetter<C, T>,
>(body: DedupedFieldBody<C, T, Src, P, S>, run: FieldRun<V, B, T>) where LastValue<T>: Component<V>
    requires
        comparable::<T>(),
        C::id() != <LastValue<T> as Component<V>>::id(),
        deduped_ran(body, run.before, run.value, run.middle, run.same, run.after),
        run.middle.world.alive(run.middle.effect),
    ensures
        run.same == noted(kept::<V, B, T>(run.middle), run.value),
        noted(kept::<V, B, T>(run.after), run.value),
        run.same ==> run.after == run.middle,
        !run.same ==> match run.middle.world.value::<C>(body.target) {
            Some(component) => {
                let source = Source::Component { entity: body.target, component: C::id() };
                &&& run.after.world.value::<C>(body.target) is Some
                &&& body.field.setter().sets(
                    component,
                    run.value,
                    run.after.world.value::<C>(body.target)->0,
                )
                &&& run.after.world.changed_tick(source) == Some(run.middle.world.tick)
            },
            None => run.after.world.value::<C>(body.target) is None,
        },
{
    let middle = run.middle;
    if let Some(last) = middle.world.value::<LastValue<T>>(middle.effect) {
        assert(call_ensures(<T as PartialEq>::eq, (&last.0, &run.value), run.same));
        assert(run.same == last.0.eq_spec(&run.value));
    }
    if !run.same {
        let note = choose|note: T| #[trigger]
            cloned(run.value, note) && written(
                body.field.setter(),
                body.target,
                remembering(middle, note),
                run.value,
                run.after,
            ) && (middle.world.alive(middle.effect) ==> remembering(middle, note).world.value::<
                LastValue<T>,
            >(middle.effect) == Some(LastValue(note)));
        let remembered = remembering(middle, note);
        assert(remembered.world.value::<C>(body.target) == middle.world.value::<C>(body.target));
        assert(run.after.world.value::<LastValue<T>>(middle.effect) == remembered.world.value::<
            LastValue<T>,
        >(middle.effect));
        assert(note.eq_spec(&run.value)) by {
            assert(run.value.eq_spec(&note));
        }
    }
}

/// A deduplicated field is written on a run exactly if that is its first one, or the value differs
/// from the one produced on the run before, whatever the field holds by then. If it is not written,
/// the component and its tick stay as they are. After each run, what is taken note of equals the
/// value just produced.
///
/// This is said of values whose equality is an equivalence.
pub proof fn law_a_deduplicated_field_is_written_when_its_value_changes<
    V,
    B,
    C: Component<V>,
    T: PartialEq + Clone,
    Src: ReactiveSources<V, B>,
    P: Fn(Src::Output) -> T,
    S: FieldSetter<C, T>,
>(body: DedupedFieldBody<C, T, Src, P, S>, runs: Seq<FieldRun<V, B, T>>, k: int) where
    LastValue<T>: Component<V>,

    requires
        comparable::<T>(),
        C::id() != <LastValue<T> as Component<V>>::id(),
        deduped_runs(body, runs),
        0 <= k < runs.len(),
    ensures
        runs[k].same == (k > 0 && runs[k - 1].value.eq_spec(&runs[k].value)),
        noted(kept::<V, B, T>(runs[k].after), runs[k].value),
        runs[k].same ==> runs[k].after == runs[k].middle,
        !runs[k].same ==> match runs[k].middle.world.value::<C>(body.target) {
            Some(component) => {
                let source = Source::Component { entity: body.target, component: C::id() };
                &&& runs[k].after.world.value::<C>(body.target) is Some
                &&& body.field.setter().sets(
                    component,
                    runs[k].value,
                    runs[k].after.world.value::<C>(body.target)->0,
                )
                &&& runs[k].after.world.changed_tick(source) == Some(runs[k].middle.world.tick)
            },
            None => runs[k].after.world.value::<C>(body.target) is None,
        },
    decreases k,
{
    if k > 0 {
        law_a_deduplicated_field_is_written_when_its_value_changes(body, runs, k - 1);
        let last = kept::<V, B, T>(runs[k - 1].after)->0;
        assert(last.eq_spec(&runs[k - 1].value));
        assert(runs[k - 1].value.eq_spec(&last));
        if runs[k - 1].value.eq_spec(&runs[k].value) {
            assert(last.eq_spec(&runs[k].value));
        }
        if last.eq_spec(&runs[k].value) {
            assert(runs[k - 1].value.eq_spec(&runs[k].value));
        }
    }
    lemma_deduped_run(body, runs[k]);
}

/// Whether `setter` only stores the value, where `get` finds it.
pub open spec fn stores<C, T, S: FieldSetter<C, T>>(setter: S, get: spec_fn(C) -> T) -> bool {
    forall|component: C, value: T, changed: C| #[trigger]
        setter.sets(component, value, changed) ==> get(changed) == value
}

/// Whether `target` has a `C` before each of `runs` writes, and nobody else writes its field, which
/// `get` finds.
pub open spec fn undisturbed<V, B, C: Component<V>, T>(
    runs: Seq<FieldRun<V, B, T>>,
    target: Entity,
    get: spec_fn(C) -> T,
) -> bool {
    forall|k: int|
        0 <= k < runs.len() ==> {
            &&& (#[trigger] runs[k]).middle.world.value::<C>(target) is Some
            &&& k > 0 && runs[k - 1].after.world.value::<C>(target) is Some ==> get(
                runs[k].middle.world.value::<C>(target)->0,
            ) == get(runs[k - 1].after.world.value::<C>(target)->0)
        }
}

/// An ordinary field is written on every run: it then holds the value just produced, and is stamped
/// with the tick of that run.
///
/// This is said of setters that only store the value.
pub proof fn law_an_ordinary_field_is_written_on_every_run<
    V,
    B,
    C: Component<V>,
    T,
    Src: ReactiveSources<V, B>,
    P: Fn(Src::Output) -> T,
    S: FieldSetter<C, T>,
>(body: FieldBody<C, T, Src, P, S>, run: FieldRun<V, B, T>, get: spec_fn(C) -> T)
    requires
        stores(body.field.setter(), get),
        field_ran(body, run.before, run.value, run.middle, run.after),
        run.middle.world.value::<C>(body.target) is Some,
    ensures
        run.after.world.value::<C>(body.target) is Some,
        get(run.after.world.value::<C>(body.target)->0) == run.value,
        run.after.world.changed_tick(Source::Component { entity: body.target, component: C::id() })
            == Some(run.middle.world.tick),
{
}

/// A deduplicated field equals the value produced last after every run, as an ordinary one does, also
/// after those on which it is not written. So the two are equal whenever they last produced equal
/// values, however often either was run. They differ in what they wake: if the value stays the same,
/// a deduplicated field keeps its tick, and an ordinary one is stamped anew.
///
/// This is said of values whose equality is an equivalence, of setters that only store the value, and
/// of fields that nobody else writes.
pub proof fn law_deduplication_does_not_change_values<
    V,
    B,
    C: Component<V>,
    T: PartialEq + Clone,
    Src: ReactiveSources<V, B>,
    P: Fn(Src::Output) -> T,
    S: FieldSetter<C, T>,
>(
    deduped: DedupedFieldBody<C, T, Src, P, S>,
    runs: Seq<FieldRun<V, B, T>>,
    k: int,
    ordinary: FieldBody<C, T, Src, P, S>,
    run: FieldRun<V, B, T>,
    get: spec_fn(C) -> T,
) where LastValue<T>: Component<V>
    requires
        comparable::<T>(),
        C::id() != <LastValue<T> as Component<V>>::id(),
        ordinary.field == deduped.field,
        stores(deduped.field.setter(), get),
        deduped_runs(deduped, runs),
        undisturbed(runs, deduped.target, get),
        0 <= k < runs.len(),
        field_ran(ordinary, run.before, run.value, run.middle, run.after),
        run.middle.world.value::<C>(ordinary.target) is Some,
        run.value.eq_spec(&runs[k].value),
    ensures
        ({
            let source = Source::Component { entity: deduped.target, component: C::id() };
            let other_source = Source::Component { entity: ordinary.target, component: C::id() };
            let field = runs[k].after.world.value::<C>(deduped.target);
            let other_field = run.after.world.value::<C>(ordinary.target);
            &&& field is Some
            &&& other_field is Some
            &&& get(field->0).eq_spec(&runs[k].value)
            &&& get(other_field->0) == run.value
            &&& get(field->0).eq_spec(&get(other_field->0))
            &&& k > 0 && runs[k - 1].value.eq_spec(&runs[k].value)
                ==> runs[k].after.world.changed_tick(source) == runs[k].middle.world.changed_tick(source)
            &&& run.after.world.changed_tick(other_source) == Some(run.middle.world.tick)
        }),
{
    law_an_ordinary_field_is_written_on_every_run(ordinary, run, get);
    lemma_deduped_value(deduped, runs, k, get);
    law_a_deduplicated_field_is_written_when_its_value_changes(deduped, runs, k);
    assert(runs[k].value.eq_spec(&run.value));
}

/// After each run, a deduplicated field equals what was produced.
proof fn lemma_deduped_value<
    V,
    B,
    C: Component<V>,
    T: PartialEq + Clone,
    Src: ReactiveSources<V, B>,
    P: Fn(Src::Output) -> T,
    S: FieldSetter<C, T>,
>(
    body: DedupedFieldBody<C, T, Src, P, S>,
    runs: Seq<FieldRun<V, B, T>>,
    k: int,
    get: spec_fn(C) -> T,
) where LastValue<T>: Component<V>
    requires
        comparable::<T>(),
        C::id() != <LastValue<T> as Component<V>>::id(),
        stores(body.field.setter(), get),
        deduped_runs(body, runs),
        undisturbed(runs, body.target, get),
        0 <= k < runs.len(),
    ensures
        runs[k].after.world.value::<C>(body.target) is Some,
        get(runs[k].after.world.value::<C>(body.target)->0).eq_spec(&runs[k].value),
    decreases k,
{
    if k > 0 {
        lemma_deduped_value(body, runs, k - 1, get);
    }
    law_a_deduplicated_field_is_written_when_its_value_changes(body, runs, k);
    assert(runs[k].middle.world.value::<C>(body.target) is Some);
    if runs[k].same {
        assert(runs[k - 1].value.eq_spec(&runs[k].value));
    } else {
        assert(runs[k].value.eq_spec(&runs[k].value));
    }
}

/// Whether the value of `field` follows from what the sources hold that are read for it: reading them
/// twice, while they hold the same, gives equal values.
pub open spec fn follows<V, B, C, T: PartialEq, Src: ReactiveSources<V, B>, P: Fn(Src::Output) -> T, S>(
    field: Field<C, T, Src, P, S>,
    resolved: Src::Resolved,
) -> bool {
    forall|
        before: ContextState<V, B>,
        value: T,
        after: ContextState<V, B>,
        other_before: ContextState<V, B>,
        other_value: T,
        other_after: ContextState<V, B>,
    |
        #[trigger] produced(field, resolved, before, value, after) && #[trigger] produced(
            field,
            resolved,
            other_before,
            other_value,
            other_after,
        ) && (forall|s: Source|
            after.reads.contains(s) ==> #[trigger] after.world.stored_at(s)
                == other_after.world.stored_at(s)) ==> value.eq_spec(&other_value)
}

/// Whether `run` was the last run of `effect` before the world `now`: it left the world `ran`, and
/// from then on the record of the effect stayed, all writes went through change detection, and what is
/// left of its sources did not change too far back to be told apart.
pub open spec fn last_run<V, B: EffectBody<V, B>, T>(
    start: WorldState<V, B>,
    effect: Entity,
    run: FieldRun<V, B, T>,
    ran: WorldState<V, B>,
    now: WorldState<V, B>,
) -> bool {
    &&& start.wf()
    &&& runnable(start, effect)
    &&& run.before == opening(start, effect)
    &&& body_ran(start, effect, run.after)
    &&& run.after.world.tracking(effect)
    &&& ran == run.after.world.reconciled(effect, run.after.reads).ticked()
    &&& run.after.reads == run.middle.reads
    &&& ran.evolves_to(now)
    &&& ran.detects(now)
    &&& now.dependencies_of(effect) == ran.dependencies_of(effect)
    &&& forall|s: Source| #[trigger]
        ran.tracks(effect, s) ==> (now.stored_at(s) matches Some(stored) ==> now.tick.0
            - stored.changed.0 < MAX_CHANGE_AGE)
}

/// Whether what was read on `run` was not written by it.
pub open spec fn leaves_sources<V, B, T>(run: FieldRun<V, B, T>) -> bool {
    forall|s: Source|
        run.middle.reads.contains(s) ==> #[trigger] run.after.world.stored_at(s)
            == run.middle.world.stored_at(s)
}

/// After a flush that is done, the sources of a field hold what its last value was produced from,
/// unless they are gone.
pub proof fn law_a_field_was_produced_from_what_is_there<V, B: EffectBody<V, B>, T>(
    start: WorldState<V, B>,
    effect: Entity,
    run: FieldRun<V, B, T>,
    ran: WorldState<V, B>,
    before: WorldState<V, B>,
    now: WorldState<V, B>,
    source: Source,
)
    requires
        before.wf(),
        before.pending.is_empty(),
        flushed(before, now, true),
        now.young(),
        last_run(start, effect, run, ran, now),
        leaves_sources(run),
        run.middle.reads.contains(source),
    ensures
        now.stored_at(source) == run.middle.world.stored_at(source) || now.stored_at(source) is None,
        ran.stored_at(source) == run.middle.world.stored_at(source),
{
    assert(body_ran(start, effect, run.after) && ran == run.after.world.reconciled(
        effect,
        run.after.reads,
    ).ticked());
    assert(effect_ran(start, effect, ran));
    lemma_flushed(before, now, true);
    law_no_effect_is_left_stale(before, now, effect);
    let closed = run.after.world.reconciled(effect, run.after.reads);
    lemma_reconciled(run.after.world, effect, run.after.reads);
    assert(ran.tracking(effect) == closed.tracking(effect));
    assert(ran.tracked_by(effect) == closed.tracked_by(effect));
    assert(ran.tracks(effect, source));
    law_an_effect_has_seen_its_sources(start, effect, ran, now, source);
    assert(ran.stored_at(source) == run.after.world.stored_at(source));
    assert(run.after.world.stored_at(source) == run.middle.world.stored_at(source));
}

/// After every flush that is done, a deduplicated field and an ordinary one that are made of the same
/// parts hold equal values. Their sources may have died since: a field keeps the value that it was
/// given last.
///
/// This is said of values that follow from what the sources hold and whose equality is an
/// equivalence, of setters that only store the value, of fields that read the same sources, are none
/// of these themselves and are written by nobody else, and of sources that are written through change
/// detection. A source that died must hold the same after the last run of either field: if it was
/// written between the two, the field that ran first had no chance any more to see that.
pub proof fn law_fields_of_the_same_parts_agree_after_a_flush<
    V,
    B: EffectBody<V, B>,
    C: Component<V>,
    T: PartialEq + Clone,
    Src: ReactiveSources<V, B>,
    P: Fn(Src::Output) -> T,
    S: FieldSetter<C, T>,
>(
    deduped: DedupedFieldBody<C, T, Src, P, S>,
    deduped_effect: Entity,
    deduped_start: WorldState<V, B>,
    runs: Seq<FieldRun<V, B, T>>,
    deduped_ran: WorldState<V, B>,
    ordinary: FieldBody<C, T, Src, P, S>,
    ordinary_effect: Entity,
    ordinary_start: WorldState<V, B>,
    run: FieldRun<V, B, T>,
    ordinary_ran: WorldState<V, B>,
    before: WorldState<V, B>,
    now: WorldState<V, B>,
    get: spec_fn(C) -> T,
) where LastValue<T>: Component<V>
    requires
        comparable::<T>(),
        C::id() != <LastValue<T> as Component<V>>::id(),
        ordinary.field == deduped.field,
        *ordinary.resolved == *deduped.resolved,
        follows::<V, B, C, T, Src, P, S>(deduped.field, *deduped.resolved),
        stores(deduped.field.setter(), get),
        deduped_runs(deduped, runs),
        undisturbed(runs, deduped.target, get),
        runs.len() > 0,
        last_run(deduped_start, deduped_effect, runs.last(), deduped_ran, now),
        leaves_sources(runs.last()),
        field_ran(ordinary, run.before, run.value, run.middle, run.after),
        run.middle.world.value::<C>(ordinary.target) is Some,
        last_run(ordinary_start, ordinary_effect, run, ordinary_ran, now),
        leaves_sources(run),
        forall|s: Source| #[trigger] runs.last().middle.reads.contains(s) ==> run.middle.reads.contains(s),
        forall|s: Source|
            runs.last().middle.reads.contains(s) && #[trigger] now.stored_at(s) is None
                ==> deduped_ran.stored_at(s) == ordinary_ran.stored_at(s),
        before.wf(),
        before.pending.is_empty(),
        flushed(before, now, true),
        now.young(),
        now.value::<C>(deduped.target) is Some,
        get(now.value::<C>(deduped.target)->0) == get(
            runs.last().after.world.value::<C>(deduped.target)->0,
        ),
        now.value::<C>(ordinary.target) is Some,
        get(now.value::<C>(ordinary.target)->0) == get(
            run.after.world.value::<C>(ordinary.target)->0,
        ),
    ensures
        get(now.value::<C>(deduped.target)->0).eq_spec(&get(now.value::<C>(ordinary.target)->0)),
        get(now.value::<C>(ordinary.target)->0) == run.value,
{
    let last = runs.last();
    let k = runs.len() - 1;
    assert(runs[k] == last);
    assert(produced(deduped.field, *deduped.resolved, last.before, last.value, last.middle));
    assert(produced(deduped.field, *deduped.resolved, run.before, run.value, run.middle));
    assert forall|s: Source| last.middle.reads.contains(s) implies #[trigger] last.middle.world.stored_at(
        s,
    ) == run.middle.world.stored_at(s) by {
        law_a_field_was_produced_from_what_is_there(
            deduped_start,
            deduped_effect,
            last,
            deduped_ran,
            before,
            now,
            s,
        );
        law_a_field_was_produced_from_what_is_there(
            ordinary_start,
            ordinary_effect,
            run,
            ordinary_ran,
            before,
            now,
            s,
        );
        assert(now.stored_at(s) is None ==> deduped_ran.stored_at(s) == ordinary_ran.stored_at(s));
    }
    assert(last.value.eq_spec(&run.value));
    assert(run.value.eq_spec(&last.value));
    law_deduplication_does_not_change_values(deduped, runs, k, ordinary, run, get);
}

} // verus!
