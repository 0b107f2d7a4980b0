//! Proofs about the subscription graph: what reconciling does to both ends of every edge.
use crate::graph::sources_of;
use crate::id::{lemma_without, Entity, Source};
use crate::lifetime::{lemma_evolves, lemma_same_lives};
use crate::state::{enlisted, relisted, WorldState};
use crate::timing::{lemma_same_time, up_to_date};
use vstd::prelude::*;
use vstd::seq_lib::lemma_seq_contains_after_push;

verus! {

/// A list that an effect was put on, or taken off, holds the others as before.
pub proof fn lemma_relisted(list: Seq<Entity>, is_read: bool, effect: Entity)
    ensures
        forall|e: Entity| #[trigger]
            relisted(list, is_read, effect).contains(e) <==> if e == effect {
                is_read
            } else {
                list.contains(e)
            },
        list.no_duplicates() ==> relisted(list, is_read, effect).no_duplicates(),
{
    lemma_without(list, effect);
    assert forall|e: Entity| #[trigger] enlisted(list, effect).contains(e) <==> list.contains(e) || e
        == effect by {
        lemma_seq_contains_after_push(list, effect, e);
    }
}

/// The sources of what is observed are the sources that were read.
pub proof fn lemma_observed<V, B>(w: WorldState<V, B>, reads: Seq<Source>)
    ensures
        sources_of(w.observed(reads)) == reads,
{
    assert(sources_of(w.observed(reads)) =~= reads);
}

/// Reconciling changes what one effect tracks, and nothing that was there before it.
pub proof fn lemma_reconciled<V, B>(w: WorldState<V, B>, effect: Entity, reads: Seq<Source>)
    requires
        w.tracking(effect),
    ensures
        ({
            let after = w.reconciled(effect, reads);
            &&& w.same_lives(after)
            &&& forall|e: Entity| #[trigger] after.alive(e) == w.alive(e)
            &&& forall|e: Entity| #[trigger] after.tracking(e) == w.tracking(e)
            &&& forall|s: Source| #[trigger]
                after.changed_tick(s) == w.changed_tick(s) || after.changed_tick(s) == Some(w.tick)
            &&& forall|s: Source| #[trigger]
                after.changed_tick(s) == w.linked(effect, reads).changed_tick(s)
            &&& forall|s: Source| #[trigger] after.stored_at(s) == w.stored_at(s)
            &&& forall|e: Entity| #[trigger]
                after.dependencies_of(e) == if e == effect {
                    w.linked(effect, reads).observed(reads)
                } else {
                    w.dependencies_of(e)
                }
            &&& forall|e: Entity| #[trigger]
                after.tracked_by(e) == if e == effect {
                    reads
                } else {
                    w.tracked_by(e)
                }
        }),
{
    let after = w.reconciled(effect, reads);
    assert(after.entities.dom() =~= w.entities.dom());
    assert(w.same_lives(after));
    lemma_same_lives(w, after);
    let linked = w.linked(effect, reads);
    lemma_observed(linked, reads);
    assert forall|e: Entity| #[trigger] linked.alive(e) == w.alive(e) by {}
    assert forall|s: Source| #[trigger] after.changed_tick(s) == linked.changed_tick(s) by {
        if let Source::Component { entity, component } = s {
            assert(after.alive(entity) == linked.alive(entity));
        }
    }
    assert forall|s: Source| #[trigger] after.stored_at(s) == w.stored_at(s) by {
        if let Source::Component { entity, component } = s {
            assert(after.alive(entity) == w.alive(entity));
        }
    }
    assert forall|s: Source|
        #[trigger] after.changed_tick(s) == w.changed_tick(s) || after.changed_tick(s) == Some(w.tick) by {
        if let Source::Component { entity, component } = s {
            assert(after.alive(entity) == w.alive(entity));
        }
    }
    assert forall|e: Entity| #[trigger] after.tracked_by(e) == if e == effect {
        reads
    } else {
        w.tracked_by(e)
    } by {
        assert(after.dependencies_of(e) == if e == effect {
            linked.observed(reads)
        } else {
            w.dependencies_of(e)
        });
    }
}

/// What was just observed has not changed since.
pub proof fn lemma_observed_now<V, B>(w: WorldState<V, B>, effect: Entity, reads: Seq<Source>, i: int)
    requires
        w.tracking(effect),
        0 <= i < reads.len(),
    ensures
        ({
            let after = w.reconciled(effect, reads);
            &&& !after.dependency_advanced(after.dependencies_of(effect)[i])
            &&& !after.ticked().dependency_advanced(after.dependencies_of(effect)[i])
        }),
{
    lemma_reconciled(w, effect, reads);
    let after = w.reconciled(effect, reads);
    let source = reads[i];
    assert(after.dependencies_of(effect)[i].source == source);
    assert(after.changed_tick(source) == w.linked(effect, reads).changed_tick(source));
    assert(after.ticked().changed_tick(source) == after.changed_tick(source));
}

/// Reconciling keeps the world in order: afterwards the effect is subscribed to exactly what it
/// read, its record says the same, and it is up to date.
pub proof fn lemma_reconciled_wf<V, B>(w: WorldState<V, B>, effect: Entity, reads: Seq<Source>)
    requires
        w.wf(),
        reads.no_duplicates(),
    ensures
        w.reconciled(effect, reads).wf(),
        w.evolves_to(w.reconciled(effect, reads)),
{
    let after = w.reconciled(effect, reads);
    if w.tracking(effect) {
        lemma_reconciled(w, effect, reads);
        lemma_same_lives(w, after);
        lemma_evolves(w, after);
        assert(after.lists_wf()) by {
            assert forall|s: Source| (#[trigger] after.subscribers_of(s)).no_duplicates() by {
                lemma_relisted(w.subscribers_of(s), reads.contains(s), effect);
                assert(w.subscribers_of(s).no_duplicates());
            }
        }
        assert(after.dependencies_wf()) by {
            assert forall|e: Entity| (#[trigger] after.tracked_by(e)).no_duplicates() by {
                assert(w.tracked_by(e).no_duplicates());
            }
            assert forall|e: Entity| #[trigger] after.tracking(e) implies after.entities[e].effect
                is Some by {
                assert(w.tracking(e));
            }
        }
        assert(after.inverse_wf()) by {
            assert forall|e: Entity, s: Source|
                #![trigger after.tracks(e, s)]
                #![trigger after.subscribers_of(s).contains(e)]
                after.subscribers_of(s).contains(e) <==> after.tracks(e, s) by {
                lemma_relisted(w.subscribers_of(s), reads.contains(s), effect);
                assert(relisted(w.subscribers_of(s), reads.contains(s), effect).contains(e)
                    == after.subscribers_of(s).contains(e));
                assert(w.subscribers_of(s).contains(e) <==> w.tracks(e, s));
                assert(after.tracking(e) == w.tracking(e));
                assert(after.tracked_by(e) == after.tracked_by(e));
            }
        }
        if w.young() {
            assert forall|e: Entity|
                #[trigger] after.dependencies_of(e) == w.dependencies_of(e) || up_to_date(after, e) by {
                if e == effect {
                    assert forall|i: int| 0 <= i < after.dependencies_of(e).len() implies after.plausible(
                        #[trigger] after.dependencies_of(e)[i],
                    ) && !after.dependency_advanced(after.dependencies_of(e)[i]) by {
                        lemma_observed_now(w, effect, reads, i);
                        assert(after.dependencies_of(e)[i].source == reads[i]);
                        assert(after.changed_tick(reads[i]) == w.linked(effect, reads).changed_tick(
                            reads[i],
                        ));
                        assert(after.changed_tick(reads[i]) == w.changed_tick(reads[i])
                            || after.changed_tick(reads[i]) == Some(w.tick));
                        assert(w.changed_tick(reads[i]) matches Some(changed) ==> changed.0
                            <= w.tick.0);
                    }
                }
            }
        }
        lemma_same_time(w, after);
    } else {
        lemma_evolves(w, after);
    }
}

} // verus!
