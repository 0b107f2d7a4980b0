//! Signals: reactive values for state that isn't already a component.
use crate::component::{Component, Mut, Stored};
use crate::context::EffectContext;
use crate::id::{ComponentId, Entity, Source};
use crate::state::EntityState;
use crate::world::World;
use std::marker::PhantomData;
use vstd::prelude::*;

verus! {

/// A handle to a reactive value stored on a dedicated entity.
///
/// This is a convenience over tracking a component of an entity, for reactive state that isn't
/// naturally a component. The value lives in a [`SignalValue<T>`] component on
/// [`Signal::entity`]. This handle is [`Copy`] regardless of whether `T` is, so it can be freely
/// captured by effects.
pub struct Signal<T> {
    entity: Entity,
    marker: PhantomData<T>,
}

impl<T> View for Signal<T> {
    type V = Entity;

    closed spec fn view(&self) -> Entity {
        self.entity
    }
}

impl<T> Clone for Signal<T> {
    fn clone(&self) -> (signal: Signal<T>)
        ensures
            signal == *self,
    {
        *self
    }
}

impl<T> Copy for Signal<T> {

}

impl<T> PartialEq for Signal<T> {
    fn eq(&self, other: &Self) -> (equal: bool) {
        self.entity == other.entity
    }
}

impl<T> vstd::std_specs::cmp::PartialEqSpecImpl for Signal<T> {
    open spec fn obeys_eq_spec() -> bool {
        true
    }

    open spec fn eq_spec(&self, other: &Self) -> bool {
        self@ == other@
    }
}

impl<T> Eq for Signal<T> {

}

impl<T> Signal<T> {
    /// Creates a handle for an existing signal entity.
    ///
    /// The caller is responsible for ensuring `entity` actually holds a [`SignalValue<T>`].
    pub fn from_entity(entity: Entity) -> (signal: Signal<T>)
        ensures
            signal@ == entity,
    {
        Signal { entity, marker: PhantomData }
    }

    /// The entity backing this signal.
    pub fn entity(self) -> (entity: Entity)
        ensures
            entity == self@,
    {
        self.entity
    }
}

/// The component holding a [`Signal`]'s current value.
pub struct SignalValue<T>(pub T);

/// A world that holds nothing but signals of one type stores their values as they are.
impl<T> Component<SignalValue<T>> for SignalValue<T> {
    open spec fn id() -> ComponentId {
        ComponentId(0)
    }

    open spec fn stored(self) -> SignalValue<T> {
        self
    }

    open spec fn held(value: SignalValue<T>) -> Option<SignalValue<T>> {
        Some(value)
    }

    fn component_id() -> (id: ComponentId) {
        ComponentId(0)
    }

    fn into_stored(self) -> (value: SignalValue<T>) {
        self
    }

    fn held_ref(value: &SignalValue<T>) -> (component: Option<&SignalValue<T>>) {
        Some(value)
    }

    fn held_mut(value: &mut SignalValue<T>) -> (component: Option<&mut SignalValue<T>>) {
        Some(value)
    }
}

impl<V, B> World<V, B> {
    /// Spawns a new signal entity holding `value` and returns a handle to it.
    pub fn spawn_signal<T>(&mut self, value: T) -> (signal: Signal<T>) where SignalValue<T>: Component<V>
        requires
            old(self).wf(),
        ensures
            final(self).wf(),
            old(self)@.evolves_to(final(self)@),
            signal@ == old(self)@.fresh(),
            final(self)@ == old(self)@.spawned(EntityState::empty()).with_component(
                signal@,
                <SignalValue<T> as Component<V>>::id(),
                Stored { value: SignalValue(value).stored(), changed: old(self)@.tick },
            ),
            final(self)@.value::<SignalValue<T>>(signal@) == Some(SignalValue(value)),
    {
        let entity = self.spawn(SignalValue(value));
        Signal::from_entity(entity)
    }

    /// Reads a signal's current value _without_ recording a dependency.
    ///
    /// Inside an effect, prefer [`EffectContext::track`], which subscribes the effect to the
    /// signal. Returns `None` if the signal entity has been despawned.
    pub fn signal<T>(&self, signal: Signal<T>) -> (value: Option<&T>) where SignalValue<T>: Component<V>
        requires
            self.sound(),
        ensures
            match value {
                Some(v) => self@.value::<SignalValue<T>>(signal@) == Some(SignalValue(*v)),
                None => self@.value::<SignalValue<T>>(signal@) is None,
            },
    {
        match self.get::<SignalValue<T>>(signal.entity()) {
            Some(value) => Some(&value.0),
            None => None,
        }
    }

    /// Mutably accesses a signal's value.
    ///
    /// The signal is marked changed only if it is written through the returned guard, so a
    /// read-only inspection does not wake subscribers. Subscribed effects do not run until
    /// [`World::run_effects`] is called. Returns `None` if the signal entity has been despawned.
    pub fn signal_mut<T>(&mut self, signal: Signal<T>) -> (value: Option<Mut<'_, T>>) where
        SignalValue<T>: Component<V>,

        requires
            old(self).wf(),
        ensures
            match value {
                Some(m) => {
                    &&& *final(m.changed) == *m.changed || *final(m.changed) == m.this_run
                        ==> final(self).wf() && old(self)@.evolves_to(final(self)@)
                    &&& old(self)@.value::<SignalValue<T>>(signal@) == Some(SignalValue(*m.value))
                    &&& *m.changed == old(self)@.entities[signal@].components[<SignalValue<
                        T,
                    > as Component<V>>::id()].changed
                    &&& m.this_run == old(self)@.tick
                    &&& final(self)@ == old(self)@.with_component(
                        signal@,
                        <SignalValue<T> as Component<V>>::id(),
                        Stored {
                            value: SignalValue(*final(m.value)).stored(),
                            changed: *final(m.changed),
                        },
                    )
                    &&& final(self)@.value::<SignalValue<T>>(signal@) == Some(
                        SignalValue(*final(m.value)),
                    )
                },
                None => {
                    &&& old(self)@.value::<SignalValue<T>>(signal@) is None
                    &&& final(self)@ == old(self)@
                    &&& final(self).wf()
                },
            },
    {
        match self.get_mut::<SignalValue<T>>(signal.entity()) {
            Some(guard) => Some(
                Mut { value: &mut guard.value.0, changed: guard.changed, this_run: guard.this_run },
            ),
            None => None,
        }
    }
}

impl<'w, V, B> EffectContext<'w, V, B> {
    /// Reads `signal`'s current value and records a dependency on it.
    ///
    /// Returns `None` if the signal entity has been despawned.
    pub fn track<T: Clone>(&mut self, signal: Signal<T>) -> (value: Option<T>) where
        SignalValue<T>: Component<V>,

        requires
            old(self).wf(),
        ensures
            final(self).wf(),
            final(self)@ == old(self)@.with(
                Source::Component {
                    entity: signal@,
                    component: <SignalValue<T> as Component<V>>::id(),
                },
            ),
            *final(final(self).borrow()) == *final(old(self).borrow()),
            match value {
                Some(v) => {
                    &&& old(self)@.world.value::<SignalValue<T>>(signal@) is Some
                    &&& cloned((old(self)@.world.value::<SignalValue<T>>(signal@)->0).0, v)
                },
                None => old(self)@.world.value::<SignalValue<T>>(signal@) is None,
            },
    {
        let component = <SignalValue<T> as Component<V>>::component_id();
        self.track_source(Source::Component { entity: signal.entity(), component });
        match self.world().get::<SignalValue<T>>(signal.entity()) {
            Some(value) => Some(value.0.clone()),
            None => None,
        }
    }
}

} // verus!
