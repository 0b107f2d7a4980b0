//! A fine-grained reactivity system built on entities and change detection.
//!
//! This library provides effects (reactive computations that re-run when the data they read
//! changes) and [`Signal`](signal::Signal)s (reactive values for state that isn't already a
//! component). Both are backed by entities of a [`World`](world::World).
//!
//! ## Sources
//!
//! A reactive *source* is **any component on any entity**, or **any resource**. Effects track them
//! with [`track_component`](context::EffectContext::track_component) and
//! [`track_resource`](context::EffectContext::track_resource), and other code updates them by
//! ordinary mutation. What the library itself puts on entities, such as an effect's
//! [`EffectIndex`](graph::EffectIndex), can be tracked as well. A signal is the special case where the source is a dedicated entity holding a
//! [`SignalValue`](signal::SignalValue).
//!
//! ## Dependency tracking
//!
//! Dependencies are tracked _dynamically_: while an effect body runs, each `track` call records an
//! edge. An effect therefore subscribes only to the sources it actually read on its most recent
//! run. Edges are stored on both ends, [`Subscribers`](graph::Subscribers) by source entity and
//! [`Dependencies`](graph::Dependencies) on the effect entity, and are reconciled after every run.
//! The two are each other's inverse at any time. The lists of subscribers stand beside the
//! entities, so an entity can be tracked before it is spawned.
//!
//! ## Push, pull, and ticks
//!
//! Updates use change ticks as the version counter:
//!
//! - **Push**: [`poll_sources`](flush::poll_sources) scans tracked sources and queues the
//!   subscribers of any whose `changed` tick advanced. This only marks effects as *maybe*-dirty.
//! - **Pull**: before running a queued effect, each of its dependencies' current `changed` tick is
//!   compared against the tick that effect *observed* on its previous run. If nothing advanced, the
//!   run is skipped.
//!
//! Within a flush, effects run in [`EffectIndex`](graph::EffectIndex) order, which is registration
//! order, so a flush is deterministic.
//!
//! The observed tick is captured **after** the effect body completes, not at read time. An effect
//! that writes a component it also reads has, by construction, already observed the consequences of
//! its own write, so its own write can never re-trigger it. Another effect tracking that component
//! still sees the change.
//!
//! ## Contracts
//!
//! [`state`] holds the model that every contract speaks of, and what every world satisfies: among
//! other things, that no effect is stale without being attended to. What holds of the library as a
//! whole is stated in [`laws`], of flushes whose effects do not disturb each other in [`quiet`], and
//! of reactive fields in [`field_laws`]. What a single call does, said of its arguments, its result
//! and what the world holds before and after, is stated in [`world_laws`], [`effect_laws`],
//! [`source_laws`] and [`scene_laws`]. A world stores values of a type `V` of the caller's choice,
//! see [`Component`](component::Component), and runs effects of a type `B`, see
//! [`EffectBody`](context::EffectBody).
pub mod collections;
pub mod component;
pub mod context;
pub mod despawn;
pub mod effect;
pub mod effect_laws;
pub mod field_effect;
pub mod field_laws;
pub mod flush;
pub mod graph;
pub mod id;
pub mod laws;
pub mod lifetime;
pub mod quiet;
pub mod reactive;
pub mod rewire;
pub mod scene;
pub mod scene_laws;
pub mod signal;
pub mod source;
pub mod source_laws;
pub mod state;
pub mod template;
pub mod tick;
pub mod timing;
pub mod tuples;
pub mod world;
pub mod world_laws;
