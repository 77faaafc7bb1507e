//! Core simulation of a minimal tower-defense prototype.
//!
//! A stationary tower fires a bullet once per second; each bullet lives for
//! half a second and is then removed, together with any child entities its
//! visual representation acquired.  The library holds the three pieces worth
//! reasoning about: the timer primitive that drives both cadences, the entity
//! store with deferred spawn/despawn commands, and the per-frame systems that
//! connect them.  Rendering, windowing, asset loading and the frame clock are
//! engine facilities outside this crate; they exchange plain values (ticks,
//! fixed-point coordinates, opaque handles) with the functions here.

pub mod components;
pub mod store;
pub mod systems;
pub mod timer;
