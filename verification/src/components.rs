//! The typed component values an entity may carry.
//!
//! World geometry uses fixed-point plain values: coordinates in thousandths
//! of one world unit, colours in thousandths of full channel intensity, and
//! rotations as symbolic constructors each of which denotes a unit
//! quaternion.  The render collaborator outside this crate turns them into
//! whatever floating-point form its pipeline wants; the simulation itself
//! never computes with them, so nothing is lost by the fixed-point view.

use vstd::prelude::*;
use crate::timer::{Timer, TimerMode};

verus! {

/// Ticks of simulation time per second in the canonical game.
///
/// Chosen so that every duration and frame delta the prototype uses — one
/// second, half a second, tenths of seconds, 1/60 s and 1/120 s frames — is a
/// whole number of ticks.
pub const TICKS_PER_SECOND: u64 = 120;

/// The tower's firing period: one second.
pub const P_FIRE: u64 = 120;

/// A bullet's lifetime: half a second.
pub const D_LIFE: u64 = 60;

/// A point or vector in thousandths of one world unit.
#[derive(Clone, Copy, PartialEq, Eq, Structural, Debug)]
pub struct Vec3Milli {
    pub x: i64,
    pub y: i64,
    pub z: i64,
}

/// An sRGB colour, each channel in thousandths of full intensity.
#[derive(Clone, Copy, PartialEq, Eq, Structural, Debug)]
pub struct ColorMilli {
    pub red: u32,
    pub green: u32,
    pub blue: u32,
}

/// A rotation the prototype emits.  Every representable rotation denotes a
/// unit quaternion, so the data-model invariant — rotations stay unit — holds
/// by construction.
#[derive(Clone, Copy, PartialEq, Eq, Structural, Debug)]
pub enum Rotation {
    /// The identity rotation.
    Identity,
    /// A rotation about the world Y axis by `quarter_turns` times a quarter
    /// turn (π/2 radians); bullets use minus one quarter turn.
    AboutY { quarter_turns: i32 },
    /// The orientation that looks from the entity's own translation toward
    /// `target`, with world-up along +Y; the camera looks at the origin.
    LookingAt { target: Vec3Milli },
}

/// Translation, rotation and scale of an entity, for the render collaborator.
#[derive(Clone, Copy, PartialEq, Eq, Structural, Debug)]
pub struct Pose {
    pub translation: Vec3Milli,
    pub rotation: Rotation,
    pub scale: Vec3Milli,
}

/// The opaque visual a renderable entity carries; how pixels appear from it
/// is wholly the render collaborator's business.
#[derive(Clone, Copy, PartialEq, Eq, Structural, Debug)]
pub enum Visual {
    /// A flat plane with normal +Y and the given half extents.
    Plane { half_extent_x: i64, half_extent_z: i64, color: ColorMilli },
    /// A solid cuboid of the given edge lengths.
    Cuboid { size: Vec3Milli, color: ColorMilli },
    /// A point light.
    PointLight { intensity: u32, shadows_enabled: bool },
    /// An externally loaded scene; `None` when the asset collaborator could
    /// not resolve it, leaving the entity visually absent but logically
    /// present.
    Scene { handle: Option<u64> },
    /// The camera.
    Camera,
}

/// The display name of an entity, exposed to the inspector collaborator.
#[derive(Clone, Copy, PartialEq, Eq, Structural, Debug)]
pub enum NameTag {
    Tower,
    Bullet,
}

impl NameTag {
    /// The name as a plain string, as the inspector collaborator wants it.
    pub fn as_str(&self) -> (r: &'static str)
        ensures
            self is Tower ==> r@ == "Tower"@,
            self is Bullet ==> r@ == "Bullet"@,
    {
        match self {
            NameTag::Tower => "Tower",
            NameTag::Bullet => "Bullet",
        }
    }
}

/// Marks an entity as a tower and carries its shooting cadence.
#[derive(Clone, Copy, PartialEq, Eq, Structural, Debug)]
pub struct Tower {
    pub shooting_timer: Timer,
}

/// Marks an entity as a bullet and carries its remaining lifetime.
#[derive(Clone, Copy, PartialEq, Eq, Structural, Debug)]
pub struct Lifetime {
    pub timer: Timer,
}

/// The process-wide record of resolved assets, populated once at startup.
#[derive(Clone, Copy, PartialEq, Eq, Structural, Debug)]
pub struct GameAssets {
    /// Opaque handle of the bullet's scene, or `None` when unresolved.
    pub bullet_scene: Option<u64>,
}

/// The fixed pose every bullet is spawned with: translation (0, 0.7, 0.6)
/// world units, a quarter turn about Y in the negative direction, unit scale.
pub open spec fn spec_bullet_pose() -> Pose {
    Pose {
        translation: Vec3Milli { x: 0, y: 700, z: 600 },
        rotation: Rotation::AboutY { quarter_turns: -1i32 },
        scale: Vec3Milli { x: 1000, y: 1000, z: 1000 },
    }
}

/// Builds the fixed bullet spawn pose.
pub fn bullet_pose() -> (p: Pose)
    ensures
        p == spec_bullet_pose(),
{
    Pose {
        translation: Vec3Milli { x: 0, y: 700, z: 600 },
        rotation: Rotation::AboutY { quarter_turns: -1i32 },
        scale: Vec3Milli { x: 1000, y: 1000, z: 1000 },
    }
}

/// The lifetime component a fresh bullet carries: a one-shot timer over
/// [`D_LIFE`] ticks, starting at zero.
pub open spec fn spec_bullet_lifetime() -> Lifetime {
    Lifetime {
        timer: Timer {
            elapsed: 0,
            period: D_LIFE,
            mode: TimerMode::OneShot,
            just_finished: false,
        },
    }
}

/// Builds the lifetime component of a fresh bullet.
pub fn bullet_lifetime() -> (l: Lifetime)
    ensures
        l == spec_bullet_lifetime(),
        l.timer.wf(),
{
    Lifetime { timer: Timer::new(D_LIFE, TimerMode::OneShot) }
}

/// Populates the game-assets record from whatever handle the asset
/// collaborator resolved; an unresolved asset is carried as `None` and the
/// simulation continues.
pub fn asset_loading(bullet_scene: Option<u64>) -> (g: GameAssets)
    ensures
        g == (GameAssets { bullet_scene }),
{
    GameAssets { bullet_scene }
}

} // verus!
