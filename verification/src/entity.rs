//! Entities and the data attached to them.

use crate::cooldown::Cooldown;
use crate::layer::{CollisionLayers, Layer};
use crate::vector::Vec2;
use vstd::prelude::*;

verus! {

/// Distance the player covers per millisecond, in thousandths of a unit.
pub const PLAYER_SPEED: u64 = 250;

/// Speed of the enemy, in thousandths of a unit per second.
pub const ENEMY_SPEED: u32 = 100_000;

/// Speed of a projectile, in thousandths of a unit per second.
pub const PROJECTILE_SPEED: u32 = 300_000;

/// Milliseconds a projectile lives.
pub const PROJECTILE_LIFETIME: u32 = 1_000;

/// Milliseconds between two shots of the player.
pub const FIRING_PERIOD: u32 = 1_000;

/// Width and height of the player and of the enemy.
pub const BODY_SCALE: i32 = 40_000;

/// Half the width and height of the collision box of the player and of the
/// enemy.
pub const BODY_HALF_EXTENT: i32 = 20_000;

/// Width and height of a projectile.
pub const PROJECTILE_SCALE: i32 = 5_000;

/// Radius of the collision shape of a projectile.
pub const PROJECTILE_RADIUS: i32 = 2_500;

/// Where the enemy starts on the x axis.
pub const ENEMY_START_X: i32 = 600_000;

/// An opaque, stable identifier of an entity. A store hands each identifier
/// out once and never again.
#[derive(Clone, Copy, Debug, PartialEq, Eq, Hash, Structural)]
pub struct Entity {
    pub id: u64,
}

/// How a body is moved.
#[derive(Clone, Copy, Debug, PartialEq, Eq, Structural)]
pub enum MotionKind {
    Static,
    KinematicPosition,
    KinematicVelocity,
    Dynamic,
}

/// The shape that the physics engine tests for overlap.
#[derive(Clone, Copy, Debug, PartialEq, Eq, Structural)]
pub enum Shape {
    Cuboid { half_extents: Vec2 },
    Sphere { radius: i32 },
}

/// The colour an entity is drawn in.
#[derive(Clone, Copy, Debug, PartialEq, Eq, Structural)]
pub enum Tint {
    Green,
    Red,
    Blue,
}

/// Where a body is, how large it is drawn, what shape collides, and how it
/// moves.
#[derive(Clone, Copy, Debug, PartialEq, Eq, Structural)]
pub struct SpatialBody {
    pub position: Vec2,
    pub scale: i32,
    pub shape: Shape,
    pub motion: MotionKind,
}

/// What an entity is in the game, with the state that belongs to that.
#[derive(Clone, Copy, Debug, PartialEq, Eq, Structural)]
pub enum Role {
    Player { cooldown: Cooldown },
    Enemy,
    Projectile { remaining: u32 },
}

/// Everything attached to one entity.
#[derive(Clone, Copy, Debug, PartialEq, Eq, Structural)]
pub struct Components {
    pub body: SpatialBody,
    pub velocity: Vec2,
    pub layers: CollisionLayers,
    pub tint: Tint,
    pub role: Role,
}

/// An entity together with what is attached to it.
#[derive(Clone, Copy, Debug, PartialEq, Eq, Structural)]
pub struct Record {
    pub entity: Entity,
    pub components: Components,
}

/// Why an entity is to be removed.
#[derive(Clone, Copy, Debug, PartialEq, Eq, Structural)]
pub enum Reason {
    Collision,
    Expired,
}

/// A queued request to remove an entity.
#[derive(Clone, Copy, Debug, PartialEq, Eq, Structural)]
pub struct RemovalRequest {
    pub entity: Entity,
    pub reason: Reason,
}

/// The components of a player at `position`: a body moved by position, in
/// the player layer, with a fresh firing cooldown.
pub open spec fn player_at(position: Vec2) -> Components {
    Components {
        body: SpatialBody {
            position,
            scale: BODY_SCALE,
            shape: Shape::Cuboid {
                half_extents: Vec2 { x: BODY_HALF_EXTENT, y: BODY_HALF_EXTENT },
            },
            motion: MotionKind::KinematicPosition,
        },
        velocity: Vec2 { x: 0, y: 0 },
        layers: CollisionLayers { groups: 2u32, masks: 1u32 },
        tint: Tint::Green,
        role: Role::Player { cooldown: Cooldown { elapsed: 0, period: FIRING_PERIOD } },
    }
}

/// The components of an enemy at `position`: a dynamic body at rest, in the
/// enemy layer.
pub open spec fn enemy_at(position: Vec2) -> Components {
    Components {
        body: SpatialBody {
            position,
            scale: BODY_SCALE,
            shape: Shape::Cuboid {
                half_extents: Vec2 { x: BODY_HALF_EXTENT, y: BODY_HALF_EXTENT },
            },
            motion: MotionKind::Dynamic,
        },
        velocity: Vec2 { x: 0, y: 0 },
        layers: CollisionLayers { groups: 1u32, masks: 7u32 },
        tint: Tint::Red,
        role: Role::Enemy,
    }
}

/// The components of a projectile fired from `position` with `velocity`: a
/// body moved by velocity, in the projectile layer, with its full lifetime
/// ahead.
pub open spec fn projectile_at(position: Vec2, velocity: Vec2) -> Components {
    Components {
        body: SpatialBody {
            position,
            scale: PROJECTILE_SCALE,
            shape: Shape::Sphere { radius: PROJECTILE_RADIUS },
            motion: MotionKind::KinematicVelocity,
        },
        velocity,
        layers: CollisionLayers { groups: 4u32, masks: 1u32 },
        tint: Tint::Blue,
        role: Role::Projectile { remaining: PROJECTILE_LIFETIME },
    }
}

impl Entity {
    /// The entity with the given identifier.
    pub fn from_bits(bits: u64) -> (r: Entity)
        ensures
            r.id == bits,
    {
        Entity { id: bits }
    }

    /// The identifier of this entity.
    pub fn to_bits(self) -> (r: u64)
        ensures
            r == self.id,
    {
        self.id
    }
}

impl Components {
    /// Whether these are the components of a player.
    pub open spec fn is_player(self) -> bool {
        self.role is Player
    }

    /// Whether these are the components of an enemy.
    pub open spec fn is_enemy(self) -> bool {
        self.role is Enemy
    }

    /// Whether these are the components of a projectile.
    pub open spec fn is_projectile(self) -> bool {
        self.role is Projectile
    }

    /// The components of a player at `position`.
    pub fn player(position: Vec2) -> (r: Components)
        ensures
            r == player_at(position),
    {
        Components {
            body: SpatialBody {
                position,
                scale: BODY_SCALE,
                shape: Shape::Cuboid {
                    half_extents: Vec2 { x: BODY_HALF_EXTENT, y: BODY_HALF_EXTENT },
                },
                motion: MotionKind::KinematicPosition,
            },
            velocity: Vec2 { x: 0, y: 0 },
            layers: Layer::player(),
            tint: Tint::Green,
            role: Role::Player { cooldown: Cooldown { elapsed: 0, period: FIRING_PERIOD } },
        }
    }

    /// The components of an enemy at `position`.
    pub fn enemy(position: Vec2) -> (r: Components)
        ensures
            r == enemy_at(position),
    {
        Components {
            body: SpatialBody {
                position,
                scale: BODY_SCALE,
                shape: Shape::Cuboid {
                    half_extents: Vec2 { x: BODY_HALF_EXTENT, y: BODY_HALF_EXTENT },
                },
                motion: MotionKind::Dynamic,
            },
            velocity: Vec2 { x: 0, y: 0 },
            layers: Layer::enemy(),
            tint: Tint::Red,
            role: Role::Enemy,
        }
    }

    /// The components of a projectile fired from `position` with `velocity`.
    pub fn projectile(position: Vec2, velocity: Vec2) -> (r: Components)
        ensures
            r == projectile_at(position, velocity),
    {
        Components {
            body: SpatialBody {
                position,
                scale: PROJECTILE_SCALE,
                shape: Shape::Sphere { radius: PROJECTILE_RADIUS },
                motion: MotionKind::KinematicVelocity,
            },
            velocity,
            layers: Layer::projectile(),
            tint: Tint::Blue,
            role: Role::Projectile { remaining: PROJECTILE_LIFETIME },
        }
    }
}

} // verus!
