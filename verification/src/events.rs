//! Collision events as the physics engine reports them, and the rule that
//! picks the entity an event removes.

use crate::entity::Entity;
use crate::layer::{CollisionLayers, Layer};
use vstd::prelude::*;

verus! {

/// One side of a collision: the entity and its layers as they were when the
/// event was emitted.
#[derive(Clone, Copy, Debug, PartialEq, Eq, Structural)]
pub struct CollisionData {
    pub entity: Entity,
    pub layers: CollisionLayers,
}

/// Two bodies began or ceased to overlap.
#[derive(Clone, Copy, Debug, PartialEq, Eq, Structural)]
pub enum CollisionEvent {
    Started(CollisionData, CollisionData),
    Stopped(CollisionData, CollisionData),
}

/// The entity that `event` removes. Only the start of a contact between two
/// sides whose layers interact removes anything: the first side where it is
/// a projectile, else the second side where that is one.
pub open spec fn removal_target(event: CollisionEvent) -> Option<Entity> {
    match event {
        CollisionEvent::Started(a, b) => {
            if !a.layers.interacts(b.layers) {
                None
            } else if a.layers.has_group(Layer::Projectile) {
                Some(a.entity)
            } else if b.layers.has_group(Layer::Projectile) {
                Some(b.entity)
            } else {
                None
            }
        },
        CollisionEvent::Stopped(_, _) => None,
    }
}

/// [`removal_target`] as a function value.
pub open spec fn removal_targets() -> spec_fn(CollisionEvent) -> Option<Entity> {
    |event: CollisionEvent| removal_target(event)
}

impl CollisionData {
    /// One side of a collision.
    pub fn new(entity: Entity, layers: CollisionLayers) -> (r: CollisionData)
        ensures
            r.entity == entity,
            r.layers == layers,
    {
        CollisionData { entity, layers }
    }
}

impl CollisionEvent {
    /// Whether the event reports the start of a contact.
    pub fn is_started(&self) -> (r: bool)
        ensures
            r == (*self is Started),
    {
        match self {
            CollisionEvent::Started(_, _) => true,
            CollisionEvent::Stopped(_, _) => false,
        }
    }

    /// Whether the event reports the end of a contact.
    pub fn is_stopped(&self) -> (r: bool)
        ensures
            r == (*self is Stopped),
    {
        match self {
            CollisionEvent::Started(_, _) => false,
            CollisionEvent::Stopped(_, _) => true,
        }
    }

    /// The entity that this event removes, if any.
    pub fn target(&self) -> (r: Option<Entity>)
        ensures
            r == removal_target(*self),
    {
        match self {
            CollisionEvent::Started(a, b) => {
                if !a.layers.interacts_with(b.layers) {
                    None
                } else if a.layers.contains_group(Layer::Projectile) {
                    Some(a.entity)
                } else if b.layers.contains_group(Layer::Projectile) {
                    Some(b.entity)
                } else {
                    None
                }
            },
            CollisionEvent::Stopped(_, _) => None,
        }
    }
}

} // verus!
