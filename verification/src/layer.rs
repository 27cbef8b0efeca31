//! Collision layers: the group an entity belongs to and the groups it may
//! collide with, held as bit sets.

use vstd::prelude::*;

verus! {

/// The kinds of body that take part in collisions.
#[derive(Clone, Copy, Debug, PartialEq, Eq, Structural)]
pub enum Layer {
    Enemy,
    Player,
    Projectile,
}

/// The groups an entity is in and the groups it collides with, one bit per
/// [`Layer`].
#[derive(Clone, Copy, Debug, PartialEq, Eq, Structural)]
pub struct CollisionLayers {
    pub groups: u32,
    pub masks: u32,
}

/// Asks the physics engine whether two layer descriptions interact.
///
/// Calls `heron::CollisionLayers::from_bits` on each pair of bit sets and then
/// `heron::CollisionLayers::interacts_with`. The contract restates that
/// method: the first side's groups meet the second side's masks, and the
/// second side's groups meet the first side's masks.
#[verifier::external_body]
fn engine_interacts(groups_a: u32, masks_a: u32, groups_b: u32, masks_b: u32) -> (r: bool)
    ensures
        r == ((groups_a & masks_b) != 0 && (groups_b & masks_a) != 0),
{
    heron::CollisionLayers::from_bits(groups_a, masks_a)
        .interacts_with(heron::CollisionLayers::from_bits(groups_b, masks_b))
}

impl Layer {
    /// The bit that stands for this layer.
    pub open spec fn bit(self) -> u32 {
        match self {
            Layer::Enemy => 1u32,
            Layer::Player => 2u32,
            Layer::Projectile => 4u32,
        }
    }

    /// The bit that stands for this layer.
    pub fn to_bits(self) -> (r: u32)
        ensures
            r == self.bit(),
    {
        match self {
            Layer::Enemy => 1u32,
            Layer::Player => 2u32,
            Layer::Projectile => 4u32,
        }
    }

    /// The bits of all layers together.
    pub fn all_bits() -> (r: u32)
        ensures
            r == 7u32,
            forall|l: Layer| r & l.bit() == l.bit(),
    {
        assert(7u32 & 1u32 == 1u32 && 7u32 & 2u32 == 2u32 && 7u32 & 4u32 == 4u32) by (bit_vector);
        7u32
    }

    /// Layers of an enemy: in the enemy group, colliding with every group.
    pub fn enemy() -> (r: CollisionLayers)
        ensures
            r == CollisionLayers::empty().add_group(Layer::Enemy).add_mask(Layer::Player).add_mask(
                Layer::Enemy,
            ).add_mask(Layer::Projectile),
            r.groups == 1u32,
            r.masks == 7u32,
            forall|l: Layer| r.has_group(l) <==> l == Layer::Enemy,
            forall|l: Layer| r.has_mask(l),
    {
        let r = CollisionLayers::none().with_group(Layer::Enemy).with_mask(Layer::Player).with_mask(
            Layer::Enemy,
        ).with_mask(Layer::Projectile);
        proof {
            lemma_layer_bits();
        }
        r
    }

    /// Layers of the player: in the player group, colliding with enemies.
    pub fn player() -> (r: CollisionLayers)
        ensures
            r == CollisionLayers::empty().add_group(Layer::Player).add_mask(Layer::Enemy),
            r.groups == 2u32,
            r.masks == 1u32,
            forall|l: Layer| r.has_group(l) <==> l == Layer::Player,
            forall|l: Layer| r.has_mask(l) <==> l == Layer::Enemy,
    {
        let r = CollisionLayers::none().with_group(Layer::Player).with_mask(Layer::Enemy);
        proof {
            lemma_layer_bits();
        }
        r
    }

    /// Layers of a projectile: in the projectile group, colliding with
    /// enemies.
    pub fn projectile() -> (r: CollisionLayers)
        ensures
            r == CollisionLayers::empty().add_group(Layer::Projectile).add_mask(Layer::Enemy),
            r.groups == 4u32,
            r.masks == 1u32,
            forall|l: Layer| r.has_group(l) <==> l == Layer::Projectile,
            forall|l: Layer| r.has_mask(l) <==> l == Layer::Enemy,
    {
        let r = CollisionLayers::none().with_group(Layer::Projectile).with_mask(Layer::Enemy);
        proof {
            lemma_layer_bits();
        }
        r
    }
}

/// The bit arithmetic on the three layer bits that the layer constructors
/// rest on.
proof fn lemma_layer_bits()
    ensures
        0u32 | 1u32 == 1u32,
        0u32 | 2u32 == 2u32,
        0u32 | 4u32 == 4u32,
        2u32 | 1u32 == 3u32,
        3u32 | 4u32 == 7u32,
        1u32 & 1u32 == 1u32,
        1u32 & 2u32 == 0u32,
        1u32 & 4u32 == 0u32,
        2u32 & 1u32 == 0u32,
        2u32 & 2u32 == 2u32,
        2u32 & 4u32 == 0u32,
        4u32 & 1u32 == 0u32,
        4u32 & 2u32 == 0u32,
        4u32 & 4u32 == 4u32,
        7u32 & 1u32 == 1u32,
        7u32 & 2u32 == 2u32,
        7u32 & 4u32 == 4u32,
{
    assert(0u32 | 1u32 == 1u32 && 0u32 | 2u32 == 2u32 && 0u32 | 4u32 == 4u32 && 2u32 | 1u32 == 3u32
        && 3u32 | 4u32 == 7u32) by (bit_vector);
    assert(1u32 & 1u32 == 1u32 && 1u32 & 2u32 == 0u32 && 1u32 & 4u32 == 0u32 && 2u32 & 1u32 == 0u32
        && 2u32 & 2u32 == 2u32 && 2u32 & 4u32 == 0u32 && 4u32 & 1u32 == 0u32 && 4u32 & 2u32 == 0u32
        && 4u32 & 4u32 == 4u32 && 7u32 & 1u32 == 1u32 && 7u32 & 2u32 == 2u32 && 7u32 & 4u32
        == 4u32) by (bit_vector);
}

impl CollisionLayers {
    /// No group and no mask.
    pub open spec fn empty() -> CollisionLayers {
        CollisionLayers { groups: 0u32, masks: 0u32 }
    }

    /// These layers with `layer` added to the groups.
    pub open spec fn add_group(self, layer: Layer) -> CollisionLayers {
        CollisionLayers { groups: self.groups | layer.bit(), masks: self.masks }
    }

    /// These layers with `layer` added to the masks.
    pub open spec fn add_mask(self, layer: Layer) -> CollisionLayers {
        CollisionLayers { groups: self.groups, masks: self.masks | layer.bit() }
    }

    /// Whether `layer` is among the groups.
    pub open spec fn has_group(self, layer: Layer) -> bool {
        self.groups & layer.bit() != 0
    }

    /// Whether `layer` is among the masks.
    pub open spec fn has_mask(self, layer: Layer) -> bool {
        self.masks & layer.bit() != 0
    }

    /// Whether bodies with these layers and with `other` are allowed to
    /// collide: each side's groups meet the other side's masks.
    pub open spec fn interacts(self, other: CollisionLayers) -> bool {
        (self.groups & other.masks) != 0 && (other.groups & self.masks) != 0
    }

    /// Layers with no group and no mask: they interact with nothing.
    pub fn none() -> (r: CollisionLayers)
        ensures
            r == CollisionLayers::empty(),
    {
        CollisionLayers { groups: 0u32, masks: 0u32 }
    }

    /// Layers with the given group bits and mask bits.
    pub fn from_bits(groups: u32, masks: u32) -> (r: CollisionLayers)
        ensures
            r.groups == groups,
            r.masks == masks,
    {
        CollisionLayers { groups, masks }
    }

    /// Adds `layer` to the groups.
    pub fn with_group(self, layer: Layer) -> (r: CollisionLayers)
        ensures
            r == self.add_group(layer),
    {
        CollisionLayers { groups: self.groups | layer.to_bits(), masks: self.masks }
    }

    /// Adds `layer` to the masks.
    pub fn with_mask(self, layer: Layer) -> (r: CollisionLayers)
        ensures
            r == self.add_mask(layer),
    {
        CollisionLayers { groups: self.groups, masks: self.masks | layer.to_bits() }
    }

    /// Whether `layer` is among the groups.
    pub fn contains_group(self, layer: Layer) -> (r: bool)
        ensures
            r == self.has_group(layer),
    {
        (self.groups & layer.to_bits()) != 0
    }

    /// Whether `layer` is among the masks.
    pub fn contains_mask(self, layer: Layer) -> (r: bool)
        ensures
            r == self.has_mask(layer),
    {
        (self.masks & layer.to_bits()) != 0
    }

    /// Whether bodies with these layers and with `other` are allowed to
    /// collide, as the physics engine decides it.
    pub fn interacts_with(self, other: CollisionLayers) -> (r: bool)
        ensures
            r == self.interacts(other),
    {
        engine_interacts(self.groups, self.masks, other.groups, other.masks)
    }

    /// The group bits.
    pub fn groups_bits(self) -> (r: u32)
        ensures
            r == self.groups,
    {
        self.groups
    }

    /// The mask bits.
    pub fn masks_bits(self) -> (r: u32)
        ensures
            r == self.masks,
    {
        self.masks
    }
}

/// Interaction is symmetric: the rule reads the same from either side.
pub proof fn lemma_interacts_symmetric(a: CollisionLayers, b: CollisionLayers)
    ensures
        a.interacts(b) == b.interacts(a),
{
}

/// Layers without a group, or without a mask, interact with nothing.
pub proof fn lemma_empty_interacts_with_nothing(a: CollisionLayers, b: CollisionLayers)
    requires
        a.groups == 0 || a.masks == 0,
    ensures
        !a.interacts(b),
        !b.interacts(a),
{
    let (g, m) = (b.groups, b.masks);
    assert(0u32 & m == 0u32) by (bit_vector);
    assert(g & 0u32 == 0u32) by (bit_vector);
    assert(m & 0u32 == 0u32) by (bit_vector);
    assert(0u32 & g == 0u32) by (bit_vector);
}

} // verus!
