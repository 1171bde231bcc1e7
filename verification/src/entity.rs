use vstd::prelude::*;

verus! {

/// Something that lives in the world, of a fixed kind and species.
pub trait Entity: Sized {
    const ENTITY_TYPE: EntityType;
    const SPECIES: Species;

    fn new() -> Self;
}

/// Whether an entity is the player or hostile to it.
pub enum EntityType {
    Player,
    Enemy,
}

/// The species of an entity.
pub enum Species {
    Player,
    Zombie,
    Skeleton,
}

/// Marks the part of an entity that touches the ground.
pub struct Feet;

} // verus!
