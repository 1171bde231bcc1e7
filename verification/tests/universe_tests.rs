use voxel_world::entity::{Entity, EntityType, Feet, Species};
use voxel_world::universe::Universe;

#[test]
fn new_universe_is_empty() {
    let u = Universe::new();
    assert!(u.chunks.is_empty());
    assert_eq!(u.load_distance, 10);
}

#[test]
fn generate_fills_the_cube_in_order() {
    let mut u = Universe::new();
    u.load_distance = 1;
    let fresh = u.generate((5, 0, -3));
    assert_eq!(
        fresh,
        vec![
            (4, -1, -4),
            (4, -1, -3),
            (4, 0, -4),
            (4, 0, -3),
            (5, -1, -4),
            (5, -1, -3),
            (5, 0, -4),
            (5, 0, -3),
        ]
    );
    assert_eq!(u.chunks, fresh);
    assert!(u.contains((5, 0, -3)));
    assert!(!u.contains((6, 0, -3)));
}

#[test]
fn generate_twice_adds_nothing() {
    let mut u = Universe::new();
    u.load_distance = 2;
    let first = u.generate((0, 0, 0));
    assert_eq!(first.len(), 64);
    let second = u.generate((0, 0, 0));
    assert!(second.is_empty());
    assert_eq!(u.chunks.len(), 64);
}

#[test]
fn generate_skips_what_is_loaded() {
    let mut u = Universe::new();
    u.load_distance = 1;
    u.generate((0, 0, 0));
    let fresh = u.generate((1, 0, 0));
    assert_eq!(fresh, vec![(1, -1, -1), (1, -1, 0), (1, 0, -1), (1, 0, 0)]);
    assert_eq!(u.chunks.len(), 12);
}

#[test]
fn generate_with_no_distance_does_nothing() {
    let mut u = Universe::new();
    u.load_distance = 0;
    assert!(u.generate((0, 0, 0)).is_empty());
    u.load_distance = -3;
    assert!(u.generate((0, 0, 0)).is_empty());
    assert!(u.chunks.is_empty());
}

#[test]
fn default_distance_loads_eight_thousand() {
    let mut u = Universe::new();
    let fresh = u.generate((0, 0, 0));
    assert_eq!(fresh.len(), 8000);
    assert_eq!(fresh[0], (-10, -10, -10));
    assert_eq!(fresh[7999], (9, 9, 9));
}

struct Zombie;

impl Entity for Zombie {
    const ENTITY_TYPE: EntityType = EntityType::Enemy;
    const SPECIES: Species = Species::Zombie;

    fn new() -> Zombie {
        Zombie
    }
}

#[test]
fn entities_have_a_kind_and_species() {
    let _z = Zombie::new();
    assert!(matches!(Zombie::ENTITY_TYPE, EntityType::Enemy));
    assert!(matches!(Zombie::SPECIES, Species::Zombie));
    assert!(!matches!(Species::Skeleton, Species::Player));
    let _f = Feet;
}
