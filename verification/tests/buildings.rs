use mining_demo::buildings::{
    building_footprint, plan_placement, Building, Placement, PreparedBuilding, BUILDING_SIDE,
};
use mining_demo::entity::Entity;
use mining_demo::map::{Occupancy, TilePos, TilemapSize, UVec2};

#[test]
fn choices_cycle_through_wall_and_rock() {
    let mut p = PreparedBuilding::default();
    assert_eq!(p.current(), None);
    p.next();
    assert_eq!(p.current(), Some(Building::Wall));
    p.next();
    assert_eq!(p.current(), Some(Building::Rock));
    p.next();
    assert_eq!(p.current(), None);
    p.next();
    assert_eq!(p.current(), Some(Building::Wall));
}

#[test]
fn footprint_is_two_by_two() {
    assert_eq!(BUILDING_SIDE, 2);
    assert_eq!(building_footprint(), UVec2::new(2, 2));
}

#[test]
fn placement_decisions() {
    let mut occ = Occupancy::new(TilemapSize { x: 4, y: 4 });
    let mut prepared = PreparedBuilding::default();
    assert_eq!(plan_placement(&occ, TilePos::new(0, 0), &prepared), Placement::NothingPrepared);
    prepared.next();
    assert_eq!(plan_placement(&occ, TilePos::new(0, 0), &prepared), Placement::Place(Building::Wall));
    prepared.next();
    assert_eq!(plan_placement(&occ, TilePos::new(2, 2), &prepared), Placement::Place(Building::Rock));
    assert_eq!(plan_placement(&occ, TilePos::new(3, 0), &prepared), Placement::Occupied);
    occ.occupy(TilePos::new(0, 0), building_footprint(), Entity(3));
    assert_eq!(plan_placement(&occ, TilePos::new(1, 1), &prepared), Placement::Occupied);
    assert_eq!(plan_placement(&occ, TilePos::new(2, 0), &prepared), Placement::Place(Building::Rock));
    occ.free(Entity(3));
    assert_eq!(plan_placement(&occ, TilePos::new(1, 1), &prepared), Placement::Place(Building::Rock));
}
