use mining_demo::entity::Entity;
use mining_demo::map::{Occupancy, TilePos, TilemapSize, UVec2};

fn map(x: u32, y: u32) -> Occupancy {
    Occupancy::new(TilemapSize { x, y })
}

#[test]
fn new_map_is_free_everywhere() {
    let occ = map(4, 3);
    assert!(occ.is_free_at(TilePos::new(0, 0), UVec2::new(4, 3)));
    assert!(!occ.is_free_at(TilePos::new(0, 0), UVec2::new(5, 3)));
    assert!(!occ.is_free_at(TilePos::new(0, 0), UVec2::new(4, 4)));
}

#[test]
fn occupied_footprint_is_not_free() {
    let mut occ = map(4, 4);
    occ.occupy(TilePos::new(1, 1), UVec2::new(2, 2), Entity(7));
    assert!(!occ.is_free_at(TilePos::new(1, 1), UVec2::new(1, 1)));
    assert!(!occ.is_free_at(TilePos::new(2, 2), UVec2::new(1, 1)));
    assert!(!occ.is_free_at(TilePos::new(0, 0), UVec2::new(2, 2)));
    assert!(occ.is_free_at(TilePos::new(3, 0), UVec2::new(1, 4)));
    assert!(occ.is_free_at(TilePos::new(0, 3), UVec2::new(4, 1)));
    assert!(occ.is_free_at(TilePos::new(0, 0), UVec2::new(1, 1)));
}

#[test]
fn freeing_restores_the_tiles() {
    let mut occ = map(4, 4);
    occ.occupy(TilePos::new(0, 0), UVec2::new(2, 2), Entity(1));
    occ.occupy(TilePos::new(2, 2), UVec2::new(2, 2), Entity(2));
    occ.free(Entity(1));
    assert!(occ.is_free_at(TilePos::new(0, 0), UVec2::new(2, 2)));
    assert!(!occ.is_free_at(TilePos::new(2, 2), UVec2::new(1, 1)));
    occ.free(Entity(1));
    assert!(occ.is_free_at(TilePos::new(0, 0), UVec2::new(2, 2)));
    occ.free(Entity(2));
    assert!(occ.is_free_at(TilePos::new(0, 0), UVec2::new(4, 4)));
}

#[test]
fn occupy_overwrites_previous_occupant() {
    let mut occ = map(3, 3);
    occ.occupy(TilePos::new(0, 0), UVec2::new(2, 1), Entity(1));
    occ.occupy(TilePos::new(1, 0), UVec2::new(1, 1), Entity(2));
    occ.free(Entity(1));
    assert!(occ.is_free_at(TilePos::new(0, 0), UVec2::new(1, 1)));
    assert!(!occ.is_free_at(TilePos::new(1, 0), UVec2::new(1, 1)));
}

#[test]
fn footprint_past_the_right_edge_runs_into_the_next_row() {
    let mut occ = map(3, 3);
    occ.occupy(TilePos::new(2, 0), UVec2::new(2, 1), Entity(5));
    assert!(!occ.is_free_at(TilePos::new(2, 0), UVec2::new(1, 1)));
    assert!(!occ.is_free_at(TilePos::new(0, 1), UVec2::new(1, 1)));
    assert!(occ.is_free_at(TilePos::new(1, 1), UVec2::new(2, 1)));
}

#[test]
fn far_away_footprint_is_not_free() {
    let occ = map(2, 2);
    assert!(!occ.is_free_at(TilePos::new(u32::MAX, u32::MAX), UVec2::new(2, 2)));
    assert!(!occ.is_free_at(TilePos::new(1, 1), UVec2::new(u32::MAX, 1)));
    assert!(!occ.is_free_at(TilePos::new(2, 0), UVec2::new(1, 1)));
}

#[test]
fn empty_footprint_is_free() {
    let occ = map(2, 2);
    assert!(occ.is_free_at(TilePos::new(9, 9), UVec2::new(0, 3)));
    assert!(occ.is_free_at(TilePos::new(9, 9), UVec2::new(3, 0)));
}

#[test]
fn empty_map_has_no_free_tile() {
    let occ = map(0, 5);
    assert!(!occ.is_free_at(TilePos::new(0, 0), UVec2::new(1, 1)));
}

#[test]
fn fits_tells_whether_occupy_stays_in_storage() {
    let occ = map(3, 3);
    assert!(occ.fits(TilePos::new(0, 0), UVec2::new(3, 3)));
    assert!(occ.fits(TilePos::new(1, 1), UVec2::new(2, 2)));
    assert!(occ.fits(TilePos::new(2, 0), UVec2::new(2, 1)));
    assert!(!occ.fits(TilePos::new(2, 2), UVec2::new(2, 1)));
    assert!(!occ.fits(TilePos::new(0, 2), UVec2::new(1, 2)));
    assert!(occ.fits(TilePos::new(u32::MAX, u32::MAX), UVec2::new(0, 5)));
    assert!(!occ.fits(TilePos::new(u32::MAX, u32::MAX), UVec2::new(1, 1)));
    assert!(!map(0, 0).fits(TilePos::new(0, 0), UVec2::new(1, 1)));
}

#[test]
fn a_free_footprint_always_fits() {
    let occ = map(5, 4);
    for x in 0..7u32 {
        for y in 0..6u32 {
            for w in 0..4u32 {
                for h in 0..4u32 {
                    let pos = TilePos::new(x, y);
                    let ext = UVec2::new(w, h);
                    if occ.is_free_at(pos, ext) {
                        assert!(occ.fits(pos, ext));
                    }
                }
            }
        }
    }
}
