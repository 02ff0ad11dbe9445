use vstd::prelude::*;

use crate::map::{Occupancy, TilePos, UVec2};

verus! {

/// What the player can build on the map.
#[derive(Clone, Copy, Debug, PartialEq, Eq, Structural)]
pub enum Building {
    Rock,
    Wall,
}

/// The building the player has chosen to place next, if any.
#[derive(Clone, Copy, Debug, PartialEq, Eq, Structural)]
pub struct PreparedBuilding {
    current: Option<Building>,
}

/// The choice that follows `c` when the player cycles through the buildings:
/// nothing, then a wall, then a rock, then nothing again.
pub open spec fn next_choice(c: Option<Building>) -> Option<Building> {
    match c {
        Some(Building::Rock) => None,
        Some(Building::Wall) => Some(Building::Rock),
        None => Some(Building::Wall),
    }
}

impl Default for PreparedBuilding {
    /// Nothing chosen.
    fn default() -> (p: Self)
        ensures
            p.choice() == None::<Building>,
    {
        PreparedBuilding { current: None }
    }
}

impl PreparedBuilding {
    /// The chosen building.
    pub closed spec fn choice(&self) -> Option<Building> {
        self.current
    }

    pub fn current(&self) -> (c: Option<Building>)
        ensures
            c == self.choice(),
    {
        self.current
    }

    /// Moves to the next choice of the cycle.
    pub fn next(&mut self)
        ensures
            final(self).choice() == next_choice(old(self).choice()),
            old(self).choice() == None::<Building> ==> final(self).choice() == Some(Building::Wall),
            old(self).choice() == Some(Building::Wall) ==> final(self).choice() == Some(Building::Rock),
            old(self).choice() == Some(Building::Rock) ==> final(self).choice() == None::<Building>,
    {
        self.current = match self.current {
            Some(building) => match building {
                Building::Rock => None,
                Building::Wall => Some(Building::Rock),
            },
            None => Some(Building::Wall),
        }
    }
}

/// Cycling through the choices comes back to where it started after three
/// steps, passing through three different choices on the way.
pub proof fn lemma_choice_cycle(c: Option<Building>)
    ensures
        next_choice(next_choice(next_choice(c))) == c,
        next_choice(c) != c,
        next_choice(next_choice(c)) != c,
        next_choice(c) != next_choice(next_choice(c)),
{
}

/// Number of tiles, along each axis, that a building covers.
pub const BUILDING_SIDE: u32 = 2;

/// The footprint of every building: `BUILDING_SIDE` by `BUILDING_SIDE` tiles,
/// with the clicked tile as its lower-left corner.
pub fn building_footprint() -> (f: UVec2)
    ensures
        f.x == BUILDING_SIDE,
        f.y == BUILDING_SIDE,
{
    UVec2::new(BUILDING_SIDE, BUILDING_SIDE)
}

/// Every building covers `BUILDING_SIDE` by `BUILDING_SIDE` tiles.
pub proof fn lemma_footprint_side()
    ensures
        building_footprint_spec().x == BUILDING_SIDE,
        building_footprint_spec().y == BUILDING_SIDE,
        BUILDING_SIDE == 2,
{
}

/// What a click on a tile leads to.
#[derive(Clone, Copy, Debug, PartialEq, Eq, Structural)]
pub enum Placement {
    /// Some tile of the footprint is taken or off the map: nothing happens.
    Occupied,
    /// The footprint is free but no building is chosen.
    NothingPrepared,
    /// The chosen building goes on the footprint.
    Place(Building),
}

/// Decides what a click on `tile` does, given the map and the player's choice.
pub fn plan_placement(occupancy: &Occupancy, tile: TilePos, prepared: &PreparedBuilding) -> (p:
    Placement)
    requires
        occupancy.wf(),
    ensures
        (p == Placement::Occupied) <==> !occupancy.region_free(tile, building_footprint_spec()),
        (p == Placement::NothingPrepared) <==> (occupancy.region_free(
            tile,
            building_footprint_spec(),
        ) && prepared.choice() is None),
        forall|b: Building|
            (p == Placement::Place(b)) <==> (occupancy.region_free(tile, building_footprint_spec())
                && prepared.choice() == Some(b)),
{
    let footprint = building_footprint();
    if !occupancy.is_free_at(tile, footprint) {
        return Placement::Occupied;
    }
    match prepared.current() {
        Some(building) => Placement::Place(building),
        None => Placement::NothingPrepared,
    }
}

/// The footprint of every building, as a value of the model.
pub open spec fn building_footprint_spec() -> UVec2 {
    UVec2 { x: BUILDING_SIDE, y: BUILDING_SIDE }
}

} // verus!
