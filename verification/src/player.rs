use vstd::prelude::*;

verus! {

/// Identity of a side in the game.
#[derive(Clone, Copy, Debug, PartialEq, Eq, Default, Structural)]
pub struct FactionId(u16);

/// The side an entity fights for. Entities of different factions are enemies.
#[derive(Clone, Copy, Debug, PartialEq, Eq, Default, Structural)]
pub struct Faction(pub FactionId);

impl FactionId {
    /// The number that identifies the side.
    pub closed spec fn id(&self) -> u16 {
        self.0
    }
}

impl Faction {
    /// Number of the player's side.
    pub const PLAYER_FACTION_ID: u16 = 1;

    /// Number of the monsters' side.
    pub const MONSTER_FACTION_ID: u16 = 2;

    /// The player's side.
    pub fn player() -> (f: Self)
        ensures
            f.0.id() == 1,
    {
        Faction(FactionId(Self::PLAYER_FACTION_ID))
    }

    /// The monsters' side.
    pub fn monster() -> (f: Self)
        ensures
            f.0.id() == 2,
    {
        Faction(FactionId(Self::MONSTER_FACTION_ID))
    }
}

/// The player's side and the monsters' side are enemies of each other.
pub proof fn lemma_player_and_monsters_are_enemies(p: Faction, m: Faction)
    requires
        p.0.id() == 1,
        m.0.id() == 2,
    ensures
        p != m,
{
}

} // verus!
