use vstd::prelude::*;

verus! {

/// Identity of a game object. It stands for the engine's entity handle, of
/// which the game logic only ever reads the identity.
#[derive(Clone, Copy, Debug, PartialEq, Eq, Hash, Structural)]
pub struct Entity(pub u64);

impl Entity {
    /// The entity whose identity is `bits`.
    pub fn from_bits(bits: u64) -> (e: Entity)
        ensures
            e.0 == bits,
    {
        Entity(bits)
    }

    /// The identity of this entity.
    pub fn to_bits(&self) -> (bits: u64)
        ensures
            bits == self.0,
    {
        self.0
    }
}

} // verus!
