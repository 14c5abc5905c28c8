use vstd::prelude::*;

verus! {

/// Combat statistics of an entity that can deal and receive damage.
#[derive(Clone, Copy, Debug, PartialEq, Eq, Structural)]
pub struct CharacterAttributes {
    pub max_hp: i32,
    pub hp: i32,
    pub defense: i32,
    pub power: i32,
}

impl CharacterAttributes {
    /// Hit points stay between zero and the maximum.
    pub open spec fn hp_in_range(self) -> bool {
        0 <= self.hp <= self.max_hp
    }
}

/// Marker: the entity is driven by the game each turn.
#[derive(Clone, Copy, Debug, PartialEq, Eq, Structural)]
pub struct Ai;

/// Effect of a consumable entity.
#[derive(Clone, Copy, Debug, PartialEq, Eq, Structural)]
pub enum Item {
    Heal,
}

} // verus!
