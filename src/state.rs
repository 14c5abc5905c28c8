use crate::color::Color;
use crate::object::Object;
use crate::tile::Tile;
use vstd::prelude::*;

verus! {

/// Most items the inventory holds: one per selectable letter.
pub const INVENTORY_CAPACITY: usize = 26;

/// Everything a session owns besides its entities.
pub struct GameState {
    /// Append-only log of what happened, each entry with its tint.
    pub messages: Vec<(String, Color)>,
    pub game_running: bool,
    pub inventory: Vec<Object>,
    pub map: Vec<Tile>,
}

impl GameState {
    /// The message log as text and tint.
    pub open spec fn log(self) -> Seq<(Seq<char>, Color)> {
        self.messages@.map_values(|m: (String, Color)| (m.0@, m.1))
    }

    /// Map, inventory and running flag agree.
    pub open spec fn same_world(self, other: GameState) -> bool {
        self.map == other.map && self.inventory == other.inventory && self.game_running
            == other.game_running
    }

    /// A fresh session on `map`, running, with an empty log and inventory.
    pub fn new(map: Vec<Tile>) -> (r: Self)
        ensures
            r.map == map,
            r.messages@.len() == 0,
            r.inventory@.len() == 0,
            r.game_running,
    {
        GameState { messages: Vec::new(), game_running: true, inventory: Vec::new(), map }
    }
}

/// Appends `text` with its tint to the log.
pub fn message(game_state: &mut GameState, text: String, color: Color)
    ensures
        final(game_state).log() == old(game_state).log().push((text@, color)),
        final(game_state).same_world(*old(game_state)),
{
    game_state.messages.push((text, color));
    proof {
        assert(final(game_state).log() =~= old(game_state).log().push((text@, color)));
    }
}

} // verus!
