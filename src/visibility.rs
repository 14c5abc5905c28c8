use crate::object::Object;
use crate::state::GameState;
use crate::tile::{in_bounds, index_of, tile_index, Tile};
use vstd::prelude::*;

verus! {

/// Sight radius handed to the field-of-view oracle.
pub const TORCH_RADIUS: i32 = 10;

/// Whether the oracle's row-major answer `fov` marks index `k` as seen;
/// indices past its end are unseen.
pub open spec fn fov_at(fov: Seq<bool>, k: int) -> bool {
    0 <= k < fov.len() && fov[k]
}

/// Whether `fov` marks the cell `(x, y)` of the level as seen.
pub open spec fn seen_at(fov: Seq<bool>, x: int, y: int) -> bool {
    in_bounds(x, y) && fov_at(fov, tile_index(x, y))
}

/// `t` after a recompute in which it is `seen` or not: visibility is
/// replaced, exploration only ever gained.
pub open spec fn refreshed(t: Tile, seen: bool) -> Tile {
    Tile { visible: seen, explored: t.explored || seen, ..t }
}

/// The level after one recompute with the oracle's answer `fov`.
pub open spec fn refreshed_map(map: Seq<Tile>, fov: Seq<bool>) -> Seq<Tile> {
    Seq::new(map.len(), |k: int| refreshed(map[k], fov_at(fov, k)))
}

/// The level after a recompute with each answer of `fovs`, in order.
pub open spec fn refreshed_all(map: Seq<Tile>, fovs: Seq<Seq<bool>>) -> Seq<Tile>
    decreases fovs.len(),
{
    if fovs.len() == 0 {
        map
    } else {
        refreshed_map(refreshed_all(map, fovs.drop_last()), fovs.last())
    }
}

/// Whether the oracle's answer `fov` marks `(x, y)` as seen.
pub fn is_seen(fov: &Vec<bool>, x: i32, y: i32) -> (r: bool)
    ensures
        r == seen_at(fov@, x as int, y as int),
{
    if 0 <= x && x < crate::tile::MAP_WIDTH && 0 <= y && y < crate::tile::MAP_HEIGHT {
        let k = index_of(x, y);
        k < fov.len() && fov[k]
    } else {
        false
    }
}

/// Whether the field of view must be computed anew: the player stands
/// elsewhere than at the end of the previous tick.
pub fn needs_recompute(previous: (i32, i32), current: (i32, i32)) -> (r: bool)
    ensures
        r == (previous != current),
{
    previous.0 != current.0 || previous.1 != current.1
}

/// Folds the oracle's answer into the level when the player moved: each
/// tile's visibility becomes the oracle's, and a seen tile becomes
/// explored. Otherwise every flag stays as it was.
pub fn update_map(game_state: &mut GameState, fov: &Vec<bool>, player_moved: bool)
    ensures
        final(game_state).map@ == if player_moved {
            refreshed_map(old(game_state).map@, fov@)
        } else {
            old(game_state).map@
        },
        final(game_state).messages == old(game_state).messages,
        final(game_state).inventory == old(game_state).inventory,
        final(game_state).game_running == old(game_state).game_running,
{
    if player_moved {
        let ghost before = game_state.map@;
        let mut k: usize = 0;
        while k < game_state.map.len()
            invariant
                k <= game_state.map@.len(),
                game_state.map@.len() == before.len(),
                game_state.messages == old(game_state).messages,
                game_state.inventory == old(game_state).inventory,
                game_state.game_running == old(game_state).game_running,
                before == old(game_state).map@,
                forall|j: int|
                    0 <= j < before.len() ==> #[trigger] game_state.map@[j] == if j < k {
                        refreshed(before[j], fov_at(fov@, j))
                    } else {
                        before[j]
                    },
            decreases game_state.map@.len() - k,
        {
            let seen = k < fov.len() && fov[k];
            let tile = &mut game_state.map[k];
            tile.visible = seen;
            if tile.visible && !tile.explored {
                tile.explored = true;
            }
            k += 1;
        }
        proof {
            assert(game_state.map@ =~= refreshed_map(before, fov@));
        }
    }
}

/// Exploration never goes back: a tile explored before any sequence of
/// recomputes is explored after it, and so is every tile that one of them
/// saw.
pub proof fn lemma_explored_monotone(map: Seq<Tile>, fovs: Seq<Seq<bool>>)
    ensures
        refreshed_all(map, fovs).len() == map.len(),
        forall|k: int|
            0 <= k < map.len() && map[k].explored ==> (#[trigger] refreshed_all(map, fovs)[k]).explored,
        forall|k: int, i: int|
            0 <= k < map.len() && 0 <= i < fovs.len() && fov_at(#[trigger] fovs[i], k) ==> (
            #[trigger] refreshed_all(map, fovs)[k]).explored,
    decreases fovs.len(),
{
    if fovs.len() > 0 {
        let prefix = fovs.drop_last();
        lemma_explored_monotone(map, prefix);
        assert forall|k: int, i: int|
            0 <= k < map.len() && 0 <= i < fovs.len() && fov_at(#[trigger] fovs[i], k) implies (
            #[trigger] refreshed_all(map, fovs)[k]).explored by {
            if i < fovs.len() - 1 {
                assert(prefix[i] == fovs[i]);
                assert(refreshed_all(map, prefix)[k].explored);
            }
        }
    }
}

/// The indices, past the player's, of the entities at `(x, y)` whose tile
/// `fov` marks as seen, among the first `n` entities, in order.
pub open spec fn shown_at(objects: Seq<Object>, fov: Seq<bool>, x: int, y: int, n: int) -> Seq<
    usize,
>
    decreases n,
{
    if n <= 1 || n > objects.len() {
        seq![]
    } else {
        let prev = shown_at(objects, fov, x, y, n - 1);
        let o = objects[n - 1];
        if o.x == x && o.y == y && seen_at(fov, o.x as int, o.y as int) {
            prev.push((n - 1) as usize)
        } else {
            prev
        }
    }
}

/// Indices of the entities other than the player that stand at `(x, y)`
/// on a tile currently in view, in collection order.
pub fn visible_objects_at_pos(x: i32, y: i32, objects: &Vec<Object>, fov: &Vec<bool>) -> (r: Vec<
    usize,
>)
    ensures
        r@ == shown_at(objects@, fov@, x as int, y as int, objects@.len() as int),
{
    let mut ret: Vec<usize> = Vec::new();
    if objects.len() <= 1 {
        return ret;
    }
    let mut i: usize = 1;
    while i < objects.len()
        invariant
            1 <= i <= objects@.len(),
            ret@ == shown_at(objects@, fov@, x as int, y as int, i as int),
        decreases objects@.len() - i,
    {
        if objects[i].x == x && objects[i].y == y && is_seen(fov, objects[i].x, objects[i].y) {
            ret.push(i);
        }
        i += 1;
    }
    ret
}

} // verus!
