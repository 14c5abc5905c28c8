use crate::object::Object;
use crate::tile::{is_passable, passable_at, Tile};
use vstd::prelude::*;

verus! {

/// What occupies a tile that something tries to enter.
#[derive(Clone, Copy, Debug, PartialEq, Eq, Structural)]
pub struct TileCollisionInfo {
    pub collision: bool,
    pub obj_collision: bool,
    pub tile_collision: bool,
    pub collision_id: Option<usize>,
}

/// `o` is a blocking entity standing at `(x, y)`.
pub open spec fn blocks_at(o: Object, x: int, y: int) -> bool {
    o.blocks && o.x == x && o.y == y
}

/// Some blocking entity stands at `(x, y)`.
pub open spec fn occupied(objects: Seq<Object>, x: int, y: int) -> bool {
    exists|j: int| 0 <= j < objects.len() && blocks_at(#[trigger] objects[j], x, y)
}

/// `(x, y)` cannot be entered: its terrain is impassable or a blocking
/// entity stands there.
pub open spec fn blocked_at(map: Seq<Tile>, objects: Seq<Object>, x: int, y: int) -> bool {
    !passable_at(map, x, y) || occupied(objects, x, y)
}

/// `info` classifies `(x, y)`: terrain first, then the first blocking
/// entity in collection order.
pub open spec fn classifies(
    info: TileCollisionInfo,
    map: Seq<Tile>,
    objects: Seq<Object>,
    x: int,
    y: int,
) -> bool {
    if !passable_at(map, x, y) {
        info == TileCollisionInfo {
            collision: true,
            obj_collision: false,
            tile_collision: true,
            collision_id: None,
        }
    } else {
        &&& !info.tile_collision
        &&& info.collision == occupied(objects, x, y)
        &&& info.obj_collision == info.collision
        &&& match info.collision_id {
            Some(i) => {
                &&& i < objects.len()
                &&& blocks_at(objects[i as int], x, y)
                &&& forall|j: int| 0 <= j < i ==> !blocks_at(#[trigger] objects[j], x, y)
            },
            None => !occupied(objects, x, y),
        }
    }
}

/// The entities after `objects[id]` tries to step by `(dx, dy)`: it moves
/// exactly when the destination is not blocked.
pub open spec fn after_move(
    objects: Seq<Object>,
    map: Seq<Tile>,
    id: int,
    dx: int,
    dy: int,
) -> Seq<Object> {
    let nx = objects[id].x + dx;
    let ny = objects[id].y + dy;
    if blocked_at(map, objects, nx, ny) {
        objects
    } else {
        objects.update(id, Object { x: nx as i32, y: ny as i32, ..objects[id] })
    }
}

/// Classifies the tile `(x, y)` for something about to enter it.
pub fn check_tile_for_collision(x: i64, y: i64, map: &Vec<Tile>, objects: &Vec<Object>) -> (r:
    TileCollisionInfo)
    ensures
        classifies(r, map@, objects@, x as int, y as int),
{
    if is_passable(map, x, y) {
        let mut i: usize = 0;
        while i < objects.len()
            invariant
                i <= objects@.len(),
                passable_at(map@, x as int, y as int),
                forall|j: int| 0 <= j < i ==> !blocks_at(#[trigger] objects@[j], x as int, y as int),
            decreases objects@.len() - i,
        {
            if objects[i].blocks && objects[i].x as i64 == x && objects[i].y as i64 == y {
                assert(blocks_at(objects@[i as int], x as int, y as int));
                return TileCollisionInfo {
                    collision: true,
                    obj_collision: true,
                    tile_collision: false,
                    collision_id: Some(i),
                };
            }
            i += 1;
        }
        TileCollisionInfo {
            collision: false,
            obj_collision: false,
            tile_collision: false,
            collision_id: None,
        }
    } else {
        TileCollisionInfo {
            collision: true,
            obj_collision: false,
            tile_collision: true,
            collision_id: None,
        }
    }
}

/// Moves `objects[id]` by `(dx, dy)` unless the destination is blocked, and
/// reports what is there.
pub fn attempt_move(id: usize, dx: i32, dy: i32, map: &Vec<Tile>, objects: &mut Vec<Object>) -> (r:
    TileCollisionInfo)
    requires
        id < old(objects)@.len(),
    ensures
        classifies(
            r,
            map@,
            old(objects)@,
            old(objects)@[id as int].x + dx,
            old(objects)@[id as int].y + dy,
        ),
        final(objects)@ == after_move(old(objects)@, map@, id as int, dx as int, dy as int),
        !r.collision ==> {
            let nx = old(objects)@[id as int].x + dx;
            let ny = old(objects)@[id as int].y + dy;
            &&& final(objects)@[id as int].x == nx && final(objects)@[id as int].y == ny
            &&& passable_at(map@, nx, ny)
            &&& forall|j: int|
                0 <= j < final(objects)@.len() && j != id ==> !blocks_at(
                    #[trigger] final(objects)@[j],
                    nx,
                    ny,
                )
        },
        r.collision ==> final(objects)@ == old(objects)@,
{
    let new_x = objects[id].x as i64 + dx as i64;
    let new_y = objects[id].y as i64 + dy as i64;
    let coll_info = check_tile_for_collision(new_x, new_y, map, objects);
    if !coll_info.collision {
        // an enterable tile lies on the level, so its coordinates fit
        objects[id].set_pos(new_x as i32, new_y as i32);
        proof {
            let nx = new_x as int;
            let ny = new_y as int;
            assert forall|j: int|
                0 <= j < final(objects)@.len() && j != id implies !blocks_at(
                    #[trigger] final(objects)@[j],
                    nx,
                    ny,
                ) by {
                assert(final(objects)@[j] == old(objects)@[j]);
            }
        }
    }
    coll_info
}

/// Nearest integer to `a / sqrt(a * a + b * b)`, and zero when both are
/// zero. The exact quotient is never one half, so the rounding reduces to
/// comparing `3 * a * a` with `b * b`.
pub open spec fn unit_step(a: int, b: int) -> int {
    if 3 * (a * a) > b * b {
        if a > 0 {
            1
        } else {
            -1
        }
    } else {
        0
    }
}

fn unit_step_of(a: i64, b: i64) -> (r: i32)
    requires
        -0x1_0000_0000 <= a <= 0x1_0000_0000,
        -0x1_0000_0000 <= b <= 0x1_0000_0000,
    ensures
        r == unit_step(a as int, b as int),
{
    assert(0 <= a * a <= 0x1_0000_0000 * 0x1_0000_0000) by (nonlinear_arith)
        requires
            -0x1_0000_0000 <= a <= 0x1_0000_0000,
    ;
    assert(0 <= b * b <= 0x1_0000_0000 * 0x1_0000_0000) by (nonlinear_arith)
        requires
            -0x1_0000_0000 <= b <= 0x1_0000_0000,
    ;
    let a2 = (a as i128) * (a as i128);
    let b2 = (b as i128) * (b as i128);
    if 3 * a2 > b2 {
        if a > 0 {
            1
        } else {
            -1
        }
    } else {
        0
    }
}

/// Steps `objects[id]` one tile toward `target`, each axis rounded
/// independently; no path is searched, so it can stall against obstacles.
pub fn move_towards(id: usize, target: (i32, i32), map: &Vec<Tile>, objects: &mut Vec<Object>)
    requires
        id < old(objects)@.len(),
    ensures
        final(objects)@ == after_move(
            old(objects)@,
            map@,
            id as int,
            unit_step(
                target.0 - old(objects)@[id as int].x,
                target.1 - old(objects)@[id as int].y,
            ),
            unit_step(
                target.1 - old(objects)@[id as int].y,
                target.0 - old(objects)@[id as int].x,
            ),
        ),
{
    let dx = target.0 as i64 - objects[id].x as i64;
    let dy = target.1 as i64 - objects[id].y as i64;
    let step_x = unit_step_of(dx, dy);
    let step_y = unit_step_of(dy, dx);
    attempt_move(id, step_x, step_y, map, objects);
}

} // verus!
