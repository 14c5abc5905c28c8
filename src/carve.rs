use crate::rect::Rect;
use crate::tile::{
    column_of, in_bounds, index_of, lemma_cell_of, lemma_index_in_map, row_of, tile_index, Tile,
    MAP_HEIGHT, MAP_TILES, MAP_WIDTH,
};
use vstd::prelude::*;

verus! {

/// `room` fits on the level with its border.
pub open spec fn room_on_map(room: Rect) -> bool {
    0 <= room.x1 < room.x2 < MAP_WIDTH && 0 <= room.y1 < room.y2 < MAP_HEIGHT
}

/// The cell of index `k` lies in the horizontal segment from `x1` to `x2`
/// (both included) on row `y`.
pub open spec fn on_h_segment(k: int, x1: int, x2: int, y: int) -> bool {
    row_of(k) == y && (x1 <= column_of(k) <= x2 || x2 <= column_of(k) <= x1)
}

/// The cell of index `k` lies in the vertical segment from `y1` to `y2`
/// (both included) on column `x`.
pub open spec fn on_v_segment(k: int, y1: int, y2: int, x: int) -> bool {
    column_of(k) == x && (y1 <= row_of(k) <= y2 || y2 <= row_of(k) <= y1)
}

/// `room` lies within the level: its interior cells are all on it.
pub open spec fn room_fits(room: Rect) -> bool {
    0 <= room.x1 && room.x2 <= MAP_WIDTH && 0 <= room.y1 && room.y2 <= MAP_HEIGHT
}

/// `map` with the interior of `room` made unexplored floor.
pub open spec fn room_carved(map: Seq<Tile>, room: Rect) -> Seq<Tile> {
    Seq::new(
        map.len(),
        |k: int|
            if room.interior_contains(column_of(k), row_of(k)) {
                Tile::empty_spec()
            } else {
                map[k]
            },
    )
}

/// `map` with the cells from `x1` to `x2` on row `y` made unexplored floor.
pub open spec fn h_carved(map: Seq<Tile>, x1: int, x2: int, y: int) -> Seq<Tile> {
    Seq::new(
        map.len(),
        |k: int|
            if on_h_segment(k, x1, x2, y) {
                Tile::empty_spec()
            } else {
                map[k]
            },
    )
}

/// `map` with the cells from `y1` to `y2` on column `x` made unexplored
/// floor.
pub open spec fn v_carved(map: Seq<Tile>, y1: int, y2: int, x: int) -> Seq<Tile> {
    Seq::new(
        map.len(),
        |k: int|
            if on_v_segment(k, y1, y2, x) {
                Tile::empty_spec()
            } else {
                map[k]
            },
    )
}

fn carve_cell(map: &mut Vec<Tile>, x: i32, y: i32)
    requires
        old(map)@.len() == MAP_TILES,
        in_bounds(x as int, y as int),
    ensures
        final(map)@ == old(map)@.update(tile_index(x as int, y as int), Tile::empty_spec()),
{
    let k = index_of(x, y);
    Tile::make_empty(&mut map[k]);
}

/// Makes the interior of `room` (the cells strictly inside its bounds)
/// unexplored floor.
pub fn create_room(room: Rect, map: &mut Vec<Tile>)
    requires
        old(map)@.len() == MAP_TILES,
        room_fits(room),
    ensures
        final(map)@ == room_carved(old(map)@, room),
{
    let ghost before = map@;
    if room.x1 >= room.x2 || room.y1 >= room.y2 {
        assert(map@ =~= room_carved(before, room));
        return;
    }
    let mut y = room.y1 + 1;
    while y < room.y2
        invariant
            room_fits(room),
            room.x1 < room.x2,
            room.y1 + 1 <= y <= room.y2,
            map@.len() == MAP_TILES,
            before.len() == MAP_TILES,
            forall|k: int|
                0 <= k < MAP_TILES ==> #[trigger] map@[k] == if room.x1 < column_of(k) < room.x2
                    && room.y1 < row_of(k) < y {
                    Tile::empty_spec()
                } else {
                    before[k]
                },
        decreases room.y2 - y,
    {
        let mut x = room.x1 + 1;
        while x < room.x2
            invariant
                room_fits(room),
                room.y1 < y < room.y2,
                room.x1 + 1 <= x <= room.x2,
                map@.len() == MAP_TILES,
                before.len() == MAP_TILES,
                forall|k: int|
                    0 <= k < MAP_TILES ==> #[trigger] map@[k] == if room.x1 < column_of(k)
                        < room.x2 && (room.y1 < row_of(k) < y || (row_of(k) == y && column_of(
                        k,
                    ) < x)) {
                        Tile::empty_spec()
                    } else {
                        before[k]
                    },
            decreases room.x2 - x,
        {
            let ghost prev = map@;
            carve_cell(map, x, y);
            proof {
                lemma_index_in_map(x as int, y as int);
                assert forall|k: int| 0 <= k < MAP_TILES implies #[trigger] map@[k] == if room.x1
                    < column_of(k) < room.x2 && (room.y1 < row_of(k) < y || (row_of(k) == y
                    && column_of(k) < x + 1)) {
                    Tile::empty_spec()
                } else {
                    before[k]
                } by {
                    lemma_cell_of(k);
                    if k != tile_index(x as int, y as int) {
                        assert(map@[k] == prev[k]);
                    }
                }
            }
            x += 1;
        }
        y += 1;
    }
    assert(map@ =~= room_carved(before, room));
}

/// Makes the cells from `x1` to `x2` on row `y` unexplored floor.
pub fn create_h_tunnel(x1: i32, x2: i32, y: i32, map: &mut Vec<Tile>)
    requires
        old(map)@.len() == MAP_TILES,
        in_bounds(x1 as int, y as int),
        in_bounds(x2 as int, y as int),
    ensures
        final(map)@ == h_carved(old(map)@, x1 as int, x2 as int, y as int),
{
    let ghost before = map@;
    let low = if x1 < x2 {
        x1
    } else {
        x2
    };
    let high = if x1 < x2 {
        x2
    } else {
        x1
    };
    let mut x = low;
    while x <= high
        invariant
            low <= x <= high + 1,
            low == if x1 < x2 {
                x1
            } else {
                x2
            },
            high == if x1 < x2 {
                x2
            } else {
                x1
            },
            in_bounds(low as int, y as int),
            in_bounds(high as int, y as int),
            map@.len() == MAP_TILES,
            before.len() == MAP_TILES,
            forall|k: int|
                0 <= k < MAP_TILES ==> #[trigger] map@[k] == if row_of(k) == y && low <= column_of(
                    k,
                ) < x {
                    Tile::empty_spec()
                } else {
                    before[k]
                },
        decreases high + 1 - x,
    {
        let ghost prev = map@;
        carve_cell(map, x, y);
        proof {
            lemma_index_in_map(x as int, y as int);
            assert forall|k: int| 0 <= k < MAP_TILES implies #[trigger] map@[k] == if row_of(k)
                == y && low <= column_of(k) < x + 1 {
                Tile::empty_spec()
            } else {
                before[k]
            } by {
                lemma_cell_of(k);
                if k != tile_index(x as int, y as int) {
                    assert(map@[k] == prev[k]);
                }
            }
        }
        x += 1;
    }
    assert(map@ =~= h_carved(before, x1 as int, x2 as int, y as int));
}

/// Makes the cells from `y1` to `y2` on column `x` unexplored floor.
pub fn create_v_tunnel(y1: i32, y2: i32, x: i32, map: &mut Vec<Tile>)
    requires
        old(map)@.len() == MAP_TILES,
        in_bounds(x as int, y1 as int),
        in_bounds(x as int, y2 as int),
    ensures
        final(map)@ == v_carved(old(map)@, y1 as int, y2 as int, x as int),
{
    let ghost before = map@;
    let low = if y1 < y2 {
        y1
    } else {
        y2
    };
    let high = if y1 < y2 {
        y2
    } else {
        y1
    };
    let mut y = low;
    while y <= high
        invariant
            low <= y <= high + 1,
            low == if y1 < y2 {
                y1
            } else {
                y2
            },
            high == if y1 < y2 {
                y2
            } else {
                y1
            },
            in_bounds(x as int, low as int),
            in_bounds(x as int, high as int),
            map@.len() == MAP_TILES,
            before.len() == MAP_TILES,
            forall|k: int|
                0 <= k < MAP_TILES ==> #[trigger] map@[k] == if column_of(k) == x && low <= row_of(
                    k,
                ) < y {
                    Tile::empty_spec()
                } else {
                    before[k]
                },
        decreases high + 1 - y,
    {
        let ghost prev = map@;
        carve_cell(map, x, y);
        proof {
            lemma_index_in_map(x as int, y as int);
            assert forall|k: int| 0 <= k < MAP_TILES implies #[trigger] map@[k] == if column_of(k)
                == x && low <= row_of(k) < y + 1 {
                Tile::empty_spec()
            } else {
                before[k]
            } by {
                lemma_cell_of(k);
                if k != tile_index(x as int, y as int) {
                    assert(map@[k] == prev[k]);
                }
            }
        }
        y += 1;
    }
    assert(map@ =~= v_carved(before, y1 as int, y2 as int, x as int));
}

} // verus!
