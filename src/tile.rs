use vstd::prelude::*;

verus! {

/// Width of a level, in tiles.
pub const MAP_WIDTH: i32 = 80;

/// Height of a level, in tiles.
pub const MAP_HEIGHT: i32 = 38;

/// Number of tiles of a level.
pub const MAP_TILES: usize = 3040;

/// One cell of a level.
#[derive(Clone, Copy, Debug, PartialEq, Eq, Structural)]
pub struct Tile {
    pub passable: bool,
    pub blocks_sight: bool,
    pub explored: bool,
    pub visible: bool,
}

impl Tile {
    /// Terrain that can be walked and seen through.
    pub open spec fn is_floor(self) -> bool {
        self.passable && !self.blocks_sight
    }

    /// Terrain that can be neither walked nor seen through.
    pub open spec fn is_wall(self) -> bool {
        !self.passable && self.blocks_sight
    }

    pub open spec fn empty_spec() -> Tile {
        Tile { passable: true, blocks_sight: false, explored: false, visible: false }
    }

    pub open spec fn wall_spec() -> Tile {
        Tile { passable: false, blocks_sight: true, explored: false, visible: false }
    }

    /// An unexplored floor tile.
    pub fn empty() -> (r: Self)
        ensures
            r == Tile::empty_spec(),
    {
        Tile { passable: true, blocks_sight: false, explored: false, visible: false }
    }

    /// An unexplored wall tile.
    pub fn wall() -> (r: Self)
        ensures
            r == Tile::wall_spec(),
    {
        Tile { passable: false, blocks_sight: true, explored: false, visible: false }
    }

    /// Turns `tile` into an unexplored floor tile.
    pub fn make_empty(tile: &mut Tile)
        ensures
            *final(tile) == Tile::empty_spec(),
    {
        tile.passable = true;
        tile.blocks_sight = false;
        tile.explored = false;
        tile.visible = false;
    }
}

/// `(x, y)` lies on the level.
pub open spec fn in_bounds(x: int, y: int) -> bool {
    0 <= x < MAP_WIDTH && 0 <= y < MAP_HEIGHT
}

/// Row-major index of the tile at `(x, y)`.
pub open spec fn tile_index(x: int, y: int) -> int {
    y * MAP_WIDTH + x
}

/// Column of the tile with row-major index `k`.
pub open spec fn column_of(k: int) -> int {
    k % (MAP_WIDTH as int)
}

/// Row of the tile with row-major index `k`.
pub open spec fn row_of(k: int) -> int {
    k / (MAP_WIDTH as int)
}

/// The terrain at `(x, y)` can be entered; off the level nothing can.
pub open spec fn passable_at(map: Seq<Tile>, x: int, y: int) -> bool {
    in_bounds(x, y) && tile_index(x, y) < map.len() && map[tile_index(x, y)].passable
}

pub proof fn lemma_index_in_map(x: int, y: int)
    requires
        in_bounds(x, y),
    ensures
        0 <= tile_index(x, y) < MAP_TILES,
        column_of(tile_index(x, y)) == x,
        row_of(tile_index(x, y)) == y,
{
    assert(0 <= y * 80 <= 37 * 80) by (nonlinear_arith)
        requires
            0 <= y < 38,
    ;
    assert((y * 80 + x) % 80 == x && (y * 80 + x) / 80 == y) by (nonlinear_arith)
        requires
            0 <= x < 80,
            0 <= y,
    ;
}

/// Index of the tile at `(x, y)`.
pub fn index_of(x: i32, y: i32) -> (r: usize)
    requires
        in_bounds(x as int, y as int),
    ensures
        r as int == tile_index(x as int, y as int),
        r < MAP_TILES,
{
    proof {
        lemma_index_in_map(x as int, y as int);
    }
    (y * MAP_WIDTH + x) as usize
}

/// Whether the terrain at `(x, y)` can be entered.
pub fn is_passable(map: &Vec<Tile>, x: i64, y: i64) -> (r: bool)
    ensures
        r == passable_at(map@, x as int, y as int),
{
    if 0 <= x && x < MAP_WIDTH as i64 && 0 <= y && y < MAP_HEIGHT as i64 {
        let k = index_of(x as i32, y as i32);
        k < map.len() && map[k].passable
    } else {
        false
    }
}

/// A level of walls only.
pub fn solid_map() -> (r: Vec<Tile>)
    ensures
        r@.len() == MAP_TILES,
        forall|k: int| 0 <= k < MAP_TILES ==> r@[k] == Tile::wall_spec(),
{
    let mut map: Vec<Tile> = Vec::new();
    let mut k: usize = 0;
    while k < MAP_TILES
        invariant
            k <= MAP_TILES,
            map@.len() == k,
            forall|j: int| 0 <= j < k ==> map@[j] == Tile::wall_spec(),
        decreases MAP_TILES - k,
    {
        map.push(Tile::wall());
        k += 1;
    }
    map
}

} // verus!

verus! {

/// Every index of the level is the index of its own column and row.
pub proof fn lemma_cell_of(k: int)
    requires
        0 <= k < MAP_TILES,
    ensures
        in_bounds(column_of(k), row_of(k)),
        tile_index(column_of(k), row_of(k)) == k,
{
    assert(k == (k / 80) * 80 + k % 80 && 0 <= k % 80 < 80) by (nonlinear_arith);
    assert(k / 80 < 38 && k / 80 >= 0) by (nonlinear_arith)
        requires
            0 <= k < 3040,
    ;
}

} // verus!
