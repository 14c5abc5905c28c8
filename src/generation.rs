use crate::carve::{
    create_h_tunnel, create_room, create_v_tunnel, h_carved, on_h_segment, on_v_segment, room_carved,
    room_on_map, v_carved,
};
use crate::object::Object;
use crate::rect::Rect;
use crate::rng::ThreadContext;
use crate::spawn::{
    attempts, extends, footprint, lemma_attempts_grow, lemma_spawn_plan_prefix, place_objects, placed_on,
    made_from, seeded_in, spawn_plan, spawned_as,
};
use crate::tile::{
    column_of, in_bounds, lemma_index_in_map, passable_at, row_of, solid_map, tile_index, Tile,
    MAP_HEIGHT, MAP_TILES, MAP_WIDTH,
};
use vstd::prelude::*;

verus! {

/// Largest room side, border included.
pub const ROOM_MAX_SIZE: i32 = 12;

/// Smallest room side, border included.
pub const ROOM_MIN_SIZE: i32 = 5;

/// Number of rooms the generator tries to place.
pub const MAX_ROOMS: i32 = 10;

/// The player is always the first entity.
pub const PLAYER_IDX: usize = 0;

/// Most entities one level adds: `MAX_ROOMS` rooms of at most
/// `MAX_ROOM_MONSTERS + MAX_ROOM_ITEMS` each.
pub const MAX_SPAWNED: usize = 60;

/// Every tile is an unexplored, unseen wall or floor.
pub open spec fn plain_level(map: Seq<Tile>) -> bool {
    &&& map.len() == MAP_TILES
    &&& forall|k: int|
        0 <= k < MAP_TILES ==> #[trigger] map[k] == Tile::wall_spec() || map[k]
            == Tile::empty_spec()
}

/// Floor stays floor from `before` to `after`.
pub open spec fn keeps_floors(before: Seq<Tile>, after: Seq<Tile>) -> bool {
    &&& after.len() == before.len()
    &&& forall|k: int| 0 <= k < before.len() && before[k].passable ==> #[trigger] after[k].passable
}

/// Every interior cell of `room` is floor.
pub open spec fn room_floored(map: Seq<Tile>, room: Rect) -> bool {
    forall|x: int, y: int| room.interior_contains(x, y) ==> #[trigger] passable_at(map, x, y)
}

/// Every cell from `x1` to `x2` on row `y` is floor.
pub open spec fn h_path(map: Seq<Tile>, x1: int, x2: int, y: int) -> bool {
    forall|x: int| (x1 <= x <= x2 || x2 <= x <= x1) ==> #[trigger] passable_at(map, x, y)
}

/// Every cell from `y1` to `y2` on column `x` is floor.
pub open spec fn v_path(map: Seq<Tile>, y1: int, y2: int, x: int) -> bool {
    forall|y: int| (y1 <= y <= y2 || y2 <= y <= y1) ==> #[trigger] passable_at(map, x, y)
}

/// An L-shaped corridor of floor joins `a` and `b`, turning either at
/// `(b.0, a.1)` or at `(a.0, b.1)`.
pub open spec fn joined(map: Seq<Tile>, a: (int, int), b: (int, int)) -> bool {
    (h_path(map, a.0, b.0, a.1) && v_path(map, a.1, b.1, b.0)) || (v_path(map, a.1, b.1, a.0)
        && h_path(map, a.0, b.0, b.1))
}

/// `room` lies on the level and its sides are within the size bounds.
pub open spec fn well_sized(room: Rect) -> bool {
    &&& room_on_map(room)
    &&& ROOM_MIN_SIZE <= room.x2 - room.x1 <= ROOM_MAX_SIZE
    &&& ROOM_MIN_SIZE <= room.y2 - room.y1 <= ROOM_MAX_SIZE
}

/// No two rooms of `rooms` intersect.
pub open spec fn disjoint_rooms(rooms: Seq<Rect>) -> bool {
    forall|a: int, b: int|
        0 <= a < rooms.len() && 0 <= b < rooms.len() && a != b ==> !(#[trigger] rooms[a]).intersects_spec(
            #[trigger] rooms[b],
        )
}

/// Entity `j` was seeded into one of `rooms`.
pub open spec fn seeded_among(objects: Seq<Object>, j: int, rooms: Seq<Rect>) -> bool {
    exists|r: int| 0 <= r < rooms.len() && #[trigger] seeded_in(objects, j, rooms[r])
}

pub open spec fn center_of(room: Rect) -> (int, int) {
    room.center_spec()
}

/// The level under construction: tiles, accepted rooms, footprint of the
/// entities, spawn records and the index of the next draw.
pub type LevelState = (Seq<Tile>, Seq<Rect>, Seq<(int, int, bool)>, Seq<(int, int, int)>, int);

/// A level of walls only.
pub open spec fn solid_level() -> Seq<Tile> {
    Seq::new(MAP_TILES as nat, |k: int| Tile::wall_spec())
}

/// The candidate room of the attempt that reads `draws` from `c`: width,
/// height, then the top-left corner.
pub open spec fn candidate(draws: Seq<int>, c: int) -> Rect {
    Rect {
        x1: draws[c + 2] as i32,
        x2: (draws[c + 2] + draws[c]) as i32,
        y1: draws[c + 3] as i32,
        y2: (draws[c + 3] + draws[c + 1]) as i32,
    }
}

/// Tiles and footprint once an accepted `room` is carved and, past the
/// first room, joined to the previous one (the coin at `c + 4` chooses the
/// corridor's turn), with the next draw index.
pub open spec fn room_added(s: LevelState, draws: Seq<int>, room: Rect) -> (
    Seq<Tile>,
    Seq<(int, int, bool)>,
    int,
) {
    let c = s.4;
    let carved = room_carved(s.0, room);
    let ctr = center_of(room);
    if s.1.len() == 0 {
        (carved, s.2.update(PLAYER_IDX as int, (ctr.0, ctr.1, s.2[PLAYER_IDX as int].2)), c + 4)
    } else {
        let prev = center_of(s.1.last());
        let joined_map = if draws[c + 4] == 1 {
            v_carved(h_carved(carved, prev.0, ctr.0, prev.1), prev.1, ctr.1, ctr.0)
        } else {
            h_carved(v_carved(carved, prev.1, ctr.1, prev.0), prev.0, ctr.0, ctr.1)
        };
        (joined_map, s.2, c + 5)
    }
}

/// One room attempt: a candidate that intersects an accepted room is
/// dropped; otherwise it is carved, joined, accepted and seeded.
pub open spec fn level_step(s: LevelState, draws: Seq<int>) -> LevelState {
    let room = candidate(draws, s.4);
    if exists|i: int| 0 <= i < s.1.len() && room.intersects_spec(#[trigger] s.1[i]) {
        (s.0, s.1, s.2, s.3, s.4 + 4)
    } else {
        let added = room_added(s, draws, room);
        let p = spawn_plan(added.0, added.1, draws, added.2);
        (added.0, s.1.push(room), p.0, s.3 + p.1, p.2)
    }
}

/// The level after `k` room attempts that read `draws` from index `start`,
/// for entities of footprint `fp`.
pub open spec fn level_after(fp: Seq<(int, int, bool)>, draws: Seq<int>, start: int, k: int) -> LevelState
    decreases k,
{
    if k <= 0 {
        (solid_level(), seq![], fp, seq![], start)
    } else {
        level_step(level_after(fp, draws, start, k - 1), draws)
    }
}

proof fn lemma_spawn_plan_grow(map: Seq<Tile>, fp: Seq<(int, int, bool)>, draws: Seq<int>, start: int)
    ensures
        spawn_plan(map, fp, draws, start).2 >= start + 2,
{
    let m = attempts(map, fp, start + 1, draws, draws[start], true);
    lemma_attempts_grow(map, fp, start + 1, draws, draws[start], true);
    lemma_attempts_grow(map, m.0, m.2 + 1, draws, draws[m.2], false);
}

proof fn lemma_level_grow(fp: Seq<(int, int, bool)>, draws: Seq<int>, start: int, k: int)
    ensures
        level_after(fp, draws, start, k).4 >= start,
        k > 0 ==> level_after(fp, draws, start, k).4 >= level_after(fp, draws, start, k - 1).4 + 4,
    decreases k,
{
    if k > 0 {
        lemma_level_grow(fp, draws, start, k - 1);
        let s = level_after(fp, draws, start, k - 1);
        let room = candidate(draws, s.4);
        let added = room_added(s, draws, room);
        lemma_spawn_plan_grow(added.0, added.1, draws, added.2);
    }
}

proof fn lemma_level_prefix(fp: Seq<(int, int, bool)>, d1: Seq<int>, d2: Seq<int>, start: int, k: int)
    requires
        extends(d1, d2),
        0 <= start,
        level_after(fp, d1, start, k).4 <= d1.len(),
    ensures
        level_after(fp, d2, start, k) == level_after(fp, d1, start, k),
    decreases k,
{
    if k > 0 {
        lemma_level_grow(fp, d1, start, k);
        lemma_level_grow(fp, d1, start, k - 1);
        lemma_level_prefix(fp, d1, d2, start, k - 1);
        let s = level_after(fp, d1, start, k - 1);
        let c = s.4;
        assert(d2[c] == d1[c] && d2[c + 1] == d1[c + 1] && d2[c + 2] == d1[c + 2] && d2[c + 3]
            == d1[c + 3]);
        assert(candidate(d2, c) == candidate(d1, c));
        let room = candidate(d1, c);
        if !(exists|i: int| 0 <= i < s.1.len() && room.intersects_spec(#[trigger] s.1[i])) {
            let added = room_added(s, d1, room);
            lemma_spawn_plan_grow(added.0, added.1, d1, added.2);
            if s.1.len() > 0 {
                assert(d2[c + 4] == d1[c + 4]);
            }
            assert(room_added(s, d2, room) == added);
            lemma_spawn_plan_prefix(added.0, added.1, d1, d2, added.2);
        }
    }
}

/// The cell of index `k` lies on one of the two L-shaped corridors that
/// can join `a` and `b`.
pub open spec fn on_l_path(k: int, a: (int, int), b: (int, int)) -> bool {
    ||| on_h_segment(k, a.0, b.0, a.1)
    ||| on_v_segment(k, a.1, b.1, b.0)
    ||| on_v_segment(k, a.1, b.1, a.0)
    ||| on_h_segment(k, a.0, b.0, b.1)
}

/// The cell of index `k` lies inside one of `rooms`, or on a corridor
/// between the centers of two consecutive ones.
pub open spec fn floor_explained(rooms: Seq<Rect>, k: int) -> bool {
    ||| exists|i: int|
        0 <= i < rooms.len() && (#[trigger] rooms[i]).interior_contains(column_of(k), row_of(k))
    ||| exists|i: int|
        1 <= i < rooms.len() && on_l_path(k, center_of(rooms[i - 1]), center_of(#[trigger] rooms[i]))
}

/// The cell of index `k` lies on the outer edge of the level.
pub open spec fn on_border(k: int) -> bool {
    column_of(k) == 0 || column_of(k) == MAP_WIDTH - 1 || row_of(k) == 0 || row_of(k) == MAP_HEIGHT - 1
}

proof fn lemma_floor_explained_kept(rooms: Seq<Rect>, room: Rect, k: int)
    requires
        floor_explained(rooms, k),
    ensures
        floor_explained(rooms.push(room), k),
{
    let more = rooms.push(room);
    if exists|i: int|
        0 <= i < rooms.len() && (#[trigger] rooms[i]).interior_contains(column_of(k), row_of(k)) {
        let i = choose|i: int|
            0 <= i < rooms.len() && (#[trigger] rooms[i]).interior_contains(column_of(k), row_of(k));
        assert(more[i] == rooms[i]);
    } else {
        let i = choose|i: int|
            1 <= i < rooms.len() && on_l_path(k, center_of(rooms[i - 1]), center_of(#[trigger] rooms[i]));
        assert(more[i] == rooms[i] && more[i - 1] == rooms[i - 1]);
    }
}

proof fn lemma_floor_off_border(rooms: Seq<Rect>, k: int)
    requires
        floor_explained(rooms, k),
        forall|i: int| 0 <= i < rooms.len() ==> well_sized(#[trigger] rooms[i]),
    ensures
        !on_border(k),
{
    if exists|i: int|
        0 <= i < rooms.len() && (#[trigger] rooms[i]).interior_contains(column_of(k), row_of(k)) {
        let i = choose|i: int|
            0 <= i < rooms.len() && (#[trigger] rooms[i]).interior_contains(column_of(k), row_of(k));
        assert(well_sized(rooms[i]));
    } else {
        let i = choose|i: int|
            1 <= i < rooms.len() && on_l_path(k, center_of(rooms[i - 1]), center_of(#[trigger] rooms[i]));
        assert(well_sized(rooms[i]) && well_sized(rooms[i - 1]));
        lemma_center_inside(rooms[i]);
        lemma_center_inside(rooms[i - 1]);
    }
}

proof fn lemma_floors_persist(before: Seq<Tile>, after: Seq<Tile>)
    requires
        keeps_floors(before, after),
    ensures
        forall|x: int, y: int| #[trigger]
            passable_at(after, x, y) <== passable_at(before, x, y),
{
    assert forall|x: int, y: int| passable_at(before, x, y) implies #[trigger] passable_at(
        after,
        x,
        y,
    ) by {
        assert(after[tile_index(x, y)].passable);
    }
}

proof fn lemma_level_facts_persist(before: Seq<Tile>, after: Seq<Tile>, rooms: Seq<Rect>)
    requires
        keeps_floors(before, after),
        forall|r: int| 0 <= r < rooms.len() ==> room_floored(before, #[trigger] rooms[r]),
        forall|r: int|
            1 <= r < rooms.len() ==> joined(
                before,
                center_of(#[trigger] rooms[r - 1]),
                center_of(rooms[r]),
            ),
    ensures
        forall|r: int| 0 <= r < rooms.len() ==> room_floored(after, #[trigger] rooms[r]),
        forall|r: int|
            1 <= r < rooms.len() ==> joined(
                after,
                center_of(#[trigger] rooms[r - 1]),
                center_of(rooms[r]),
            ),
{
    lemma_floors_persist(before, after);
    assert forall|r: int| 0 <= r < rooms.len() implies room_floored(after, #[trigger] rooms[r]) by {
        assert(room_floored(before, rooms[r]));
    }
    assert forall|r: int| 1 <= r < rooms.len() implies joined(
        after,
        center_of(#[trigger] rooms[r - 1]),
        center_of(rooms[r]),
    ) by {
        let a = center_of(rooms[r - 1]);
        let b = center_of(rooms[r]);
        assert(joined(before, a, b));
        if h_path(before, a.0, b.0, a.1) && v_path(before, a.1, b.1, b.0) {
            assert(h_path(after, a.0, b.0, a.1));
            assert(v_path(after, a.1, b.1, b.0));
        } else {
            assert(v_path(after, a.1, b.1, a.0));
            assert(h_path(after, a.0, b.0, b.1));
        }
    }
}

proof fn lemma_center_inside(room: Rect)
    requires
        well_sized(room),
    ensures
        room.interior_contains(center_of(room).0, center_of(room).1),
        in_bounds(center_of(room).0, center_of(room).1),
{
}

/// Whether `room` intersects any of `rooms`.
fn intersects_any(room: &Rect, rooms: &Vec<Rect>) -> (r: bool)
    ensures
        r == exists|i: int| 0 <= i < rooms@.len() && room.intersects_spec(#[trigger] rooms@[i]),
{
    let mut i: usize = 0;
    while i < rooms.len()
        invariant
            i <= rooms@.len(),
            forall|j: int| 0 <= j < i ==> !room.intersects_spec(#[trigger] rooms@[j]),
        decreases rooms@.len() - i,
    {
        if room.intersects_with(&rooms[i]) {
            return true;
        }
        i += 1;
    }
    false
}

proof fn lemma_carving(before: Seq<Tile>, after: Seq<Tile>)
    requires
        after.len() == before.len(),
        forall|k: int|
            0 <= k < before.len() ==> #[trigger] after[k] == Tile::empty_spec() || after[k]
                == before[k],
    ensures
        keeps_floors(before, after),
        plain_level(before) ==> plain_level(after),
{
}

proof fn lemma_room_floored(map: Seq<Tile>, room: Rect)
    requires
        well_sized(room),
        map.len() == MAP_TILES,
        forall|k: int|
            0 <= k < MAP_TILES && room.interior_contains(column_of(k), row_of(k)) ==> (
            #[trigger] map[k]).passable,
    ensures
        room_floored(map, room),
{
    assert forall|x: int, y: int| room.interior_contains(x, y) implies #[trigger] passable_at(
        map,
        x,
        y,
    ) by {
        lemma_index_in_map(x, y);
        assert(map[tile_index(x, y)].passable);
    }
}

proof fn lemma_h_path(map: Seq<Tile>, x1: int, x2: int, y: int)
    requires
        in_bounds(x1, y),
        in_bounds(x2, y),
        map.len() == MAP_TILES,
        forall|k: int| 0 <= k < MAP_TILES && on_h_segment(k, x1, x2, y) ==> (#[trigger] map[k]).passable,
    ensures
        h_path(map, x1, x2, y),
{
    assert forall|x: int| (x1 <= x <= x2 || x2 <= x <= x1) implies #[trigger] passable_at(
        map,
        x,
        y,
    ) by {
        lemma_index_in_map(x, y);
        assert(map[tile_index(x, y)].passable);
    }
}

proof fn lemma_v_path(map: Seq<Tile>, y1: int, y2: int, x: int)
    requires
        in_bounds(x, y1),
        in_bounds(x, y2),
        map.len() == MAP_TILES,
        forall|k: int| 0 <= k < MAP_TILES && on_v_segment(k, y1, y2, x) ==> (#[trigger] map[k]).passable,
    ensures
        v_path(map, y1, y2, x),
{
    assert forall|y: int| (y1 <= y <= y2 || y2 <= y <= y1) implies #[trigger] passable_at(
        map,
        x,
        y,
    ) by {
        lemma_index_in_map(x, y);
        assert(map[tile_index(x, y)].passable);
    }
}

proof fn lemma_seeded_prefix(a: Seq<Object>, b: Seq<Object>, j: int, room: Rect)
    requires
        a.len() <= b.len(),
        b.subrange(0, a.len() as int) == a,
        0 <= j < a.len(),
        seeded_in(a, j, room),
    ensures
        seeded_in(b, j, room),
{
    assert(b.subrange(0, j) =~= a.subrange(0, j));
    assert(b[j] == b.subrange(0, a.len() as int)[j]);
}

/// Builds a level: up to `MAX_ROOMS` rooms, each rejected when it
/// intersects an accepted one. The player moves to the first room's center;
/// every later room is joined to the previous one by an L-shaped corridor
/// whose turn a coin decides; every room is seeded with entities. Returns
/// the tiles and the accepted rooms in order.
pub fn make_map(thread_ctx: &mut ThreadContext, objects: &mut Vec<Object>) -> (r: (
    Vec<Tile>,
    Vec<Rect>,
))
    requires
        old(objects)@.len() >= 1,
        old(objects)@.len() + MAX_SPAWNED < usize::MAX,
    ensures
        plain_level(r.0@),
        1 <= r.1@.len() <= MAX_ROOMS,
        forall|i: int|
            0 <= i < r.1@.len() ==> well_sized(#[trigger] r.1@[i]) && room_floored(r.0@, r.1@[i]),
        disjoint_rooms(r.1@),
        forall|i: int|
            1 <= i < r.1@.len() ==> joined(
                r.0@,
                center_of(#[trigger] r.1@[i - 1]),
                center_of(r.1@[i]),
            ),
        final(objects)@[PLAYER_IDX as int] == (Object {
            x: center_of(r.1@[0]).0 as i32,
            y: center_of(r.1@[0]).1 as i32,
            ..old(objects)@[PLAYER_IDX as int]
        }),
        old(objects)@.len() <= final(objects)@.len() <= old(objects)@.len() + MAX_SPAWNED,
        forall|j: int| 1 <= j < old(objects)@.len() ==> final(objects)@[j] == old(objects)@[j],
        forall|j: int|
            old(objects)@.len() <= j < final(objects)@.len() ==> seeded_among(
                final(objects)@,
                j,
                r.1@,
            ) && passable_at(r.0@, final(objects)@[j].x as int, final(objects)@[j].y as int),
        final(thread_ctx).rand_seed == old(thread_ctx).rand_seed,
        final(thread_ctx).custom_seed == old(thread_ctx).custom_seed,
        forall|k: int|
            0 <= k < MAP_TILES && (#[trigger] r.0@[k]).passable ==> floor_explained(r.1@, k),
        forall|k: int| 0 <= k < MAP_TILES && on_border(k) ==> !(#[trigger] r.0@[k]).passable,
        extends(old(thread_ctx).draws@, final(thread_ctx).draws@),
        ({
            let s = level_after(
                footprint(old(objects)@),
                final(thread_ctx).draws@,
                old(thread_ctx).draws@.len() as int,
                MAX_ROOMS as int,
            );
            &&& s.0 == r.0@
            &&& s.1 == r.1@
            &&& s.2 == footprint(final(objects)@)
            &&& s.4 == final(thread_ctx).draws@.len()
            &&& spawned_as(final(objects)@, old(objects)@.len() as int, s.3)
        }),
{
    let ghost start = objects@;
    let ghost begin = thread_ctx.draws@.len() as int;
    let ghost fp0 = footprint(objects@);
    let ghost mut recs: Seq<(int, int, int)> = seq![];
    let mut map = solid_map();
    let mut rooms: Vec<Rect> = Vec::new();
    proof {
        assert(solid_level() =~= map@);
    }
    let mut i: i32 = 0;
    while i < MAX_ROOMS
        invariant
            0 <= i <= MAX_ROOMS,
            rooms@.len() <= i,
            i > 0 ==> rooms@.len() >= 1,
            plain_level(map@),
            forall|r: int|
                0 <= r < rooms@.len() ==> well_sized(#[trigger] rooms@[r]) && room_floored(
                    map@,
                    rooms@[r],
                ),
            disjoint_rooms(rooms@),
            forall|r: int|
                1 <= r < rooms@.len() ==> joined(
                    map@,
                    center_of(#[trigger] rooms@[r - 1]),
                    center_of(rooms@[r]),
                ),
            start.len() >= 1,
            start.len() + MAX_SPAWNED < usize::MAX,
            // each room adds at most MAX_ROOM_MONSTERS + MAX_ROOM_ITEMS entities
            start.len() <= objects@.len() <= start.len() + 6 * rooms@.len(),
            rooms@.len() == 0 ==> objects@ == start,
            rooms@.len() > 0 ==> objects@[0] == (Object {
                x: center_of(rooms@[0]).0 as i32,
                y: center_of(rooms@[0]).1 as i32,
                ..start[0]
            }),
            forall|j: int| 1 <= j < start.len() ==> objects@[j] == start[j],
            forall|j: int|
                start.len() <= j < objects@.len() ==> #[trigger] seeded_among(objects@, j, rooms@),
            thread_ctx.rand_seed == old(thread_ctx).rand_seed,
            thread_ctx.custom_seed == old(thread_ctx).custom_seed,
            begin == old(thread_ctx).draws@.len(),
            fp0 == footprint(start),
            extends(old(thread_ctx).draws@, thread_ctx.draws@),
            level_after(fp0, thread_ctx.draws@, begin, i as int) == (
                map@,
                rooms@,
                footprint(objects@),
                recs,
                thread_ctx.draws@.len() as int,
            ),
            spawned_as(objects@, start.len() as int, recs),
            forall|k: int|
                0 <= k < MAP_TILES && (#[trigger] map@[k]).passable ==> floor_explained(rooms@, k),
        decreases MAX_ROOMS - i,
    {
        let ghost d_old = thread_ctx.draws@;
        let ghost st = (map@, rooms@, footprint(objects@), recs, d_old.len() as int);
        let ghost c = d_old.len() as int;
        let w = thread_ctx.range(ROOM_MIN_SIZE, ROOM_MAX_SIZE + 1);
        let h = thread_ctx.range(ROOM_MIN_SIZE, ROOM_MAX_SIZE + 1);
        let x = thread_ctx.range(0, MAP_WIDTH - w);
        let y = thread_ctx.range(0, MAP_HEIGHT - h);
        let room = Rect::new(x, y, w, h);
        let ghost d4 = thread_ctx.draws@;
        proof {
            assert(d4[c] == w && d4[c + 1] == h && d4[c + 2] == x && d4[c + 3] == y);
        }
        if !intersects_any(&room, &rooms) {
            let ghost map0 = map@;
            create_room(room, &mut map);
            proof {
                lemma_carving(map0, map@);
                lemma_room_floored(map@, room);
                lemma_level_facts_persist(map0, map@, rooms@);
                lemma_center_inside(room);
            }
            let (new_x, new_y) = room.center();
            if rooms.len() == 0 {
                objects[PLAYER_IDX].set_pos(new_x, new_y);
            } else {
                let last = rooms.len() - 1;
                let (prev_x, prev_y) = rooms[last].center();
                let ghost map1 = map@;
                proof {
                    lemma_center_inside(rooms@[last as int]);
                }
                if thread_ctx.coin() {
                    create_h_tunnel(prev_x, new_x, prev_y, &mut map);
                    let ghost map2 = map@;
                    proof {
                        lemma_carving(map1, map2);
                        lemma_h_path(map2, prev_x as int, new_x as int, prev_y as int);
                    }
                    create_v_tunnel(prev_y, new_y, new_x, &mut map);
                    proof {
                        lemma_carving(map2, map@);
                        lemma_v_path(map@, prev_y as int, new_y as int, new_x as int);
                        lemma_floors_persist(map2, map@);
                        assert(h_path(map@, prev_x as int, new_x as int, prev_y as int));
                        lemma_floors_persist(map1, map2);
                        lemma_level_facts_persist(map1, map2, rooms@);
                        lemma_level_facts_persist(map2, map@, rooms@);
                        assert(room_floored(map2, room));
                        assert(room_floored(map@, room));
                    }
                } else {
                    create_v_tunnel(prev_y, new_y, prev_x, &mut map);
                    let ghost map2 = map@;
                    proof {
                        lemma_carving(map1, map2);
                        lemma_v_path(map2, prev_y as int, new_y as int, prev_x as int);
                    }
                    create_h_tunnel(prev_x, new_x, new_y, &mut map);
                    proof {
                        lemma_carving(map2, map@);
                        lemma_h_path(map@, prev_x as int, new_x as int, new_y as int);
                        lemma_floors_persist(map2, map@);
                        assert(v_path(map@, prev_y as int, new_y as int, prev_x as int));
                        lemma_floors_persist(map1, map2);
                        lemma_level_facts_persist(map1, map2, rooms@);
                        lemma_level_facts_persist(map2, map@, rooms@);
                        assert(room_floored(map2, room));
                        assert(room_floored(map@, room));
                    }
                }
            }
            let ghost objs0 = objects@;
            let ghost rooms0 = rooms@;
            let ghost d5 = thread_ctx.draws@;
            proof {
                assert(d5.len() == if rooms0.len() == 0 { c + 4 } else { c + 5 });
                assert forall|k: int| 0 <= k < 4 implies #[trigger] d5[c + k] == d4[c + k] by {}
                let ad = room_added(st, d5, room);
                assert(ad.0 == map@);
                assert(ad.1 =~= footprint(objects@));
                assert(ad.2 == d5.len());
                assert(spawned_as(objects@, start.len() as int, recs));
            }
            place_objects(thread_ctx, room, &map, objects);
            rooms.push(room);
            proof {
                assert forall|k: int|
                    0 <= k < MAP_TILES && (#[trigger] map@[k]).passable implies floor_explained(
                    rooms@,
                    k,
                ) by {
                    if st.0[k].passable {
                        lemma_floor_explained_kept(rooms0, room, k);
                    } else if room.interior_contains(column_of(k), row_of(k)) {
                        assert(rooms@[rooms0.len() as int] == room);
                    } else {
                        let n = rooms0.len() as int;
                        assert(rooms@[n] == room && rooms@[n - 1] == rooms0[n - 1]);
                        assert(on_l_path(k, center_of(rooms@[n - 1]), center_of(rooms@[n])));
                    }
                }
                let p = spawn_plan(map@, footprint(objs0), thread_ctx.draws@, d5.len() as int);
                let old_recs = recs;
                recs = recs + p.1;
                assert forall|j: int| start.len() <= j < objects@.len() implies #[trigger] made_from(
                    objects@[j],
                    recs[j - start.len()],
                    j + 1,
                ) by {
                    if j < objs0.len() {
                        assert(objects@[j] == objects@.subrange(0, objs0.len() as int)[j]);
                        assert(made_from(objs0[j], old_recs[j - start.len()], j + 1));
                    } else {
                        assert(made_from(objects@[j], p.1[j - objs0.len()], j + 1));
                    }
                }
                assert forall|j: int| start.len() <= j < objects@.len() implies #[trigger] seeded_among(
                    objects@,
                    j,
                    rooms@,
                ) by {
                    if j < objs0.len() {
                        assert(seeded_among(objs0, j, rooms0));
                        let r = choose|r: int|
                            0 <= r < rooms0.len() && #[trigger] seeded_in(objs0, j, rooms0[r]);
                        lemma_seeded_prefix(objs0, objects@, j, rooms0[r]);
                        assert(rooms@[r] == rooms0[r]);
                    } else {
                        assert(placed_on(map@, objects@, j, room));
                        assert(rooms@[rooms0.len() as int] == room);
                    }
                }
                assert forall|j: int| 1 <= j < start.len() implies objects@[j] == start[j] by {
                    assert(objects@[j] == objects@.subrange(0, objs0.len() as int)[j]);
                }
                assert(objects@[0] == objects@.subrange(0, objs0.len() as int)[0]);
                assert forall|a: int, b: int|
                    0 <= a < rooms@.len() && 0 <= b < rooms@.len() && a != b implies !(
                    #[trigger] rooms@[a]).intersects_spec(#[trigger] rooms@[b]) by {
                    if a < rooms0.len() && b < rooms0.len() {
                        assert(!rooms0[a].intersects_spec(rooms0[b]));
                    } else if a < rooms0.len() {
                        assert(!room.intersects_spec(rooms0[a]));
                    } else {
                        assert(!room.intersects_spec(rooms0[b]));
                    }
                }
            }
        }
        proof {
            lemma_level_prefix(fp0, d_old, thread_ctx.draws@, begin, i as int);
            assert(thread_ctx.draws@[c] == d4[c] && thread_ctx.draws@[c + 1] == d4[c + 1]
                && thread_ctx.draws@[c + 2] == d4[c + 2] && thread_ctx.draws@[c + 3] == d4[c + 3]);
            assert(candidate(thread_ctx.draws@, c) == room);
            assert forall|k: int| 0 <= k < old(thread_ctx).draws@.len() implies #[trigger]
                thread_ctx.draws@[k] == old(thread_ctx).draws@[k] by {
                assert(d_old[k] == old(thread_ctx).draws@[k]);
            }
        }
        i += 1;
    }
    proof {
        assert forall|k: int| 0 <= k < MAP_TILES && on_border(k) implies !(#[trigger] map@[k]).passable by {
            if map@[k].passable {
                lemma_floor_off_border(rooms@, k);
            }
        }
        assert forall|j: int| start.len() <= j < objects@.len() implies passable_at(
            map@,
            objects@[j].x as int,
            objects@[j].y as int,
        ) by {
            assert(seeded_among(objects@, j, rooms@));
            let r = choose|r: int| 0 <= r < rooms@.len() && #[trigger] seeded_in(objects@, j, rooms@[r]);
            assert(room_floored(map@, rooms@[r]));
        }
    }
    (map, rooms)
}

} // verus!
