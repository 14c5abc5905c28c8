use crate::collision::{blocks_at, check_tile_for_collision, occupied};
use crate::color::Color;
use crate::components::{Ai, CharacterAttributes, Item};
use crate::object::Object;
use crate::rect::Rect;
use crate::rng::ThreadContext;
use crate::text::{numbered, numbered_name};
use crate::tile::{passable_at, Tile};
use vstd::prelude::*;

verus! {

/// Most monsters placed in one room.
pub const MAX_ROOM_MONSTERS: i32 = 4;

/// Most items placed in one room.
pub const MAX_ROOM_ITEMS: i32 = 2;

/// Glyph of a dead monster.
pub const DEFAULT_DEATH_CHAR: char = 'x';

/// Bit pattern of `0.4f32`: rolls below it make a witch.
pub const WITCH_BELOW: u32 = 0x3ECC_CCCD;

/// Bit pattern of `0.7f32`: other rolls below it make a lizard, the rest a
/// wizard.
pub const LIZARD_BELOW: u32 = 0x3F33_3333;

/// Species chosen by a roll in `[0, 1)`, given by its bit pattern:
/// 0 witch, 1 lizard, 2 wizard.
pub open spec fn species_of(roll: u32) -> int {
    if roll < WITCH_BELOW {
        0
    } else if roll < LIZARD_BELOW {
        1
    } else {
        2
    }
}

pub open spec fn species_stats(s: int) -> CharacterAttributes {
    if s == 0 {
        CharacterAttributes { max_hp: 13, hp: 10, defense: 4, power: 3 }
    } else if s == 1 {
        CharacterAttributes { max_hp: 7, hp: 5, defense: 2, power: 1 }
    } else {
        CharacterAttributes { max_hp: 16, hp: 12, defense: 3, power: 4 }
    }
}

pub open spec fn species_char(s: int) -> char {
    if s == 0 {
        'W'
    } else if s == 1 {
        'L'
    } else {
        '@'
    }
}

pub open spec fn species_color(s: int) -> Color {
    if s == 0 {
        Color::Green
    } else if s == 1 {
        Color::DarkerGreen
    } else {
        Color::Red
    }
}

pub open spec fn species_label(s: int) -> Seq<char> {
    if s == 0 {
        "Witch"@
    } else if s == 1 {
        "Lizard"@
    } else {
        "Wizard"@
    }
}

/// `o` is a fresh monster of species `s` at `(x, y)`, numbered `number`.
pub open spec fn is_monster(o: Object, s: int, x: int, y: int, number: int) -> bool {
    &&& 0 <= s < 3
    &&& o.x == x && o.y == y
    &&& o.char == species_char(s) && o.death_char == DEFAULT_DEATH_CHAR
    &&& o.color == species_color(s)
    &&& o.name@ == numbered_name(species_label(s), number)
    &&& o.blocks && o.alive && o.show_when_dead
    &&& o.char_attributes == Some(species_stats(s))
    &&& o.brain == Some(Ai)
    &&& o.item.is_none()
}

/// `o` is a fresh healing potion at `(x, y)`.
pub open spec fn is_potion(o: Object, x: int, y: int) -> bool {
    &&& o.x == x && o.y == y
    &&& o.char == '!' && o.death_char == ' ' && o.color == Color::Violet
    &&& o.name@ == "Healing Potion"@
    &&& !o.blocks && o.alive && !o.show_when_dead
    &&& o.char_attributes.is_none() && o.brain.is_none()
    &&& o.item == Some(Item::Heal)
}

/// `objects[j]` was seeded into `room`: a monster or a potion inside the
/// room's interior, on a tile that no earlier blocking entity held.
pub open spec fn seeded_in(objects: Seq<Object>, j: int, room: Rect) -> bool {
    let o = objects[j];
    &&& room.interior_contains(o.x as int, o.y as int)
    &&& !occupied(objects.subrange(0, j), o.x as int, o.y as int)
    &&& o.attrs_valid()
    &&& (is_monster(o, 0, o.x as int, o.y as int, j + 1) || is_monster(
        o,
        1,
        o.x as int,
        o.y as int,
        j + 1,
    ) || is_monster(o, 2, o.x as int, o.y as int, j + 1) || is_potion(o, o.x as int, o.y as int))
}

/// `objects[j]` was seeded into `room` and stands on floor of `map`.
pub open spec fn placed_on(map: Seq<Tile>, objects: Seq<Object>, j: int, room: Rect) -> bool {
    seeded_in(objects, j, room) && passable_at(map, objects[j].x as int, objects[j].y as int)
}

/// Where the entities stand and whether they block, in order.
pub open spec fn footprint(objects: Seq<Object>) -> Seq<(int, int, bool)> {
    objects.map_values(|o: Object| (o.x as int, o.y as int, o.blocks))
}

/// A blocking entity of footprint `fp` stands at `(x, y)`.
pub open spec fn held(fp: Seq<(int, int, bool)>, x: int, y: int) -> bool {
    exists|j: int| 0 <= j < fp.len() && #[trigger] fp[j] == (x, y, true)
}

/// An entity may be put at `(x, y)`: floor that no blocking entity holds.
pub open spec fn spot_free(map: Seq<Tile>, fp: Seq<(int, int, bool)>, x: int, y: int) -> bool {
    passable_at(map, x, y) && !held(fp, x, y)
}

/// Species a roll (as a bit pattern) makes, as an integer draw.
pub open spec fn species_from(roll: int) -> int {
    if roll < WITCH_BELOW {
        0
    } else if roll < LIZARD_BELOW {
        1
    } else {
        2
    }
}

/// Kind of a spawn record that stands for a healing potion; kinds 0 to 2
/// are monster species.
pub open spec fn potion_kind() -> int {
    3
}

/// Footprint, spawn records `(kind, x, y)` and next draw index after `k`
/// placement attempts that read `draws` from index `start`: each attempt
/// reads a spot `x`, `y`; a free spot takes a monster, whose species the
/// next draw rolls, or a potion; a taken spot is skipped.
pub open spec fn attempts(
    map: Seq<Tile>,
    fp: Seq<(int, int, bool)>,
    start: int,
    draws: Seq<int>,
    k: int,
    monsters: bool,
) -> (Seq<(int, int, bool)>, Seq<(int, int, int)>, int)
    decreases k,
{
    if k <= 0 {
        (fp, seq![], start)
    } else {
        let prev = attempts(map, fp, start, draws, k - 1, monsters);
        let c = prev.2;
        let x = draws[c];
        let y = draws[c + 1];
        if !spot_free(map, prev.0, x, y) {
            (prev.0, prev.1, c + 2)
        } else if monsters {
            (prev.0.push((x, y, true)), prev.1.push((species_from(draws[c + 2]), x, y)), c + 3)
        } else {
            (prev.0.push((x, y, false)), prev.1.push((potion_kind(), x, y)), c + 2)
        }
    }
}

/// The monster phase and the potion phase of seeding one room from
/// `draws` at index `start`: a monster count, its attempts, a potion count,
/// its attempts.
pub open spec fn spawn_phases(map: Seq<Tile>, fp: Seq<(int, int, bool)>, draws: Seq<int>, start: int) -> (
    (Seq<(int, int, bool)>, Seq<(int, int, int)>, int),
    (Seq<(int, int, bool)>, Seq<(int, int, int)>, int),
) {
    let m = attempts(map, fp, start + 1, draws, draws[start], true);
    let i = attempts(map, m.0, m.2 + 1, draws, draws[m.2], false);
    (m, i)
}

/// Footprint, spawn records and next draw index after seeding one room.
pub open spec fn spawn_plan(map: Seq<Tile>, fp: Seq<(int, int, bool)>, draws: Seq<int>, start: int) -> (
    Seq<(int, int, bool)>,
    Seq<(int, int, int)>,
    int,
) {
    let (m, i) = spawn_phases(map, fp, draws, start);
    (i.0, m.1 + i.1, i.2)
}

/// `o` is the entity spawn record `rec` makes, numbered `number`.
pub open spec fn made_from(o: Object, rec: (int, int, int), number: int) -> bool {
    if rec.0 == potion_kind() {
        is_potion(o, rec.1, rec.2)
    } else {
        is_monster(o, rec.0, rec.1, rec.2, number)
    }
}

/// The entities from index `from` on are those `recs` make, in order.
pub open spec fn spawned_as(objects: Seq<Object>, from: int, recs: Seq<(int, int, int)>) -> bool {
    &&& objects.len() == from + recs.len()
    &&& forall|j: int|
        from <= j < objects.len() ==> #[trigger] made_from(objects[j], recs[j - from], j + 1)
}

/// `d2` extends `d1`.
pub open spec fn extends(d1: Seq<int>, d2: Seq<int>) -> bool {
    d1.len() <= d2.len() && forall|i: int| 0 <= i < d1.len() ==> #[trigger] d2[i] == d1[i]
}

/// Each attempt reads at least two draws; the monster phase makes only
/// monsters and the potion phase only potions, at most one per attempt.
pub proof fn lemma_attempts_grow(
    map: Seq<Tile>,
    fp: Seq<(int, int, bool)>,
    start: int,
    draws: Seq<int>,
    k: int,
    monsters: bool,
)
    ensures
        k >= 0 ==> attempts(map, fp, start, draws, k, monsters).2 >= start + 2 * k,
        k > 0 ==> attempts(map, fp, start, draws, k - 1, monsters).2 + 2 <= attempts(
            map,
            fp,
            start,
            draws,
            k,
            monsters,
        ).2,
        attempts(map, fp, start, draws, k, monsters).1.len() <= if k > 0 { k } else { 0 },
        forall|j: int|
            0 <= j < attempts(map, fp, start, draws, k, monsters).1.len() ==> if monsters {
                0 <= (#[trigger] attempts(map, fp, start, draws, k, monsters).1[j]).0 < 3
            } else {
                attempts(map, fp, start, draws, k, monsters).1[j].0 == potion_kind()
            },
    decreases k,
{
    if k > 0 {
        lemma_attempts_grow(map, fp, start, draws, k - 1, monsters);
        let prev = attempts(map, fp, start, draws, k - 1, monsters);
        let cur = attempts(map, fp, start, draws, k, monsters);
        assert forall|j: int| 0 <= j < cur.1.len() implies if monsters {
            0 <= (#[trigger] cur.1[j]).0 < 3
        } else {
            cur.1[j].0 == potion_kind()
        } by {
            if j < prev.1.len() {
                assert(cur.1[j] == prev.1[j]);
            }
        }
    }
}

/// Attempts read no draw past the index they stop at, so later draws do
/// not change them.
pub proof fn lemma_attempts_prefix(
    map: Seq<Tile>,
    fp: Seq<(int, int, bool)>,
    start: int,
    d1: Seq<int>,
    d2: Seq<int>,
    k: int,
    monsters: bool,
)
    requires
        extends(d1, d2),
        0 <= start,
        attempts(map, fp, start, d1, k, monsters).2 <= d1.len(),
    ensures
        attempts(map, fp, start, d2, k, monsters) == attempts(map, fp, start, d1, k, monsters),
    decreases k,
{
    if k > 0 {
        lemma_attempts_grow(map, fp, start, d1, k, monsters);
        lemma_attempts_prefix(map, fp, start, d1, d2, k - 1, monsters);
        let c = attempts(map, fp, start, d1, k - 1, monsters).2;
        lemma_attempts_grow(map, fp, start, d1, k - 1, monsters);
        assert(d2[c] == d1[c] && d2[c + 1] == d1[c + 1]);
        if monsters && spot_free(map, attempts(map, fp, start, d1, k - 1, monsters).0, d1[c], d1[c + 1]) {
            assert(d2[c + 2] == d1[c + 2]);
        }
    }
}

/// Seeding a room reads no draw past the index it stops at, so later
/// draws do not change it.
pub proof fn lemma_spawn_plan_prefix(
    map: Seq<Tile>,
    fp: Seq<(int, int, bool)>,
    d1: Seq<int>,
    d2: Seq<int>,
    start: int,
)
    requires
        extends(d1, d2),
        0 <= start,
        spawn_plan(map, fp, d1, start).2 <= d1.len(),
    ensures
        spawn_phases(map, fp, d2, start) == spawn_phases(map, fp, d1, start),
        spawn_plan(map, fp, d2, start) == spawn_plan(map, fp, d1, start),
        spawn_plan(map, fp, d1, start).2 >= start + 2,
{
    let (m, i) = spawn_phases(map, fp, d1, start);
    lemma_attempts_grow(map, m.0, m.2 + 1, d1, d1[m.2], false);
    lemma_attempts_grow(map, fp, start + 1, d1, d1[start], true);
    assert(d2[start] == d1[start]);
    lemma_attempts_prefix(map, fp, start + 1, d1, d2, d1[start], true);
    assert(d2[m.2] == d1[m.2]);
    lemma_attempts_prefix(map, m.0, m.2 + 1, d1, d2, d1[m.2], false);
}

proof fn lemma_held_footprint(objects: Seq<Object>, x: int, y: int)
    ensures
        held(footprint(objects), x, y) == occupied(objects, x, y),
{
    let fp = footprint(objects);
    if occupied(objects, x, y) {
        let j = choose|j: int| 0 <= j < objects.len() && blocks_at(#[trigger] objects[j], x, y);
        assert(fp[j] == (x, y, true));
    }
    if held(fp, x, y) {
        let j = choose|j: int| 0 <= j < fp.len() && #[trigger] fp[j] == (x, y, true);
        assert(blocks_at(objects[j], x, y));
    }
}

/// Name of the next entity: `label`, `_` and the collection's size plus one.
pub fn npc_name(label: &str, objects: &Vec<Object>) -> (r: String)
    requires
        objects@.len() < usize::MAX,
    ensures
        r@ == numbered_name(label@, objects@.len() + 1 as int),
{
    numbered(label, objects.len() + 1)
}

/// The monster that a roll in `[0, 1)` (as its bit pattern) makes at
/// `(x, y)`, named after the collection it joins.
pub fn make_monster(x: i32, y: i32, roll: u32, objects: &Vec<Object>) -> (r: Object)
    requires
        objects@.len() < usize::MAX,
    ensures
        is_monster(r, species_of(roll), x as int, y as int, objects@.len() + 1 as int),
        r.attrs_valid(),
{
    let mut monster = if roll < WITCH_BELOW {
        let name = npc_name("Witch", objects);
        let mut witch = Object::new(x, y, 'W', DEFAULT_DEATH_CHAR, name.as_str(), Color::Green, true, true);
        witch.char_attributes = Some(CharacterAttributes { max_hp: 13, hp: 10, defense: 4, power: 3 });
        witch
    } else if roll < LIZARD_BELOW {
        let name = npc_name("Lizard", objects);
        let mut lizard = Object::new(
            x,
            y,
            'L',
            DEFAULT_DEATH_CHAR,
            name.as_str(),
            Color::DarkerGreen,
            true,
            true,
        );
        lizard.char_attributes = Some(CharacterAttributes { max_hp: 7, hp: 5, defense: 2, power: 1 });
        lizard
    } else {
        let name = npc_name("Wizard", objects);
        let mut wizard = Object::new(x, y, '@', DEFAULT_DEATH_CHAR, name.as_str(), Color::Red, true, true);
        wizard.char_attributes = Some(CharacterAttributes { max_hp: 16, hp: 12, defense: 3, power: 4 });
        wizard
    };
    monster.brain = Some(Ai);
    monster.alive = true;
    monster
}

/// A healing potion at `(x, y)`.
pub fn make_potion(x: i32, y: i32) -> (r: Object)
    ensures
        is_potion(r, x as int, y as int),
        r.attrs_valid(),
{
    let mut obj = Object::new(x, y, '!', ' ', "Healing Potion", Color::Violet, false, false);
    obj.alive = true;
    obj.item = Some(Item::Heal);
    obj
}

/// The player, before it is placed: a living fighter named "Player Bob".
pub fn make_player() -> (r: Object)
    ensures
        r.x == 0 && r.y == 0 && r.char == '@' && r.death_char == 'X' && r.color == Color::White,
        r.name@ == "Player Bob"@,
        r.blocks && r.alive && r.show_when_dead,
        r.char_attributes == Some(CharacterAttributes { max_hp: 30, hp: 30, defense: 3, power: 7 }),
        r.brain.is_none() && r.item.is_none(),
        r.attrs_valid(),
{
    let mut player = Object::new(0, 0, '@', 'X', "Player Bob", Color::White, true, true);
    player.alive = true;
    player.char_attributes = Some(CharacterAttributes { max_hp: 30, hp: 30, defense: 3, power: 7 });
    player
}

/// The room's interior spans at least one cell on each axis.
pub open spec fn has_interior(room: Rect) -> bool {
    room.x1 + 1 < room.x2 && room.y1 + 1 < room.y2
}

proof fn lemma_seeded_kept(objects: Seq<Object>, o: Object, j: int, room: Rect)
    requires
        0 <= j < objects.len(),
        seeded_in(objects, j, room),
    ensures
        seeded_in(objects.push(o), j, room),
{
    assert(objects.push(o).subrange(0, j) =~= objects.subrange(0, j));
    assert(objects.push(o)[j] == objects[j]);
}

/// Draws where to put one entity in the interior of `room`, and whether
/// that spot is free (a taken spot is skipped by the caller, not retried).
fn draw_spot(ctx: &mut ThreadContext, room: Rect, map: &Vec<Tile>, objects: &Vec<Object>) -> (r: (
    i32,
    i32,
    bool,
))
    requires
        has_interior(room),
    ensures
        room.interior_contains(r.0 as int, r.1 as int),
        r.2 == spot_free(map@, footprint(objects@), r.0 as int, r.1 as int),
        r.2 == (passable_at(map@, r.0 as int, r.1 as int) && !occupied(
            objects@,
            r.0 as int,
            r.1 as int,
        )),
        final(ctx).draws@ == old(ctx).draws@.push(r.0 as int).push(r.1 as int),
        final(ctx).rand_seed == old(ctx).rand_seed,
        final(ctx).custom_seed == old(ctx).custom_seed,
{
    let x = ctx.range(room.x1 + 1, room.x2);
    let y = ctx.range(room.y1 + 1, room.y2);
    let coll_info = check_tile_for_collision(x as i64, y as i64, map, objects);
    proof {
        lemma_held_footprint(objects@, x as int, y as int);
    }
    (x, y, !coll_info.collision)
}

/// Seeds `room` from the random stream: a monster count (up to
/// `MAX_ROOM_MONSTERS`) and one spot per monster, then a potion count (up
/// to `MAX_ROOM_ITEMS`) and one spot per potion. A monster on a free spot
/// gets its species from one more draw; an entity whose spot is taken is
/// dropped. What is added is exactly what `spawn_plan` makes of the values
/// drawn.
pub fn place_objects(ctx: &mut ThreadContext, room: Rect, map: &Vec<Tile>, objects: &mut Vec<Object>)
    requires
        has_interior(room),
        old(objects)@.len() + MAX_ROOM_MONSTERS + MAX_ROOM_ITEMS < usize::MAX,
    ensures
        extends(old(ctx).draws@, final(ctx).draws@),
        spawn_plan(
            map@,
            footprint(old(objects)@),
            final(ctx).draws@,
            old(ctx).draws@.len() as int,
        ) == (
            footprint(final(objects)@),
            spawn_plan(
                map@,
                footprint(old(objects)@),
                final(ctx).draws@,
                old(ctx).draws@.len() as int,
            ).1,
            final(ctx).draws@.len() as int,
        ),
        spawned_as(
            final(objects)@,
            old(objects)@.len() as int,
            spawn_plan(
                map@,
                footprint(old(objects)@),
                final(ctx).draws@,
                old(ctx).draws@.len() as int,
            ).1,
        ),
        final(objects)@.subrange(0, old(objects)@.len() as int) == old(objects)@,
        ({
            let ph = spawn_phases(
                map@,
                footprint(old(objects)@),
                final(ctx).draws@,
                old(ctx).draws@.len() as int,
            );
            &&& ph.0.1.len() <= MAX_ROOM_MONSTERS
            &&& forall|j: int| 0 <= j < ph.0.1.len() ==> 0 <= (#[trigger] ph.0.1[j]).0 < 3
            &&& ph.1.1.len() <= MAX_ROOM_ITEMS
            &&& forall|j: int| 0 <= j < ph.1.1.len() ==> (#[trigger] ph.1.1[j]).0 == potion_kind()
        }),
        old(objects)@.len() <= final(objects)@.len() <= old(objects)@.len() + MAX_ROOM_MONSTERS
            + MAX_ROOM_ITEMS,
        forall|j: int|
            old(objects)@.len() <= j < final(objects)@.len() ==> #[trigger] placed_on(
                map@,
                final(objects)@,
                j,
                room,
            ),
        final(ctx).rand_seed == old(ctx).rand_seed,
        final(ctx).custom_seed == old(ctx).custom_seed,
{
    let ghost start = objects@;
    let ghost begin = ctx.draws@.len() as int;
    let ghost fp0 = footprint(objects@);
    let num_monsters = ctx.range(0, MAX_ROOM_MONSTERS + 1);
    let ghost mut recs: Seq<(int, int, int)> = seq![];
    proof {
        assert(footprint(objects@) =~= fp0);
    }
    let mut n: i32 = 0;
    while n < num_monsters
        invariant
            0 <= num_monsters <= MAX_ROOM_MONSTERS,
            0 <= n <= num_monsters,
            has_interior(room),
            start.len() + MAX_ROOM_MONSTERS + MAX_ROOM_ITEMS < usize::MAX,
            start.len() <= objects@.len() <= start.len() + n,
            objects@.subrange(0, start.len() as int) == start,
            forall|j: int|
                start.len() <= j < objects@.len() ==> #[trigger] placed_on(map@, objects@, j, room),
            begin == old(ctx).draws@.len(),
            fp0 == footprint(old(objects)@),
            extends(old(ctx).draws@, ctx.draws@),
            ctx.draws@.len() > begin,
            ctx.draws@[begin] == num_monsters,
            attempts(map@, fp0, begin + 1, ctx.draws@, n as int, true) == (
                footprint(objects@),
                recs,
                ctx.draws@.len() as int,
            ),
            spawned_as(objects@, start.len() as int, recs),
            ctx.rand_seed == old(ctx).rand_seed,
            ctx.custom_seed == old(ctx).custom_seed,
        decreases num_monsters - n,
    {
        let ghost d_old = ctx.draws@;
        let ghost fp = footprint(objects@);
        let (x, y, free) = draw_spot(ctx, room, map, objects);
        if free {
            let roll = ctx.unit_bits();
            let monster = make_monster(x, y, roll, objects);
            let ghost before = objects@;
            objects.push(monster);
            proof {
                assert(objects@.subrange(0, start.len() as int) =~= before.subrange(
                    0,
                    start.len() as int,
                ));
                assert forall|j: int| start.len() <= j < objects@.len() implies #[trigger] placed_on(
                    map@,
                    objects@,
                    j,
                    room,
                ) by {
                    if j < before.len() {
                        assert(placed_on(map@, before, j, room));
                        lemma_seeded_kept(before, monster, j, room);
                        assert(objects@[j] == before[j]);
                    } else {
                        assert(objects@.subrange(0, j) =~= before);
                        assert(objects@[j] == monster);
                    }
                }
                assert(footprint(objects@) =~= fp.push((x as int, y as int, true)));
                let old_recs = recs;
                recs = recs.push((species_from(roll as int), x as int, y as int));
                assert forall|j: int| start.len() <= j < objects@.len() implies #[trigger] made_from(
                    objects@[j],
                    recs[j - start.len()],
                    j + 1,
                ) by {
                    if j < before.len() {
                        assert(made_from(before[j], old_recs[j - start.len()], j + 1));
                        assert(objects@[j] == before[j]);
                    } else {
                        assert(objects@[j] == monster);
                    }
                }
            }
        }
        proof {
            lemma_attempts_prefix(map@, fp0, begin + 1, d_old, ctx.draws@, n as int, true);
            let c = d_old.len() as int;
            assert(ctx.draws@[c] == x as int && ctx.draws@[c + 1] == y as int);
            assert forall|i: int| 0 <= i < old(ctx).draws@.len() implies #[trigger] ctx.draws@[i]
                == old(ctx).draws@[i] by {
                assert(d_old[i] == old(ctx).draws@[i]);
            }
            assert(ctx.draws@[begin] == d_old[begin]);
        }
        n += 1;
    }
    let ghost recs_m = recs;
    let ghost c_m = ctx.draws@.len() as int;
    let ghost fp_m = footprint(objects@);
    let ghost mid_len = objects@.len() as int;
    let ghost d_m = ctx.draws@;
    let num_items = ctx.range(0, MAX_ROOM_ITEMS + 1);
    let ghost mut recs_i: Seq<(int, int, int)> = seq![];
    proof {
        lemma_attempts_prefix(map@, fp0, begin + 1, d_m, ctx.draws@, num_monsters as int, true);
        lemma_attempts_grow(map@, fp0, begin + 1, d_m, num_monsters as int, true);
        assert(ctx.draws@[begin] == d_m[begin]);
        assert(recs_m + recs_i =~= recs_m);
    }
    let mut n: i32 = 0;
    while n < num_items
        invariant
            0 <= num_items <= MAX_ROOM_ITEMS,
            0 <= n <= num_items,
            has_interior(room),
            start.len() + MAX_ROOM_MONSTERS + MAX_ROOM_ITEMS < usize::MAX,
            start.len() <= mid_len <= start.len() + MAX_ROOM_MONSTERS,
            mid_len <= objects@.len() <= mid_len + n,
            objects@.subrange(0, start.len() as int) == start,
            forall|j: int|
                start.len() <= j < objects@.len() ==> #[trigger] placed_on(map@, objects@, j, room),
            begin == old(ctx).draws@.len(),
            fp0 == footprint(old(objects)@),
            extends(old(ctx).draws@, ctx.draws@),
            ctx.draws@.len() > c_m > begin,
            ctx.draws@[begin] == num_monsters,
            ctx.draws@[c_m] == num_items,
            attempts(map@, fp0, begin + 1, ctx.draws@, num_monsters as int, true) == (
                fp_m,
                recs_m,
                c_m,
            ),
            recs_m.len() == mid_len - start.len(),
            recs_m.len() <= num_monsters,
            attempts(map@, fp_m, c_m + 1, ctx.draws@, n as int, false) == (
                footprint(objects@),
                recs_i,
                ctx.draws@.len() as int,
            ),
            spawned_as(objects@, start.len() as int, recs_m + recs_i),
            ctx.rand_seed == old(ctx).rand_seed,
            ctx.custom_seed == old(ctx).custom_seed,
        decreases num_items - n,
    {
        let ghost d_old = ctx.draws@;
        let ghost fp = footprint(objects@);
        let (x, y, free) = draw_spot(ctx, room, map, objects);
        if free {
            let potion = make_potion(x, y);
            let ghost before = objects@;
            objects.push(potion);
            proof {
                assert(objects@.subrange(0, start.len() as int) =~= before.subrange(
                    0,
                    start.len() as int,
                ));
                assert forall|j: int| start.len() <= j < objects@.len() implies #[trigger] placed_on(
                    map@,
                    objects@,
                    j,
                    room,
                ) by {
                    if j < before.len() {
                        assert(placed_on(map@, before, j, room));
                        lemma_seeded_kept(before, potion, j, room);
                        assert(objects@[j] == before[j]);
                    } else {
                        assert(objects@.subrange(0, j) =~= before);
                        assert(objects@[j] == potion);
                    }
                }
                assert(footprint(objects@) =~= fp.push((x as int, y as int, false)));
                let old_all = recs_m + recs_i;
                recs_i = recs_i.push((potion_kind(), x as int, y as int));
                assert(recs_m + recs_i =~= old_all.push((potion_kind(), x as int, y as int)));
                assert forall|j: int| start.len() <= j < objects@.len() implies #[trigger] made_from(
                    objects@[j],
                    (recs_m + recs_i)[j - start.len()],
                    j + 1,
                ) by {
                    if j < before.len() {
                        assert(made_from(before[j], old_all[j - start.len()], j + 1));
                        assert(objects@[j] == before[j]);
                    } else {
                        assert(objects@[j] == potion);
                    }
                }
            }
        }
        proof {
            lemma_attempts_prefix(map@, fp_m, c_m + 1, d_old, ctx.draws@, n as int, false);
            lemma_attempts_grow(map@, fp0, begin + 1, d_old, num_monsters as int, true);
            lemma_attempts_prefix(map@, fp0, begin + 1, d_old, ctx.draws@, num_monsters as int, true);
            let c = d_old.len() as int;
            assert(ctx.draws@[c] == x as int && ctx.draws@[c + 1] == y as int);
            assert forall|i: int| 0 <= i < old(ctx).draws@.len() implies #[trigger] ctx.draws@[i]
                == old(ctx).draws@[i] by {
                assert(d_old[i] == old(ctx).draws@[i]);
            }
            assert(ctx.draws@[begin] == d_old[begin]);
            assert(ctx.draws@[c_m] == d_old[c_m]);
        }
        n += 1;
    }
    proof {
        let d = ctx.draws@;
        lemma_attempts_grow(map@, fp0, begin + 1, d, num_monsters as int, true);
        lemma_attempts_grow(map@, fp_m, c_m + 1, d, num_items as int, false);
        assert(spawn_phases(map@, fp0, d, begin) == (
            (fp_m, recs_m, c_m),
            (footprint(objects@), recs_i, d.len() as int),
        ));
        assert forall|j: int| old(objects)@.len() <= j < objects@.len() implies #[trigger] placed_on(
            map@,
            objects@,
            j,
            room,
        ) by {
            assert(start.len() <= j < objects@.len());
        }
    }
}

} // verus!
