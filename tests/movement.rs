use rusty_roguelike::collision::{attempt_move, check_tile_for_collision, move_towards};
use rusty_roguelike::color::Color;
use rusty_roguelike::object::Object;
use rusty_roguelike::tile::{Tile, MAP_TILES, MAP_WIDTH};

fn open_map() -> Vec<Tile> {
    let mut map = vec![Tile::wall(); MAP_TILES];
    for y in 1..20 {
        for x in 1..20 {
            map[(y * MAP_WIDTH + x) as usize] = Tile::empty();
        }
    }
    map
}

fn walker(x: i32, y: i32, blocks: bool) -> Object {
    let mut o = Object::new(x, y, 'L', 'x', "L", Color::Green, blocks, true);
    o.alive = true;
    o
}

#[test]
fn move_onto_free_floor() {
    let map = open_map();
    let mut objects = vec![walker(5, 5, true)];
    let info = attempt_move(0, 1, 0, &map, &mut objects);
    assert!(!info.collision && !info.tile_collision && !info.obj_collision);
    assert_eq!(objects[0].pos(), (6, 5));
}

#[test]
fn wall_blocks_move() {
    let map = open_map();
    let mut objects = vec![walker(1, 1, true)];
    let info = attempt_move(0, -1, 0, &map, &mut objects);
    assert!(info.collision && info.tile_collision && !info.obj_collision);
    assert_eq!(info.collision_id, None);
    assert_eq!(objects[0].pos(), (1, 1));
}

#[test]
fn blocking_entity_blocks_move_first_match_wins() {
    let map = open_map();
    let mut objects = vec![walker(5, 5, true), walker(6, 5, false), walker(6, 5, true), walker(6, 5, true)];
    let info = attempt_move(0, 1, 0, &map, &mut objects);
    assert!(info.collision && info.obj_collision && !info.tile_collision);
    assert_eq!(info.collision_id, Some(2));
    assert_eq!(objects[0].pos(), (5, 5));
}

#[test]
fn non_blocking_entity_does_not_block() {
    let map = open_map();
    let mut objects = vec![walker(5, 5, true), walker(5, 6, false)];
    let info = attempt_move(0, 0, 1, &map, &mut objects);
    assert!(!info.collision);
    assert_eq!(objects[0].pos(), (5, 6));
}

#[test]
fn moves_off_the_level_are_blocked() {
    let map = vec![Tile::empty(); MAP_TILES];
    let mut objects = vec![walker(0, 0, true)];
    let info = attempt_move(0, -1, 0, &map, &mut objects);
    assert!(info.tile_collision);
    let far = check_tile_for_collision(80, 3, &map, &objects);
    assert!(far.tile_collision);
    let mut edge = vec![walker(i32::MAX, 0, true)];
    assert!(attempt_move(0, 1, 0, &map, &mut edge).tile_collision);
}

#[test]
fn move_towards_steps_diagonally_or_straight() {
    let map = open_map();
    let mut objects = vec![walker(10, 10, true), walker(5, 5, true)];
    move_towards(1, (10, 10), &map, &mut objects);
    assert_eq!(objects[1].pos(), (6, 6));
    move_towards(1, (16, 7), &map, &mut objects);
    assert_eq!(objects[1].pos(), (7, 6));
    move_towards(1, (8, 15), &map, &mut objects);
    assert_eq!(objects[1].pos(), (7, 7));
}

#[test]
fn move_towards_own_tile_stays() {
    let map = open_map();
    let mut objects = vec![walker(4, 4, true)];
    move_towards(0, (4, 4), &map, &mut objects);
    assert_eq!(objects[0].pos(), (4, 4));
}

#[test]
fn move_towards_stalls_against_wall() {
    let mut map = open_map();
    for y in 1..20 {
        map[(y * MAP_WIDTH + 8) as usize] = Tile::wall();
    }
    let mut objects = vec![walker(7, 5, true)];
    for _ in 0..3 {
        move_towards(0, (12, 5), &map, &mut objects);
    }
    assert_eq!(objects[0].pos(), (7, 5));
}
