use rusty_roguelike::color::Color;
use rusty_roguelike::object::Object;
use rusty_roguelike::state::GameState;
use rusty_roguelike::tile::{Tile, MAP_TILES, MAP_WIDTH};
use rusty_roguelike::visibility::{needs_recompute, update_map, visible_objects_at_pos};

fn grid(seen: &[(i32, i32)]) -> Vec<bool> {
    let mut fov = vec![false; MAP_TILES];
    for (x, y) in seen {
        fov[(y * MAP_WIDTH + x) as usize] = true;
    }
    fov
}

fn idx(x: i32, y: i32) -> usize {
    (y * MAP_WIDTH + x) as usize
}

#[test]
fn explored_never_goes_back() {
    let mut gs = GameState::new(vec![Tile::empty(); MAP_TILES]);
    update_map(&mut gs, &grid(&[(1, 1), (2, 1)]), true);
    assert!(gs.map[idx(1, 1)].visible && gs.map[idx(1, 1)].explored);
    update_map(&mut gs, &grid(&[(3, 3)]), true);
    assert!(!gs.map[idx(1, 1)].visible);
    assert!(gs.map[idx(1, 1)].explored && gs.map[idx(2, 1)].explored);
    assert!(gs.map[idx(3, 3)].visible && gs.map[idx(3, 3)].explored);
    update_map(&mut gs, &grid(&[]), true);
    assert!(gs.map.iter().all(|t| !t.visible));
    assert_eq!(gs.map.iter().filter(|t| t.explored).count(), 3);
}

#[test]
fn no_recompute_leaves_flags_alone() {
    let mut gs = GameState::new(vec![Tile::empty(); MAP_TILES]);
    update_map(&mut gs, &grid(&[(4, 4)]), true);
    let before = gs.map.clone();
    update_map(&mut gs, &grid(&[(9, 9)]), false);
    assert_eq!(gs.map, before);
    assert!(gs.map[idx(4, 4)].visible);
}

#[test]
fn recompute_only_when_player_moved() {
    assert!(needs_recompute((-1, -1), (3, 4)));
    assert!(!needs_recompute((3, 4), (3, 4)));
    assert!(needs_recompute((3, 4), (3, 5)));
}

#[test]
fn visible_entities_at_a_tile_skip_the_player() {
    let fov = grid(&[(5, 5)]);
    let mk = |x: i32, y: i32| Object::new(x, y, 'a', ' ', "a", Color::White, false, false);
    let objects = vec![mk(5, 5), mk(5, 5), mk(6, 5), mk(5, 5)];
    assert_eq!(visible_objects_at_pos(5, 5, &objects, &fov), vec![1, 3]);
    assert!(visible_objects_at_pos(6, 5, &objects, &fov).is_empty());
    assert!(visible_objects_at_pos(5, 5, &objects, &grid(&[])).is_empty());
}
