use rusty_roguelike::color::Color;
use rusty_roguelike::spawn::{make_player, make_potion};
use rusty_roguelike::state::{message, GameState};
use rusty_roguelike::tile::{is_passable, Tile, MAP_TILES};
use rusty_roguelike::components::Item;

#[test]
fn tile_kinds() {
    let floor = Tile::empty();
    assert!(floor.passable && !floor.blocks_sight && !floor.explored && !floor.visible);
    let wall = Tile::wall();
    assert!(!wall.passable && wall.blocks_sight);
    let mut t = Tile { passable: false, blocks_sight: true, explored: true, visible: true };
    Tile::make_empty(&mut t);
    assert_eq!(t, Tile::empty());
}

#[test]
fn passability_lookup_is_bounded() {
    let mut map = vec![Tile::wall(); MAP_TILES];
    map[80 * 2 + 3] = Tile::empty();
    assert!(is_passable(&map, 3, 2));
    assert!(!is_passable(&map, 2, 2));
    assert!(!is_passable(&map, -1, 0));
    assert!(!is_passable(&map, 0, 38));
    assert!(!is_passable(&Vec::new(), 3, 2));
}

#[test]
fn message_log_is_append_only() {
    let mut gs = GameState::new(Vec::new());
    for i in 0..10 {
        message(&mut gs, format!("entry {}", i), Color::White);
    }
    assert_eq!(gs.messages.len(), 10);
    assert_eq!(gs.messages[0].0, "entry 0");
    assert_eq!(gs.messages[9].0, "entry 9");
    assert!(gs.game_running && gs.inventory.is_empty());
}

#[test]
fn player_and_potion_templates() {
    let p = make_player();
    assert_eq!(p.name, "Player Bob");
    assert!(p.alive && p.blocks && p.brain.is_none());
    let a = p.char_attributes.unwrap();
    assert_eq!((a.max_hp, a.hp, a.defense, a.power), (30, 30, 3, 7));
    let potion = make_potion(4, 5);
    assert_eq!(potion.pos(), (4, 5));
    assert_eq!(potion.item, Some(Item::Heal));
    assert!(!potion.blocks && potion.alive);
}

#[test]
fn set_pos_and_squared_distance() {
    let mut a = make_player();
    let b = make_potion(3, 4);
    assert_eq!(a.squared_distance_to(&b), 25);
    a.set_pos(3, 5);
    assert_eq!(a.pos(), (3, 5));
    assert_eq!(a.squared_distance_to(&b), 1);
}
