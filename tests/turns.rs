use rusty_roguelike::color::Color;
use rusty_roguelike::components::{Ai, CharacterAttributes};
use rusty_roguelike::object::Object;
use rusty_roguelike::spawn::{make_player, make_potion};
use rusty_roguelike::state::GameState;
use rusty_roguelike::tile::{Tile, MAP_TILES, MAP_WIDTH};
use rusty_roguelike::turn::{
    ai_take_turn, handle_input, menu_choice, play_turn, player_move_or_attack, take_npc_turns,
    Intent, PlayerAction,
};

fn open_session() -> GameState {
    let mut map = vec![Tile::wall(); MAP_TILES];
    for y in 1..30 {
        for x in 1..30 {
            map[(y * MAP_WIDTH + x) as usize] = Tile::empty();
        }
    }
    GameState::new(map)
}

fn all_seen() -> Vec<bool> {
    vec![true; MAP_TILES]
}

fn monster(x: i32, y: i32, hp: i32) -> Object {
    let mut m = Object::new(x, y, 'W', 'x', "Witch_2", Color::Green, true, true);
    m.alive = true;
    m.brain = Some(Ai);
    m.char_attributes = Some(CharacterAttributes { max_hp: 13, hp, defense: 4, power: 3 });
    m
}

fn player_at(x: i32, y: i32) -> Object {
    let mut p = make_player();
    p.x = x;
    p.y = y;
    p
}

#[test]
fn bumping_a_monster_attacks_it() {
    let mut gs = open_session();
    let mut objects = vec![player_at(5, 5), monster(6, 5, 10)];
    player_move_or_attack(&mut gs, 1, 0, &mut objects);
    assert_eq!(objects[0].pos(), (5, 5));
    assert_eq!(objects[1].char_attributes.unwrap().hp, 7);
    assert_eq!(gs.messages[0].0, "Player Bob attacks Witch_2 and deals 3 damage!");
}

#[test]
fn bumping_a_corpse_chops_at_it() {
    let mut gs = open_session();
    let mut corpse = monster(6, 5, 0);
    corpse.alive = false;
    let mut objects = vec![player_at(5, 5), corpse];
    player_move_or_attack(&mut gs, 1, 0, &mut objects);
    assert_eq!(objects[0].pos(), (5, 5));
    assert_eq!(gs.messages[0].0, "Player Bob chops at the corpse of Witch_2. Blood sprays out.");
    assert_eq!(gs.messages[0].1, Color::Blue);
}

#[test]
fn npc_far_away_steps_closer() {
    let mut gs = open_session();
    let mut objects = vec![player_at(5, 5), monster(9, 5, 10)];
    ai_take_turn(&mut gs, &all_seen(), 1, &mut objects);
    assert_eq!(objects[1].pos(), (8, 5));
    assert!(gs.messages.is_empty());
}

#[test]
fn npc_next_to_player_attacks() {
    let mut gs = open_session();
    let mut objects = vec![player_at(5, 5), monster(6, 6, 10)];
    ai_take_turn(&mut gs, &all_seen(), 1, &mut objects);
    assert_eq!(objects[0].char_attributes.unwrap().hp, 30);
    assert_eq!(gs.messages[0].0, "Witch_2 attacks Player Bob, but it has no effect!");
    objects[1].char_attributes = Some(CharacterAttributes { max_hp: 13, hp: 10, defense: 4, power: 9 });
    ai_take_turn(&mut gs, &all_seen(), 1, &mut objects);
    assert_eq!(objects[0].char_attributes.unwrap().hp, 24);
}

#[test]
fn npc_out_of_view_idles() {
    let mut gs = open_session();
    let mut objects = vec![player_at(5, 5), monster(9, 5, 10)];
    ai_take_turn(&mut gs, &vec![false; MAP_TILES], 1, &mut objects);
    assert_eq!(objects[1].pos(), (9, 5));
}

#[test]
fn npcs_act_in_order_and_corpses_idle() {
    let mut gs = open_session();
    let mut corpse = monster(9, 9, 0);
    corpse.alive = false;
    corpse.brain = None;
    let mut objects = vec![player_at(5, 5), monster(9, 5, 10), corpse, monster(5, 9, 10)];
    take_npc_turns(&mut gs, &all_seen(), &mut objects);
    assert_eq!(objects[1].pos(), (8, 5));
    assert_eq!(objects[2].pos(), (9, 9));
    assert_eq!(objects[3].pos(), (5, 8));
}

#[test]
fn input_intents_resolve_to_actions() {
    let mut gs = open_session();
    let mut objects = vec![player_at(5, 5), make_potion(5, 5)];
    assert_eq!(handle_input(Intent::Exit, &mut gs, &mut objects), PlayerAction::Exit);
    assert_eq!(handle_input(Intent::ToggleFullscreen, &mut gs, &mut objects), PlayerAction::DidntTakeTurn);
    assert_eq!(handle_input(Intent::Nothing, &mut gs, &mut objects), PlayerAction::DidntTakeTurn);
    assert_eq!(handle_input(Intent::OpenInventory, &mut gs, &mut objects), PlayerAction::TookTurn);
    assert_eq!(handle_input(Intent::UseItem(0), &mut gs, &mut objects), PlayerAction::DidntTakeTurn);
    assert_eq!(handle_input(Intent::PickUp, &mut gs, &mut objects), PlayerAction::DidntTakeTurn);
    assert_eq!(gs.inventory.len(), 1);
    assert_eq!(objects.len(), 1);
    assert_eq!(handle_input(Intent::Move(0, 1), &mut gs, &mut objects), PlayerAction::TookTurn);
    assert_eq!(objects[0].pos(), (5, 6));
    assert_eq!(handle_input(Intent::UseItem(0), &mut gs, &mut objects), PlayerAction::TookTurn);
    assert_eq!(gs.inventory.len(), 1);
}

#[test]
fn dead_player_cannot_act() {
    let mut gs = open_session();
    let mut player = player_at(5, 5);
    player.alive = false;
    let mut objects = vec![player, make_potion(5, 5)];
    assert_eq!(handle_input(Intent::Move(1, 0), &mut gs, &mut objects), PlayerAction::DidntTakeTurn);
    assert_eq!(objects[0].pos(), (5, 5));
    assert_eq!(handle_input(Intent::PickUp, &mut gs, &mut objects), PlayerAction::DidntTakeTurn);
    assert_eq!(objects.len(), 2);
    assert_eq!(handle_input(Intent::Exit, &mut gs, &mut objects), PlayerAction::Exit);
}

#[test]
fn tick_runs_npcs_and_folds_view() {
    let mut gs = open_session();
    let mut objects = vec![player_at(5, 5), monster(9, 5, 10)];
    let fov = all_seen();
    let r = play_turn(Intent::Move(0, 1), &mut gs, &fov, true, &mut objects);
    assert_eq!(r, PlayerAction::TookTurn);
    assert_eq!(objects[0].pos(), (5, 6));
    assert_eq!(objects[1].pos(), (8, 5));
    assert!(gs.map.iter().all(|t| t.visible && t.explored));
    let r = play_turn(Intent::PickUp, &mut gs, &fov, false, &mut objects);
    assert_eq!(r, PlayerAction::DidntTakeTurn);
    assert_eq!(objects[1].pos(), (8, 5));
    let r = play_turn(Intent::Exit, &mut gs, &fov, false, &mut objects);
    assert_eq!(r, PlayerAction::Exit);
    assert!(!gs.game_running);
}

#[test]
fn menu_letters_select_entries() {
    assert_eq!(menu_choice('a', 3), Some(0));
    assert_eq!(menu_choice('C', 3), Some(2));
    assert_eq!(menu_choice('d', 3), None);
    assert_eq!(menu_choice('z', 26), Some(25));
    assert_eq!(menu_choice('1', 26), None);
    assert_eq!(menu_choice('é', 26), None);
    assert_eq!(menu_choice('a', 0), None);
}
