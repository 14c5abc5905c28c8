use rusty_roguelike::color::Color;
use rusty_roguelike::components::{Ai, CharacterAttributes};
use rusty_roguelike::object::{on_object_death, strike, Object};
use rusty_roguelike::state::GameState;

fn fighter(name: &str, max_hp: i32, hp: i32, defense: i32, power: i32) -> Object {
    let mut o = Object::new(3, 4, 'W', 'x', name, Color::Green, true, true);
    o.alive = true;
    o.char_attributes = Some(CharacterAttributes { max_hp, hp, defense, power });
    o
}

fn session() -> GameState {
    GameState::new(Vec::new())
}

#[test]
fn attack_deals_power_minus_defense() {
    let mut attacker = fighter("Player Bob", 30, 30, 3, 7);
    let mut defender = fighter("Witch_2", 13, 10, 3, 3);
    let mut gs = session();
    attacker.attack(&mut defender, &mut gs);
    assert_eq!(defender.char_attributes.unwrap().hp, 6);
    assert!(defender.alive);
    assert_eq!(gs.messages.len(), 1);
    assert_eq!(gs.messages[0].0, "Player Bob attacks Witch_2 and deals 4 damage!");
    assert_eq!(gs.messages[0].1, Color::White);
    assert_eq!(attacker.char_attributes.unwrap().hp, 30);
}

#[test]
fn attack_below_defense_has_no_effect() {
    let mut attacker = fighter("Witch_2", 13, 10, 4, 3);
    let mut defender = fighter("Player Bob", 30, 30, 4, 7);
    let mut gs = session();
    attacker.attack(&mut defender, &mut gs);
    assert_eq!(defender.char_attributes.unwrap().hp, 30);
    assert_eq!(gs.messages.len(), 1);
    assert_eq!(gs.messages[0].0, "Witch_2 attacks Player Bob, but it has no effect!");
}

#[test]
fn attack_equal_power_and_defense_has_no_effect() {
    let mut attacker = fighter("A", 10, 10, 0, 4);
    let mut defender = fighter("B", 10, 10, 4, 0);
    let mut gs = session();
    attacker.attack(&mut defender, &mut gs);
    assert_eq!(defender.char_attributes.unwrap().hp, 10);
    assert!(gs.messages[0].0.contains("no effect"));
}

#[test]
fn ai_entity_killed_becomes_corpse() {
    let mut npc = fighter("Lizard_3", 7, 5, 2, 1);
    npc.brain = Some(Ai);
    let mut gs = session();
    npc.take_damage(5, &mut gs);
    assert!(!npc.alive);
    assert_eq!(npc.char_attributes.unwrap().hp, 0);
    assert!(npc.brain.is_none());
    assert!(!npc.blocks);
    assert_eq!(npc.name, "Lizard_3 [corpse]");
    assert_eq!(gs.messages.len(), 1);
    assert_eq!(gs.messages[0].0, "Lizard_3 died!");
    assert_eq!(gs.messages[0].1, Color::Red);
}

#[test]
fn player_death_keeps_name() {
    let mut player = fighter("Player Bob", 30, 3, 3, 7);
    let mut gs = session();
    player.take_damage(10, &mut gs);
    assert!(!player.alive);
    assert_eq!(player.char_attributes.unwrap().hp, 0);
    assert!(!player.blocks);
    assert_eq!(player.name, "Player Bob");
    assert_eq!(gs.messages[0].0, "Player Bob died!");
}

#[test]
fn damage_on_dead_entity_is_a_no_op() {
    let mut npc = fighter("Witch_2", 13, 2, 4, 3);
    npc.brain = Some(Ai);
    let mut gs = session();
    npc.take_damage(2, &mut gs);
    assert!(!npc.alive);
    npc.take_damage(5, &mut gs);
    assert_eq!(npc.name, "Witch_2 [corpse]");
    assert_eq!(npc.char_attributes.unwrap().hp, 0);
    assert_eq!(gs.messages.len(), 1);
}

#[test]
fn hp_stays_in_range_over_damage_and_heal() {
    let mut o = fighter("Witch_2", 13, 10, 4, 3);
    let mut gs = session();
    o.take_damage(3, &mut gs);
    assert_eq!(o.char_attributes.unwrap().hp, 7);
    o.heal(100);
    assert_eq!(o.char_attributes.unwrap().hp, 13);
    o.take_damage(i32::MAX, &mut gs);
    assert_eq!(o.char_attributes.unwrap().hp, 0);
    assert!(!o.alive);
    o.heal(5);
    assert_eq!(o.char_attributes.unwrap().hp, 0);
    assert!(!o.alive);
}

#[test]
fn zero_or_negative_damage_and_heal_change_nothing() {
    let mut o = fighter("Witch_2", 13, 10, 4, 3);
    let mut gs = session();
    o.take_damage(0, &mut gs);
    o.take_damage(-4, &mut gs);
    o.heal(0);
    o.heal(-3);
    assert_eq!(o.char_attributes.unwrap().hp, 10);
    assert!(gs.messages.is_empty());
}

#[test]
fn kill_by_attack_logs_hit_then_death() {
    let mut attacker = fighter("Player Bob", 30, 30, 3, 7);
    let mut defender = fighter("Lizard_4", 7, 5, 2, 1);
    defender.brain = Some(Ai);
    let mut gs = session();
    attacker.attack(&mut defender, &mut gs);
    assert_eq!(gs.messages.len(), 2);
    assert_eq!(gs.messages[0].0, "Player Bob attacks Lizard_4 and deals 5 damage!");
    assert_eq!(gs.messages[1].0, "Lizard_4 died!");
    assert_eq!(defender.name, "Lizard_4 [corpse]");
}

#[test]
fn huge_damage_is_reported_exactly() {
    let mut gs = session();
    let mut target = fighter("T", 10, 10, -2_000_000_000, 0);
    let name = String::from("Giant");
    strike(&name, 2_000_000_000, &mut target, &mut gs);
    assert_eq!(gs.messages[0].0, "Giant attacks T and deals 4000000000 damage!");
    assert!(!target.alive);
}

#[test]
fn death_handler_strips_ai() {
    let mut npc = fighter("Wizard_5", 16, 0, 3, 4);
    npc.brain = Some(Ai);
    npc.alive = false;
    let mut gs = session();
    on_object_death(&mut npc, &mut gs);
    assert_eq!(npc.name, "Wizard_5 [corpse]");
    assert!(npc.brain.is_none());
    assert!(!npc.blocks);
}

#[test]
fn glyph_follows_life_and_corpse_display() {
    let mut o = Object::new(0, 0, 'W', 'x', "W", Color::Green, true, true);
    assert_eq!(o.glyph(), Some('x'));
    o.alive = true;
    assert_eq!(o.glyph(), Some('W'));
    let potion = Object::new(0, 0, '!', ' ', "P", Color::Violet, false, false);
    assert_eq!(potion.glyph(), None);
}
