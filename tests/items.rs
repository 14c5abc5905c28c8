use rusty_roguelike::color::Color;
use rusty_roguelike::components::{CharacterAttributes, Item};
use rusty_roguelike::object::Object;
use rusty_roguelike::spawn::{make_player, make_potion};
use rusty_roguelike::state::{GameState, INVENTORY_CAPACITY};
use rusty_roguelike::turn::{cast_heal, pick_up_item, use_item, ItemUseResult};

fn session() -> GameState {
    GameState::new(Vec::new())
}

fn wounded_player(hp: i32) -> Object {
    let mut p = make_player();
    p.char_attributes = Some(CharacterAttributes { max_hp: 30, hp, defense: 3, power: 7 });
    p
}

#[test]
fn heal_at_full_health_is_cancelled() {
    let mut gs = session();
    gs.inventory.push(make_potion(1, 1));
    let mut objects = vec![make_player()];
    let r = use_item(0, &mut gs, &mut objects);
    assert_eq!(r, Some(ItemUseResult::Cancelled));
    assert_eq!(gs.inventory.len(), 1);
    assert_eq!(objects[0].char_attributes.unwrap().hp, 30);
    assert_eq!(gs.messages.len(), 2);
    assert_eq!(gs.messages[0].0, "You're already at full health.");
    assert_eq!(gs.messages[1].0, "Cancelled");
}

#[test]
fn heal_when_wounded_uses_up_potion() {
    let mut gs = session();
    gs.inventory.push(make_potion(1, 1));
    let mut objects = vec![wounded_player(10)];
    let r = use_item(0, &mut gs, &mut objects);
    assert_eq!(r, Some(ItemUseResult::UsedUp));
    assert_eq!(gs.inventory.len(), 0);
    assert_eq!(objects[0].char_attributes.unwrap().hp, 18);
    assert_eq!(gs.messages[0].0, "Your wounds begin to magically heal. Thanks potion!");
    assert_eq!(gs.messages[0].1, Color::LightViolet);
}

#[test]
fn heal_is_capped_at_max_hp() {
    let mut gs = session();
    gs.inventory.push(make_potion(1, 1));
    gs.inventory.push(make_potion(2, 2));
    let mut objects = vec![wounded_player(27)];
    let r = use_item(1, &mut gs, &mut objects);
    assert_eq!(r, Some(ItemUseResult::UsedUp));
    assert_eq!(objects[0].char_attributes.unwrap().hp, 30);
    assert_eq!(gs.inventory.len(), 1);
}

#[test]
fn cast_heal_without_attributes_cancels() {
    let mut gs = session();
    let mut objects = vec![Object::new(0, 0, '@', 'X', "Ghost", Color::White, true, true)];
    assert_eq!(cast_heal(&mut gs, &mut objects), ItemUseResult::Cancelled);
    assert!(gs.messages.is_empty());
}

#[test]
fn entry_without_effect_cannot_be_used() {
    let mut gs = session();
    gs.inventory.push(Object::new(0, 0, '?', ' ', "Rock", Color::White, false, false));
    let mut objects = vec![make_player()];
    assert_eq!(use_item(0, &mut gs, &mut objects), None);
    assert_eq!(gs.inventory.len(), 1);
    assert_eq!(gs.messages[0].0, "The Rock cannot be used.");
}

#[test]
fn pickup_rejected_when_inventory_full() {
    let mut gs = session();
    for i in 0..26 {
        gs.inventory.push(make_potion(i, 0));
    }
    let mut objects = vec![make_player(), make_potion(0, 0)];
    pick_up_item(&mut gs, 1, &mut objects);
    assert_eq!(gs.inventory.len(), INVENTORY_CAPACITY);
    assert_eq!(objects.len(), 2);
    assert_eq!(objects[1].item, Some(Item::Heal));
    assert_eq!(gs.messages.len(), 1);
    assert_eq!(gs.messages[0].0, "You can't pick up the Healing Potion. You're inventory is full!");
    assert_eq!(gs.messages[0].1, Color::Red);
}

#[test]
fn pickup_moves_item_and_swaps_last_in() {
    let mut gs = session();
    let mut objects = vec![make_player(), make_potion(0, 0), make_potion(5, 5), make_potion(7, 7)];
    pick_up_item(&mut gs, 1, &mut objects);
    assert_eq!(gs.inventory.len(), 1);
    assert_eq!(objects.len(), 3);
    assert_eq!((objects[1].x, objects[1].y), (7, 7));
    assert_eq!((objects[2].x, objects[2].y), (5, 5));
    assert_eq!(gs.messages[0].0, "You picked up a Healing Potion!");
}

#[test]
fn pickup_with_one_free_slot_succeeds() {
    let mut gs = session();
    for i in 0..25 {
        gs.inventory.push(make_potion(i, 0));
    }
    let mut objects = vec![make_player(), make_potion(0, 0)];
    pick_up_item(&mut gs, 1, &mut objects);
    assert_eq!(gs.inventory.len(), 26);
    assert_eq!(objects.len(), 1);
}
