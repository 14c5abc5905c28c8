use rusty_roguelike::generation::{make_map, MAX_ROOMS, ROOM_MAX_SIZE, ROOM_MIN_SIZE};
use rusty_roguelike::object::Object;
use rusty_roguelike::rect::Rect;
use rusty_roguelike::rng::{ThreadContext, DEFAULT_SEED, ONE_BITS};
use rusty_roguelike::spawn::{make_monster, make_player, npc_name, WITCH_BELOW, LIZARD_BELOW};
use rusty_roguelike::tile::{Tile, MAP_HEIGHT, MAP_TILES, MAP_WIDTH};

fn generate(seed: i32) -> (Vec<Tile>, Vec<Rect>, Vec<Object>) {
    let mut ctx = ThreadContext::from_seed(seed);
    let mut objects = vec![make_player()];
    let (map, rooms) = make_map(&mut ctx, &mut objects);
    (map, rooms, objects)
}

fn passable(map: &[Tile], x: i32, y: i32) -> bool {
    map[(y * MAP_WIDTH + x) as usize].passable
}

#[test]
fn seed_69_spawns_player_at_first_room_center() {
    let (_, rooms, objects) = generate(69);
    let (cx, cy) = rooms[0].center();
    assert_eq!((objects[0].x, objects[0].y), (cx, cy));
    let (_, rooms2, objects2) = generate(69);
    assert_eq!((objects2[0].x, objects2[0].y), rooms2[0].center());
    assert_eq!((objects2[0].x, objects2[0].y), (cx, cy));
}

#[test]
fn same_seed_gives_same_level() {
    let (map_a, rooms_a, objects_a) = generate(1234);
    let (map_b, rooms_b, objects_b) = generate(1234);
    assert_eq!(map_a, map_b);
    assert_eq!(rooms_a, rooms_b);
    assert_eq!(objects_a.len(), objects_b.len());
    for (a, b) in objects_a.iter().zip(objects_b.iter()) {
        assert_eq!((a.x, a.y, a.char, &a.name), (b.x, b.y, b.char, &b.name));
        assert_eq!(a.char_attributes, b.char_attributes);
        assert_eq!(a.item, b.item);
    }
}

#[test]
fn default_context_uses_seed_69() {
    let ctx = ThreadContext::new();
    assert_eq!(ctx.rand_seed, DEFAULT_SEED);
    assert_eq!(DEFAULT_SEED, 69);
    assert!(!ctx.custom_seed);
    let mut a = ThreadContext::new();
    let mut b = ThreadContext::from_seed(69);
    assert!(b.custom_seed);
    let mut objects_a = vec![make_player()];
    let mut objects_b = vec![make_player()];
    assert_eq!(make_map(&mut a, &mut objects_a), make_map(&mut b, &mut objects_b));
}

#[test]
fn accepted_rooms_never_intersect() {
    for seed in [0, 1, 7, 42, 69, 1000, -5] {
        let (map, rooms, _) = generate(seed);
        assert!(!rooms.is_empty() && rooms.len() <= MAX_ROOMS as usize);
        assert_eq!(map.len(), MAP_TILES);
        for i in 0..rooms.len() {
            let r = rooms[i];
            assert!(r.x2 - r.x1 >= ROOM_MIN_SIZE && r.x2 - r.x1 <= ROOM_MAX_SIZE);
            assert!(r.x1 >= 0 && r.x2 < MAP_WIDTH && r.y1 >= 0 && r.y2 < MAP_HEIGHT);
            for j in 0..rooms.len() {
                if i != j {
                    assert!(!rooms[i].intersects_with(&rooms[j]));
                }
            }
            for y in r.y1 + 1..r.y2 {
                for x in r.x1 + 1..r.x2 {
                    assert!(passable(&map, x, y));
                }
            }
        }
    }
}

#[test]
fn seeded_entities_stand_on_free_floor() {
    for seed in [3, 69, 500] {
        let (map, rooms, objects) = generate(seed);
        for (j, o) in objects.iter().enumerate().skip(1) {
            assert!(passable(&map, o.x, o.y));
            assert!(rooms.iter().any(|r| r.x1 < o.x && o.x < r.x2 && r.y1 < o.y && o.y < r.y2));
            if o.blocks {
                assert!(!objects[..j].iter().any(|p| p.blocks && p.x == o.x && p.y == o.y));
            }
        }
    }
}

#[test]
fn level_tiles_are_walls_or_unexplored_floor() {
    let (map, _, _) = generate(11);
    for t in &map {
        assert!(*t == Tile::wall() || *t == Tile::empty());
    }
    assert!(map.iter().any(|t| *t == Tile::wall()));
}

#[test]
fn rect_geometry() {
    let r = Rect::new(2, 3, 5, 6);
    assert_eq!((r.x1, r.y1, r.x2, r.y2), (2, 3, 7, 9));
    assert_eq!(r.center(), (4, 6));
    assert_eq!(Rect::new(-3, -3, 0, 0).center(), (-3, -3));
    assert_eq!(Rect { x1: -5, x2: 0, y1: -1, y2: 0 }.center(), (-2, 0));
    let touching = Rect::new(7, 3, 4, 4);
    assert!(r.intersects_with(&touching));
    let apart = Rect::new(8, 3, 4, 4);
    assert!(!r.intersects_with(&apart));
}

#[test]
fn monster_species_follow_roll_thresholds() {
    let objects = vec![make_player()];
    let witch = make_monster(2, 3, 0, &objects);
    assert_eq!(witch.name, "Witch_2");
    assert_eq!(witch.char_attributes.unwrap().max_hp, 13);
    let last_witch = make_monster(2, 3, WITCH_BELOW - 1, &objects);
    assert_eq!(last_witch.char, 'W');
    let lizard = make_monster(2, 3, WITCH_BELOW, &objects);
    assert_eq!(lizard.name, "Lizard_2");
    assert_eq!(lizard.char_attributes.unwrap().hp, 5);
    let wizard = make_monster(2, 3, LIZARD_BELOW, &objects);
    assert_eq!(wizard.name, "Wizard_2");
    assert_eq!(wizard.char, '@');
    assert_eq!(wizard.char_attributes.unwrap().power, 4);
    assert!(wizard.alive && wizard.blocks && wizard.brain.is_some());
    assert_eq!(0.4f32.to_bits(), WITCH_BELOW);
    assert_eq!(0.7f32.to_bits(), LIZARD_BELOW);
    assert_eq!(1.0f32.to_bits(), ONE_BITS);
}

#[test]
fn npc_names_count_the_collection() {
    let mut objects = vec![make_player()];
    for _ in 0..11 {
        objects.push(make_player());
    }
    assert_eq!(npc_name("Lizard", &objects), "Lizard_13");
}

#[test]
fn random_draws_respect_their_bounds() {
    let mut ctx = ThreadContext::from_seed(5);
    let mut seen_low = false;
    let mut seen_high = false;
    for _ in 0..400 {
        let v = ctx.range(-2, 3);
        assert!((-2..3).contains(&v));
        seen_low |= v == -2;
        seen_high |= v == 2;
        assert!(ctx.unit_bits() < ONE_BITS);
    }
    assert!(seen_low && seen_high);
    let flips: Vec<bool> = (0..64).map(|_| ctx.coin()).collect();
    assert!(flips.iter().any(|b| *b) && flips.iter().any(|b| !*b));
}
