use crate::collision::{after_move, attempt_move, classifies, move_towards, unit_step, TileCollisionInfo};
use crate::color::Color;
use crate::components::Item;
use crate::object::{
    after_damage, after_heal, attack_damage, attack_log, dist_sq, lemma_damage_vitals, power, strike,
    Object,
};
use crate::state::{message, GameState, INVENTORY_CAPACITY};
use crate::text::{
    chop_message, chop_text, cannot_use_message, cannot_use_text, inventory_full_message,
    inventory_full_text, picked_up_message, picked_up_text,
};
use crate::visibility::{is_seen, seen_at};
use crate::generation::PLAYER_IDX;
use vstd::prelude::*;
use vstd::string::*;

verus! {

/// Hit points a healing potion restores.
pub const HEAL_AMOUNT: i32 = 8;

/// Whether the player's intent used up the turn.
#[derive(Clone, Copy, Debug, PartialEq, Eq, Structural)]
pub enum PlayerAction {
    TookTurn,
    DidntTakeTurn,
    Exit,
}

/// What became of an item the player tried to use.
#[derive(Clone, Copy, Debug, PartialEq, Eq, Structural)]
pub enum ItemUseResult {
    UsedUp,
    Cancelled,
}

/// One semantic intent of the player per tick.
#[derive(Clone, Copy, Debug, PartialEq, Eq, Structural)]
pub enum Intent {
    ToggleFullscreen,
    Exit,
    Move(i32, i32),
    OpenInventory,
    UseItem(usize),
    PickUp,
    Nothing,
}

pub open spec fn full_health_text() -> Seq<char> {
    "You're already at full health."@
}

pub open spec fn heal_text() -> Seq<char> {
    "Your wounds begin to magically heal. Thanks potion!"@
}

pub open spec fn cancelled_text() -> Seq<char> {
    "Cancelled"@
}

/// `after` is `before` with the player (index 0) replaced by `player`.
pub open spec fn player_replaced(before: Seq<Object>, after: Seq<Object>, player: Object) -> bool {
    after == before.update(PLAYER_IDX as int, player)
}

/// State change of a pickup of `objects[id]`: rejected with a message when
/// the inventory is full, else the entity leaves the level (the last entity
/// takes its index) and joins the inventory.
pub open spec fn picked_up(
    gs: GameState,
    objects: Seq<Object>,
    gs2: GameState,
    objects2: Seq<Object>,
    id: int,
) -> bool {
    &&& gs2.map == gs.map && gs2.game_running == gs.game_running
    &&& if gs.inventory@.len() >= INVENTORY_CAPACITY {
        &&& objects2 == objects
        &&& gs2.inventory@ == gs.inventory@
        &&& gs2.log() == gs.log().push((inventory_full_text(objects[id].name@), Color::Red))
    } else {
        &&& objects2 == objects.update(id, objects.last()).drop_last()
        &&& gs2.inventory@ == gs.inventory@.push(objects[id])
        &&& gs2.log() == gs.log().push((picked_up_text(objects[id].name@), Color::Green))
    }
}

/// State change of drinking a healing potion: cancelled at full health
/// (or without hit points), else the player heals.
pub open spec fn healed_by_potion(
    gs: GameState,
    objects: Seq<Object>,
    gs2: GameState,
    objects2: Seq<Object>,
    r: ItemUseResult,
) -> bool {
    &&& gs2.same_world(gs)
    &&& match objects[PLAYER_IDX as int].char_attributes {
        Some(a) => if a.hp == a.max_hp {
            &&& r == ItemUseResult::Cancelled
            &&& objects2 == objects
            &&& gs2.log() == gs.log().push((full_health_text(), Color::Red))
        } else {
            &&& r == ItemUseResult::UsedUp
            &&& objects2.len() == objects.len()
            &&& player_replaced(objects, objects2, objects2[PLAYER_IDX as int])
            &&& after_heal(objects[PLAYER_IDX as int], objects2[PLAYER_IDX as int], HEAL_AMOUNT as int)
            &&& gs2.log() == gs.log().push((heal_text(), Color::LightViolet))
        },
        None => {
            &&& r == ItemUseResult::Cancelled
            &&& objects2 == objects
            &&& gs2.log() == gs.log()
        },
    }
}

/// State change of using inventory entry `id`.
pub open spec fn used_item(
    gs: GameState,
    objects: Seq<Object>,
    gs2: GameState,
    objects2: Seq<Object>,
    id: int,
    r: Option<ItemUseResult>,
) -> bool {
    &&& gs2.map == gs.map && gs2.game_running == gs.game_running
    &&& match gs.inventory@[id].item {
        None => {
            &&& r.is_none()
            &&& objects2 == objects
            &&& gs2.inventory@ == gs.inventory@
            &&& gs2.log() == gs.log().push((cannot_use_text(gs.inventory@[id].name@), Color::White))
        },
        Some(Item::Heal) => {
            &&& r.is_some()
            &&& exists|mid: GameState| {
                &&& #[trigger] healed_by_potion(gs, objects, mid, objects2, r.unwrap())
                &&& if r.unwrap() == ItemUseResult::UsedUp {
                    gs2.inventory@ == gs.inventory@.remove(id) && gs2.log() == mid.log()
                } else {
                    gs2.inventory@ == gs.inventory@ && gs2.log() == mid.log().push(
                        (cancelled_text(), Color::White),
                    )
                }
            }
        },
    }
}

/// State change of the player stepping by `(dx, dy)`: a free tile is
/// entered; a living occupant is attacked; a corpse is chopped at.
pub open spec fn moved_or_attacked(
    gs: GameState,
    objects: Seq<Object>,
    gs2: GameState,
    objects2: Seq<Object>,
    dx: int,
    dy: int,
) -> bool {
    let player = objects[PLAYER_IDX as int];
    let nx = player.x + dx;
    let ny = player.y + dy;
    &&& gs2.same_world(gs)
    &&& exists|info: TileCollisionInfo| #[trigger]
        classifies(info, gs.map@, objects, nx, ny) && match info.collision_id {
            Some(t) => {
                let target = objects[t as int];
                if target.alive {
                    &&& objects2.len() == objects.len()
                    &&& objects2 == objects.update(t as int, objects2[t as int])
                    &&& after_damage(target, objects2[t as int], attack_damage(player, target))
                    &&& gs2.log() == attack_log(
                        gs.log(),
                        player.name@,
                        target,
                        attack_damage(player, target),
                    )
                } else {
                    &&& objects2 == objects
                    &&& gs2.log() == gs.log().push(
                        (chop_text(player.name@, target.name@), Color::Blue),
                    )
                }
            },
            None => {
                &&& objects2 == after_move(objects, gs.map@, PLAYER_IDX as int, dx, dy)
                &&& gs2.log() == gs.log()
            },
        }
}

/// Moves `objects[id]` from the level into the inventory, unless the
/// inventory is full, which is reported instead.
pub fn pick_up_item(game_state: &mut GameState, object_id: usize, objects: &mut Vec<Object>)
    requires
        object_id < old(objects)@.len(),
    ensures
        picked_up(*old(game_state), old(objects)@, *final(game_state), final(objects)@, object_id as int),
{
    if game_state.inventory.len() >= INVENTORY_CAPACITY {
        let text = inventory_full_message(&objects[object_id].name);
        message(game_state, text, Color::Red);
    } else {
        let item = objects.swap_remove(object_id);
        let text = picked_up_message(&item.name);
        message(game_state, text, Color::Green);
        game_state.inventory.push(item);
    }
}

/// Heals the player by `HEAL_AMOUNT`, unless already at full health.
pub fn cast_heal(game_state: &mut GameState, objects: &mut Vec<Object>) -> (r: ItemUseResult)
    requires
        old(objects)@.len() > 0,
    ensures
        healed_by_potion(*old(game_state), old(objects)@, *final(game_state), final(objects)@, r),
{
    match objects[PLAYER_IDX].char_attributes {
        Some(a) => {
            if a.hp == a.max_hp {
                message(game_state, String::from_str("You're already at full health."), Color::Red);
                return ItemUseResult::Cancelled;
            }
            message(
                game_state,
                String::from_str("Your wounds begin to magically heal. Thanks potion!"),
                Color::LightViolet,
            );
            objects[PLAYER_IDX].heal(HEAL_AMOUNT);
            proof {
                assert(objects@ =~= old(objects)@.update(PLAYER_IDX as int, objects@[PLAYER_IDX as int]));
            }
            ItemUseResult::UsedUp
        },
        None => ItemUseResult::Cancelled,
    }
}

/// Uses inventory entry `inventory_id`; a used-up item leaves the
/// inventory. `None` when the entry has no effect.
pub fn use_item(inventory_id: usize, game_state: &mut GameState, objects: &mut Vec<Object>) -> (r:
    Option<ItemUseResult>)
    requires
        inventory_id < old(game_state).inventory@.len(),
        old(objects)@.len() > 0,
    ensures
        used_item(
            *old(game_state),
            old(objects)@,
            *final(game_state),
            final(objects)@,
            inventory_id as int,
            r,
        ),
{
    match game_state.inventory[inventory_id].item {
        Some(Item::Heal) => {
            let ghost gs0 = *game_state;
            let outcome = cast_heal(game_state, objects);
            let ghost mid = *game_state;
            match outcome {
                ItemUseResult::UsedUp => {
                    game_state.inventory.remove(inventory_id);
                },
                ItemUseResult::Cancelled => {
                    message(game_state, String::from_str("Cancelled"), Color::White);
                },
            }
            proof {
                assert(healed_by_potion(gs0, old(objects)@, mid, objects@, outcome));
            }
            Some(outcome)
        },
        None => {
            let text = cannot_use_message(&game_state.inventory[inventory_id].name);
            message(game_state, text, Color::White);
            None
        },
    }
}

/// Steps the player by `(dx, dy)`, attacking a living occupant of the
/// destination and chopping at a dead one.
pub fn player_move_or_attack(game_state: &mut GameState, dx: i32, dy: i32, objects: &mut Vec<Object>)
    requires
        old(objects)@.len() > 0,
        dx != 0 || dy != 0,
    ensures
        moved_or_attacked(
            *old(game_state),
            old(objects)@,
            *final(game_state),
            final(objects)@,
            dx as int,
            dy as int,
        ),
{
    let coll_info = attempt_move(PLAYER_IDX, dx, dy, &game_state.map, objects);
    if coll_info.obj_collision {
        match coll_info.collision_id {
            Some(target) => {
                assert(target != PLAYER_IDX);
                if objects[target].alive {
                    let name = objects[PLAYER_IDX].name.clone();
                    let p = power(&objects[PLAYER_IDX]);
                    strike(&name, p, &mut objects[target], game_state);
                    proof {
                        assert(objects@ =~= old(objects)@.update(target as int, objects@[target as int]));
                    }
                } else {
                    let text = chop_message(&objects[PLAYER_IDX].name, &objects[target].name);
                    message(game_state, text, Color::Blue);
                }
            },
            None => {},
        }
    }
    proof {
        assert(classifies(
            coll_info,
            old(game_state).map@,
            old(objects)@,
            old(objects)@[PLAYER_IDX as int].x + dx,
            old(objects)@[PLAYER_IDX as int].y + dy,
        ));
    }
}

/// State change of the turn of NPC `id`: it acts only when its tile is in
/// the player's view; far from the player (distance two or more) it steps
/// toward the player, next to a living player it attacks.
pub open spec fn npc_acted(
    gs: GameState,
    fov: Seq<bool>,
    objects: Seq<Object>,
    gs2: GameState,
    objects2: Seq<Object>,
    id: int,
) -> bool {
    let npc = objects[id];
    let player = objects[PLAYER_IDX as int];
    &&& gs2.same_world(gs)
    &&& if !seen_at(fov, npc.x as int, npc.y as int) {
        objects2 == objects && gs2.log() == gs.log()
    } else if dist_sq(npc, player) >= 4 {
        &&& objects2 == after_move(
            objects,
            gs.map@,
            id,
            unit_step(player.x - npc.x, player.y - npc.y),
            unit_step(player.y - npc.y, player.x - npc.x),
        )
        &&& gs2.log() == gs.log()
    } else if player.alive {
        &&& objects2.len() == objects.len()
        &&& player_replaced(objects, objects2, objects2[PLAYER_IDX as int])
        &&& after_damage(player, objects2[PLAYER_IDX as int], attack_damage(npc, player))
        &&& gs2.log() == attack_log(gs.log(), npc.name@, player, attack_damage(npc, player))
    } else {
        objects2 == objects && gs2.log() == gs.log()
    }
}

/// The turn of NPC `npc_id`; see `npc_acted`.
pub fn ai_take_turn(game_state: &mut GameState, fov: &Vec<bool>, npc_id: usize, objects: &mut Vec<Object>)
    requires
        0 < npc_id < old(objects)@.len(),
    ensures
        npc_acted(*old(game_state), fov@, old(objects)@, *final(game_state), final(objects)@, npc_id as int),
{
    if is_seen(fov, objects[npc_id].x, objects[npc_id].y) {
        if objects[npc_id].squared_distance_to(&objects[PLAYER_IDX]) >= 4 {
            let player_pos = objects[PLAYER_IDX].pos();
            move_towards(npc_id, player_pos, &game_state.map, objects);
        } else if objects[PLAYER_IDX].alive {
            let name = objects[npc_id].name.clone();
            let p = power(&objects[npc_id]);
            strike(&name, p, &mut objects[PLAYER_IDX], game_state);
            proof {
                assert(objects@ =~= old(objects)@.update(PLAYER_IDX as int, objects@[PLAYER_IDX as int]));
            }
        }
    }
}

proof fn lemma_npc_turn_vitals(
    gs: GameState,
    fov: Seq<bool>,
    objects: Seq<Object>,
    gs2: GameState,
    objects2: Seq<Object>,
    id: int,
)
    requires
        0 < id < objects.len(),
        npc_acted(gs, fov, objects, gs2, objects2, id),
    ensures
        objects2.len() == objects.len(),
        forall|j: int|
            0 <= j < objects.len() ==> {
                &&& (objects[j].attrs_valid() ==> (#[trigger] objects2[j]).attrs_valid())
                &&& (objects2[j].alive ==> objects[j].alive)
                &&& (objects2[j].brain.is_none() || objects2[j].brain == objects[j].brain)
            },
{
    let player = objects[PLAYER_IDX as int];
    let npc = objects[id];
    if seen_at(fov, npc.x as int, npc.y as int) && dist_sq(npc, player) < 4 && player.alive {
        lemma_damage_vitals(player, objects2[PLAYER_IDX as int], attack_damage(npc, player));
    }
}

/// Entities stay as many, the player keeps no AI, hit points stay in range
/// and nothing comes back to life.
pub open spec fn vitals_kept(before: Seq<Object>, after: Seq<Object>) -> bool {
    &&& after.len() == before.len()
    &&& forall|j: int|
        0 <= j < before.len() ==> {
            &&& (before[j].attrs_valid() ==> (#[trigger] after[j]).attrs_valid())
            &&& (after[j].alive ==> before[j].alive)
            &&& (after[j].brain.is_none() || after[j].brain == before[j].brain)
        }
}

/// Turn of entity `i`: a living AI entity acts, anything else idles.
pub open spec fn turn_of(
    gs: GameState,
    fov: Seq<bool>,
    objects: Seq<Object>,
    gs2: GameState,
    objects2: Seq<Object>,
    i: int,
) -> bool {
    if objects[i].brain.is_some() && objects[i].alive {
        npc_acted(gs, fov, objects, gs2, objects2, i)
    } else {
        gs2 == gs && objects2 == objects
    }
}

/// Step `i` of `trace` is the turn of entity `i`.
pub open spec fn turn_step(trace: Seq<(GameState, Seq<Object>)>, fov: Seq<bool>, i: int) -> bool {
    turn_of(trace[i].0, fov, trace[i].1, trace[i + 1].0, trace[i + 1].1, i)
}

/// `(gs2, objects2)` is reached from `(gs, objects)` by the turns of the
/// first `n` entities, in collection order, each on the state the previous
/// ones left.
pub open spec fn npc_turns(
    gs: GameState,
    fov: Seq<bool>,
    objects: Seq<Object>,
    gs2: GameState,
    objects2: Seq<Object>,
    n: int,
) -> bool {
    exists|trace: Seq<(GameState, Seq<Object>)>|
        {
            &&& #[trigger] trace.len() == n + 1
            &&& trace[0] == (gs, objects)
            &&& trace[n] == (gs2, objects2)
            &&& forall|i: int| 0 <= i < n ==> #[trigger] turn_step(trace, fov, i)
        }
}

/// Runs the turn of every living AI entity once, in collection order.
pub fn take_npc_turns(game_state: &mut GameState, fov: &Vec<bool>, objects: &mut Vec<Object>)
    requires
        old(objects)@.len() > 0,
        old(objects)@[PLAYER_IDX as int].brain.is_none(),
    ensures
        npc_turns(
            *old(game_state),
            fov@,
            old(objects)@,
            *final(game_state),
            final(objects)@,
            old(objects)@.len() as int,
        ),
        vitals_kept(old(objects)@, final(objects)@),
        final(game_state).same_world(*old(game_state)),
{
    let ghost mut trace: Seq<(GameState, Seq<Object>)> = seq![(*game_state, objects@)];
    let mut id: usize = 0;
    while id < objects.len()
        invariant
            id <= objects@.len(),
            objects@.len() == old(objects)@.len(),
            trace.len() == id + 1,
            trace[0] == (*old(game_state), old(objects)@),
            trace[id as int] == (*game_state, objects@),
            forall|i: int| 0 <= i < id ==> #[trigger] turn_step(trace, fov@, i),
            vitals_kept(old(objects)@, objects@),
            game_state.same_world(*old(game_state)),
            old(objects)@[PLAYER_IDX as int].brain.is_none(),
        decreases objects@.len() - id,
    {
        let ghost gs0 = *game_state;
        let ghost objs0 = objects@;
        if objects[id].brain.is_some() && objects[id].alive {
            assert(id != PLAYER_IDX);
            ai_take_turn(game_state, fov, id, objects);
            proof {
                lemma_npc_turn_vitals(gs0, fov@, objs0, *game_state, objects@, id as int);
            }
        }
        proof {
            let prev = trace;
            trace = trace.push((*game_state, objects@));
            assert forall|i: int| 0 <= i < id + 1 implies #[trigger] turn_step(trace, fov@, i) by {
                if i < id {
                    assert(turn_step(prev, fov@, i));
                    assert(trace[i] == prev[i] && trace[i + 1] == prev[i + 1]);
                } else {
                    assert(turn_of(gs0, fov@, objs0, *game_state, objects@, id as int));
                }
            }
        }
        id += 1;
    }
    assert(trace.len() == objects@.len() + 1);
}

/// Entity `j` is an item lying on the player's tile.
pub open spec fn item_here(objects: Seq<Object>, j: int) -> bool {
    &&& objects[j].item.is_some()
    &&& objects[j].x == objects[PLAYER_IDX as int].x
    &&& objects[j].y == objects[PLAYER_IDX as int].y
}

/// State change of the pickup intent: the first item (after the player)
/// on the player's tile is picked up, if there is one.
pub open spec fn picked_up_here(
    gs: GameState,
    objects: Seq<Object>,
    gs2: GameState,
    objects2: Seq<Object>,
) -> bool {
    if exists|j: int| 1 <= j < objects.len() && #[trigger] item_here(objects, j) {
        exists|j: int|
            1 <= j < objects.len() && #[trigger] item_here(objects, j) && (forall|i: int|
                1 <= i < j ==> !item_here(objects, i)) && picked_up(gs, objects, gs2, objects2, j)
    } else {
        gs2 == gs && objects2 == objects
    }
}

/// Index of the first item (after the player) on the player's tile.
fn find_item_here(objects: &Vec<Object>) -> (r: Option<usize>)
    requires
        objects@.len() > 0,
    ensures
        r matches Some(j) ==> 1 <= j < objects@.len() && item_here(objects@, j as int) && forall|i: int|
            1 <= i < j ==> !item_here(objects@, i),
        r is None ==> forall|i: int| 1 <= i < objects@.len() ==> !item_here(objects@, i),
{
    let (px, py) = objects[PLAYER_IDX].pos();
    let mut j: usize = 1;
    while j < objects.len()
        invariant
            1 <= j <= objects@.len(),
            px == objects@[PLAYER_IDX as int].x && py == objects@[PLAYER_IDX as int].y,
            forall|i: int| 1 <= i < j ==> !item_here(objects@, i),
        decreases objects@.len() - j,
    {
        if objects[j].item.is_some() && objects[j].x == px && objects[j].y == py {
            return Some(j);
        }
        j += 1;
    }
    None
}

/// An intent the turn engine accepts: a step moves somewhere.
pub open spec fn intent_ok(intent: Intent) -> bool {
    match intent {
        Intent::Move(dx, dy) => dx != 0 || dy != 0,
        _ => true,
    }
}

/// What handling `intent` does to the session and the entities, and which
/// action it counts as. Acting intents need a living player; fullscreen and
/// exit pass through; a pickup never takes the turn; an inventory entry
/// that does not exist cannot be used.
pub open spec fn handled(
    intent: Intent,
    gs: GameState,
    objects: Seq<Object>,
    gs2: GameState,
    objects2: Seq<Object>,
    r: PlayerAction,
) -> bool {
    let alive = objects[PLAYER_IDX as int].alive;
    let unchanged = gs2 == gs && objects2 == objects;
    match intent {
        Intent::ToggleFullscreen => r == PlayerAction::DidntTakeTurn && unchanged,
        Intent::Exit => r == PlayerAction::Exit && unchanged,
        Intent::Move(dx, dy) => if alive {
            r == PlayerAction::TookTurn && moved_or_attacked(gs, objects, gs2, objects2, dx as int, dy as int)
        } else {
            r == PlayerAction::DidntTakeTurn && unchanged
        },
        Intent::OpenInventory => if alive {
            r == PlayerAction::TookTurn && unchanged
        } else {
            r == PlayerAction::DidntTakeTurn && unchanged
        },
        Intent::UseItem(k) => if alive && k < gs.inventory@.len() {
            r == PlayerAction::TookTurn && exists|u: Option<ItemUseResult>| #[trigger]
                used_item(gs, objects, gs2, objects2, k as int, u)
        } else {
            r == PlayerAction::DidntTakeTurn && unchanged
        },
        Intent::PickUp => r == PlayerAction::DidntTakeTurn && if alive {
            picked_up_here(gs, objects, gs2, objects2)
        } else {
            unchanged
        },
        Intent::Nothing => r == PlayerAction::DidntTakeTurn && unchanged,
    }
}

/// Resolves one intent of the player; see `handled`. Fullscreen is the
/// front end's business and only passes through here.
pub fn handle_input(intent: Intent, game_state: &mut GameState, objects: &mut Vec<Object>) -> (r:
    PlayerAction)
    requires
        old(objects)@.len() > 0,
        intent_ok(intent),
    ensures
        handled(intent, *old(game_state), old(objects)@, *final(game_state), final(objects)@, r),
        final(objects)@.len() > 0,
        final(objects)@[PLAYER_IDX as int].brain == old(objects)@[PLAYER_IDX as int].brain,
{
    let is_player_alive = objects[PLAYER_IDX].alive;
    match intent {
        Intent::ToggleFullscreen => PlayerAction::DidntTakeTurn,
        Intent::Exit => PlayerAction::Exit,
        Intent::Move(dx, dy) => {
            if is_player_alive {
                player_move_or_attack(game_state, dx, dy, objects);
                PlayerAction::TookTurn
            } else {
                PlayerAction::DidntTakeTurn
            }
        },
        Intent::OpenInventory => {
            if is_player_alive {
                PlayerAction::TookTurn
            } else {
                PlayerAction::DidntTakeTurn
            }
        },
        Intent::UseItem(k) => {
            if is_player_alive && k < game_state.inventory.len() {
                use_item(k, game_state, objects);
                PlayerAction::TookTurn
            } else {
                PlayerAction::DidntTakeTurn
            }
        },
        Intent::PickUp => {
            if is_player_alive {
                match find_item_here(objects) {
                    Some(item_id) => {
                        pick_up_item(game_state, item_id, objects);
                    },
                    None => {},
                }
            }
            PlayerAction::DidntTakeTurn
        },
        Intent::Nothing => PlayerAction::DidntTakeTurn,
    }
}

/// Index chosen in a menu of `num_options` entries by pressing `key`: the
/// letters `a`, `b`, ... (either case) select the entries in order.
pub fn menu_choice(key: char, num_options: usize) -> (r: Option<usize>)
    requires
        num_options <= INVENTORY_CAPACITY,
    ensures
        r == if 'a' <= key <= 'z' && (key as int - 'a' as int) < num_options {
            Some((key as int - 'a' as int) as usize)
        } else if 'A' <= key <= 'Z' && (key as int - 'A' as int) < num_options {
            Some((key as int - 'A' as int) as usize)
        } else {
            None
        },
{
    let code = key as u32;
    if 'a' <= key && key <= 'z' && ((code - ('a' as u32)) as usize) < num_options {
        Some((code - ('a' as u32)) as usize)
    } else if 'A' <= key && key <= 'Z' && ((code - ('A' as u32)) as usize) < num_options {
        Some((code - ('A' as u32)) as usize)
    } else {
        None
    }
}

/// One tick once the intent is known: the intent is resolved; on exit the
/// session stops at once; when the player took a turn, every living AI
/// entity acts; then, if the player moved since the previous tick, the
/// oracle's field of view `fov` is folded into the level.
pub fn play_turn(
    intent: Intent,
    game_state: &mut GameState,
    fov: &Vec<bool>,
    recompute_fov: bool,
    objects: &mut Vec<Object>,
) -> (r: PlayerAction)
    requires
        old(objects)@.len() > 0,
        old(objects)@[PLAYER_IDX as int].brain.is_none(),
        intent_ok(intent),
    ensures
        exists|gs1: GameState, objs1: Seq<Object>|
            #[trigger] handled(intent, *old(game_state), old(objects)@, gs1, objs1, r) && if r
                == PlayerAction::Exit {
                &&& *final(game_state) == (GameState { game_running: false, ..gs1 })
                &&& final(objects)@ == objs1
            } else {
                &&& final(game_state).inventory == gs1.inventory
                &&& final(game_state).game_running == gs1.game_running
                &&& final(game_state).map@ == if recompute_fov {
                    crate::visibility::refreshed_map(gs1.map@, fov@)
                } else {
                    gs1.map@
                }
                &&& if r == PlayerAction::TookTurn && gs1.game_running {
                    &&& npc_turns(
                        gs1,
                        fov@,
                        objs1,
                        GameState { map: gs1.map, ..*final(game_state) },
                        final(objects)@,
                        objs1.len() as int,
                    )
                    &&& vitals_kept(objs1, final(objects)@)
                } else {
                    final(objects)@ == objs1 && final(game_state).log() == gs1.log()
                }
            },
        final(objects)@.len() > 0,
        final(objects)@[PLAYER_IDX as int].brain.is_none(),
{
    let action = handle_input(intent, game_state, objects);
    let ghost gs1 = *game_state;
    let ghost objs1 = objects@;
    if action == PlayerAction::Exit {
        game_state.game_running = false;
        return action;
    }
    if game_state.game_running && action == PlayerAction::TookTurn {
        take_npc_turns(game_state, fov, objects);
    }
    let ghost gs2 = *game_state;
    crate::visibility::update_map(game_state, fov, recompute_fov);
    proof {
        assert(handled(intent, *old(game_state), old(objects)@, gs1, objs1, action));
        assert(gs2 == GameState { map: gs1.map, ..*game_state });
    }
    action
}

} // verus!
