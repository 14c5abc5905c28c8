use crate::color::Color;
use crate::components::{Ai, CharacterAttributes, Item};
use crate::state::{message, GameState};
use crate::text::{
    attack_hit_message, attack_hit_text, attack_miss_message, attack_miss_text, corpse_name,
    corpse_of, death_message, death_text,
};
use vstd::prelude::*;
use vstd::string::*;

verus! {

/// An actor or thing on the level, with optional capabilities.
pub struct Object {
    pub x: i32,
    pub y: i32,
    pub char: char,
    pub death_char: char,
    pub color: Color,
    pub name: String,
    pub blocks: bool,
    pub alive: bool,
    pub show_when_dead: bool,
    pub char_attributes: Option<CharacterAttributes>,
    pub brain: Option<Ai>,
    pub item: Option<Item>,
}

/// Hit points left after taking `damage` (positive) from `hp`.
pub open spec fn hp_after(hp: int, damage: int) -> int {
    if damage < hp {
        hp - damage
    } else {
        0
    }
}

/// `after` is `before` having died: inert, not blocking, and an AI entity
/// renamed as a corpse.
pub open spec fn killed(before: Object, after: Object) -> bool {
    &&& after == Object { name: after.name, blocks: false, brain: None, ..before }
    &&& after.name@ == if before.brain.is_some() {
        corpse_name(before.name@)
    } else {
        before.name@
    }
}

/// `after` is `before` once it took `damage`.
pub open spec fn after_damage(before: Object, after: Object, damage: int) -> bool {
    match before.char_attributes {
        Some(a) => if before.alive && damage > 0 {
            let hit = Object {
                char_attributes: Some(
                    CharacterAttributes { hp: hp_after(a.hp as int, damage) as i32, ..a },
                ),
                alive: hp_after(a.hp as int, damage) > 0,
                ..before
            };
            if hp_after(a.hp as int, damage) > 0 {
                after == hit
            } else {
                killed(hit, after)
            }
        } else {
            after == before
        },
        None => after == before,
    }
}

/// `damage` turns `o` from alive to dead.
pub open spec fn dies_of(o: Object, damage: int) -> bool {
    match o.char_attributes {
        Some(a) => o.alive && damage > 0 && hp_after(a.hp as int, damage) <= 0,
        None => false,
    }
}

/// Squared Euclidean distance between two entities.
pub open spec fn dist_sq(a: Object, b: Object) -> int {
    (b.x - a.x) * (b.x - a.x) + (b.y - a.y) * (b.y - a.y)
}

/// Hit points after healing `hp` by `amount` (positive), capped at `max_hp`.
pub open spec fn hp_healed(hp: int, max_hp: int, amount: int) -> int {
    if hp + amount < max_hp {
        hp + amount
    } else {
        max_hp
    }
}

/// `after` is `before` once healed by `amount`.
pub open spec fn after_heal(before: Object, after: Object, amount: int) -> bool {
    match before.char_attributes {
        Some(a) => if before.alive && amount > 0 {
            after == Object {
                char_attributes: Some(
                    CharacterAttributes {
                        hp: hp_healed(a.hp as int, a.max_hp as int, amount) as i32,
                        ..a
                    },
                ),
                ..before
            }
        } else {
            after == before
        },
        None => after == before,
    }
}

/// Attack power of `o`; none counts as zero.
pub open spec fn power_of(o: Object) -> int {
    match o.char_attributes {
        Some(a) => a.power as int,
        None => 0,
    }
}

/// Defense of `o`; none counts as zero.
pub open spec fn defense_of(o: Object) -> int {
    match o.char_attributes {
        Some(a) => a.defense as int,
        None => 0,
    }
}

/// Damage an attack by `attacker` deals to `target`.
pub open spec fn attack_damage(attacker: Object, target: Object) -> int {
    power_of(attacker) - defense_of(target)
}

/// The log after an attacker named `attacker` attacks `target` for
/// `damage`: the hit or the miss, then the death if it kills.
pub open spec fn attack_log(
    log: Seq<(Seq<char>, Color)>,
    attacker: Seq<char>,
    target: Object,
    damage: int,
) -> Seq<(Seq<char>, Color)> {
    if damage > 0 {
        let hit = log.push((attack_hit_text(attacker, target.name@, damage), Color::White));
        if dies_of(target, damage) {
            hit.push((death_text(target.name@), Color::Red))
        } else {
            hit
        }
    } else {
        log.push((attack_miss_text(attacker, target.name@), Color::White))
    }
}

/// Attack power of `o` as a machine integer.
pub fn power(o: &Object) -> (r: i64)
    ensures
        r == power_of(*o),
        i32::MIN <= r <= i32::MAX,
{
    match o.char_attributes {
        Some(a) => a.power as i64,
        None => 0,
    }
}

/// An attacker named `attacker` with attack power `power` attacks
/// `target`: a positive difference between power and defense is dealt as
/// damage, otherwise the attack has no effect. Both are logged.
pub fn strike(attacker: &String, power: i64, target: &mut Object, game_state: &mut GameState)
    requires
        i32::MIN <= power <= i32::MAX,
    ensures
        after_damage(*old(target), *final(target), power - defense_of(*old(target))),
        final(game_state).log() == attack_log(
            old(game_state).log(),
            attacker@,
            *old(target),
            power - defense_of(*old(target)),
        ),
        final(game_state).same_world(*old(game_state)),
        old(target).attrs_valid() ==> final(target).attrs_valid(),
        !old(target).alive ==> !final(target).alive,
        final(target).brain.is_none() || final(target).brain == old(target).brain,
        final(target).x == old(target).x && final(target).y == old(target).y,
{
    let defense: i64 = match target.char_attributes {
        Some(a) => a.defense as i64,
        None => 0,
    };
    let damage = power - defense;
    if damage > 0 {
        let text = attack_hit_message(attacker, &target.name, damage);
        message(game_state, text, Color::White);
        let dealt: i32 = if damage > i32::MAX as i64 {
            i32::MAX
        } else {
            damage as i32
        };
        target.take_damage(dealt, game_state);
    } else {
        let text = attack_miss_message(attacker, &target.name);
        message(game_state, text, Color::White);
    }
}

impl Object {
    /// Combat statistics, where present, keep `0 <= hp <= max_hp`, and a
    /// living fighter has hit points left.
    pub open spec fn attrs_valid(self) -> bool {
        match self.char_attributes {
            Some(a) => a.hp_in_range() && (self.alive ==> a.hp > 0),
            None => true,
        }
    }

    /// A dead entity with no capabilities; its flags as given.
    pub fn new(
        x: i32,
        y: i32,
        char: char,
        death_char: char,
        name: &str,
        color: Color,
        blocks: bool,
        show_dead: bool,
    ) -> (r: Self)
        ensures
            r.x == x && r.y == y && r.char == char && r.death_char == death_char,
            r.name@ == name@,
            r.color == color && r.blocks == blocks && r.show_when_dead == show_dead,
            !r.alive,
            r.char_attributes.is_none() && r.brain.is_none() && r.item.is_none(),
    {
        Object {
            x,
            y,
            char,
            death_char,
            color,
            name: String::from_str(name),
            blocks,
            alive: false,
            show_when_dead: show_dead,
            char_attributes: None,
            brain: None,
            item: None,
        }
    }

    pub fn pos(&self) -> (r: (i32, i32))
        ensures
            r == (self.x, self.y),
    {
        (self.x, self.y)
    }

    pub fn set_pos(&mut self, x: i32, y: i32)
        ensures
            *final(self) == (Object { x, y, ..*old(self) }),
    {
        self.x = x;
        self.y = y;
    }

    /// Squared Euclidean distance to `other`.
    pub fn squared_distance_to(&self, other: &Object) -> (r: i128)
        ensures
            r == dist_sq(*self, *other),
    {
        let dx = other.x as i128 - self.x as i128;
        let dy = other.y as i128 - self.y as i128;
        assert(0 <= dx * dx <= 0x1_0000_0000 * 0x1_0000_0000) by (nonlinear_arith)
            requires
                -0x1_0000_0000 <= dx <= 0x1_0000_0000,
        ;
        assert(0 <= dy * dy <= 0x1_0000_0000 * 0x1_0000_0000) by (nonlinear_arith)
            requires
                -0x1_0000_0000 <= dy <= 0x1_0000_0000,
        ;
        dx * dx + dy * dy
    }

    /// What to draw for this entity, if anything.
    pub fn glyph(&self) -> (r: Option<char>)
        ensures
            r == if self.alive {
                Some(self.char)
            } else if self.show_when_dead {
                Some(self.death_char)
            } else {
                None
            },
    {
        if self.alive {
            Some(self.char)
        } else if self.show_when_dead {
            Some(self.death_char)
        } else {
            None
        }
    }

    /// Removes `min(damage, hp)` hit points from a living fighter; at zero
    /// it dies, once, and the death is logged.
    pub fn take_damage(&mut self, damage: i32, game_state: &mut GameState)
        ensures
            after_damage(*old(self), *final(self), damage as int),
            final(game_state).log() == if dies_of(*old(self), damage as int) {
                old(game_state).log().push((death_text(old(self).name@), Color::Red))
            } else {
                old(game_state).log()
            },
            final(game_state).same_world(*old(game_state)),
            old(self).attrs_valid() ==> final(self).attrs_valid(),
            !old(self).alive ==> !final(self).alive,
    {
        if self.alive && damage > 0 {
            match self.char_attributes {
                Some(a) => {
                    let hp = if damage < a.hp {
                        a.hp - damage
                    } else {
                        0
                    };
                    self.char_attributes = Some(CharacterAttributes { hp, ..a });
                    if hp <= 0 {
                        self.alive = false;
                        on_object_death(self, game_state);
                    }
                },
                None => {},
            }
        }
    }

    /// Restores `amount` hit points to a living fighter, up to its maximum.
    pub fn heal(&mut self, amount: i32)
        ensures
            after_heal(*old(self), *final(self), amount as int),
            old(self).attrs_valid() ==> final(self).attrs_valid(),
            final(self).alive == old(self).alive,
    {
        if self.alive && amount > 0 {
            match self.char_attributes {
                Some(a) => {
                    let raised = a.hp as i64 + amount as i64;
                    let hp = if raised < a.max_hp as i64 {
                        raised as i32
                    } else {
                        a.max_hp
                    };
                    self.char_attributes = Some(CharacterAttributes { hp, ..a });
                },
                None => {},
            }
        }
    }

    /// Attacks `target` with this entity's power; see `strike`.
    pub fn attack(&mut self, target: &mut Object, game_state: &mut GameState)
        ensures
            *final(self) == *old(self),
            after_damage(*old(target), *final(target), attack_damage(*old(self), *old(target))),
            final(game_state).log() == attack_log(
                old(game_state).log(),
                old(self).name@,
                *old(target),
                attack_damage(*old(self), *old(target)),
            ),
            final(game_state).same_world(*old(game_state)),
            old(target).attrs_valid() ==> final(target).attrs_valid(),
            !old(target).alive ==> !final(target).alive,
    {
        let p = power(self);
        strike(&self.name, p, target, game_state);
    }
}

/// Death handling: logs the death; an AI entity loses its AI and becomes a
/// named corpse; every dying entity stops blocking.
pub fn on_object_death(obj: &mut Object, game_state: &mut GameState)
    ensures
        killed(*old(obj), *final(obj)),
        final(game_state).log() == old(game_state).log().push(
            (death_text(old(obj).name@), Color::Red),
        ),
        final(game_state).same_world(*old(game_state)),
{
    let text = death_message(&obj.name);
    message(game_state, text, Color::Red);
    match obj.brain {
        Some(_) => {
            obj.name = corpse_of(&obj.name);
            obj.blocks = false;
            obj.brain = None;
        },
        None => {
            obj.blocks = false;
        },
    }
}

/// Damage keeps hit points within `[0, max_hp]`. It turns a living
/// fighter dead at most once, when its hit points run out; an entity that is
/// already dead is left exactly as it is; nothing dead comes back to life.
pub proof fn lemma_damage_vitals(before: Object, after: Object, damage: int)
    requires
        after_damage(before, after, damage),
    ensures
        before.attrs_valid() ==> after.attrs_valid(),
        !before.alive ==> after == before,
        after.alive ==> before.alive,
        before.alive && !after.alive <==> dies_of(before, damage),
        after.brain.is_none() || after.brain == before.brain,
        after.x == before.x && after.y == before.y,
        after.item == before.item,
{
}

/// Healing keeps hit points within `[0, max_hp]` and never changes whether
/// an entity is alive.
pub proof fn lemma_heal_vitals(before: Object, after: Object, amount: int)
    requires
        after_heal(before, after, amount),
    ensures
        before.attrs_valid() ==> after.attrs_valid(),
        after.alive == before.alive,
        !before.alive ==> after == before,
{
}

} // verus!
