use vstd::prelude::*;
use vstd::string::*;

verus! {

/// The decimal digit `d` (`0 <= d < 10`).
pub open spec fn digit(d: nat) -> char {
    seq!['0', '1', '2', '3', '4', '5', '6', '7', '8', '9'][d as int]
}

/// Decimal numeral of a natural number, without leading zeros.
pub open spec fn natural_digits(n: nat) -> Seq<char>
    decreases n,
{
    if n < 10 {
        seq![digit(n)]
    } else {
        natural_digits(n / 10).push(digit(n % 10))
    }
}

/// Decimal numeral of an integer, with a leading `-` when negative.
pub open spec fn decimal(n: int) -> Seq<char> {
    if n < 0 {
        seq!['-'] + natural_digits((-n) as nat)
    } else {
        natural_digits(n as nat)
    }
}

/// Relies on `ToString` for `i128`, which writes the number in decimal.
#[verifier::external_body]
fn decimal_string(n: i128) -> (r: String)
    ensures
        r@ == decimal(n as int),
{
    n.to_string()
}

pub open spec fn attack_hit_text(attacker: Seq<char>, target: Seq<char>, damage: int) -> Seq<char> {
    attacker + " attacks "@ + target + " and deals "@ + decimal(damage) + " damage!"@
}

pub open spec fn attack_miss_text(attacker: Seq<char>, target: Seq<char>) -> Seq<char> {
    attacker + " attacks "@ + target + ", but it has no effect!"@
}

pub open spec fn death_text(name: Seq<char>) -> Seq<char> {
    name + " died!"@
}

pub open spec fn corpse_name(name: Seq<char>) -> Seq<char> {
    name + " [corpse]"@
}

pub open spec fn chop_text(player: Seq<char>, corpse: Seq<char>) -> Seq<char> {
    player + " chops at the corpse of "@ + corpse + ". Blood sprays out."@
}

pub open spec fn inventory_full_text(item: Seq<char>) -> Seq<char> {
    "You can't pick up the "@ + item + ". You're inventory is full!"@
}

pub open spec fn picked_up_text(item: Seq<char>) -> Seq<char> {
    "You picked up a "@ + item + "!"@
}

pub open spec fn cannot_use_text(item: Seq<char>) -> Seq<char> {
    "The "@ + item + " cannot be used."@
}

pub open spec fn numbered_name(label: Seq<char>, number: int) -> Seq<char> {
    label + "_"@ + decimal(number)
}

pub fn attack_hit_message(attacker: &String, target: &String, damage: i64) -> (r: String)
    ensures
        r@ == attack_hit_text(attacker@, target@, damage as int),
{
    let mut s = attacker.clone();
    s.append(" attacks ");
    s.append(target.as_str());
    s.append(" and deals ");
    let n = decimal_string(damage as i128);
    s.append(n.as_str());
    s.append(" damage!");
    s
}

pub fn attack_miss_message(attacker: &String, target: &String) -> (r: String)
    ensures
        r@ == attack_miss_text(attacker@, target@),
{
    let mut s = attacker.clone();
    s.append(" attacks ");
    s.append(target.as_str());
    s.append(", but it has no effect!");
    s
}

pub fn death_message(name: &String) -> (r: String)
    ensures
        r@ == death_text(name@),
{
    let mut s = name.clone();
    s.append(" died!");
    s
}

pub fn corpse_of(name: &String) -> (r: String)
    ensures
        r@ == corpse_name(name@),
{
    let mut s = name.clone();
    s.append(" [corpse]");
    s
}

pub fn chop_message(player: &String, corpse: &String) -> (r: String)
    ensures
        r@ == chop_text(player@, corpse@),
{
    let mut s = player.clone();
    s.append(" chops at the corpse of ");
    s.append(corpse.as_str());
    s.append(". Blood sprays out.");
    s
}

pub fn inventory_full_message(item: &String) -> (r: String)
    ensures
        r@ == inventory_full_text(item@),
{
    let mut s = String::from_str("You can't pick up the ");
    s.append(item.as_str());
    s.append(". You're inventory is full!");
    s
}

pub fn picked_up_message(item: &String) -> (r: String)
    ensures
        r@ == picked_up_text(item@),
{
    let mut s = String::from_str("You picked up a ");
    s.append(item.as_str());
    s.append("!");
    s
}

pub fn cannot_use_message(item: &String) -> (r: String)
    ensures
        r@ == cannot_use_text(item@),
{
    let mut s = String::from_str("The ");
    s.append(item.as_str());
    s.append(" cannot be used.");
    s
}

/// `label` followed by `_` and `number` in decimal.
pub fn numbered(label: &str, number: usize) -> (r: String)
    ensures
        r@ == numbered_name(label@, number as int),
{
    let mut s = String::from_str(label);
    s.append("_");
    let n = decimal_string(number as i128);
    s.append(n.as_str());
    s
}

} // verus!
