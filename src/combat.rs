use vstd::prelude::*;

verus! {

/// An opposed throw: the attacker wins when its score plus its throw reaches the
/// defender's score plus the defender's throw (ties go to the attacker).
pub open spec fn attack_beats(combat: int, defence: int, attack_roll: int, defence_roll: int) -> bool {
    combat + attack_roll >= defence + defence_roll
}

/// A manoeuvre contest: a piece is held in combat when its rating plus its throw
/// does not exceed the other side's rating plus that side's throw.
pub open spec fn engaged_by(own: int, other: int, own_roll: int, other_roll: int) -> bool {
    own + own_roll <= other + other_roll
}

pub fn attack_succeeds(combat: u8, defence: u8, attack_roll: u8, defence_roll: u8) -> (r: bool)
    ensures
        r == attack_beats(combat as int, defence as int, attack_roll as int, defence_roll as int),
{
    combat as u16 + attack_roll as u16 >= defence as u16 + defence_roll as u16
}

pub fn is_engaged_with(own: u8, other: u8, own_roll: u8, other_roll: u8) -> (r: bool)
    ensures
        r == engaged_by(own as int, other as int, own_roll as int, other_roll as int),
{
    own as u16 + own_roll as u16 <= other as u16 + other_roll as u16
}

/// An opposed throw of two fresh dice, the attacker's first.
pub fn opposed_attack(combat: u8, defence: u8) -> (r: bool)
    ensures
        exists|a: int, d: int| 0 <= a <= 9 && 0 <= d <= 9 && r == attack_beats(combat as int, defence as int, a, d),
{
    let a = crate::dice::roll_d10();
    let d = crate::dice::roll_d10();
    attack_succeeds(combat, defence, a, d)
}

/// A manoeuvre contest with two fresh dice, the held piece's first.
pub fn manoeuvre_contest(own: u8, other: u8) -> (r: bool)
    ensures
        exists|a: int, b: int| 0 <= a <= 9 && 0 <= b <= 9 && r == engaged_by(own as int, other as int, a, b),
{
    let a = crate::dice::roll_d10();
    let b = crate::dice::roll_d10();
    is_engaged_with(own, other, a, b)
}

} // verus!
