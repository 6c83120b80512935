//! How an attack is resolved: the hit roll, the defender's armour class, and the
//! damage dealt.

use vstd::prelude::*;
use crate::components::{Attributes, Skill, Skills, WeaponAttribute, spec_skill_bonus};
use crate::gamesystem::skill_bonus;

verus! {

/// A weapon's side effect on a hit: when a d100 roll is at most `threshold`
/// (the proc chance in percent) the weapon is used on `targets_self ? attacker : defender`.
#[derive(Clone, Copy, Debug, PartialEq, Eq, Structural)]
pub struct WeaponProc {
    pub threshold: i32,
    pub targets_self: bool,
}

/// The attack profile used for one blow.
#[derive(Clone, Copy, Debug, PartialEq, Eq, Structural)]
pub struct Weapon {
    pub range: Option<i32>,
    pub attribute: WeaponAttribute,
    pub hit_bonus: i32,
    pub damage_n_dice: i32,
    pub damage_die_type: i32,
    pub damage_bonus: i32,
    pub proc: Option<WeaponProc>,
}

/// A creature's built-in attack.
#[derive(Clone, Copy, Debug, PartialEq, Eq, Structural)]
pub struct NaturalAttack {
    pub damage_n_dice: i32,
    pub damage_die_type: i32,
    pub damage_bonus: i32,
    pub hit_bonus: i32,
}

#[derive(Clone, Copy, Debug, PartialEq, Eq, Structural)]
pub enum AttackOutcome {
    Hit,
    NaturalMiss,
    Miss,
}

/// An unarmed blow: 1d4, driven by might.
pub open spec fn spec_unarmed() -> Weapon {
    Weapon {
        range: None,
        attribute: WeaponAttribute::Might,
        hit_bonus: 0,
        damage_n_dice: 1,
        damage_die_type: 4,
        damage_bonus: 0,
        proc: None,
    }
}

pub fn unarmed() -> (w: Weapon)
    ensures
        w == spec_unarmed(),
{
    Weapon {
        range: None,
        attribute: WeaponAttribute::Might,
        hit_bonus: 0,
        damage_n_dice: 1,
        damage_die_type: 4,
        damage_bonus: 0,
        proc: None,
    }
}

/// The unarmed blow with the dice and bonuses of a natural attack.
pub open spec fn spec_with_natural_attack(w: Weapon, a: NaturalAttack) -> Weapon {
    Weapon {
        hit_bonus: a.hit_bonus,
        damage_n_dice: a.damage_n_dice,
        damage_die_type: a.damage_die_type,
        damage_bonus: a.damage_bonus,
        ..w
    }
}

pub fn with_natural_attack(w: Weapon, a: NaturalAttack) -> (r: Weapon)
    ensures
        r == spec_with_natural_attack(w, a),
{
    Weapon {
        hit_bonus: a.hit_bonus,
        damage_n_dice: a.damage_n_dice,
        damage_die_type: a.damage_die_type,
        damage_bonus: a.damage_bonus,
        ..w
    }
}

/// The attacker's roll after bonuses: the d20 roll, the bonus of the weapon's
/// attribute, the melee skill, the weapon's hit bonus, and +1 when well fed.
pub open spec fn spec_modified_hit_roll(natural_roll: int, w: Weapon, attrs: Attributes, skills: Skills, well_fed: bool) -> int {
    natural_roll
        + (if w.attribute == WeaponAttribute::Might { attrs.might.bonus } else { attrs.quickness.bonus }) as int
        + spec_skill_bonus(Skill::Melee, skills)
        + w.hit_bonus as int
        + (if well_fed { 1int } else { 0int })
}

/// The defender's armour class: its natural armour (10 when it has none), its
/// quickness bonus, its defence skill, and the bonus of the armour it wears.
pub open spec fn spec_armor_class(natural_armor: Option<i32>, attrs: Attributes, skills: Skills, armor_item_bonus: int) -> int {
    (match natural_armor { Some(ac) => ac as int, None => 10 })
        + attrs.quickness.bonus as int
        + spec_skill_bonus(Skill::Defense, skills)
        + armor_item_bonus
}

/// A natural 1 always misses, a natural 20 always hits, and otherwise the blow hits
/// when the modified roll beats the armour class.
pub open spec fn spec_attack_outcome(natural_roll: int, modified_roll: int, armor_class: int) -> AttackOutcome {
    if natural_roll != 1 && (natural_roll == 20 || modified_roll > armor_class) {
        AttackOutcome::Hit
    } else if natural_roll == 1 {
        AttackOutcome::NaturalMiss
    } else {
        AttackOutcome::Miss
    }
}

/// Clamps an amount into `i32`.
pub open spec fn clamp_i32(x: int) -> int {
    if x > i32::MAX { i32::MAX as int } else if x < i32::MIN { i32::MIN as int } else { x }
}

fn clamp64(x: i64) -> (r: i32)
    ensures
        r == clamp_i32(x as int),
{
    if x > i32::MAX as i64 {
        i32::MAX
    } else if x < i32::MIN as i64 {
        i32::MIN
    } else {
        x as i32
    }
}

/// The modified hit roll, clamped into `i32`.
pub fn modified_hit_roll(natural_roll: i32, w: &Weapon, attrs: &Attributes, skills: &Skills, well_fed: bool) -> (r: i32)
    ensures
        r == clamp_i32(spec_modified_hit_roll(natural_roll as int, *w, *attrs, *skills, well_fed)),
{
    let attribute_hit_bonus = if w.attribute == WeaponAttribute::Might {
        attrs.might.bonus
    } else {
        attrs.quickness.bonus
    };
    let status_hit_bonus: i64 = if well_fed { 1 } else { 0 };
    let total: i64 = natural_roll as i64 + attribute_hit_bonus as i64 + skill_bonus(Skill::Melee, skills) as i64
        + w.hit_bonus as i64 + status_hit_bonus;
    clamp64(total)
}

/// The armour class, clamped into `i32`.
pub fn armor_class(natural_armor: Option<i32>, attrs: &Attributes, skills: &Skills, armor_item_bonus: i32) -> (r: i32)
    ensures
        r == clamp_i32(spec_armor_class(natural_armor, *attrs, *skills, armor_item_bonus as int)),
{
    let base: i32 = match natural_armor {
        Some(ac) => ac,
        None => 10,
    };
    let total: i64 = base as i64 + attrs.quickness.bonus as i64 + skill_bonus(Skill::Defense, skills) as i64
        + armor_item_bonus as i64;
    clamp64(total)
}

/// Classifies a blow.
pub fn attack_outcome(natural_roll: i32, modified_roll: i32, armor_class: i32) -> (o: AttackOutcome)
    ensures
        o == spec_attack_outcome(natural_roll as int, modified_roll as int, armor_class as int),
{
    if natural_roll != 1 && (natural_roll == 20 || modified_roll > armor_class) {
        AttackOutcome::Hit
    } else if natural_roll == 1 {
        AttackOutcome::NaturalMiss
    } else {
        AttackOutcome::Miss
    }
}

/// Damage of a melee hit before the floor at zero: the dice, the might bonus, the
/// melee skill counted once for the hit and once for damage, and the weapon's bonus.
pub open spec fn spec_melee_damage_total(base_damage: int, w: Weapon, attrs: Attributes, skills: Skills) -> int {
    base_damage + attrs.might.bonus as int + spec_skill_bonus(Skill::Melee, skills)
        + spec_skill_bonus(Skill::Melee, skills) + w.damage_bonus as int
}

/// Damage of a ranged hit before the floor at zero: the dice, the might bonus, the
/// melee skill, and the weapon's bonus.
pub open spec fn spec_ranged_damage_total(base_damage: int, w: Weapon, attrs: Attributes, skills: Skills) -> int {
    base_damage + attrs.might.bonus as int + spec_skill_bonus(Skill::Melee, skills) + w.damage_bonus as int
}

/// Damage never drops below zero.
pub open spec fn damage_floor(total: int) -> int {
    if total < 0 { 0 } else { clamp_i32(total) }
}

/// The damage of a melee hit whose dice came up `base_damage`.
pub fn melee_damage(base_damage: i32, w: &Weapon, attrs: &Attributes, skills: &Skills) -> (d: i32)
    ensures
        d == damage_floor(spec_melee_damage_total(base_damage as int, *w, *attrs, *skills)),
{
    let skill = skill_bonus(Skill::Melee, skills) as i64;
    let total: i64 = base_damage as i64 + attrs.might.bonus as i64 + skill + skill + w.damage_bonus as i64;
    if total < 0 {
        0
    } else {
        clamp64(total)
    }
}

/// The damage of a ranged hit whose dice came up `base_damage`.
pub fn ranged_damage(base_damage: i32, w: &Weapon, attrs: &Attributes, skills: &Skills) -> (d: i32)
    ensures
        d == damage_floor(spec_ranged_damage_total(base_damage as int, *w, *attrs, *skills)),
{
    let total: i64 = base_damage as i64 + attrs.might.bonus as i64 + skill_bonus(Skill::Melee, skills) as i64
        + w.damage_bonus as i64;
    if total < 0 {
        0
    } else {
        clamp64(total)
    }
}

/// Whether a weapon's side effect fires on a d100 roll of `roll`.
pub fn proc_fires(p: &WeaponProc, roll: i32) -> (b: bool)
    ensures
        b == (roll <= p.threshold),
{
    roll <= p.threshold
}

/// A natural 1 misses whatever the bonuses.
pub proof fn law_natural_one_misses(modified_roll: int, armor_class: int)
    ensures
        spec_attack_outcome(1, modified_roll, armor_class) == AttackOutcome::NaturalMiss,
{
}

/// A natural 20 hits whatever the armour.
pub proof fn law_natural_twenty_hits(modified_roll: int, armor_class: int)
    ensures
        spec_attack_outcome(20, modified_roll, armor_class) == AttackOutcome::Hit,
{
}

/// Any other roll hits exactly when the modified roll beats the armour class.
pub proof fn law_ordinary_roll_hits_iff_beats_armor(natural_roll: int, modified_roll: int, armor_class: int)
    requires
        natural_roll != 1,
        natural_roll != 20,
    ensures
        (spec_attack_outcome(natural_roll, modified_roll, armor_class) == AttackOutcome::Hit)
            <==> modified_roll > armor_class,
{
}

/// Raising the armour class never turns a miss into a hit.
pub proof fn law_more_armor_never_helps_attacker(natural_roll: int, modified_roll: int, ac1: int, ac2: int)
    requires
        ac1 <= ac2,
        spec_attack_outcome(natural_roll, modified_roll, ac2) == AttackOutcome::Hit,
    ensures
        spec_attack_outcome(natural_roll, modified_roll, ac1) == AttackOutcome::Hit,
{
}

/// Damage is never negative, and a larger total never deals less.
pub proof fn law_damage_nonnegative_monotone(t1: int, t2: int)
    requires
        t1 <= t2,
    ensures
        0 <= damage_floor(t1) <= damage_floor(t2),
{
}

} // verus!
