//! Character formulas: attribute bonuses, hit points, mana and skills.

use vstd::prelude::*;
use crate::components::{Skill, Skills, spec_skill_bonus};

verus! {

/// The bonus that an attribute value grants: `(value - 10) / 2`, rounded down, as the
/// ability-score table of the fifth-edition rules gives it (1 gives -5, 9 gives -1,
/// 10 and 11 give 0, 12 gives 1).
pub open spec fn spec_attr_bonus(value: int) -> int {
    (value - 10) / 2
}

pub open spec fn spec_player_hp_per_level(fitness: int) -> int {
    10 + spec_attr_bonus(fitness)
}

pub open spec fn spec_player_hp_at_level(fitness: int, level: int) -> int {
    spec_player_hp_per_level(fitness) * level
}

/// Hit points that each level past the first adds to a non-player character.
pub open spec fn spec_npc_hp_per_level(fitness: int) -> int {
    if 8 + spec_attr_bonus(fitness) < 1 {
        1
    } else {
        8 + spec_attr_bonus(fitness)
    }
}

/// One hit point, plus the per-level amount for each of `level` levels.
pub open spec fn spec_npc_hp(fitness: int, level: int) -> int {
    if level <= 0 {
        1
    } else {
        1 + level * spec_npc_hp_per_level(fitness)
    }
}

pub open spec fn spec_mana_per_level(intelligence: int) -> int {
    if 4 + spec_attr_bonus(intelligence) < 1 {
        1
    } else {
        4 + spec_attr_bonus(intelligence)
    }
}

pub open spec fn spec_mana_at_level(intelligence: int, level: int) -> int {
    spec_mana_per_level(intelligence) * level
}

/// The attribute bonus of `value`.
pub fn attr_bonus(value: i32) -> (bonus: i32)
    requires
        value >= i32::MIN + 10,
    ensures
        bonus == spec_attr_bonus(value as int),
{
    let d: i64 = value as i64 - 10;
    if d >= 0 {
        (d / 2) as i32
    } else {
        let r: i64 = -((1 - d) / 2);
        proof {
            let dd = d as int;
            assert(r == dd / 2) by (nonlinear_arith)
                requires dd < 0, r == -((1 - dd) / 2);
        }
        r as i32
    }
}

/// Hit points a player gains per level, given their fitness.
pub fn player_hp_per_level(fitness: i32) -> (hp: i32)
    requires
        fitness >= i32::MIN + 10,
    ensures
        hp == spec_player_hp_per_level(fitness as int),
{
    10 + attr_bonus(fitness)
}

/// A player's hit points at `level`.
pub fn player_hp_at_level(fitness: i32, level: i32) -> (hp: i32)
    requires
        fitness >= i32::MIN + 10,
        i32::MIN <= spec_player_hp_at_level(fitness as int, level as int) <= i32::MAX,
    ensures
        hp == spec_player_hp_at_level(fitness as int, level as int),
{
    player_hp_per_level(fitness) * level
}

/// A non-player character's hit points: one, plus `max(1, 8 + bonus)` for each level.
pub fn npc_hp(fitness: i32, level: i32) -> (hp: i32)
    requires
        fitness >= i32::MIN + 10,
        spec_npc_hp(fitness as int, level as int) <= i32::MAX,
    ensures
        hp == spec_npc_hp(fitness as int, level as int),
{
    let b = attr_bonus(fitness);
    let per: i32 = if 8 + b < 1 {
        1
    } else {
        8 + b
    };
    let mut sum: i32 = 1;
    let mut i: i32 = 0;
    while i < level
        invariant
            0 <= i,
            level > 0 ==> i <= level,
            level <= 0 ==> i == 0,
            per == spec_npc_hp_per_level(fitness as int),
            sum == 1 + i * per,
            spec_npc_hp(fitness as int, level as int) <= i32::MAX,
        decreases level - i,
    {
        assert(1 + (i + 1) * per <= 1 + level * per) by (nonlinear_arith)
            requires
                i + 1 <= level,
                per >= 1,
        ;
        assert((i + 1) * per == i * per + per) by (nonlinear_arith);
        sum = sum + per;
        i = i + 1;
    }
    sum
}

/// Mana a character gains per level: `max(1, 4 + bonus)`.
pub fn mana_per_level(intelligence: i32) -> (mana: i32)
    requires
        intelligence >= i32::MIN + 10,
    ensures
        mana == spec_mana_per_level(intelligence as int),
{
    let b = attr_bonus(intelligence);
    if 4 + b < 1 {
        1
    } else {
        4 + b
    }
}

/// A character's mana at `level`.
pub fn mana_at_level(intelligence: i32, level: i32) -> (mana: i32)
    requires
        intelligence >= i32::MIN + 10,
        i32::MIN <= spec_mana_at_level(intelligence as int, level as int) <= i32::MAX,
    ensures
        mana == spec_mana_at_level(intelligence as int, level as int),
{
    mana_per_level(intelligence) * level
}

/// The bonus a creature has in `skill`: its level, or -4 when it lacks the skill.
pub fn skill_bonus(skill: Skill, skills: &Skills) -> (bonus: i32)
    ensures
        bonus == spec_skill_bonus(skill, *skills),
{
    if skills.contains_key(skill) {
        match skills.get(skill) {
            Some(v) => v,
            None => -4,
        }
    } else {
        -4
    }
}

/// A higher attribute value never grants a smaller bonus.
pub proof fn law_attr_bonus_monotone(a: int, b: int)
    requires
        a <= b,
    ensures
        spec_attr_bonus(a) <= spec_attr_bonus(b),
{
}

/// Each level adds the per-level amount to a player's hit points.
pub proof fn law_player_hp_per_level_step(fitness: int, level: int)
    ensures
        spec_player_hp_at_level(fitness, level + 1)
            == spec_player_hp_at_level(fitness, level) + spec_player_hp_per_level(fitness),
{
    let p = spec_player_hp_per_level(fitness);
    assert(p * (level + 1) == p * level + p) by (nonlinear_arith);
}

/// A non-player character always has at least one hit point, and each further level
/// adds at least one more.
pub proof fn law_npc_hp_grows(fitness: int, level: int)
    requires
        level >= 0,
    ensures
        spec_npc_hp(fitness, level) >= 1,
        spec_npc_hp(fitness, level + 1) == spec_npc_hp(fitness, level) + spec_npc_hp_per_level(fitness),
        spec_npc_hp_per_level(fitness) >= 1,
{
    let p = spec_npc_hp_per_level(fitness);
    assert(level * p >= 0) by (nonlinear_arith)
        requires
            level >= 0,
            p >= 1,
    ;
    assert((level + 1) * p == level * p + p) by (nonlinear_arith);
}

/// Every level grants at least one point of mana.
pub proof fn law_mana_per_level_positive(intelligence: int)
    ensures
        spec_mana_per_level(intelligence) >= 1,
{
}

} // verus!
