//! The components that entities carry, held as plain values.

use vstd::prelude::*;
use crate::gamesystem::{attr_bonus, spec_attr_bonus};

verus! {

/// An entity is named by its index in the world's entity table.
pub type Entity = usize;

#[derive(Clone, Copy, Debug, PartialEq, Eq, Structural)]
pub struct Position {
    pub x: i32,
    pub y: i32,
}

#[derive(Clone, Copy, Debug, PartialEq, Eq, Structural)]
pub struct Pool {
    pub max: i32,
    pub current: i32,
}

/// Hit points, mana and experience of a creature.
#[derive(Clone, Copy, Debug, PartialEq, Eq, Structural)]
pub struct Pools {
    pub hit_points: Pool,
    pub mana: Pool,
    pub xp: i32,
    pub level: i32,
    pub god_mode: bool,
}

#[derive(Clone, Copy, Debug, PartialEq, Eq, Structural)]
pub struct Attribute {
    pub base: i32,
    pub modifiers: i32,
    pub bonus: i32,
}

impl Attribute {
    /// An attribute of the average base value 11.
    pub fn new() -> (a: Attribute)
        ensures
            a.base == 11,
            a.modifiers == 0,
            a.bonus == 0,
    {
        Attribute::new_base(11)
    }

    /// An attribute with the given base, no modifiers, and the bonus that the base grants.
    pub fn new_base(base: i32) -> (a: Attribute)
        requires
            base >= i32::MIN + 10,
        ensures
            a.base == base,
            a.modifiers == 0,
            a.bonus == spec_attr_bonus(base as int),
    {
        Attribute { base, modifiers: 0, bonus: attr_bonus(base) }
    }
}

impl Default for Attribute {
    fn default() -> (a: Attribute)
        ensures
            a.base == 11 && a.modifiers == 0 && a.bonus == 0,
    {
        Attribute::new()
    }
}

#[derive(Clone, Copy, Debug, PartialEq, Eq, Structural)]
pub struct Attributes {
    pub might: Attribute,
    pub fitness: Attribute,
    pub quickness: Attribute,
    pub intelligence: Attribute,
}

pub open spec fn is_average_attribute(a: Attribute) -> bool {
    a.base == 11 && a.modifiers == 0 && a.bonus == 0
}

impl Default for Attributes {
    fn default() -> (a: Attributes)
        ensures
            is_average_attribute(a.might),
            is_average_attribute(a.fitness),
            is_average_attribute(a.quickness),
            is_average_attribute(a.intelligence),
    {
        Attributes {
            might: Attribute::new(),
            fitness: Attribute::new(),
            quickness: Attribute::new(),
            intelligence: Attribute::new(),
        }
    }
}

#[derive(Clone, Copy, Debug, PartialEq, Eq, Hash, Structural)]
pub enum Skill {
    Melee,
    Defense,
    Magic,
}

/// The skill levels a creature has; a skill it lacks has no entry.
#[derive(Clone, Copy, Debug, PartialEq, Eq, Structural)]
pub struct Skills {
    pub melee: Option<i32>,
    pub defense: Option<i32>,
    pub magic: Option<i32>,
}

impl Skills {
    /// The level recorded for `skill`, if any.
    pub open spec fn entry(self, skill: Skill) -> Option<i32> {
        match skill {
            Skill::Melee => self.melee,
            Skill::Defense => self.defense,
            Skill::Magic => self.magic,
        }
    }

    /// Skills with no entries.
    pub fn new() -> (s: Skills)
        ensures
            forall|k: Skill| s.entry(k) is None,
    {
        Skills { melee: None, defense: None, magic: None }
    }

    /// Records `value` for `skill`, replacing any earlier entry.
    pub fn insert(&mut self, skill: Skill, value: i32)
        ensures
            final(self).entry(skill) == Some(value),
            forall|k: Skill| k != skill ==> final(self).entry(k) == old(self).entry(k),
    {
        match skill {
            Skill::Melee => self.melee = Some(value),
            Skill::Defense => self.defense = Some(value),
            Skill::Magic => self.magic = Some(value),
        }
    }

    pub fn contains_key(&self, skill: Skill) -> (b: bool)
        ensures
            b == self.entry(skill) is Some,
    {
        match skill {
            Skill::Melee => self.melee.is_some(),
            Skill::Defense => self.defense.is_some(),
            Skill::Magic => self.magic.is_some(),
        }
    }

    pub fn get(&self, skill: Skill) -> (v: Option<i32>)
        ensures
            v == self.entry(skill),
    {
        match skill {
            Skill::Melee => self.melee,
            Skill::Defense => self.defense,
            Skill::Magic => self.magic,
        }
    }
}

/// The bonus that a skill grants: its level, or -4 when the creature lacks it.
pub open spec fn spec_skill_bonus(skill: Skill, skills: Skills) -> int {
    match skills.entry(skill) {
        Some(v) => v as int,
        None => -4,
    }
}

#[derive(Clone, Copy, Debug, PartialEq, Eq, Structural)]
pub enum HungerState {
    WellFed,
    Normal,
    Hungry,
    Starving,
}

#[derive(Clone, Copy, Debug, PartialEq, Eq, Structural)]
pub struct HungerClock {
    pub state: HungerState,
    pub duration: i32,
}

#[derive(Clone, Copy, Debug, PartialEq, Eq, Structural)]
pub enum EquipmentSlot {
    Melee,
    Shield,
    Head,
    Torso,
    Legs,
    Feet,
    Hands,
}

#[derive(Clone, Copy, Debug, PartialEq, Eq, Structural)]
pub enum WeaponAttribute {
    Might,
    Quickness,
}

#[derive(Clone, Copy, Debug, PartialEq, Eq, Structural)]
pub struct Equipped {
    pub owner: Entity,
    pub slot: EquipmentSlot,
}

#[derive(Clone, Copy, Debug, PartialEq, Eq, Structural)]
pub struct InBackpack {
    pub owner: Entity,
}

#[derive(Clone, Copy, Debug, PartialEq, Eq, Structural)]
pub struct Equippable {
    pub slot: EquipmentSlot,
}

#[derive(Clone, Copy, Debug, PartialEq, Eq, Structural)]
pub struct Consumable {
    pub max_charges: i32,
    pub charges: i32,
}

} // verus!
