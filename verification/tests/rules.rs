use rltk_tutorial::combat::{
    armor_class, attack_outcome, melee_damage, modified_hit_roll, proc_fires, ranged_damage, unarmed,
    with_natural_attack, AttackOutcome, NaturalAttack, WeaponProc,
};
use rltk_tutorial::components::{Attribute, Attributes, HungerClock, HungerState, Skill, Skills};
use rltk_tutorial::events::{clear_events, get_event_count, record_event, EventLog};
use rltk_tutorial::gamesystem::{
    attr_bonus, mana_at_level, mana_per_level, npc_hp, player_hp_at_level, player_hp_per_level, skill_bonus,
};
use rltk_tutorial::hunger::{eat, hunger_tick, HungerEvent};

fn average() -> Attributes {
    Attributes::default()
}

#[test]
fn attribute_bonus_halves_distance_from_ten() {
    assert_eq!(attr_bonus(10), 0);
    assert_eq!(attr_bonus(11), 0);
    assert_eq!(attr_bonus(12), 1);
    assert_eq!(attr_bonus(20), 5);
    assert_eq!(attr_bonus(9), -1);
    assert_eq!(attr_bonus(8), -1);
    assert_eq!(attr_bonus(3), -4);
    assert_eq!(attr_bonus(7), -2);
    assert_eq!(attr_bonus(1), -5);
    assert_eq!(attr_bonus(30), 10);
}

#[test]
fn attribute_bonus_never_falls_as_value_rises() {
    let mut prev = attr_bonus(-50);
    for v in -49..60 {
        let b = attr_bonus(v);
        assert!(b >= prev);
        prev = b;
    }
}

#[test]
fn player_hit_points_by_level() {
    assert_eq!(player_hp_per_level(11), 10);
    assert_eq!(player_hp_per_level(16), 13);
    assert_eq!(player_hp_at_level(11, 1), 10);
    assert_eq!(player_hp_at_level(16, 3), 39);
    assert_eq!(player_hp_at_level(11, 2) - player_hp_at_level(11, 1), player_hp_per_level(11));
}

#[test]
fn npc_hit_points_by_level() {
    assert_eq!(npc_hp(11, 0), 1);
    assert_eq!(npc_hp(11, 1), 9);
    assert_eq!(npc_hp(11, 3), 25);
    // A feeble creature still gains a point per level.
    assert_eq!(npc_hp(-10, 4), 5);
    assert!(npc_hp(14, 2) > npc_hp(14, 1));
}

#[test]
fn mana_by_level() {
    assert_eq!(mana_per_level(11), 4);
    assert_eq!(mana_per_level(1), 1);
    assert_eq!(mana_at_level(11, 1), 4);
    assert_eq!(mana_at_level(14, 3), 18);
    assert!(mana_per_level(-30) >= 1);
}

#[test]
fn skill_bonus_reads_the_skill_or_penalises() {
    let mut s = Skills::new();
    s.insert(Skill::Melee, 2);
    assert_eq!(skill_bonus(Skill::Melee, &s), 2);
    assert_eq!(skill_bonus(Skill::Magic, &s), -4);
    assert!(s.contains_key(Skill::Melee));
    assert!(!s.contains_key(Skill::Defense));
    assert_eq!(s.get(Skill::Melee), Some(2));
}

#[test]
fn attribute_constructors() {
    let a = Attribute::new_base(14);
    assert_eq!(a.base, 14);
    assert_eq!(a.modifiers, 0);
    assert_eq!(a.bonus, 2);
    let d = Attribute::default();
    assert_eq!((d.base, d.modifiers, d.bonus), (11, 0, 0));
    assert_eq!(Attribute::new().base, 11);
}

#[test]
fn events_count_what_was_recorded() {
    let mut log = EventLog::new();
    assert_eq!(get_event_count(&mut log, "Kill Monster"), 0);
    record_event(&mut log, "Kill Monster", 1);
    record_event(&mut log, "Kill Monster", 2);
    record_event(&mut log, "Level", 1);
    assert_eq!(get_event_count(&mut log, "Kill Monster"), 3);
    assert_eq!(get_event_count(&mut log, "Level"), 1);
    assert_eq!(get_event_count(&mut log, "Damage Taken"), 0);
    clear_events(&mut log);
    assert_eq!(get_event_count(&mut log, "Kill Monster"), 0);
    assert_eq!(get_event_count(&mut log, "Level"), 0);
}

#[test]
fn hunger_clock_runs_down() {
    let (c, ev) = hunger_tick(HungerClock { state: HungerState::WellFed, duration: 5 });
    assert_eq!(c, HungerClock { state: HungerState::WellFed, duration: 4 });
    assert_eq!(ev, HungerEvent::Nothing);
    let (c, ev) = hunger_tick(HungerClock { state: HungerState::WellFed, duration: 1 });
    assert_eq!(c, HungerClock { state: HungerState::Normal, duration: 200 });
    assert_eq!(ev, HungerEvent::NoLongerWellFed);
    let (c, ev) = hunger_tick(HungerClock { state: HungerState::Normal, duration: 1 });
    assert_eq!((c.state, c.duration, ev), (HungerState::Hungry, 200, HungerEvent::BecameHungry));
    let (c, ev) = hunger_tick(HungerClock { state: HungerState::Hungry, duration: 1 });
    assert_eq!((c.state, c.duration, ev), (HungerState::Starving, 200, HungerEvent::BecameStarving));
    let (c, ev) = hunger_tick(HungerClock { state: HungerState::Starving, duration: 1 });
    assert_eq!((c.state, ev), (HungerState::Starving, HungerEvent::StarvationDamage));
    assert_eq!(c.duration, 0);
}

#[test]
fn eating_makes_well_fed() {
    let c = eat(HungerClock { state: HungerState::Starving, duration: 3 });
    assert_eq!(c, HungerClock { state: HungerState::WellFed, duration: 20 });
}

#[test]
fn natural_one_always_misses_and_twenty_always_hits() {
    assert_eq!(attack_outcome(1, 100, 5), AttackOutcome::NaturalMiss);
    assert_eq!(attack_outcome(20, -100, 50), AttackOutcome::Hit);
    assert_eq!(attack_outcome(10, 15, 14), AttackOutcome::Hit);
    assert_eq!(attack_outcome(10, 14, 14), AttackOutcome::Miss);
}

#[test]
fn hit_roll_and_armor_class_add_their_bonuses() {
    let a = average();
    let mut s = Skills::new();
    s.insert(Skill::Melee, 1);
    s.insert(Skill::Defense, 1);
    let w = unarmed();
    assert_eq!(modified_hit_roll(12, &w, &a, &s, false), 13);
    assert_eq!(modified_hit_roll(12, &w, &a, &s, true), 14);
    assert_eq!(armor_class(None, &a, &s, 0), 11);
    assert_eq!(armor_class(Some(14), &a, &s, 2), 17);
}

#[test]
fn damage_adds_bonuses_and_never_goes_negative() {
    let a = average();
    let mut s = Skills::new();
    s.insert(Skill::Melee, 1);
    let w = with_natural_attack(unarmed(), NaturalAttack { damage_n_dice: 1, damage_die_type: 6, damage_bonus: 2, hit_bonus: 1 });
    assert_eq!(w.damage_die_type, 6);
    assert_eq!(w.hit_bonus, 1);
    assert_eq!(melee_damage(3, &w, &a, &s), 7);
    assert_eq!(ranged_damage(3, &w, &a, &s), 6);
    let weak = Attributes { might: Attribute::new_base(3), ..average() };
    let none = Skills::new();
    assert_eq!(melee_damage(1, &unarmed(), &weak, &none), 0);
}

#[test]
fn weapon_proc_fires_on_low_rolls() {
    let p = WeaponProc { threshold: 25, targets_self: false };
    assert!(proc_fires(&p, 1));
    assert!(proc_fires(&p, 25));
    assert!(!proc_fires(&p, 26));
}
