//! Ranged attacks: every creature that wants to shoot another fires a projectile at it,
//! rolls to hit and, on a hit, rolls damage.

use vstd::prelude::*;
use rltk::RandomNumberGenerator;
use crate::combat::{
    AttackOutcome, NaturalAttack, Weapon, armor_class, attack_outcome, clamp_i32, damage_floor,
    modified_hit_roll, ranged_damage, spec_armor_class, spec_attack_outcome, spec_modified_hit_roll,
    spec_ranged_damage_total, unarmed, with_natural_attack,
};
use crate::components::{Entity, HungerState, Position};
use crate::font::{cp437, to_cp437};
use crate::logger::{LogStore, Logger, NamedColor, decimal};
use crate::map::spec_xy_idx;
use crate::melee_combat_system::{
    AttackRolls, wounds, blows_rollable, miss_glyph, fumble_entry, least_damage, lemma_least_damage_possible, miss_entry,
    roll_damage, rolls_possible, round_rolls_possible, weapon_for, weapon_used, wielded_scan, wielded_weapon,
};
use crate::rng::{dice_rollable, roll_dice};
use crate::world::{Effect, EffectType, Ent, Point, Targets, World, WorldView, attacks_view, journal_view, lemma_journal_push, names_view, refs_in};

verus! {

/// Whether entity `i` takes part in a ranged attack: it is alive, wants to shoot, and
/// has a name, attributes, skills, pools and a position, and so has its target.
pub open spec fn ranged_ready(w: WorldView, i: int) -> bool {
    let e = w.ents[i];
    &&& e.alive
    &&& e.wants_to_shoot is Some
    &&& e.has_name
    &&& e.attributes is Some
    &&& e.skills is Some
    &&& e.pools is Some
    &&& e.position is Some
    &&& {
        let t = w.ents[e.wants_to_shoot->0 as int];
        t.pools is Some && t.attributes is Some && t.skills is Some && t.position is Some
    }
}

/// Whether entity `i` joins a round of shooting: alive, asking to shoot, and with a
/// name, attributes, skills and pools.
pub open spec fn ranged_attacker(w: WorldView, i: int) -> bool {
    let e = w.ents[i];
    e.alive && e.wants_to_shoot is Some && e.has_name && e.attributes is Some && e.skills is Some && e.pools is Some
}

/// The worlds a round of shooting can be played in: each shooter's target has pools,
/// attributes and skills, and when both still stand, both have a position and the
/// shooter's damage dice can be rolled.
pub open spec fn ranged_round_ok(w: WorldView) -> bool {
    forall|i: int| 0 <= i < w.ents.len() && #[trigger] ranged_attacker(w, i) ==> {
        let e = w.ents[i];
        let t = w.ents[e.wants_to_shoot->0 as int];
        &&& t.pools is Some && t.attributes is Some && t.skills is Some
        &&& (e.pools->0.hit_points.current > 0 && t.pools->0.hit_points.current > 0 ==>
            e.position is Some && t.position is Some && blows_rollable(w, i))
    }
}

/// The journal entry of a shot that hits: the word "for" keeps the target's colour.
pub open spec fn shot_hit_entry(attacker: Seq<char>, target: Seq<char>, damage: int) -> Seq<(NamedColor, Seq<char>)> {
    seq![
        (NamedColor::Yellow, attacker),
        (NamedColor::White, "hits"@),
        (NamedColor::Yellow, target),
        (NamedColor::Yellow, "for"@),
        (NamedColor::Red, decimal(damage)),
        (NamedColor::White, "hp."@),
    ]
}

/// The glyph of a flying shot: `*`.
pub open spec fn shot_glyph() -> u16 {
    cp437('*')
}

/// The shot flying from the shooter at `from` to the target at `to`, placed on the
/// shooter's tile.
pub open spec fn shot(w: WorldView, from: Position, to: Position) -> Effect {
    Effect {
        creator: None,
        effect: EffectType::ParticleProjectile {
            glyph: shot_glyph(), fg: NamedColor::Cyan, bg: NamedColor::Black,
            from: Point { x: from.x, y: from.y }, to: Point { x: to.x, y: to.y },
        },
        targets: Targets::Tile { tile_idx: spec_xy_idx(w.map_width as int, from.x as int, from.y as int) as i32 },
    }
}

pub open spec fn flash(target: Entity, fg: NamedColor) -> Effect {
    Effect {
        creator: None,
        effect: EffectType::Particle { glyph: miss_glyph(), fg, bg: NamedColor::Black },
        targets: Targets::Single { target },
    }
}

/// One ranged attack by entity `i`, with the given dice and the armour bonus each
/// defender's worn items grant.
pub open spec fn ranged_step(w: WorldView, i: int, r: AttackRolls, armor: Seq<i32>) -> WorldView {
    if !ranged_ready(w, i) {
        w
    } else {
        let e = w.ents[i];
        let t = e.wants_to_shoot->0;
        let te = w.ents[t as int];
        if !(e.pools->0.hit_points.current > 0 && te.pools->0.hit_points.current > 0) {
            w
        } else {
            let effects0 = w.effects.push(shot(w, e.position->0, te.position->0));
            let wp = weapon_used(w, i, r);
            let well_fed = e.hunger matches Some(c) && c.state == HungerState::WellFed;
            let modified = clamp_i32(spec_modified_hit_roll(r.natural as int, wp, e.attributes->0, e.skills->0, well_fed));
            let ac = clamp_i32(spec_armor_class(te.natural_armor, te.attributes->0, te.skills->0, armor[t as int] as int));
            let name = w.names[i];
            let tname = w.names[t as int];
            match spec_attack_outcome(r.natural as int, modified, ac) {
                AttackOutcome::Hit => {
                    let dmg = damage_floor(spec_ranged_damage_total(r.damage as int, wp, e.attributes->0, e.skills->0));
                    let hit = Effect { creator: Some(i as Entity), effect: EffectType::Damage { amount: dmg as i32 }, targets: Targets::Single { target: t } };
                    let effects1 = effects0.push(hit);
                    let effects2 = match (wp.proc, wielded_scan(w.ents, i as Entity, w.ents.len())) {
                        (Some(p), Some((we, _))) => if r.proc_roll <= p.threshold {
                            effects1.push(Effect {
                                creator: Some(i as Entity),
                                effect: EffectType::ItemUse { item: we },
                                targets: Targets::Single { target: if p.targets_self { i as Entity } else { t } },
                            })
                        } else {
                            effects1
                        },
                        _ => effects1,
                    };
                    WorldView { journal: w.journal.push(shot_hit_entry(name, tname, dmg)), effects: effects2, ..w }
                },
                AttackOutcome::NaturalMiss => WorldView {
                    journal: w.journal.push(fumble_entry(name, tname)),
                    effects: effects0.push(flash(t, NamedColor::Blue)),
                    ..w
                },
                AttackOutcome::Miss => WorldView {
                    journal: w.journal.push(miss_entry(name, tname)),
                    effects: effects0.push(flash(t, NamedColor::Cyan)),
                    ..w
                },
            }
        }
    }
}

pub open spec fn ranged_upto(w: WorldView, rolls: Seq<AttackRolls>, armor: Seq<i32>, n: nat) -> WorldView
    decreases n,
{
    if n == 0 { w } else { ranged_step(ranged_upto(w, rolls, armor, (n - 1) as nat), n - 1, rolls[n - 1], armor) }
}

#[verifier::opaque]
pub open spec fn without_shot(e: Ent) -> Ent {
    Ent { wants_to_shoot: None, ..e }
}

/// The world after each creature that wants to shoot, in entity order, makes its attack
/// with the dice in `rolls`, and the requests are cleared.
pub open spec fn spec_ranged_round(w: WorldView, rolls: Seq<AttackRolls>, armor: Seq<i32>) -> WorldView {
    let v = ranged_upto(w, rolls, armor, w.ents.len());
    WorldView { ents: v.ents.map_values(|e: Ent| without_shot(e)), ..v }
}

proof fn lemma_ranged_upto_shape(w: WorldView, rolls: Seq<AttackRolls>, armor: Seq<i32>, n: nat)
    ensures
        ranged_upto(w, rolls, armor, n) == (WorldView {
            journal: ranged_upto(w, rolls, armor, n).journal,
            effects: ranged_upto(w, rolls, armor, n).effects,
            ..w
        }),
    decreases n,
{
    if n > 0 {
        lemma_ranged_upto_shape(w, rolls, armor, (n - 1) as nat);
    }
}

fn log_entry(store: &mut LogStore, l: Logger)
    ensures
        journal_view(final(store).entries@) == journal_view(old(store).entries@).push(l.gathered()),
{
    let ghost before = store.entries@;
    l.log(store);
    proof { lemma_journal_push(before, store.entries@); }
}

/// Picks the attack profile of entity `i`, and returns it with the weapon entity it
/// wields (if any) and the natural attack that was picked.
fn attack_weapon(
    ents: &Vec<Ent>,
    natural_attacks: &Vec<Vec<NaturalAttack>>,
    rng: &mut RandomNumberGenerator,
    i: usize,
    Ghost(w): Ghost<WorldView>,
) -> (r: (Weapon, Option<(Entity, Weapon)>, Ghost<Option<usize>>))
    requires
        w.wf(),
        i < w.ents.len(),
        ents@ == w.ents,
        attacks_view(natural_attacks@) == w.natural_attacks,
    ensures
        r.2@ matches Some(k) ==> k < w.natural_attacks[i as int].len(),
        r.1 == wielded_scan(w.ents, i as Entity, w.ents.len()),
        r.0 == weapon_for(w, i as int, r.2@),
{
    let e = ents[i];
    let mut natural_pick: Option<usize> = None;
    proof { assert(natural_attacks@[i as int]@ == w.natural_attacks[i as int]); }
    if e.has_natural {
        let len = natural_attacks[i].len();
        if len == 1 {
            natural_pick = Some(0);
        } else if 1 < len && len < i32::MAX as usize {
            let roll = roll_dice(rng, 1, len as i32);
            natural_pick = Some((roll - 1) as usize);
        }
    }
    let mut wp = unarmed();
    if let Some(k) = natural_pick {
        if e.has_natural {
            wp = with_natural_attack(wp, natural_attacks[i][k]);
        }
    }
    let wielded = wielded_weapon(ents, i);
    if let Some((_, held)) = wielded {
        wp = held;
    }
    (wp, wielded, Ghost(natural_pick))
}

/// Resolves the shot of a ready attacker `i` at its living target `t`.
fn strike(
    names: &Vec<String>,
    journal: &mut LogStore,
    effects: &mut Vec<Effect>,
    rng: &mut RandomNumberGenerator,
    armor: &Vec<i32>,
    i: usize,
    t: usize,
    wp: Weapon,
    wielded: Option<(Entity, Weapon)>,
    e: Ent,
    te: Ent,
    w_width: i32,
    Ghost(w): Ghost<WorldView>,
    Ghost(pick): Ghost<Option<usize>>,
) -> (r: Ghost<AttackRolls>)
    requires
        w_width == w.map_width,
        w.wf(),
        i < w.ents.len(),
        t < w.ents.len(),
        e == w.ents[i as int],
        te == w.ents[t as int],
        ranged_ready(w, i as int),
        e.wants_to_shoot == Some(t),
        e.pools->0.hit_points.current > 0,
        te.pools->0.hit_points.current > 0,
        wp == weapon_for(w, i as int, pick),
        wielded == wielded_scan(w.ents, i as Entity, w.ents.len()),
        names_view(names@) == w.names,
        journal_view(old(journal).entries@) == w.journal,
        old(effects)@ == w.effects,
        armor@.len() == w.ents.len(),
    ensures
        r@.attack_index == pick,
        1 <= r@.natural <= 20,
        1 <= r@.proc_roll <= 100,
        dice_rollable(wp.damage_n_dice, wp.damage_die_type) ==> (
            if wp.damage_n_dice <= 0 { r@.damage == 0 }
            else { wp.damage_n_dice <= r@.damage <= wp.damage_n_dice * wp.damage_die_type }),
        !dice_rollable(wp.damage_n_dice, wp.damage_die_type) ==> r@.damage == 0,
        journal_view(final(journal).entries@) == ranged_step(w, i as int, r@, armor@).journal,
        final(effects)@ == ranged_step(w, i as int, r@, armor@).effects,
{
    let apos = e.position.unwrap();
    let dpos = te.position.unwrap();
    proof {
        let (y, wd) = (apos.y as int, w_width as int);
        assert(-0x4000_0000_0000_0000 <= y * wd <= 0x4000_0000_0000_0000) by (nonlinear_arith)
            requires -0x8000_0000 <= y < 0x8000_0000, -0x8000_0000 <= wd < 0x8000_0000;
    }
    let tile: i64 = apos.y as i64 * w_width as i64 + apos.x as i64;
    effects.push(Effect {
        creator: None,
        effect: EffectType::ParticleProjectile {
            glyph: to_cp437('*'), fg: NamedColor::Cyan, bg: NamedColor::Black,
            from: Point { x: apos.x, y: apos.y }, to: Point { x: dpos.x, y: dpos.y },
        },
        targets: Targets::Tile { tile_idx: tile as i32 },
    });
    let ghost mut rolls = AttackRolls { attack_index: pick, natural: 1, damage: least_damage(wp), proc_roll: 1 };
    proof { lemma_least_damage_possible(wp); }
    let attrs = e.attributes.unwrap();
    let skills = e.skills.unwrap();
    let tattrs = te.attributes.unwrap();
    let tskills = te.skills.unwrap();
    let natural_roll = roll_dice(rng, 1, 20);
    proof { rolls.natural = natural_roll; }
    let well_fed = match e.hunger {
        Some(c) => c.state == HungerState::WellFed,
        None => false,
    };
    let modified = modified_hit_roll(natural_roll, &wp, &attrs, &skills, well_fed);
    let ac = armor_class(te.natural_armor, &tattrs, &tskills, armor[t]);
    let name = names[i].as_str();
    let tname = names[t].as_str();
    proof {
        assert(names@[i as int]@ == w.names[i as int]);
        assert(names@[t as int]@ == w.names[t as int]);
    }
    match attack_outcome(natural_roll, modified, ac) {
        AttackOutcome::Hit => {
            let base_damage = roll_damage(rng, &wp);
            proof { rolls.damage = base_damage; }
            let dmg = ranged_damage(base_damage, &wp, &attrs, &skills);
            effects.push(Effect { creator: Some(i), effect: EffectType::Damage { amount: dmg }, targets: Targets::Single { target: t } });
            let l = Logger::new().color(NamedColor::Yellow).append(name).color(NamedColor::White).append("hits")
                .color(NamedColor::Yellow).append(tname).append("for").damage(dmg).color(NamedColor::White).append("hp.");
            proof {
                assert(l.gathered() =~= shot_hit_entry(names@[i as int]@, names@[t as int]@, dmg as int));
            }
            log_entry(journal, l);
            match (wp.proc, wielded) {
                (Some(p), Some((we, _))) => {
                    let proc_roll = roll_dice(rng, 1, 100);
                    proof { rolls.proc_roll = proc_roll; }
                    if proc_roll <= p.threshold {
                        effects.push(Effect {
                            creator: Some(i),
                            effect: EffectType::ItemUse { item: we },
                            targets: Targets::Single { target: if p.targets_self { i } else { t } },
                        });
                    }
                },
                _ => {},
            }
        },
        AttackOutcome::NaturalMiss => {
            let l = Logger::new().color(NamedColor::Cyan).append(name).color(NamedColor::White).append("considers attacking")
                .color(NamedColor::Cyan).append(tname).color(NamedColor::White).append("but misjudges the timing!");
            proof {
                assert(l.gathered() =~= fumble_entry(names@[i as int]@, names@[t as int]@));
            }
            log_entry(journal, l);
            effects.push(Effect {
                creator: None,
                effect: EffectType::Particle { glyph: to_cp437('\u{203c}'), fg: NamedColor::Blue, bg: NamedColor::Black },
                targets: Targets::Single { target: t },
            });
        },
        AttackOutcome::Miss => {
            let l = Logger::new().color(NamedColor::Cyan).append(name).color(NamedColor::White).append("attacks")
                .color(NamedColor::Cyan).append(tname).color(NamedColor::White).append("but can't connect");
            proof {
                assert(l.gathered() =~= miss_entry(names@[i as int]@, names@[t as int]@));
            }
            log_entry(journal, l);
            effects.push(Effect {
                creator: None,
                effect: EffectType::Particle { glyph: to_cp437('\u{203c}'), fg: NamedColor::Cyan, bg: NamedColor::Black },
                targets: Targets::Single { target: t },
            });
        },
    }
    Ghost(rolls)
}

/// Makes entity `i`'s shot, if it takes one, and returns the dice it used.
fn ranged_attack(
    ents: &Vec<Ent>,
    names: &Vec<String>,
    natural_attacks: &Vec<Vec<NaturalAttack>>,
    journal: &mut LogStore,
    effects: &mut Vec<Effect>,
    rng: &mut RandomNumberGenerator,
    armor: &Vec<i32>,
    i: usize,
    w_width: i32,
    Ghost(w): Ghost<WorldView>,
) -> (r: Ghost<AttackRolls>)
    requires
        w_width == w.map_width,
        w.wf(),
        i < w.ents.len(),
        ents@ == w.ents,
        names_view(names@) == w.names,
        attacks_view(natural_attacks@) == w.natural_attacks,
        journal_view(old(journal).entries@) == w.journal,
        old(effects)@ == w.effects,
        armor@.len() == w.ents.len(),
    ensures
        rolls_possible(w, i as int, r@),
        journal_view(final(journal).entries@) == ranged_step(w, i as int, r@, armor@).journal,
        final(effects)@ == ranged_step(w, i as int, r@, armor@).effects,
{
    let e = ents[i];
    proof { assert(refs_in(w.ents[i as int], w.ents.len() as int)); }
    let ghost idle = AttackRolls { attack_index: None, natural: 1, damage: least_damage(weapon_for(w, i as int, None)), proc_roll: 1 };
    proof { lemma_least_damage_possible(weapon_for(w, i as int, None)); }
    let ready = e.alive && e.has_name && e.wants_to_shoot.is_some() && e.attributes.is_some() && e.skills.is_some()
        && e.pools.is_some() && e.position.is_some();
    if !ready {
        return Ghost(idle);
    }
    let t = e.wants_to_shoot.unwrap();
    let te = ents[t];
    if !(te.pools.is_some() && te.attributes.is_some() && te.skills.is_some() && te.position.is_some()) {
        return Ghost(idle);
    }
    if !(e.pools.unwrap().hit_points.current > 0 && te.pools.unwrap().hit_points.current > 0) {
        return Ghost(idle);
    }
    let (wp, wielded, Ghost(pick)) = attack_weapon(ents, natural_attacks, rng, i, Ghost(w));
    strike(names, journal, effects, rng, armor, i, t, wp, wielded, e, te, w_width, Ghost(w), Ghost(pick))
}


proof fn lemma_ranged_upto_prefix(w: WorldView, r1: Seq<AttackRolls>, r2: Seq<AttackRolls>, armor: Seq<i32>, n: nat)
    requires
        forall|j: int| 0 <= j < n ==> r1[j] == r2[j],
    ensures
        ranged_upto(w, r1, armor, n) == ranged_upto(w, r2, armor, n),
    decreases n,
{
    if n > 0 {
        lemma_ranged_upto_prefix(w, r1, r2, armor, (n - 1) as nat);
    }
}

fn make_without_shot(e: Ent) -> (r: Ent)
    ensures
        r == without_shot(e),
{
    proof { reveal(without_shot); }
    Ent { wants_to_shoot: None, ..e }
}

fn clear_shot_requests(ents: &mut Vec<Ent>)
    ensures
        final(ents)@ == old(ents)@.map_values(|e: Ent| without_shot(e)),
{
    let ghost mid = ents@;
    let n = ents.len();
    let mut j: usize = 0;
    while j < n
        invariant
            0 <= j <= n,
            n == mid.len(),
            ents@.len() == n,
            forall|k: int| 0 <= k < j ==> #[trigger] ents@[k] == without_shot(mid[k]),
            forall|k: int| j <= k < n ==> #[trigger] ents@[k] == mid[k],
        decreases n - j,
    {
        let e = ents[j];
        let cleared = make_without_shot(e);
        ents.set(j, cleared);
        j = j + 1;
    }
    assert(ents@ =~= mid.map_values(|e: Ent| without_shot(e)));
}

pub struct RangedCombatSystem {}

impl RangedCombatSystem {
    /// Runs one round of shooting. `armor[e]` is the armour class bonus that the items
    /// entity `e` wears grant. The dice come from `rng`; whatever they show, the world
    /// afterwards is the round played with those dice.
    pub fn run(&mut self, w: &mut World, rng: &mut RandomNumberGenerator, armor: &Vec<i32>)
        requires
            old(w).wf(),
            ranged_round_ok(old(w).view()),
            armor@.len() == old(w).ents@.len(),
        ensures
            final(w).wf(),
            exists|rolls: Seq<AttackRolls>|
                round_rolls_possible(old(w).view(), rolls)
                && final(w).view() == spec_ranged_round(old(w).view(), rolls, armor@),
    {
        let ghost start = w.view();
        let ghost mut rolls: Seq<AttackRolls> = Seq::empty();
        let n = w.ents.len();
        let mut i: usize = 0;
        while i < n
            invariant
                0 <= i <= n,
                n == start.ents.len(),
                start.wf(),
                armor@.len() == n,
                w.wf(),
                w.view() == (WorldView { journal: w.view().journal, effects: w.view().effects, ..start }),
                rolls.len() == i,
                forall|j: int| 0 <= j < i ==> #[trigger] rolls_possible(start, j, rolls[j]),
                journal_view(w.journal.entries@) == ranged_upto(start, rolls, armor@, i as nat).journal,
                w.effects@ == ranged_upto(start, rolls, armor@, i as nat).effects,
            decreases n - i,
        {
            let ghost before = ranged_upto(start, rolls, armor@, i as nat);
            proof { lemma_ranged_upto_shape(start, rolls, armor@, i as nat); }
            let Ghost(r) = ranged_attack(&w.ents, &w.names, &w.natural_attacks, &mut w.journal, &mut w.effects, rng, armor, i, w.map.width, Ghost(before));
            proof {
                let r2 = rolls.push(r);
                lemma_ranged_upto_prefix(start, rolls, r2, armor@, i as nat);
                assert(ranged_upto(start, r2, armor@, (i + 1) as nat) == ranged_step(before, i as int, r, armor@));
                rolls = r2;
                assert(before.ents == start.ents);
            }
            i = i + 1;
        }
        proof { lemma_ranged_upto_shape(start, rolls, armor@, n as nat); }
        let ghost mid = w.view();
        clear_shot_requests(&mut w.ents);
        proof {
            assert(w.view().ents =~= spec_ranged_round(start, rolls, armor@).ents);
            assert forall|k: int| 0 <= k < w.ents@.len() implies #[trigger] refs_in(w.ents@[k], w.ents@.len() as int) by {
                assert(refs_in(mid.ents[k], mid.ents.len() as int));
                reveal(without_shot);
            }
            assert(w.view() == spec_ranged_round(start, rolls, armor@));
            assert(round_rolls_possible(start, rolls));
        }
    }
}


/// A round of combat changes no entity beyond clearing its shot request: whatever the
/// dice show, only the journal and the effect queue grow.
pub proof fn law_ranged_round_changes_only_log_and_effects(w: WorldView, rolls: Seq<AttackRolls>, armor: Seq<i32>)
    ensures
        spec_ranged_round(w, rolls, armor) == (WorldView {
            ents: w.ents.map_values(|e: Ent| without_shot(e)),
            journal: spec_ranged_round(w, rolls, armor).journal,
            effects: spec_ranged_round(w, rolls, armor).effects,
            ..w
        }),
        w.journal.is_prefix_of(spec_ranged_round(w, rolls, armor).journal),
        w.effects.is_prefix_of(spec_ranged_round(w, rolls, armor).effects),
{
    lemma_ranged_upto_shape(w, rolls, armor, w.ents.len());
    lemma_shot_grows(w, rolls, armor, w.ents.len());
}

proof fn lemma_shot_grows(w: WorldView, rolls: Seq<AttackRolls>, armor: Seq<i32>, n: nat)
    ensures
        w.journal.is_prefix_of(ranged_upto(w, rolls, armor, n).journal),
        w.effects.is_prefix_of(ranged_upto(w, rolls, armor, n).effects),
    decreases n,
{
    if n > 0 {
        lemma_shot_grows(w, rolls, armor, (n - 1) as nat);
        let v = ranged_upto(w, rolls, armor, (n - 1) as nat);
        let u = ranged_upto(w, rolls, armor, n);
        assert(v.journal.is_prefix_of(u.journal));
        assert(v.effects.is_prefix_of(u.effects));
    }
}


/// Whether an effect, if it is damage dealt by a creature, strikes the creature that
/// this creature asked to shoot.
pub open spec fn damage_aimed_at_shot_target(w: WorldView, fx: Effect) -> bool {
    (fx.effect is Damage && fx.creator is Some) ==> {
        let c = fx.creator->0;
        &&& c < w.ents.len()
        &&& w.ents[c as int].wants_to_shoot is Some
        &&& fx.targets == (Targets::Single { target: w.ents[c as int].wants_to_shoot->0 })
    }
}

/// Shots land where they were aimed: every damage effect that a round of shooting
/// queues on behalf of creature `i` strikes the single creature `i` asked to shoot,
/// never another one and never the shooter in its place.
pub proof fn law_ranged_damage_strikes_the_target(w: WorldView, rolls: Seq<AttackRolls>, armor: Seq<i32>)
    requires
        w.ents.len() <= usize::MAX,
    ensures
        forall|k: int| w.effects.len() <= k < spec_ranged_round(w, rolls, armor).effects.len()
            ==> #[trigger] damage_aimed_at_shot_target(w, spec_ranged_round(w, rolls, armor).effects[k]),
{
    lemma_ranged_aimed_upto(w, rolls, armor, w.ents.len());
}

proof fn lemma_ranged_step_aimed(w: WorldView, v: WorldView, i: int, r: AttackRolls, armor: Seq<i32>)
    requires
        v.ents == w.ents,
        0 <= i < w.ents.len() <= usize::MAX,
    ensures
        v.effects.len() <= ranged_step(v, i, r, armor).effects.len(),
        forall|k: int| v.effects.len() <= k < ranged_step(v, i, r, armor).effects.len()
            ==> #[trigger] damage_aimed_at_shot_target(w, ranged_step(v, i, r, armor).effects[k]),
{
    let u = ranged_step(v, i, r, armor);
    if ranged_ready(v, i) {
        let e = v.ents[i];
        let t = e.wants_to_shoot->0;
        let te = v.ents[t as int];
        if e.pools->0.hit_points.current > 0 && te.pools->0.hit_points.current > 0 {
            let effects0 = v.effects.push(shot(v, e.position->0, te.position->0));
            let wp = weapon_used(v, i, r);
            let well_fed = e.hunger matches Some(c) && c.state == HungerState::WellFed;
            let modified = clamp_i32(spec_modified_hit_roll(r.natural as int, wp, e.attributes->0, e.skills->0, well_fed));
            let ac = clamp_i32(spec_armor_class(te.natural_armor, te.attributes->0, te.skills->0, armor[t as int] as int));
            assert(damage_aimed_at_shot_target(w, shot(v, e.position->0, te.position->0)));
            match spec_attack_outcome(r.natural as int, modified, ac) {
                AttackOutcome::Hit => {
                    let dmg = damage_floor(spec_ranged_damage_total(r.damage as int, wp, e.attributes->0, e.skills->0));
                    let hit = Effect { creator: Some(i as Entity), effect: EffectType::Damage { amount: dmg as i32 }, targets: Targets::Single { target: t } };
                    assert(damage_aimed_at_shot_target(w, hit));
                    let effects1 = effects0.push(hit);
                    assert forall|k: int| v.effects.len() <= k < u.effects.len() implies #[trigger] damage_aimed_at_shot_target(w, u.effects[k]) by {
                        if k == v.effects.len() {
                            assert(u.effects[k] == shot(v, e.position->0, te.position->0));
                        } else if k == v.effects.len() + 1 {
                            assert(u.effects[k] == hit);
                        } else {
                            assert(!(u.effects[k].effect is Damage));
                        }
                    }
                },
                AttackOutcome::NaturalMiss => {
                    assert(damage_aimed_at_shot_target(w, flash(t, NamedColor::Blue)));
                },
                AttackOutcome::Miss => {
                    assert(damage_aimed_at_shot_target(w, flash(t, NamedColor::Cyan)));
                },
            }
        }
    }
}

proof fn lemma_ranged_aimed_upto(w: WorldView, rolls: Seq<AttackRolls>, armor: Seq<i32>, n: nat)
    requires
        n <= w.ents.len() <= usize::MAX,
    ensures
        w.effects.len() <= ranged_upto(w, rolls, armor, n).effects.len(),
        forall|k: int| w.effects.len() <= k < ranged_upto(w, rolls, armor, n).effects.len()
            ==> #[trigger] damage_aimed_at_shot_target(w, ranged_upto(w, rolls, armor, n).effects[k]),
    decreases n,
{
    if n > 0 {
        let i = n - 1;
        lemma_ranged_aimed_upto(w, rolls, armor, (n - 1) as nat);
        let v = ranged_upto(w, rolls, armor, (n - 1) as nat);
        lemma_ranged_upto_shape(w, rolls, armor, (n - 1) as nat);
        assert(v.ents == w.ents);
        let u = ranged_upto(w, rolls, armor, n);
        assert(u == ranged_step(v, i, rolls[i], armor));
        assert(v.effects.is_prefix_of(u.effects));
        lemma_ranged_step_aimed(w, v, i, rolls[i], armor);
        assert forall|k: int| w.effects.len() <= k < u.effects.len() implies #[trigger] damage_aimed_at_shot_target(w, u.effects[k]) by {
            if k < v.effects.len() {
                assert(u.effects[k] == v.effects[k]);
                assert(damage_aimed_at_shot_target(w, v.effects[k]));
            }
        }
    }
}

/// Whether two armour tables agree on every creature that some live shooter wants to
/// shoot.
pub open spec fn same_shot_target_armor(w: WorldView, a1: Seq<i32>, a2: Seq<i32>) -> bool {
    forall|i: int| 0 <= i < w.ents.len() && w.ents[i].alive && #[trigger] w.ents[i].wants_to_shoot is Some
        ==> a1[w.ents[i].wants_to_shoot->0 as int] == a2[w.ents[i].wants_to_shoot->0 as int]
}

/// Only the target's worn armour counts: two armour tables that agree on every creature
/// someone wants to shoot give the same round, whatever they say of the shooters' own
/// armour.
pub proof fn law_ranged_target_armor_only(w: WorldView, rolls: Seq<AttackRolls>, a1: Seq<i32>, a2: Seq<i32>)
    requires
        same_shot_target_armor(w, a1, a2),
    ensures
        spec_ranged_round(w, rolls, a1) == spec_ranged_round(w, rolls, a2),
{
    lemma_ranged_target_armor_upto(w, rolls, a1, a2, w.ents.len());
}

proof fn lemma_ranged_target_armor_upto(w: WorldView, rolls: Seq<AttackRolls>, a1: Seq<i32>, a2: Seq<i32>, n: nat)
    requires
        same_shot_target_armor(w, a1, a2),
        n <= w.ents.len(),
    ensures
        ranged_upto(w, rolls, a1, n) == ranged_upto(w, rolls, a2, n),
    decreases n,
{
    if n > 0 {
        lemma_ranged_target_armor_upto(w, rolls, a1, a2, (n - 1) as nat);
        let v = ranged_upto(w, rolls, a1, (n - 1) as nat);
        lemma_ranged_upto_shape(w, rolls, a1, (n - 1) as nat);
        assert(v.ents == w.ents);
        let i = n - 1;
        if ranged_ready(v, i) {
            assert(w.ents[i].alive && w.ents[i].wants_to_shoot is Some);
        }
        assert(ranged_step(v, i, rolls[i], a1) == ranged_step(v, i, rolls[i], a2));
    }
}

proof fn lemma_ranged_upto_grows(w: WorldView, rolls: Seq<AttackRolls>, armor: Seq<i32>, m: nat, n: nat)
    requires
        m <= n,
    ensures
        ranged_upto(w, rolls, armor, m).effects.is_prefix_of(ranged_upto(w, rolls, armor, n).effects),
    decreases n,
{
    if m < n {
        lemma_ranged_upto_grows(w, rolls, armor, m, (n - 1) as nat);
        let v = ranged_upto(w, rolls, armor, (n - 1) as nat);
        let u = ranged_upto(w, rolls, armor, n);
        assert(v.effects.is_prefix_of(u.effects));
    }
}

/// A natural 20 always hits: when a creature ready to shoot rolls 20 and both it and its
/// target still stand, the round wounds the target on its behalf, however well the
/// target is armoured.
pub proof fn law_ranged_natural_twenty_always_wounds(w: WorldView, rolls: Seq<AttackRolls>, armor: Seq<i32>, i: int)
    requires
        w.ents.len() <= usize::MAX,
        0 <= i < w.ents.len(),
        ranged_ready(w, i),
        w.ents[i].pools->0.hit_points.current > 0,
        w.ents[w.ents[i].wants_to_shoot->0 as int].pools->0.hit_points.current > 0,
        rolls[i].natural == 20,
    ensures
        exists|k: int| 0 <= k < spec_ranged_round(w, rolls, armor).effects.len()
            && #[trigger] wounds(spec_ranged_round(w, rolls, armor).effects[k], i as Entity, w.ents[i].wants_to_shoot->0),
{
    let v = ranged_upto(w, rolls, armor, i as nat);
    lemma_ranged_upto_shape(w, rolls, armor, i as nat);
    let u = ranged_upto(w, rolls, armor, (i + 1) as nat);
    assert(u == ranged_step(v, i, rolls[i], armor));
    let k = v.effects.len() as int + 1;
    assert(wounds(u.effects[k], i as Entity, w.ents[i].wants_to_shoot->0));
    lemma_ranged_upto_grows(w, rolls, armor, (i + 1) as nat, w.ents.len());
    let r = spec_ranged_round(w, rolls, armor);
    assert(r.effects[k] == u.effects[k]);
}

/// A natural 1 never wounds: when a creature rolls 1 for its shot, the round queues no
/// damage on its behalf at all.
pub proof fn law_ranged_natural_one_never_wounds(w: WorldView, rolls: Seq<AttackRolls>, armor: Seq<i32>, i: int, t: Entity)
    requires
        w.ents.len() <= usize::MAX,
        0 <= i < w.ents.len(),
        rolls[i].natural == 1,
    ensures
        forall|k: int| w.effects.len() <= k < spec_ranged_round(w, rolls, armor).effects.len()
            ==> !#[trigger] wounds(spec_ranged_round(w, rolls, armor).effects[k], i as Entity, t),
{
    lemma_ranged_no_wound_upto(w, rolls, armor, i, t, w.ents.len());
}

proof fn lemma_ranged_no_wound_upto(w: WorldView, rolls: Seq<AttackRolls>, armor: Seq<i32>, i: int, t: Entity, n: nat)
    requires
        w.ents.len() <= usize::MAX,
        0 <= i < w.ents.len(),
        n <= w.ents.len(),
        rolls[i].natural == 1,
    ensures
        w.effects.len() <= ranged_upto(w, rolls, armor, n).effects.len(),
        forall|k: int| w.effects.len() <= k < ranged_upto(w, rolls, armor, n).effects.len()
            ==> !#[trigger] wounds(ranged_upto(w, rolls, armor, n).effects[k], i as Entity, t),
    decreases n,
{
    if n > 0 {
        let j = n - 1;
        lemma_ranged_no_wound_upto(w, rolls, armor, i, t, (n - 1) as nat);
        let v = ranged_upto(w, rolls, armor, (n - 1) as nat);
        lemma_ranged_upto_shape(w, rolls, armor, (n - 1) as nat);
        let u = ranged_upto(w, rolls, armor, n);
        assert(u == ranged_step(v, j, rolls[j], armor));
        assert(v.effects.is_prefix_of(u.effects));
        assert forall|k: int| w.effects.len() <= k < u.effects.len() implies !#[trigger] wounds(u.effects[k], i as Entity, t) by {
            if k < v.effects.len() {
                assert(u.effects[k] == v.effects[k]);
                assert(!wounds(v.effects[k], i as Entity, t));
            } else {
                lemma_ranged_step_creators(w, v, j, rolls[j], armor, k);
            }
        }
    }
}

/// What one shot queues is unowned or queued on the shooter's behalf, and when the
/// shooter rolls 1 it is no damage.
proof fn lemma_ranged_step_creators(w: WorldView, v: WorldView, j: int, r: AttackRolls, armor: Seq<i32>, k: int)
    requires
        v.ents == w.ents,
        0 <= j < w.ents.len() <= usize::MAX,
        v.effects.len() <= k < ranged_step(v, j, r, armor).effects.len(),
    ensures
        ranged_step(v, j, r, armor).effects[k].creator is None
            || ranged_step(v, j, r, armor).effects[k].creator == Some(j as Entity),
        r.natural == 1 ==> !(ranged_step(v, j, r, armor).effects[k].effect is Damage),
{
}

} // verus!
