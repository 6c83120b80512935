//! Melee: every creature that wants to strike another rolls to hit and, on a hit,
//! rolls damage.

use vstd::prelude::*;
use rltk::RandomNumberGenerator;
use crate::combat::{
    AttackOutcome, NaturalAttack, Weapon, armor_class, attack_outcome, clamp_i32, damage_floor,
    melee_damage, modified_hit_roll, spec_armor_class, spec_attack_outcome, spec_melee_damage_total,
    spec_modified_hit_roll, spec_unarmed, spec_with_natural_attack, unarmed, with_natural_attack,
};
use crate::components::{EquipmentSlot, Entity, HungerState};
use crate::font::{cp437, to_cp437};
use crate::logger::{LogStore, Logger, NamedColor, decimal};
use crate::rng::{dice_rollable, random_slice_index, roll_dice};
use crate::world::{Effect, EffectType, Ent, Targets, World, WorldView, attacks_view, journal_view, lemma_journal_push, names_view, refs_in};

verus! {

/// The dice that one attack used.
#[derive(Clone, Copy, Debug, PartialEq, Eq, Structural)]
pub struct AttackRolls {
    pub attack_index: Option<usize>,
    pub natural: i32,
    pub damage: i32,
    pub proc_roll: i32,
}

/// The weapon that entity `owner` wields in its melee slot, with the weapon entity:
/// the last such one in entity order among the first `n` entities.
pub open spec fn wielded_scan(ents: Seq<Ent>, owner: Entity, n: nat) -> Option<(Entity, Weapon)>
    decreases n,
{
    if n == 0 {
        None
    } else {
        let e = ents[n - 1];
        if e.alive && e.weapon is Some && (e.equipped matches Some(q) && q.owner == owner && q.slot == EquipmentSlot::Melee) {
            Some(((n - 1) as Entity, e.weapon->0))
        } else {
            wielded_scan(ents, owner, (n - 1) as nat)
        }
    }
}

/// The blow entity `i` strikes with when it wields nothing: a natural attack picked by
/// the roll, or an unarmed blow.
pub open spec fn natural_weapon(w: WorldView, i: int, pick: Option<usize>) -> Weapon {
    match pick {
        Some(k) => if w.ents[i].has_natural && k < w.natural_attacks[i].len() {
            spec_with_natural_attack(spec_unarmed(), w.natural_attacks[i][k as int])
        } else {
            spec_unarmed()
        },
        None => spec_unarmed(),
    }
}

pub open spec fn weapon_used(w: WorldView, i: int, r: AttackRolls) -> Weapon {
    weapon_for(w, i, r.attack_index)
}

/// The attack profile: the wielded weapon if there is one, else the picked natural attack.
pub open spec fn weapon_for(w: WorldView, i: int, pick: Option<usize>) -> Weapon {
    match wielded_scan(w.ents, i as Entity, w.ents.len()) {
        Some((_, wp)) => wp,
        None => natural_weapon(w, i, pick),
    }
}

/// Whether entity `i` takes part in melee: it is alive, wants to strike, and has a
/// name, attributes, skills and pools, and so has its target.
pub open spec fn melee_ready(w: WorldView, i: int) -> bool {
    let e = w.ents[i];
    &&& e.alive
    &&& e.wants_to_melee is Some
    &&& e.has_name
    &&& e.attributes is Some
    &&& e.skills is Some
    &&& e.pools is Some
    &&& {
        let t = w.ents[e.wants_to_melee->0 as int];
        t.pools is Some && t.attributes is Some && t.skills is Some
    }
}

pub open spec fn hit_entry(attacker: Seq<char>, target: Seq<char>, damage: int) -> Seq<(NamedColor, Seq<char>)> {
    seq![
        (NamedColor::Yellow, attacker),
        (NamedColor::White, "hits"@),
        (NamedColor::Yellow, target),
        (NamedColor::White, "for"@),
        (NamedColor::Red, decimal(damage)),
        (NamedColor::White, "hp."@),
    ]
}

pub open spec fn fumble_entry(attacker: Seq<char>, target: Seq<char>) -> Seq<(NamedColor, Seq<char>)> {
    seq![
        (NamedColor::Cyan, attacker),
        (NamedColor::White, "considers attacking"@),
        (NamedColor::Cyan, target),
        (NamedColor::White, "but misjudges the timing!"@),
    ]
}

pub open spec fn miss_entry(attacker: Seq<char>, target: Seq<char>) -> Seq<(NamedColor, Seq<char>)> {
    seq![
        (NamedColor::Cyan, attacker),
        (NamedColor::White, "attacks"@),
        (NamedColor::Cyan, target),
        (NamedColor::White, "but can't connect"@),
    ]
}

/// The glyph of the flash shown where a blow misses: a double exclamation mark.
pub open spec fn miss_glyph() -> u16 {
    cp437('\u{203c}')
}

pub open spec fn particle(creator: Entity, target: Entity, fg: NamedColor) -> Effect {
    Effect {
        creator: Some(creator),
        effect: EffectType::Particle { glyph: miss_glyph(), fg, bg: NamedColor::Black },
        targets: Targets::Single { target },
    }
}

/// One melee attack by entity `i`, with the given dice and the armour bonus each
/// defender's worn items grant.
pub open spec fn melee_step(w: WorldView, i: int, r: AttackRolls, armor: Seq<i32>) -> WorldView {
    if !melee_ready(w, i) {
        w
    } else {
        let e = w.ents[i];
        let t = e.wants_to_melee->0;
        let te = w.ents[t as int];
        if !(e.pools->0.hit_points.current > 0 && te.pools->0.hit_points.current > 0) {
            w
        } else {
            let wp = weapon_used(w, i, r);
            let well_fed = e.hunger matches Some(c) && c.state == HungerState::WellFed;
            let modified = clamp_i32(spec_modified_hit_roll(r.natural as int, wp, e.attributes->0, e.skills->0, well_fed));
            let ac = clamp_i32(spec_armor_class(te.natural_armor, te.attributes->0, te.skills->0, armor[t as int] as int));
            let name = w.names[i];
            let tname = w.names[t as int];
            match spec_attack_outcome(r.natural as int, modified, ac) {
                AttackOutcome::Hit => {
                    let dmg = damage_floor(spec_melee_damage_total(r.damage as int, wp, e.attributes->0, e.skills->0));
                    let hit = Effect { creator: Some(i as Entity), effect: EffectType::Damage { amount: dmg as i32 }, targets: Targets::Single { target: t } };
                    let effects1 = w.effects.push(hit);
                    let effects2 = match (wp.proc, wielded_scan(w.ents, i as Entity, w.ents.len())) {
                        (Some(p), Some((we, _))) => if r.proc_roll <= p.threshold {
                            effects1.push(Effect {
                                creator: Some(i as Entity),
                                effect: EffectType::ItemUse { item: we },
                                targets: Targets::Single { target: if p.targets_self { i as Entity } else { t } },
                            })
                        } else {
                            effects1
                        },
                        _ => effects1,
                    };
                    WorldView { journal: w.journal.push(hit_entry(name, tname, dmg)), effects: effects2, ..w }
                },
                AttackOutcome::NaturalMiss => WorldView {
                    journal: w.journal.push(fumble_entry(name, tname)),
                    effects: w.effects.push(particle(i as Entity, t, NamedColor::Blue)),
                    ..w
                },
                AttackOutcome::Miss => WorldView {
                    journal: w.journal.push(miss_entry(name, tname)),
                    effects: w.effects.push(particle(i as Entity, t, NamedColor::Cyan)),
                    ..w
                },
            }
        }
    }
}

/// Whether entity `i` joins a melee round: alive, asking to strike, and with a name,
/// attributes, skills and pools.
pub open spec fn melee_attacker(w: WorldView, i: int) -> bool {
    let e = w.ents[i];
    e.alive && e.wants_to_melee is Some && e.has_name && e.attributes is Some && e.skills is Some && e.pools is Some
}

/// Whether the damage dice of every blow entity `i` could strike with can be rolled.
pub open spec fn blows_rollable(w: WorldView, i: int) -> bool {
    forall|pick: Option<usize>| dice_rollable(#[trigger] weapon_for(w, i, pick).damage_n_dice, weapon_for(w, i, pick).damage_die_type)
}

/// The worlds a melee round can be played in: each attacker's target has pools,
/// attributes and skills, and when both still stand, the attacker's damage dice can
/// be rolled.
pub open spec fn melee_round_ok(w: WorldView) -> bool {
    forall|i: int| 0 <= i < w.ents.len() && #[trigger] melee_attacker(w, i) ==> {
        let e = w.ents[i];
        let t = w.ents[e.wants_to_melee->0 as int];
        &&& t.pools is Some && t.attributes is Some && t.skills is Some
        &&& (e.pools->0.hit_points.current > 0 && t.pools->0.hit_points.current > 0 ==> blows_rollable(w, i))
    }
}

/// Dice that a fair roll could show for entity `i`'s attack.
pub open spec fn rolls_possible(w: WorldView, i: int, r: AttackRolls) -> bool {
    let wp = weapon_used(w, i, r);
    &&& 1 <= r.natural <= 20
    &&& 1 <= r.proc_roll <= 100
    &&& (r.attack_index matches Some(k) ==> k < w.natural_attacks[i].len())
    &&& (dice_rollable(wp.damage_n_dice, wp.damage_die_type) ==> (
        if wp.damage_n_dice <= 0 { r.damage == 0 }
        else { wp.damage_n_dice <= r.damage <= wp.damage_n_dice * wp.damage_die_type }))
    &&& (!dice_rollable(wp.damage_n_dice, wp.damage_die_type) ==> r.damage == 0)
}

pub open spec fn melee_upto(w: WorldView, rolls: Seq<AttackRolls>, armor: Seq<i32>, n: nat) -> WorldView
    decreases n,
{
    if n == 0 { w } else { melee_step(melee_upto(w, rolls, armor, (n - 1) as nat), n - 1, rolls[n - 1], armor) }
}

#[verifier::opaque]
pub open spec fn without_melee(e: Ent) -> Ent {
    Ent { wants_to_melee: None, ..e }
}

/// The world after each creature that wants to strike, in entity order, makes its
/// attack with the dice in `rolls`, and the requests are cleared.
pub open spec fn spec_melee_round(w: WorldView, rolls: Seq<AttackRolls>, armor: Seq<i32>) -> WorldView {
    let v = melee_upto(w, rolls, armor, w.ents.len());
    WorldView { ents: v.ents.map_values(|e: Ent| without_melee(e)), ..v }
}

proof fn lemma_melee_upto_shape(w: WorldView, rolls: Seq<AttackRolls>, armor: Seq<i32>, n: nat)
    ensures
        melee_upto(w, rolls, armor, n) == (WorldView {
            journal: melee_upto(w, rolls, armor, n).journal,
            effects: melee_upto(w, rolls, armor, n).effects,
            ..w
        }),
    decreases n,
{
    if n > 0 {
        lemma_melee_upto_shape(w, rolls, armor, (n - 1) as nat);
    }
}

/// The smallest total the weapon's dice can show.
pub open spec fn least_damage(wp: Weapon) -> i32 {
    if dice_rollable(wp.damage_n_dice, wp.damage_die_type) && wp.damage_n_dice > 0 { wp.damage_n_dice } else { 0 }
}

pub(crate) proof fn lemma_least_damage_possible(wp: Weapon)
    ensures
        dice_rollable(wp.damage_n_dice, wp.damage_die_type) ==> (
            if wp.damage_n_dice <= 0 { least_damage(wp) == 0 }
            else { wp.damage_n_dice <= least_damage(wp) <= wp.damage_n_dice * wp.damage_die_type }),
        !dice_rollable(wp.damage_n_dice, wp.damage_die_type) ==> least_damage(wp) == 0,
{
    if dice_rollable(wp.damage_n_dice, wp.damage_die_type) && wp.damage_n_dice > 0 {
        let n = wp.damage_n_dice as int;
        let d = wp.damage_die_type as int;
        assert(n <= n * d) by (nonlinear_arith) requires n > 0, d >= 1;
    }
}

pub(crate) fn wielded_weapon(ents: &Vec<Ent>, owner: Entity) -> (r: Option<(Entity, Weapon)>)
    ensures
        r == wielded_scan(ents@, owner, ents@.len()),
{
    let mut found: Option<(Entity, Weapon)> = None;
    let mut k: usize = 0;
    while k < ents.len()
        invariant
            k <= ents@.len(),
            found == wielded_scan(ents@, owner, k as nat) || (found is Some && wielded_scan(ents@, owner, k as nat) == found),
            found == wielded_scan(ents@, owner, k as nat),
        decreases ents@.len() - k,
    {
        let e = ents[k];
        if e.alive {
            if let Some(wp) = e.weapon {
                if let Some(q) = e.equipped {
                    if q.owner == owner && q.slot == EquipmentSlot::Melee {
                        found = Some((k, wp));
                    }
                }
            }
        }
        k = k + 1;
    }
    found
}

fn log_entry(store: &mut LogStore, l: Logger)
    ensures
        journal_view(final(store).entries@) == journal_view(old(store).entries@).push(l.gathered()),
{
    let ghost before = store.entries@;
    l.log(store);
    proof { lemma_journal_push(before, store.entries@); }
}

/// Picks the attack profile of entity `i`, and returns it with the weapon entity it
/// wields (if any) and the natural attack that was picked.
fn attack_weapon(
    ents: &Vec<Ent>,
    natural_attacks: &Vec<Vec<NaturalAttack>>,
    rng: &mut RandomNumberGenerator,
    i: usize,
    Ghost(w): Ghost<WorldView>,
) -> (r: (Weapon, Option<(Entity, Weapon)>, Ghost<Option<usize>>))
    requires
        w.wf(),
        i < w.ents.len(),
        ents@ == w.ents,
        attacks_view(natural_attacks@) == w.natural_attacks,
    ensures
        r.2@ matches Some(k) ==> k < w.natural_attacks[i as int].len(),
        r.1 == wielded_scan(w.ents, i as Entity, w.ents.len()),
        r.0 == weapon_for(w, i as int, r.2@),
{
    let e = ents[i];
    let mut natural_pick: Option<usize> = None;
    proof { assert(natural_attacks@[i as int]@ == w.natural_attacks[i as int]); }
    if e.has_natural {
        let attacks = &natural_attacks[i];
        if attacks.len() < i32::MAX as usize {
            natural_pick = random_slice_index(rng, attacks.as_slice());
        }
    }
    let mut wp = unarmed();
    if let Some(k) = natural_pick {
        if e.has_natural {
            wp = with_natural_attack(wp, natural_attacks[i][k]);
        }
    }
    let wielded = wielded_weapon(ents, i);
    if let Some((_, held)) = wielded {
        wp = held;
    }
    (wp, wielded, Ghost(natural_pick))
}

/// Rolls the damage dice of `wp`, or counts 0 when the dice cannot be rolled.
pub(crate) fn roll_damage(rng: &mut RandomNumberGenerator, wp: &Weapon) -> (d: i32)
    ensures
        dice_rollable(wp.damage_n_dice, wp.damage_die_type) ==> (
            if wp.damage_n_dice <= 0 { d == 0 }
            else { wp.damage_n_dice <= d <= wp.damage_n_dice * wp.damage_die_type }),
        !dice_rollable(wp.damage_n_dice, wp.damage_die_type) ==> d == 0,
{
    let n = wp.damage_n_dice;
    let die = wp.damage_die_type;
    if n <= 0 {
        return roll_dice(rng, n, die);
    }
    if die < 1 || die == i32::MAX {
        return 0;
    }
    proof {
        assert((n as int) * (die as int) <= 2147483647int * 2147483647int) by (nonlinear_arith)
            requires n > 0, n <= 2147483647, die >= 1, die <= 2147483647;
    }
    if (n as i64) * (die as i64) <= i32::MAX as i64 {
        roll_dice(rng, n, die)
    } else {
        0
    }
}

/// Resolves the blow of a ready attacker `i` on its living target `t`.
fn strike(
    names: &Vec<String>,
    journal: &mut LogStore,
    effects: &mut Vec<Effect>,
    rng: &mut RandomNumberGenerator,
    armor: &Vec<i32>,
    i: usize,
    t: usize,
    wp: Weapon,
    wielded: Option<(Entity, Weapon)>,
    e: Ent,
    te: Ent,
    Ghost(w): Ghost<WorldView>,
    Ghost(pick): Ghost<Option<usize>>,
) -> (r: Ghost<AttackRolls>)
    requires
        w.wf(),
        i < w.ents.len(),
        t < w.ents.len(),
        e == w.ents[i as int],
        te == w.ents[t as int],
        melee_ready(w, i as int),
        e.wants_to_melee == Some(t),
        e.pools->0.hit_points.current > 0,
        te.pools->0.hit_points.current > 0,
        wp == weapon_for(w, i as int, pick),
        wielded == wielded_scan(w.ents, i as Entity, w.ents.len()),
        names_view(names@) == w.names,
        journal_view(old(journal).entries@) == w.journal,
        old(effects)@ == w.effects,
        armor@.len() == w.ents.len(),
    ensures
        r@.attack_index == pick,
        1 <= r@.natural <= 20,
        1 <= r@.proc_roll <= 100,
        dice_rollable(wp.damage_n_dice, wp.damage_die_type) ==> (
            if wp.damage_n_dice <= 0 { r@.damage == 0 }
            else { wp.damage_n_dice <= r@.damage <= wp.damage_n_dice * wp.damage_die_type }),
        !dice_rollable(wp.damage_n_dice, wp.damage_die_type) ==> r@.damage == 0,
        journal_view(final(journal).entries@) == melee_step(w, i as int, r@, armor@).journal,
        final(effects)@ == melee_step(w, i as int, r@, armor@).effects,
{
    let ghost mut rolls = AttackRolls { attack_index: pick, natural: 1, damage: least_damage(wp), proc_roll: 1 };
    proof { lemma_least_damage_possible(wp); }
    let attrs = e.attributes.unwrap();
    let skills = e.skills.unwrap();
    let tattrs = te.attributes.unwrap();
    let tskills = te.skills.unwrap();
    let natural_roll = roll_dice(rng, 1, 20);
    proof { rolls.natural = natural_roll; }
    let well_fed = match e.hunger {
        Some(c) => c.state == HungerState::WellFed,
        None => false,
    };
    let modified = modified_hit_roll(natural_roll, &wp, &attrs, &skills, well_fed);
    let ac = armor_class(te.natural_armor, &tattrs, &tskills, armor[t]);
    let name = names[i].as_str();
    let tname = names[t].as_str();
    proof {
        assert(names@[i as int]@ == w.names[i as int]);
        assert(names@[t as int]@ == w.names[t as int]);
    }
    match attack_outcome(natural_roll, modified, ac) {
        AttackOutcome::Hit => {
            let base_damage = roll_damage(rng, &wp);
            proof { rolls.damage = base_damage; }
            let dmg = melee_damage(base_damage, &wp, &attrs, &skills);
            effects.push(Effect { creator: Some(i), effect: EffectType::Damage { amount: dmg }, targets: Targets::Single { target: t } });
            let l = Logger::new().npc_name(name).color(NamedColor::White).append("hits").npc_name(tname)
                .color(NamedColor::White).append("for").damage(dmg).color(NamedColor::White).append("hp.");
            proof {
                assert(l.gathered() =~= hit_entry(names@[i as int]@, names@[t as int]@, dmg as int));
            }
            log_entry(journal, l);
            match (wp.proc, wielded) {
                (Some(p), Some((we, _))) => {
                    let proc_roll = roll_dice(rng, 1, 100);
                    proof { rolls.proc_roll = proc_roll; }
                    if proc_roll <= p.threshold {
                        effects.push(Effect {
                            creator: Some(i),
                            effect: EffectType::ItemUse { item: we },
                            targets: Targets::Single { target: if p.targets_self { i } else { t } },
                        });
                    }
                },
                _ => {},
            }
        },
        AttackOutcome::NaturalMiss => {
            let l = Logger::new().color(NamedColor::Cyan).append(name).color(NamedColor::White).append("considers attacking")
                .color(NamedColor::Cyan).append(tname).color(NamedColor::White).append("but misjudges the timing!");
            proof {
                assert(l.gathered() =~= fumble_entry(names@[i as int]@, names@[t as int]@));
            }
            log_entry(journal, l);
            effects.push(Effect {
                creator: Some(i),
                effect: EffectType::Particle { glyph: to_cp437('\u{203c}'), fg: NamedColor::Blue, bg: NamedColor::Black },
                targets: Targets::Single { target: t },
            });
        },
        AttackOutcome::Miss => {
            let l = Logger::new().color(NamedColor::Cyan).append(name).color(NamedColor::White).append("attacks")
                .color(NamedColor::Cyan).append(tname).color(NamedColor::White).append("but can't connect");
            proof {
                assert(l.gathered() =~= miss_entry(names@[i as int]@, names@[t as int]@));
            }
            log_entry(journal, l);
            effects.push(Effect {
                creator: Some(i),
                effect: EffectType::Particle { glyph: to_cp437('\u{203c}'), fg: NamedColor::Cyan, bg: NamedColor::Black },
                targets: Targets::Single { target: t },
            });
        },
    }
    Ghost(rolls)
}

/// Makes entity `i`'s attack, if it makes one, and returns the dice it used.
fn melee_attack(
    ents: &Vec<Ent>,
    names: &Vec<String>,
    natural_attacks: &Vec<Vec<NaturalAttack>>,
    journal: &mut LogStore,
    effects: &mut Vec<Effect>,
    rng: &mut RandomNumberGenerator,
    armor: &Vec<i32>,
    i: usize,
    Ghost(w): Ghost<WorldView>,
) -> (r: Ghost<AttackRolls>)
    requires
        w.wf(),
        i < w.ents.len(),
        ents@ == w.ents,
        names_view(names@) == w.names,
        attacks_view(natural_attacks@) == w.natural_attacks,
        journal_view(old(journal).entries@) == w.journal,
        old(effects)@ == w.effects,
        armor@.len() == w.ents.len(),
    ensures
        rolls_possible(w, i as int, r@),
        journal_view(final(journal).entries@) == melee_step(w, i as int, r@, armor@).journal,
        final(effects)@ == melee_step(w, i as int, r@, armor@).effects,
{
    let e = ents[i];
    proof { assert(refs_in(w.ents[i as int], w.ents.len() as int)); }
    let (wp, wielded, Ghost(pick)) = attack_weapon(ents, natural_attacks, rng, i, Ghost(w));
    let ghost idle = AttackRolls { attack_index: pick, natural: 1, damage: least_damage(wp), proc_roll: 1 };
    proof { lemma_least_damage_possible(wp); }
    let ready = e.alive && e.has_name && e.wants_to_melee.is_some() && e.attributes.is_some() && e.skills.is_some() && e.pools.is_some();
    if !ready {
        return Ghost(idle);
    }
    let t = e.wants_to_melee.unwrap();
    let te = ents[t];
    if !(te.pools.is_some() && te.attributes.is_some() && te.skills.is_some()) {
        return Ghost(idle);
    }
    if !(e.pools.unwrap().hit_points.current > 0 && te.pools.unwrap().hit_points.current > 0) {
        return Ghost(idle);
    }
    strike(names, journal, effects, rng, armor, i, t, wp, wielded, e, te, Ghost(w), Ghost(pick))
}


proof fn lemma_melee_upto_prefix(w: WorldView, r1: Seq<AttackRolls>, r2: Seq<AttackRolls>, armor: Seq<i32>, n: nat)
    requires
        forall|j: int| 0 <= j < n ==> r1[j] == r2[j],
    ensures
        melee_upto(w, r1, armor, n) == melee_upto(w, r2, armor, n),
    decreases n,
{
    if n > 0 {
        lemma_melee_upto_prefix(w, r1, r2, armor, (n - 1) as nat);
    }
}

fn make_without_melee(e: Ent) -> (r: Ent)
    ensures
        r == without_melee(e),
{
    proof { reveal(without_melee); }
    Ent { wants_to_melee: None, ..e }
}

fn clear_melee_requests(ents: &mut Vec<Ent>)
    ensures
        final(ents)@ == old(ents)@.map_values(|e: Ent| without_melee(e)),
{
    let ghost mid = ents@;
    let n = ents.len();
    let mut j: usize = 0;
    while j < n
        invariant
            0 <= j <= n,
            n == mid.len(),
            ents@.len() == n,
            forall|k: int| 0 <= k < j ==> #[trigger] ents@[k] == without_melee(mid[k]),
            forall|k: int| j <= k < n ==> #[trigger] ents@[k] == mid[k],
        decreases n - j,
    {
        let e = ents[j];
        let cleared = make_without_melee(e);
        ents.set(j, cleared);
        j = j + 1;
    }
    assert(ents@ =~= mid.map_values(|e: Ent| without_melee(e)));
}

/// Whether `rolls` are dice a fair roll could show for every attack of the round.
pub open spec fn round_rolls_possible(w: WorldView, rolls: Seq<AttackRolls>) -> bool {
    &&& rolls.len() == w.ents.len()
    &&& forall|i: int| 0 <= i < rolls.len() ==> #[trigger] rolls_possible(w, i, rolls[i])
}

pub struct MeleeCombatSystem {}

impl MeleeCombatSystem {
    /// Runs one round of melee. `armor[e]` is the armour class bonus that the items
    /// entity `e` wears grant. The dice come from `rng`; whatever they show, the world
    /// afterwards is the round played with those dice.
    pub fn run(&mut self, w: &mut World, rng: &mut RandomNumberGenerator, armor: &Vec<i32>)
        requires
            old(w).wf(),
            melee_round_ok(old(w).view()),
            armor@.len() == old(w).ents@.len(),
        ensures
            final(w).wf(),
            exists|rolls: Seq<AttackRolls>|
                round_rolls_possible(old(w).view(), rolls)
                && final(w).view() == spec_melee_round(old(w).view(), rolls, armor@),
    {
        let ghost start = w.view();
        let ghost mut rolls: Seq<AttackRolls> = Seq::empty();
        let n = w.ents.len();
        let mut i: usize = 0;
        while i < n
            invariant
                0 <= i <= n,
                n == start.ents.len(),
                start.wf(),
                armor@.len() == n,
                w.wf(),
                w.view() == (WorldView { journal: w.view().journal, effects: w.view().effects, ..start }),
                rolls.len() == i,
                forall|j: int| 0 <= j < i ==> #[trigger] rolls_possible(start, j, rolls[j]),
                journal_view(w.journal.entries@) == melee_upto(start, rolls, armor@, i as nat).journal,
                w.effects@ == melee_upto(start, rolls, armor@, i as nat).effects,
            decreases n - i,
        {
            let ghost before = melee_upto(start, rolls, armor@, i as nat);
            proof { lemma_melee_upto_shape(start, rolls, armor@, i as nat); }
            let Ghost(r) = melee_attack(&w.ents, &w.names, &w.natural_attacks, &mut w.journal, &mut w.effects, rng, armor, i, Ghost(before));
            proof {
                let r2 = rolls.push(r);
                lemma_melee_upto_prefix(start, rolls, r2, armor@, i as nat);
                assert(melee_upto(start, r2, armor@, (i + 1) as nat) == melee_step(before, i as int, r, armor@));
                rolls = r2;
                assert(before.ents == start.ents);
            }
            i = i + 1;
        }
        proof { lemma_melee_upto_shape(start, rolls, armor@, n as nat); }
        let ghost mid = w.view();
        clear_melee_requests(&mut w.ents);
        proof {
            assert(w.view().ents =~= spec_melee_round(start, rolls, armor@).ents);
            assert forall|k: int| 0 <= k < w.ents@.len() implies #[trigger] refs_in(w.ents@[k], w.ents@.len() as int) by {
                assert(refs_in(mid.ents[k], mid.ents.len() as int));
                reveal(without_melee);
            }
            assert(w.view() == spec_melee_round(start, rolls, armor@));
            assert(round_rolls_possible(start, rolls));
        }
    }
}


/// A round of combat changes no entity beyond clearing its melee request: whatever the
/// dice show, only the journal and the effect queue grow.
pub proof fn law_melee_round_changes_only_log_and_effects(w: WorldView, rolls: Seq<AttackRolls>, armor: Seq<i32>)
    ensures
        spec_melee_round(w, rolls, armor) == (WorldView {
            ents: w.ents.map_values(|e: Ent| without_melee(e)),
            journal: spec_melee_round(w, rolls, armor).journal,
            effects: spec_melee_round(w, rolls, armor).effects,
            ..w
        }),
        w.journal.is_prefix_of(spec_melee_round(w, rolls, armor).journal),
        w.effects.is_prefix_of(spec_melee_round(w, rolls, armor).effects),
{
    lemma_melee_upto_shape(w, rolls, armor, w.ents.len());
    lemma_melee_grows(w, rolls, armor, w.ents.len());
}

proof fn lemma_melee_grows(w: WorldView, rolls: Seq<AttackRolls>, armor: Seq<i32>, n: nat)
    ensures
        w.journal.is_prefix_of(melee_upto(w, rolls, armor, n).journal),
        w.effects.is_prefix_of(melee_upto(w, rolls, armor, n).effects),
    decreases n,
{
    if n > 0 {
        lemma_melee_grows(w, rolls, armor, (n - 1) as nat);
        let v = melee_upto(w, rolls, armor, (n - 1) as nat);
        let u = melee_upto(w, rolls, armor, n);
        assert(v.journal.is_prefix_of(u.journal));
        assert(v.effects.is_prefix_of(u.effects));
    }
}

/// Whether two armour tables agree on every creature that some live attacker wants to
/// strike.
pub open spec fn same_defender_armor(w: WorldView, a1: Seq<i32>, a2: Seq<i32>) -> bool {
    forall|i: int| 0 <= i < w.ents.len() && w.ents[i].alive && #[trigger] w.ents[i].wants_to_melee is Some
        ==> a1[w.ents[i].wants_to_melee->0 as int] == a2[w.ents[i].wants_to_melee->0 as int]
}

/// Only the defender's worn armour counts: two armour tables that agree on every
/// creature someone wants to strike give the same round, whatever they say of the
/// attackers' own armour, so an attacker's armour never decides whether it hits.
pub proof fn law_melee_defender_armor_only(w: WorldView, rolls: Seq<AttackRolls>, a1: Seq<i32>, a2: Seq<i32>)
    requires
        same_defender_armor(w, a1, a2),
    ensures
        spec_melee_round(w, rolls, a1) == spec_melee_round(w, rolls, a2),
{
    lemma_melee_defender_armor_upto(w, rolls, a1, a2, w.ents.len());
}

proof fn lemma_melee_defender_armor_upto(w: WorldView, rolls: Seq<AttackRolls>, a1: Seq<i32>, a2: Seq<i32>, n: nat)
    requires
        same_defender_armor(w, a1, a2),
        n <= w.ents.len(),
    ensures
        melee_upto(w, rolls, a1, n) == melee_upto(w, rolls, a2, n),
    decreases n,
{
    if n > 0 {
        lemma_melee_defender_armor_upto(w, rolls, a1, a2, (n - 1) as nat);
        let v = melee_upto(w, rolls, a1, (n - 1) as nat);
        lemma_melee_upto_shape(w, rolls, a1, (n - 1) as nat);
        assert(v.ents == w.ents);
        let i = n - 1;
        if melee_ready(v, i) {
            assert(w.ents[i].alive && w.ents[i].wants_to_melee is Some);
        }
        assert(melee_step(v, i, rolls[i], a1) == melee_step(v, i, rolls[i], a2));
    }
}


/// Whether an effect, if it is damage dealt by a creature, strikes the creature that
/// this creature asked to strike.
pub open spec fn damage_aimed_at_melee_target(w: WorldView, fx: Effect) -> bool {
    (fx.effect is Damage && fx.creator is Some) ==> {
        let c = fx.creator->0;
        &&& c < w.ents.len()
        &&& w.ents[c as int].wants_to_melee is Some
        &&& fx.targets == (Targets::Single { target: w.ents[c as int].wants_to_melee->0 })
    }
}

/// Blows land on the defender: every damage effect that a melee round queues on behalf
/// of creature `i` strikes the single creature `i` asked to strike.
pub proof fn law_melee_damage_strikes_the_defender(w: WorldView, rolls: Seq<AttackRolls>, armor: Seq<i32>)
    requires
        w.ents.len() <= usize::MAX,
    ensures
        forall|k: int| w.effects.len() <= k < spec_melee_round(w, rolls, armor).effects.len()
            ==> #[trigger] damage_aimed_at_melee_target(w, spec_melee_round(w, rolls, armor).effects[k]),
{
    lemma_melee_aimed_upto(w, rolls, armor, w.ents.len());
}

proof fn lemma_melee_step_aimed(w: WorldView, v: WorldView, i: int, r: AttackRolls, armor: Seq<i32>)
    requires
        v.ents == w.ents,
        0 <= i < w.ents.len() <= usize::MAX,
    ensures
        v.effects.len() <= melee_step(v, i, r, armor).effects.len(),
        forall|k: int| v.effects.len() <= k < melee_step(v, i, r, armor).effects.len()
            ==> #[trigger] damage_aimed_at_melee_target(w, melee_step(v, i, r, armor).effects[k]),
{
    let u = melee_step(v, i, r, armor);
    if melee_ready(v, i) {
        let e = v.ents[i];
        let t = e.wants_to_melee->0;
        let te = v.ents[t as int];
        if e.pools->0.hit_points.current > 0 && te.pools->0.hit_points.current > 0 {
            let wp = weapon_used(v, i, r);
            let well_fed = e.hunger matches Some(c) && c.state == HungerState::WellFed;
            let modified = clamp_i32(spec_modified_hit_roll(r.natural as int, wp, e.attributes->0, e.skills->0, well_fed));
            let ac = clamp_i32(spec_armor_class(te.natural_armor, te.attributes->0, te.skills->0, armor[t as int] as int));
            match spec_attack_outcome(r.natural as int, modified, ac) {
                AttackOutcome::Hit => {
                    let dmg = damage_floor(spec_melee_damage_total(r.damage as int, wp, e.attributes->0, e.skills->0));
                    let hit = Effect { creator: Some(i as Entity), effect: EffectType::Damage { amount: dmg as i32 }, targets: Targets::Single { target: t } };
                    assert(damage_aimed_at_melee_target(w, hit));
                    assert forall|k: int| v.effects.len() <= k < u.effects.len() implies #[trigger] damage_aimed_at_melee_target(w, u.effects[k]) by {
                        if k == v.effects.len() {
                            assert(u.effects[k] == hit);
                        } else {
                            assert(!(u.effects[k].effect is Damage));
                        }
                    }
                },
                AttackOutcome::NaturalMiss => {
                    assert(damage_aimed_at_melee_target(w, particle(i as Entity, t, NamedColor::Blue)));
                },
                AttackOutcome::Miss => {
                    assert(damage_aimed_at_melee_target(w, particle(i as Entity, t, NamedColor::Cyan)));
                },
            }
        }
    }
}

proof fn lemma_melee_aimed_upto(w: WorldView, rolls: Seq<AttackRolls>, armor: Seq<i32>, n: nat)
    requires
        n <= w.ents.len() <= usize::MAX,
    ensures
        w.effects.len() <= melee_upto(w, rolls, armor, n).effects.len(),
        forall|k: int| w.effects.len() <= k < melee_upto(w, rolls, armor, n).effects.len()
            ==> #[trigger] damage_aimed_at_melee_target(w, melee_upto(w, rolls, armor, n).effects[k]),
    decreases n,
{
    if n > 0 {
        let i = n - 1;
        lemma_melee_aimed_upto(w, rolls, armor, (n - 1) as nat);
        let v = melee_upto(w, rolls, armor, (n - 1) as nat);
        lemma_melee_upto_shape(w, rolls, armor, (n - 1) as nat);
        assert(v.ents == w.ents);
        let u = melee_upto(w, rolls, armor, n);
        assert(u == melee_step(v, i, rolls[i], armor));
        assert(v.effects.is_prefix_of(u.effects));
        lemma_melee_step_aimed(w, v, i, rolls[i], armor);
        assert forall|k: int| w.effects.len() <= k < u.effects.len() implies #[trigger] damage_aimed_at_melee_target(w, u.effects[k]) by {
            if k < v.effects.len() {
                assert(u.effects[k] == v.effects[k]);
                assert(damage_aimed_at_melee_target(w, v.effects[k]));
            }
        }
    }
}

/// Whether `fx` is damage that creature `i` deals to creature `t`.
pub open spec fn wounds(fx: Effect, i: Entity, t: Entity) -> bool {
    fx.creator == Some(i) && fx.effect is Damage && fx.targets == (Targets::Single { target: t })
}

proof fn lemma_melee_upto_grows(w: WorldView, rolls: Seq<AttackRolls>, armor: Seq<i32>, m: nat, n: nat)
    requires
        m <= n,
    ensures
        melee_upto(w, rolls, armor, m).effects.is_prefix_of(melee_upto(w, rolls, armor, n).effects),
    decreases n,
{
    if m < n {
        lemma_melee_upto_grows(w, rolls, armor, m, (n - 1) as nat);
        let v = melee_upto(w, rolls, armor, (n - 1) as nat);
        let u = melee_upto(w, rolls, armor, n);
        assert(v.effects.is_prefix_of(u.effects));
    }
}

/// A natural 20 always hits: when a creature ready to strike rolls 20 and both it and its
/// defender still stand, the round wounds the defender on its behalf, however well the
/// defender is armoured.
pub proof fn law_melee_natural_twenty_always_wounds(w: WorldView, rolls: Seq<AttackRolls>, armor: Seq<i32>, i: int)
    requires
        w.ents.len() <= usize::MAX,
        0 <= i < w.ents.len(),
        melee_ready(w, i),
        w.ents[i].pools->0.hit_points.current > 0,
        w.ents[w.ents[i].wants_to_melee->0 as int].pools->0.hit_points.current > 0,
        rolls[i].natural == 20,
    ensures
        exists|k: int| 0 <= k < spec_melee_round(w, rolls, armor).effects.len()
            && #[trigger] wounds(spec_melee_round(w, rolls, armor).effects[k], i as Entity, w.ents[i].wants_to_melee->0),
{
    let v = melee_upto(w, rolls, armor, i as nat);
    lemma_melee_upto_shape(w, rolls, armor, i as nat);
    let u = melee_upto(w, rolls, armor, (i + 1) as nat);
    assert(u == melee_step(v, i, rolls[i], armor));
    let k = v.effects.len() as int;
    assert(wounds(u.effects[k], i as Entity, w.ents[i].wants_to_melee->0));
    lemma_melee_upto_grows(w, rolls, armor, (i + 1) as nat, w.ents.len());
    let r = spec_melee_round(w, rolls, armor);
    assert(r.effects[k] == u.effects[k]);
}

/// A natural 1 never wounds: when a creature rolls 1 for its blow, the round queues no
/// damage on its behalf at all.
pub proof fn law_melee_natural_one_never_wounds(w: WorldView, rolls: Seq<AttackRolls>, armor: Seq<i32>, i: int, t: Entity)
    requires
        w.ents.len() <= usize::MAX,
        0 <= i < w.ents.len(),
        rolls[i].natural == 1,
    ensures
        forall|k: int| w.effects.len() <= k < spec_melee_round(w, rolls, armor).effects.len()
            ==> !#[trigger] wounds(spec_melee_round(w, rolls, armor).effects[k], i as Entity, t),
{
    lemma_melee_no_wound_upto(w, rolls, armor, i, t, w.ents.len());
}

proof fn lemma_melee_no_wound_upto(w: WorldView, rolls: Seq<AttackRolls>, armor: Seq<i32>, i: int, t: Entity, n: nat)
    requires
        w.ents.len() <= usize::MAX,
        0 <= i < w.ents.len(),
        n <= w.ents.len(),
        rolls[i].natural == 1,
    ensures
        w.effects.len() <= melee_upto(w, rolls, armor, n).effects.len(),
        forall|k: int| w.effects.len() <= k < melee_upto(w, rolls, armor, n).effects.len()
            ==> !#[trigger] wounds(melee_upto(w, rolls, armor, n).effects[k], i as Entity, t),
    decreases n,
{
    if n > 0 {
        let j = n - 1;
        lemma_melee_no_wound_upto(w, rolls, armor, i, t, (n - 1) as nat);
        let v = melee_upto(w, rolls, armor, (n - 1) as nat);
        lemma_melee_upto_shape(w, rolls, armor, (n - 1) as nat);
        let u = melee_upto(w, rolls, armor, n);
        assert(u == melee_step(v, j, rolls[j], armor));
        assert(v.effects.is_prefix_of(u.effects));
        lemma_melee_step_aimed(w, v, j, rolls[j], armor);
        assert forall|k: int| w.effects.len() <= k < u.effects.len() implies !#[trigger] wounds(u.effects[k], i as Entity, t) by {
            if k < v.effects.len() {
                assert(u.effects[k] == v.effects[k]);
                assert(!wounds(v.effects[k], i as Entity, t));
            } else if j == i {
                assert(!wounds(u.effects[k], i as Entity, t));
            } else {
                assert(damage_aimed_at_melee_target(w, u.effects[k]));
                lemma_melee_step_creators(w, v, j, rolls[j], armor, k);
            }
        }
    }
}

/// What one blow queues is queued on the striker's behalf, if on anyone's.
proof fn lemma_melee_step_creators(w: WorldView, v: WorldView, j: int, r: AttackRolls, armor: Seq<i32>, k: int)
    requires
        v.ents == w.ents,
        0 <= j < w.ents.len() <= usize::MAX,
        v.effects.len() <= k < melee_step(v, j, r, armor).effects.len(),
    ensures
        melee_step(v, j, r, armor).effects[k].creator == Some(j as Entity),
{
}

} // verus!
