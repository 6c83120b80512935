//! Ticks the hunger clock of every creature whose turn it is.

use vstd::prelude::*;
use crate::components::{Entity, HungerClock};
use crate::hunger::{HungerEvent, hunger_tick, spec_hunger_tick};
use crate::logger::{LogStore, Logger, NamedColor};
use crate::world::{Effect, EffectType, Ent, Targets, World, WorldView, journal_view, lemma_journal_push, refs_in};

verus! {

/// The journal entry that tells the player about a hunger event, if any.
pub open spec fn hunger_message(ev: HungerEvent) -> Option<Seq<(NamedColor, Seq<char>)>> {
    match ev {
        HungerEvent::Nothing => None,
        HungerEvent::NoLongerWellFed => Some(seq![(NamedColor::Orange, "You are no longer well fed."@)]),
        HungerEvent::BecameHungry => Some(seq![(NamedColor::Orange, "You are hungry."@)]),
        HungerEvent::BecameStarving => Some(seq![(NamedColor::Red, "You are starving!"@)]),
        HungerEvent::StarvationDamage => Some(seq![(NamedColor::Red, "Your hunger pangs are getting painful! You suffer 1 hp damage"@)]),
    }
}

#[verifier::opaque]
pub open spec fn with_clock(e: Ent, c: HungerClock) -> Ent {
    Ent { hunger: Some(c), ..e }
}

/// One point of damage to `target`, from nobody in particular.
pub open spec fn starvation_damage(target: Entity) -> Effect {
    Effect { creator: None, effect: EffectType::Damage { amount: 1 }, targets: Targets::Single { target } }
}

/// Entity `i`'s clock ticks when it is alive, has a clock and has the turn; the player
/// hears about each change, and a starving creature queues one point of damage to
/// itself.
pub open spec fn hunger_step(w: WorldView, i: int) -> WorldView {
    let e = w.ents[i];
    if e.alive && e.my_turn && e.hunger is Some && e.hunger->0.duration > i32::MIN {
        let (c, ev) = spec_hunger_tick(e.hunger->0);
        WorldView {
            ents: w.ents.update(i, with_clock(e, c)),
            journal: if i == w.player && hunger_message(ev) is Some { w.journal.push(hunger_message(ev)->0) } else { w.journal },
            effects: if ev == HungerEvent::StarvationDamage { w.effects.push(starvation_damage(i as Entity)) } else { w.effects },
            ..w
        }
    } else {
        w
    }
}

pub open spec fn hunger_upto(w: WorldView, n: nat) -> WorldView
    decreases n,
{
    if n == 0 { w } else { hunger_step(hunger_upto(w, (n - 1) as nat), n - 1) }
}

/// The world after every creature whose turn it is has its hunger clock ticked, in
/// entity order.
pub open spec fn spec_hunger_system(w: WorldView) -> WorldView {
    hunger_upto(w, w.ents.len())
}

/// Whether every clock that ticks this turn can count down once more within `i32`.
pub open spec fn clocks_can_tick(w: WorldView) -> bool {
    forall|k: int| 0 <= k < w.ents.len() && (#[trigger] w.ents[k]).alive && w.ents[k].my_turn && w.ents[k].hunger is Some
        ==> w.ents[k].hunger->0.duration > i32::MIN
}

proof fn lemma_hunger_upto_shape(w: WorldView, n: nat)
    requires
        w.wf(),
        n <= w.ents.len(),
    ensures
        hunger_upto(w, n).wf(),
        hunger_upto(w, n).ents.len() == w.ents.len(),
        hunger_upto(w, n) == (WorldView {
            ents: hunger_upto(w, n).ents,
            journal: hunger_upto(w, n).journal,
            effects: hunger_upto(w, n).effects,
            ..w
        }),
    decreases n,
{
    if n > 0 {
        lemma_hunger_upto_shape(w, (n - 1) as nat);
        let v = hunger_upto(w, (n - 1) as nat);
        let e = v.ents[n - 1];
        if e.alive && e.my_turn && e.hunger is Some && e.hunger->0.duration > i32::MIN {
            let (c, ev) = spec_hunger_tick(e.hunger->0);
            assert(refs_in(e, v.ents.len() as int));
            reveal(with_clock);
            crate::world::lemma_update_keeps_refs(v.ents, n - 1, with_clock(e, c));
        }
    }
}

fn say(store: &mut LogStore, color: NamedColor, text: &str)
    ensures
        journal_view(final(store).entries@) == journal_view(old(store).entries@).push(seq![(color, text@)]),
{
    let ghost before = store.entries@;
    Logger::new().color(color).append(text).log(store);
    proof { lemma_journal_push(before, store.entries@); }
}

fn announce(store: &mut LogStore, ev: HungerEvent)
    ensures
        journal_view(final(store).entries@) == (match hunger_message(ev) {
            Some(m) => journal_view(old(store).entries@).push(m),
            None => journal_view(old(store).entries@),
        }),
{
    match ev {
        HungerEvent::Nothing => {},
        HungerEvent::NoLongerWellFed => say(store, NamedColor::Orange, "You are no longer well fed."),
        HungerEvent::BecameHungry => say(store, NamedColor::Orange, "You are hungry."),
        HungerEvent::BecameStarving => say(store, NamedColor::Red, "You are starving!"),
        HungerEvent::StarvationDamage => say(store, NamedColor::Red, "Your hunger pangs are getting painful! You suffer 1 hp damage"),
    }
}

fn run_hunger(ents: &mut Vec<Ent>, journal: &mut LogStore, effects: &mut Vec<Effect>, player: Entity, Ghost(start): Ghost<WorldView>)
    requires
        start.wf(),
        player == start.player,
        old(ents)@ == start.ents,
        journal_view(old(journal).entries@) == start.journal,
        old(effects)@ == start.effects,
    ensures
        final(ents)@ == spec_hunger_system(start).ents,
        journal_view(final(journal).entries@) == spec_hunger_system(start).journal,
        final(effects)@ == spec_hunger_system(start).effects,
{
    let n = ents.len();
    let mut i: usize = 0;
    while i < n
        invariant
            0 <= i <= n,
            n == start.ents.len(),
            start.wf(),
            player == start.player,
            ents@ == hunger_upto(start, i as nat).ents,
            journal_view(journal.entries@) == hunger_upto(start, i as nat).journal,
            effects@ == hunger_upto(start, i as nat).effects,
        decreases n - i,
    {
        proof { lemma_hunger_upto_shape(start, i as nat); }
        let ghost before = hunger_upto(start, i as nat);
        let e = ents[i];
        if e.alive && e.my_turn {
            if let Some(clock) = e.hunger {
                if clock.duration > i32::MIN {
                    let (c, ev) = hunger_tick(clock);
                    let e2 = Ent { hunger: Some(c), ..e };
                    proof { reveal(with_clock); assert(e2 == with_clock(e, c)); }
                    ents.set(i, e2);
                    if i == player {
                        announce(journal, ev);
                    }
                    if ev == HungerEvent::StarvationDamage {
                        effects.push(Effect { creator: None, effect: EffectType::Damage { amount: 1 }, targets: Targets::Single { target: i } });
                    }
                }
            }
        }
        proof {
            assert(ents@ =~= hunger_step(before, i as int).ents);
        }
        i = i + 1;
    }
}

pub struct HungerSystem {}

impl HungerSystem {
    pub fn run(&mut self, w: &mut World)
        requires
            old(w).wf(),
            clocks_can_tick(old(w).view()),
        ensures
            final(w).wf(),
            final(w).view() == spec_hunger_system(old(w).view()),
    {
        let ghost start = w.view();
        proof { lemma_hunger_upto_shape(start, start.ents.len()); }
        run_hunger(&mut w.ents, &mut w.journal, &mut w.effects, w.player, Ghost(start));
        proof {
            assert(w.view() == spec_hunger_system(start));
        }
    }
}

} // verus!
