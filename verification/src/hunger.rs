//! The hunger clock: a creature grows hungrier as its turns pass.

use vstd::prelude::*;
use crate::components::{HungerClock, HungerState};

verus! {

/// Turns that each hunger state lasts before the next one begins.
pub const HUNGER_STATE_TURNS: i32 = 200;

/// Turns that a meal keeps a creature well fed.
pub const WELL_FED_TURNS: i32 = 20;

/// What a creature experiences when its hunger clock ticks.
#[derive(Clone, Copy, Debug, PartialEq, Eq, Structural)]
pub enum HungerEvent {
    Nothing,
    NoLongerWellFed,
    BecameHungry,
    BecameStarving,
    StarvationDamage,
}

/// How far along the road to starvation a state lies.
pub open spec fn hunger_rank(s: HungerState) -> int {
    match s {
        HungerState::WellFed => 0,
        HungerState::Normal => 1,
        HungerState::Hungry => 2,
        HungerState::Starving => 3,
    }
}

/// The clock and event after one turn: the duration drops by one, and when it falls
/// below one the state worsens and the duration restarts; a starving creature stays
/// starving and takes damage.
pub open spec fn spec_hunger_tick(clock: HungerClock) -> (HungerClock, HungerEvent) {
    let d = clock.duration - 1;
    if d >= 1 {
        (HungerClock { state: clock.state, duration: d as i32 }, HungerEvent::Nothing)
    } else {
        match clock.state {
            HungerState::WellFed => (HungerClock { state: HungerState::Normal, duration: 200 }, HungerEvent::NoLongerWellFed),
            HungerState::Normal => (HungerClock { state: HungerState::Hungry, duration: 200 }, HungerEvent::BecameHungry),
            HungerState::Hungry => (HungerClock { state: HungerState::Starving, duration: 200 }, HungerEvent::BecameStarving),
            HungerState::Starving => (HungerClock { state: HungerState::Starving, duration: d as i32 }, HungerEvent::StarvationDamage),
        }
    }
}

/// Advances a hunger clock by one turn.
pub fn hunger_tick(clock: HungerClock) -> (r: (HungerClock, HungerEvent))
    requires
        clock.duration > i32::MIN,
    ensures
        r == spec_hunger_tick(clock),
{
    let d = clock.duration - 1;
    if d >= 1 {
        (HungerClock { state: clock.state, duration: d }, HungerEvent::Nothing)
    } else {
        match clock.state {
            HungerState::WellFed => (HungerClock { state: HungerState::Normal, duration: HUNGER_STATE_TURNS }, HungerEvent::NoLongerWellFed),
            HungerState::Normal => (HungerClock { state: HungerState::Hungry, duration: HUNGER_STATE_TURNS }, HungerEvent::BecameHungry),
            HungerState::Hungry => (HungerClock { state: HungerState::Starving, duration: HUNGER_STATE_TURNS }, HungerEvent::BecameStarving),
            HungerState::Starving => (HungerClock { state: HungerState::Starving, duration: d }, HungerEvent::StarvationDamage),
        }
    }
}

/// The clock of a creature that has just eaten.
pub fn eat(clock: HungerClock) -> (r: HungerClock)
    ensures
        r.state == HungerState::WellFed,
        r.duration == WELL_FED_TURNS,
{
    HungerClock { state: HungerState::WellFed, duration: WELL_FED_TURNS }
}

/// Time never makes a creature less hungry, and it worsens by at most one state per turn.
pub proof fn law_hunger_only_worsens(clock: HungerClock)
    ensures
        hunger_rank(clock.state) <= hunger_rank(spec_hunger_tick(clock).0.state) <= hunger_rank(clock.state) + 1,
{
}

/// Starvation lasts: a starving creature stays starving.
pub proof fn law_starving_is_final(clock: HungerClock)
    requires
        clock.state == HungerState::Starving,
    ensures
        spec_hunger_tick(clock).0.state == HungerState::Starving,
{
}

/// Only a starving creature takes damage from hunger.
pub proof fn law_damage_only_when_starving(clock: HungerClock)
    requires
        spec_hunger_tick(clock).1 == HungerEvent::StarvationDamage,
    ensures
        clock.state == HungerState::Starving,
        clock.duration <= 1,
{
}

/// A state change always restarts the clock at the full duration.
pub proof fn law_state_change_restarts_clock(clock: HungerClock)
    requires
        spec_hunger_tick(clock).0.state != clock.state,
    ensures
        spec_hunger_tick(clock).0.duration == HUNGER_STATE_TURNS,
{
}

} // verus!
