//! Removes the dead: creatures at zero hit points drop what they carry where they
//! fall and are deleted; the player's death ends the game.

use vstd::prelude::*;
use crate::components::{Entity, Position};
use crate::logger::{LogStore, Logger, NamedColor};
use crate::run_state::RunState;
use crate::world::{Ent, World, WorldView, journal_view, lemma_journal_push, refs_in, spec_deleted};

verus! {

/// A creature other than the player that has run out of hit points.
pub open spec fn is_dead(e: Ent) -> bool {
    e.alive && e.pools is Some && e.pools->0.hit_points.current < 1 && !e.player
}

/// The player, out of hit points.
pub open spec fn is_dead_player(e: Ent) -> bool {
    e.alive && e.pools is Some && e.pools->0.hit_points.current < 1 && e.player
}

/// Whether `owner` wears or carries `item`.
pub open spec fn owns(item: Ent, owner: Entity) -> bool {
    (item.equipped matches Some(q) && q.owner == owner) || (item.in_backpack matches Some(b) && b.owner == owner)
}

/// The last dead creature among the first `n` entities that owns `item` and stands
/// somewhere: where `item` ends up.
pub open spec fn drop_owner(ents: Seq<Ent>, item: Ent, n: nat) -> Option<int>
    decreases n,
{
    if n == 0 {
        None
    } else if is_dead(ents[n - 1]) && owns(item, (n - 1) as Entity) && ents[n - 1].position is Some {
        Some(n - 1)
    } else {
        drop_owner(ents, item, (n - 1) as nat)
    }
}

/// An item put on the ground at `pos`.
#[verifier::opaque]
pub open spec fn dropped(item: Ent, pos: Position) -> Ent {
    Ent { equipped: None, in_backpack: None, position: Some(pos), ..item }
}

/// Entity `i` after the dead are removed: deleted if it died, put on the ground if a
/// dead creature owned it, and otherwise unchanged.
pub open spec fn after_deaths(ents: Seq<Ent>, i: int) -> Ent {
    if is_dead(ents[i]) {
        spec_deleted()
    } else {
        match drop_owner(ents, ents[i], ents.len()) {
            Some(v) => dropped(ents[i], ents[v].position->0),
            None => ents[i],
        }
    }
}

pub open spec fn death_entry(name: Seq<char>) -> Seq<(NamedColor, Seq<char>)> {
    seq![(NamedColor::Yellow, name), (NamedColor::White, "is dead"@)]
}

/// The journal after announcing the deaths among the first `n` entities, in order:
/// each dead creature with a name is announced.
pub open spec fn death_notices(w: WorldView, n: nat) -> Seq<Seq<(NamedColor, Seq<char>)>>
    decreases n,
{
    if n == 0 {
        w.journal
    } else {
        let prev = death_notices(w, (n - 1) as nat);
        if is_dead(w.ents[n - 1]) && w.ents[n - 1].has_name { prev.push(death_entry(w.names[n - 1])) } else { prev }
    }
}

pub open spec fn player_died(w: WorldView) -> bool {
    exists|i: int| 0 <= i < w.ents.len() && #[trigger] is_dead_player(w.ents[i])
}

/// The dead creatures among the first `n` entities that lie somewhere, in entity order,
/// each with where it lies: the ones whose loot-table drop is spawned there and whose
/// on-death abilities go off there.
pub open spec fn fallen_upto(ents: Seq<Ent>, n: nat) -> Seq<(Entity, Position)>
    decreases n,
{
    if n == 0 {
        Seq::empty()
    } else {
        let prev = fallen_upto(ents, (n - 1) as nat);
        let e = ents[n - 1];
        if is_dead(e) && e.position is Some { prev.push(((n - 1) as Entity, e.position->0)) } else { prev }
    }
}

/// The world after the dead are removed.
pub open spec fn spec_delete_the_dead(w: WorldView) -> WorldView {
    WorldView {
        ents: Seq::new(w.ents.len(), |i: int| after_deaths(w.ents, i)),
        journal: death_notices(w, w.ents.len()),
        run_state: if player_died(w) { RunState::GameOver } else { w.run_state },
        ..w
    }
}

fn make_dropped(e: Ent, pos: Position) -> (r: Ent)
    ensures
        r == dropped(e, pos),
{
    proof { reveal(dropped); }
    Ent { equipped: None, in_backpack: None, position: Some(pos), ..e }
}

fn make_deleted() -> (r: Ent)
    ensures
        r == spec_deleted(),
{
    let mut d = crate::world::blank();
    d.alive = false;
    d
}

fn find_drop_owner(ents: &Vec<Ent>, item: &Ent) -> (r: Option<Entity>)
    ensures
        r matches Some(v) ==> drop_owner(ents@, *item, ents@.len()) == Some(v as int) && v < ents@.len()
            && ents@[v as int].position is Some,
        r is None ==> drop_owner(ents@, *item, ents@.len()) is None,
{
    let mut found: Option<Entity> = None;
    let mut k: usize = 0;
    while k < ents.len()
        invariant
            k <= ents@.len(),
            found matches Some(v) ==> drop_owner(ents@, *item, k as nat) == Some(v as int) && v < k
                && ents@[v as int].position is Some,
            found is None ==> drop_owner(ents@, *item, k as nat) is None,
        decreases ents@.len() - k,
    {
        let v = ents[k];
        let dead = v.alive && v.pools.is_some() && v.pools.unwrap().hit_points.current < 1 && !v.player;
        let owned = match item.equipped {
            Some(q) => q.owner == k,
            None => false,
        } || match item.in_backpack {
            Some(b) => b.owner == k,
            None => false,
        };
        if dead && owned && v.position.is_some() {
            found = Some(k);
        }
        k = k + 1;
    }
    found
}

fn announce_deaths(ents: &Vec<Ent>, names: &Vec<String>, journal: &mut LogStore, Ghost(w): Ghost<WorldView>) -> (player_dead: bool)
    requires
        ents@ == w.ents,
        crate::world::names_view(names@) == w.names,
        names@.len() == ents@.len(),
        journal_view(old(journal).entries@) == w.journal,
    ensures
        journal_view(final(journal).entries@) == death_notices(w, w.ents.len()),
        player_dead == player_died(w),
{
    let mut player_dead = false;
    let n = ents.len();
    let mut i: usize = 0;
    while i < n
        invariant
            i <= n,
            n == w.ents.len(),
            ents@ == w.ents,
            crate::world::names_view(names@) == w.names,
            names@.len() == n,
            journal_view(journal.entries@) == death_notices(w, i as nat),
            player_dead <==> exists|j: int| 0 <= j < i && #[trigger] is_dead_player(w.ents[j]),
        decreases n - i,
    {
        let e = ents[i];
        if e.alive && e.pools.is_some() && e.pools.unwrap().hit_points.current < 1 {
            if !e.player {
                if e.has_name {
                    let ghost before = journal.entries@;
                    proof { assert(names@[i as int]@ == w.names[i as int]); }
                    let l = Logger::new().npc_name(names[i].as_str()).color(NamedColor::White).append("is dead");
                    proof { assert(l.gathered() =~= death_entry(w.names[i as int])); }
                    l.log(journal);
                    proof { lemma_journal_push(before, journal.entries@); }
                }
            } else {
                player_dead = true;
            }
        }
        proof {
            if is_dead_player(w.ents[i as int]) {
                assert(exists|j: int| 0 <= j < i + 1 && #[trigger] is_dead_player(w.ents[j]));
            }
            if !is_dead_player(w.ents[i as int]) && (exists|j: int| 0 <= j < i + 1 && #[trigger] is_dead_player(w.ents[j])) {
                let j = choose|j: int| 0 <= j < i + 1 && #[trigger] is_dead_player(w.ents[j]);
                assert(j != i);
            }
        }
        i = i + 1;
    }
    player_dead
}

/// Removes the dead. Returns the dead creatures that lay somewhere, with where each lay,
/// for their loot-table drops and on-death abilities, which the item and spell
/// definitions decide.
pub fn delete_the_dead(w: &mut World) -> (fallen: Vec<(Entity, Position)>)
    requires
        old(w).wf(),
    ensures
        final(w).wf(),
        final(w).view() == spec_delete_the_dead(old(w).view()),
        fallen@ == fallen_upto(old(w).view().ents, old(w).view().ents.len()),
{
    let ghost start = w.view();
    let player_dead = announce_deaths(&w.ents, &w.names, &mut w.journal, Ghost(start));
    if player_dead {
        w.run_state = RunState::GameOver;
    }
    let n = w.ents.len();
    let mut next: Vec<Ent> = Vec::new();
    let mut fallen: Vec<(Entity, Position)> = Vec::new();
    let mut i: usize = 0;
    while i < n
        invariant
            i <= n,
            n == start.ents.len(),
            w.ents@ == start.ents,
            next@.len() == i,
            fallen@ == fallen_upto(start.ents, i as nat),
            forall|j: int| 0 <= j < i ==> #[trigger] next@[j] == after_deaths(start.ents, j),
        decreases n - i,
    {
        let e = w.ents[i];
        let rec = if e.alive && e.pools.is_some() && e.pools.unwrap().hit_points.current < 1 && !e.player {
            if let Some(pos) = e.position {
                fallen.push((i, pos));
            }
            make_deleted()
        } else {
            match find_drop_owner(&w.ents, &e) {
                Some(v) => {
                    let vp = w.ents[v].position.unwrap();
                    make_dropped(e, vp)
                },
                None => e,
            }
        };
        next.push(rec);
        i = i + 1;
    }
    w.ents = next;
    proof {
        assert(w.view().ents =~= spec_delete_the_dead(start).ents);
        assert forall|k: int| 0 <= k < w.ents@.len() implies #[trigger] refs_in(w.ents@[k], w.ents@.len() as int) by {
            assert(refs_in(start.ents[k], start.ents.len() as int));
            reveal(dropped);
        }
        assert(w.view() == spec_delete_the_dead(start));
    }
    fallen
}

/// Loot falls where its owner fell: an item that a creature dying at `p` wears or
/// carries lies afterwards on the ground at `p`, in no backpack and worn by no one, and
/// is otherwise unchanged (when every other dying owner of it fell at `p` too).
pub proof fn law_loot_falls_where_its_owner_fell(w: WorldView, k: int, v: Entity, p: Position)
    requires
        w.ents.len() <= usize::MAX,
        0 <= k < w.ents.len(),
        v < w.ents.len(),
        !is_dead(w.ents[k]),
        is_dead(w.ents[v as int]),
        owns(w.ents[k], v),
        w.ents[v as int].position == Some(p),
        forall|u: int| 0 <= u < w.ents.len() && is_dead(#[trigger] w.ents[u]) && owns(w.ents[k], u as Entity)
            && w.ents[u].position is Some ==> w.ents[u].position == Some(p),
    ensures
        spec_delete_the_dead(w).ents[k] == (Ent { equipped: None, in_backpack: None, position: Some(p), ..w.ents[k] }),
        spec_delete_the_dead(w).ents[k].position == Some(p),
        spec_delete_the_dead(w).ents[k].equipped is None,
        spec_delete_the_dead(w).ents[k].in_backpack is None,
{
    lemma_drop_owner_found(w.ents, w.ents[k], w.ents.len(), v);
    reveal(dropped);
}

/// `drop_owner` finds a dying owner that lies somewhere whenever there is one.
proof fn lemma_drop_owner_found(ents: Seq<Ent>, item: Ent, n: nat, v: Entity)
    requires
        n <= ents.len() <= usize::MAX,
        v < n,
        is_dead(ents[v as int]),
        owns(item, v),
        ents[v as int].position is Some,
    ensures
        drop_owner(ents, item, n) matches Some(x) && 0 <= x < n && is_dead(ents[x])
            && owns(item, x as Entity) && ents[x].position is Some,
    decreases n,
{
    if v != n - 1 {
        lemma_drop_owner_found(ents, item, (n - 1) as nat, v);
    }
}

/// Only the dead go, and only their belongings move: a dying creature is deleted, and a
/// creature or item that no creature dying somewhere owns is left exactly as it was.
pub proof fn law_delete_the_dead_touches_only_the_dead_and_their_loot(w: WorldView, k: int)
    requires
        w.ents.len() <= usize::MAX,
        0 <= k < w.ents.len(),
    ensures
        is_dead(w.ents[k]) ==> !spec_delete_the_dead(w).ents[k].alive,
        !is_dead(w.ents[k]) && (forall|u: int| 0 <= u < w.ents.len() && is_dead(#[trigger] w.ents[u])
            && w.ents[u].position is Some ==> !owns(w.ents[k], u as Entity))
            ==> spec_delete_the_dead(w).ents[k] == w.ents[k],
        spec_delete_the_dead(w).ents.len() == w.ents.len(),
{
    if !is_dead(w.ents[k]) && (forall|u: int| 0 <= u < w.ents.len() && is_dead(#[trigger] w.ents[u])
        && w.ents[u].position is Some ==> !owns(w.ents[k], u as Entity)) {
        lemma_drop_owner_none(w.ents, w.ents[k], w.ents.len());
    }
}

/// `drop_owner` finds nothing when no dying owner lies anywhere.
proof fn lemma_drop_owner_none(ents: Seq<Ent>, item: Ent, n: nat)
    requires
        n <= ents.len() <= usize::MAX,
        forall|u: int| 0 <= u < ents.len() && is_dead(#[trigger] ents[u]) && ents[u].position is Some
            ==> !owns(item, u as Entity),
    ensures
        drop_owner(ents, item, n) is None,
    decreases n,
{
    if n > 0 {
        lemma_drop_owner_none(ents, item, (n - 1) as nat);
        let u = n - 1;
        assert(is_dead(ents[u]) && ents[u].position is Some ==> !owns(item, u as Entity));
    }
}

} // verus!
