//! Picking items up, dropping them, and taking off what is worn.

use vstd::prelude::*;
use crate::components::{Entity, InBackpack, Position};
use crate::world::{Ent, World, WorldView, lemma_names_view_push, lemma_update_keeps_refs, refs_in};

verus! {

pub open spec fn pickup_msg(name: Seq<char>) -> Seq<char> {
    "You pick up the "@ + name + "."@
}

pub open spec fn drop_msg(name: Seq<char>) -> Seq<char> {
    "You drop the "@ + name + "."@
}

pub open spec fn remove_msg(name: Seq<char>) -> Seq<char> {
    "You remove the "@ + name + "."@
}

fn message(prefix: &str, name: &String) -> (s: String)
    ensures
        s@ == prefix@ + name@ + "."@,
{
    let mut s = String::from_str(prefix);
    s.append(name.as_str());
    s.append(".");
    s
}

/// `w` with the log extended by `msg` when `by` is the player.
pub open spec fn log_if_player(w: WorldView, by: Entity, msg: Seq<char>) -> Seq<Seq<char>> {
    if by == w.player { w.log.push(msg) } else { w.log }
}

/// An item taken off the map into `owner`'s backpack.
#[verifier::opaque]
pub open spec fn stowed(e: Ent, owner: Entity) -> Ent {
    Ent { position: None, in_backpack: Some(InBackpack { owner }), ..e }
}

/// An entity whose equipment must be re-evaluated.
#[verifier::opaque]
pub open spec fn marked_changed(e: Ent) -> Ent {
    Ent { equipment_changed: true, ..e }
}

proof fn lemma_stowed_refs(e: Ent, owner: Entity, n: int)
    requires
        refs_in(e, n),
        owner < n,
    ensures
        refs_in(stowed(e, owner), n),
{
    reveal(stowed);
}

proof fn lemma_marked_refs(e: Ent, n: int)
    requires
        refs_in(e, n),
    ensures
        refs_in(marked_changed(e), n),
{
    reveal(marked_changed);
}

// ----- picking up -----

/// The pickup request held by entity `i`, if it is alive and holds one.
pub open spec fn pickup_step(w: WorldView, i: int) -> WorldView {
    let e = w.ents[i];
    if e.alive && e.wants_to_pickup is Some {
        let p = e.wants_to_pickup->0;
        let ents1 = w.ents.update(p.item as int, stowed(w.ents[p.item as int], p.collected_by));
        let ents2 = ents1.update(p.collected_by as int, marked_changed(ents1[p.collected_by as int]));
        WorldView { ents: ents2, log: log_if_player(w, p.collected_by, pickup_msg(w.names[p.item as int])), ..w }
    } else {
        w
    }
}

pub open spec fn pickup_upto(w: WorldView, n: nat) -> WorldView
    decreases n,
{
    if n == 0 { w } else { pickup_step(pickup_upto(w, (n - 1) as nat), n - 1) }
}

pub open spec fn clear_pickups(w: WorldView) -> WorldView {
    WorldView { ents: w.ents.map_values(|e: Ent| without_pickup(e)), ..w }
}

/// The world after every pickup request is carried out, in entity order, and the
/// requests are cleared: the item leaves the map for the collector's backpack, the
/// collector's equipment is marked as changed, and the player is told what they got.
pub open spec fn spec_item_collection(w: WorldView) -> WorldView {
    clear_pickups(pickup_upto(w, w.ents.len()))
}

proof fn lemma_pickup_upto_shape(w: WorldView, n: nat)
    requires
        w.wf(),
        n <= w.ents.len(),
    ensures
        pickup_upto(w, n).wf(),
        pickup_upto(w, n).ents.len() == w.ents.len(),
        pickup_upto(w, n) == (WorldView { ents: pickup_upto(w, n).ents, log: pickup_upto(w, n).log, ..w }),
    decreases n,
{
    if n > 0 {
        lemma_pickup_upto_shape(w, (n - 1) as nat);
        let v = pickup_upto(w, (n - 1) as nat);
        let e = v.ents[n - 1];
        if e.alive && e.wants_to_pickup is Some {
            let p = e.wants_to_pickup->0;
            assert(refs_in(v.ents[n - 1], v.ents.len() as int));
            let ne = stowed(v.ents[p.item as int], p.collected_by);
            assert(refs_in(v.ents[p.item as int], v.ents.len() as int));
            lemma_stowed_refs(v.ents[p.item as int], p.collected_by, v.ents.len() as int);
            lemma_update_keeps_refs(v.ents, p.item as int, ne);
            let ents1 = v.ents.update(p.item as int, ne);
            assert(refs_in(ents1[p.collected_by as int], v.ents.len() as int));
            lemma_marked_refs(ents1[p.collected_by as int], v.ents.len() as int);
            lemma_update_keeps_refs(ents1, p.collected_by as int, marked_changed(ents1[p.collected_by as int]));
        }
    }
}

/// Carries out every pickup request held in `ents`, in order.
fn run_pickups(ents: &mut Vec<Ent>, names: &Vec<String>, log: &mut Vec<String>, player: Entity, Ghost(start): Ghost<WorldView>)
    requires
        start.wf(),
        player == start.player,
        old(ents)@ == start.ents,
        crate::world::names_view(names@) == start.names,
        crate::world::names_view(old(log)@) == start.log,
    ensures
        final(ents)@ == pickup_upto(start, start.ents.len()).ents,
        crate::world::names_view(final(log)@) == pickup_upto(start, start.ents.len()).log,
{
    let n = ents.len();
    let mut i: usize = 0;
    while i < n
        invariant
            0 <= i <= n,
            n == start.ents.len(),
            start.wf(),
            player == start.player,
            crate::world::names_view(names@) == start.names,
            ents@ == pickup_upto(start, i as nat).ents,
            crate::world::names_view(log@) == pickup_upto(start, i as nat).log,
        decreases n - i,
    {
        proof { lemma_pickup_upto_shape(start, i as nat); }
        let ghost before = pickup_upto(start, i as nat);
        let e = ents[i];
        if e.alive {
            if let Some(p) = e.wants_to_pickup {
                proof { assert(refs_in(before.ents[i as int], n as int)); }
                let it = ents[p.item];
                let it2 = Ent { position: None, in_backpack: Some(InBackpack { owner: p.collected_by }), ..it };
                proof { reveal(stowed); assert(it2 == stowed(it, p.collected_by)); }
                ents.set(p.item, it2);
                let c = ents[p.collected_by];
                let c2 = Ent { equipment_changed: true, ..c };
                proof { reveal(marked_changed); assert(c2 == marked_changed(c)); }
                ents.set(p.collected_by, c2);
                if p.collected_by == player {
                    let msg = message("You pick up the ", &names[p.item]);
                    let ghost old_log = log@;
                    log.push(msg);
                    proof { lemma_names_view_push(old_log, msg); }
                }
            }
        }
        proof {
            assert(ents@ =~= pickup_step(before, i as int).ents);
        }
        i = i + 1;
    }
}

/// An entity record without its pickup request.
#[verifier::opaque]
pub open spec fn without_pickup(e: Ent) -> Ent {
    Ent { wants_to_pickup: None, ..e }
}

/// Clears every pickup request.
fn make_without_pickup(e: Ent) -> (r: Ent)
    ensures
        r == without_pickup(e),
{
    proof { reveal(without_pickup); }
    Ent { wants_to_pickup: None, ..e }
}

fn clear_pickup_requests(ents: &mut Vec<Ent>)
    ensures
        final(ents)@ == old(ents)@.map_values(|e: Ent| without_pickup(e)),
{
    let ghost mid = ents@;
    let n = ents.len();
    let mut j: usize = 0;
    while j < n
        invariant
            0 <= j <= n,
            n == mid.len(),
            ents@.len() == n,
            forall|k: int| 0 <= k < j ==> #[trigger] ents@[k] == without_pickup(mid[k]),
            forall|k: int| j <= k < n ==> #[trigger] ents@[k] == mid[k],
        decreases n - j,
    {
        let e = ents[j];
        let cleared = make_without_pickup(e);
        ents.set(j, cleared);
        j = j + 1;
    }
    assert(ents@ =~= mid.map_values(|e: Ent| without_pickup(e)));
}

/// The worlds in which every pickup request can be carried out: the item and the
/// collector exist, and an item the player collects has a name to tell.
pub open spec fn pickups_ok(w: WorldView) -> bool {
    forall|i: int| 0 <= i < w.ents.len() && (#[trigger] w.ents[i]).alive && w.ents[i].wants_to_pickup is Some ==> {
        let p = w.ents[i].wants_to_pickup->0;
        &&& w.ents[p.item as int].alive
        &&& w.ents[p.collected_by as int].alive
        &&& (p.collected_by == w.player ==> w.ents[p.item as int].has_name)
    }
}

/// The worlds in which every drop request can be carried out: the dropper stands
/// somewhere, the item exists, and an item the player drops has a name to tell.
pub open spec fn drops_ok(w: WorldView) -> bool {
    forall|i: int| 0 <= i < w.ents.len() && (#[trigger] w.ents[i]).alive && w.ents[i].wants_to_drop is Some ==> {
        let item = w.ents[i].wants_to_drop->0;
        &&& w.ents[i].position is Some
        &&& w.ents[item as int].alive
        &&& (i == w.player ==> w.ents[item as int].has_name)
    }
}

/// The worlds in which every request to take something off can be carried out: the
/// item exists, and an item the player takes off has a name to tell.
pub open spec fn removes_ok(w: WorldView) -> bool {
    forall|i: int| 0 <= i < w.ents.len() && (#[trigger] w.ents[i]).alive && w.ents[i].wants_to_remove is Some ==> {
        let item = w.ents[i].wants_to_remove->0;
        &&& w.ents[item as int].alive
        &&& (i == w.player ==> w.ents[item as int].has_name)
    }
}

pub struct ItemCollectionSystem {}

impl ItemCollectionSystem {
    pub fn run(&mut self, w: &mut World)
        requires
            old(w).wf(),
            pickups_ok(old(w).view()),
        ensures
            final(w).wf(),
            final(w).view() == spec_item_collection(old(w).view()),
    {
        let ghost start = w.view();
        proof { lemma_pickup_upto_shape(start, start.ents.len()); }
        run_pickups(&mut w.ents, &w.names, &mut w.log.entries, w.player, Ghost(start));
        clear_pickup_requests(&mut w.ents);
        proof {
            let mid = pickup_upto(start, start.ents.len());
            assert(w.view().ents =~= spec_item_collection(start).ents);
            assert forall|k: int| 0 <= k < w.ents@.len() implies #[trigger] refs_in(w.ents@[k], w.ents@.len() as int) by {
                assert(refs_in(mid.ents[k], mid.ents.len() as int));
                reveal(without_pickup);
            }
            assert(w.view() == spec_item_collection(start));
        }
    }
}


// ----- dropping -----

/// An item put down at `pos` (where it stays put if the dropper stands nowhere).
#[verifier::opaque]
pub open spec fn dropped_at(e: Ent, pos: Option<Position>) -> Ent {
    Ent { position: if pos is Some { pos } else { e.position }, in_backpack: None, ..e }
}

/// An item taken off and put into `owner`'s backpack.
#[verifier::opaque]
pub open spec fn unequipped_to(e: Ent, owner: Entity) -> Ent {
    Ent { equipped: None, in_backpack: Some(InBackpack { owner }), ..e }
}

#[verifier::opaque]
pub open spec fn without_drop(e: Ent) -> Ent {
    Ent { wants_to_drop: None, ..e }
}

#[verifier::opaque]
pub open spec fn without_remove(e: Ent) -> Ent {
    Ent { wants_to_remove: None, ..e }
}

pub open spec fn drop_step(w: WorldView, i: int) -> WorldView {
    let e = w.ents[i];
    if e.alive && e.wants_to_drop is Some {
        let item = e.wants_to_drop->0;
        let ents1 = w.ents.update(item as int, dropped_at(w.ents[item as int], e.position));
        let ents2 = ents1.update(i, marked_changed(ents1[i]));
        WorldView { ents: ents2, log: log_if_player(w, i as Entity, drop_msg(w.names[item as int])), ..w }
    } else {
        w
    }
}

pub open spec fn drop_upto(w: WorldView, n: nat) -> WorldView
    decreases n,
{
    if n == 0 { w } else { drop_step(drop_upto(w, (n - 1) as nat), n - 1) }
}

/// The world after every drop request is carried out, in entity order, and the
/// requests are cleared: the item leaves the backpack and lies where the dropper
/// stands, the dropper's equipment is marked as changed, and the player is told.
pub open spec fn spec_item_drop(w: WorldView) -> WorldView {
    let v = drop_upto(w, w.ents.len());
    WorldView { ents: v.ents.map_values(|e: Ent| without_drop(e)), ..v }
}

pub open spec fn remove_step(w: WorldView, i: int) -> WorldView {
    let e = w.ents[i];
    if e.alive && e.wants_to_remove is Some {
        let item = e.wants_to_remove->0;
        let ents1 = w.ents.update(item as int, unequipped_to(w.ents[item as int], i as Entity));
        let ents2 = ents1.update(i, marked_changed(ents1[i]));
        WorldView { ents: ents2, log: log_if_player(w, i as Entity, remove_msg(w.names[item as int])), ..w }
    } else {
        w
    }
}

pub open spec fn remove_upto(w: WorldView, n: nat) -> WorldView
    decreases n,
{
    if n == 0 { w } else { remove_step(remove_upto(w, (n - 1) as nat), n - 1) }
}

/// The world after every request to take something off is carried out, in entity
/// order, and the requests are cleared: the item is no longer equipped and goes to the
/// requester's backpack, the requester's equipment is marked as changed, and the
/// player is told.
pub open spec fn spec_item_remove(w: WorldView) -> WorldView {
    let v = remove_upto(w, w.ents.len());
    WorldView { ents: v.ents.map_values(|e: Ent| without_remove(e)), ..v }
}

proof fn lemma_drop_upto_shape(w: WorldView, n: nat)
    requires
        w.wf(),
        n <= w.ents.len(),
    ensures
        drop_upto(w, n).wf(),
        drop_upto(w, n).ents.len() == w.ents.len(),
        drop_upto(w, n) == (WorldView { ents: drop_upto(w, n).ents, log: drop_upto(w, n).log, ..w }),
    decreases n,
{
    if n > 0 {
        lemma_drop_upto_shape(w, (n - 1) as nat);
        let v = drop_upto(w, (n - 1) as nat);
        let e = v.ents[n - 1];
        if e.alive && e.wants_to_drop is Some {
            let item = e.wants_to_drop->0;
            let len = v.ents.len() as int;
            assert(refs_in(v.ents[n - 1], len));
            assert(refs_in(v.ents[item as int], len));
            reveal(dropped_at);
            let ne = dropped_at(v.ents[item as int], e.position);
            assert(refs_in(ne, len));
            lemma_update_keeps_refs(v.ents, item as int, ne);
            let ents1 = v.ents.update(item as int, ne);
            assert(refs_in(ents1[n - 1], len));
            lemma_marked_refs(ents1[n - 1], len);
            lemma_update_keeps_refs(ents1, n - 1, marked_changed(ents1[n - 1]));
        }
    }
}

proof fn lemma_remove_upto_shape(w: WorldView, n: nat)
    requires
        w.wf(),
        n <= w.ents.len(),
    ensures
        remove_upto(w, n).wf(),
        remove_upto(w, n).ents.len() == w.ents.len(),
        remove_upto(w, n) == (WorldView { ents: remove_upto(w, n).ents, log: remove_upto(w, n).log, ..w }),
    decreases n,
{
    if n > 0 {
        lemma_remove_upto_shape(w, (n - 1) as nat);
        let v = remove_upto(w, (n - 1) as nat);
        let e = v.ents[n - 1];
        if e.alive && e.wants_to_remove is Some {
            let item = e.wants_to_remove->0;
            let len = v.ents.len() as int;
            assert(refs_in(v.ents[n - 1], len));
            assert(refs_in(v.ents[item as int], len));
            reveal(unequipped_to);
            let ne = unequipped_to(v.ents[item as int], (n - 1) as Entity);
            assert(refs_in(ne, len));
            lemma_update_keeps_refs(v.ents, item as int, ne);
            let ents1 = v.ents.update(item as int, ne);
            assert(refs_in(ents1[n - 1], len));
            lemma_marked_refs(ents1[n - 1], len);
            lemma_update_keeps_refs(ents1, n - 1, marked_changed(ents1[n - 1]));
        }
    }
}

fn make_dropped_at(it: Ent, pos: Option<Position>) -> (r: Ent)
    ensures
        r == dropped_at(it, pos),
{
    proof { reveal(dropped_at); }
    let p = match pos {
        Some(p) => Some(p),
        None => it.position,
    };
    Ent { position: p, in_backpack: None, ..it }
}

fn make_marked_changed(c: Ent) -> (r: Ent)
    ensures
        r == marked_changed(c),
{
    proof { reveal(marked_changed); }
    Ent { equipment_changed: true, ..c }
}

fn run_drops(ents: &mut Vec<Ent>, names: &Vec<String>, log: &mut Vec<String>, player: Entity, Ghost(start): Ghost<WorldView>)
    requires
        start.wf(),
        player == start.player,
        old(ents)@ == start.ents,
        crate::world::names_view(names@) == start.names,
        crate::world::names_view(old(log)@) == start.log,
    ensures
        final(ents)@ == drop_upto(start, start.ents.len()).ents,
        crate::world::names_view(final(log)@) == drop_upto(start, start.ents.len()).log,
{
    let n = ents.len();
    let mut i: usize = 0;
    while i < n
        invariant
            0 <= i <= n,
            n == start.ents.len(),
            start.wf(),
            player == start.player,
            crate::world::names_view(names@) == start.names,
            ents@ == drop_upto(start, i as nat).ents,
            crate::world::names_view(log@) == drop_upto(start, i as nat).log,
        decreases n - i,
    {
        proof { lemma_drop_upto_shape(start, i as nat); }
        let ghost before = drop_upto(start, i as nat);
        let e = ents[i];
        if e.alive {
            if let Some(item) = e.wants_to_drop {
                proof { assert(refs_in(before.ents[i as int], n as int)); }
                let it = ents[item];
                let it2 = make_dropped_at(it, e.position);
                ents.set(item, it2);
                let c = ents[i];
                let c2 = make_marked_changed(c);
                ents.set(i, c2);
                if i == player {
                    let msg = message("You drop the ", &names[item]);
                    let ghost old_log = log@;
                    log.push(msg);
                    proof { lemma_names_view_push(old_log, msg); }
                }
            }
        }
        proof {
            assert(ents@ =~= drop_step(before, i as int).ents);
        }
        i = i + 1;
    }
}

fn run_removes(ents: &mut Vec<Ent>, names: &Vec<String>, log: &mut Vec<String>, player: Entity, Ghost(start): Ghost<WorldView>)
    requires
        start.wf(),
        player == start.player,
        old(ents)@ == start.ents,
        crate::world::names_view(names@) == start.names,
        crate::world::names_view(old(log)@) == start.log,
    ensures
        final(ents)@ == remove_upto(start, start.ents.len()).ents,
        crate::world::names_view(final(log)@) == remove_upto(start, start.ents.len()).log,
{
    let n = ents.len();
    let mut i: usize = 0;
    while i < n
        invariant
            0 <= i <= n,
            n == start.ents.len(),
            start.wf(),
            player == start.player,
            crate::world::names_view(names@) == start.names,
            ents@ == remove_upto(start, i as nat).ents,
            crate::world::names_view(log@) == remove_upto(start, i as nat).log,
        decreases n - i,
    {
        proof { lemma_remove_upto_shape(start, i as nat); }
        let ghost before = remove_upto(start, i as nat);
        let e = ents[i];
        if e.alive {
            if let Some(item) = e.wants_to_remove {
                proof { assert(refs_in(before.ents[i as int], n as int)); }
                let it = ents[item];
                let it2 = Ent { equipped: None, in_backpack: Some(InBackpack { owner: i }), ..it };
                proof { reveal(unequipped_to); assert(it2 == unequipped_to(it, i)); }
                ents.set(item, it2);
                let c = ents[i];
                let c2 = Ent { equipment_changed: true, ..c };
                proof { reveal(marked_changed); assert(c2 == marked_changed(c)); }
                ents.set(i, c2);
                if i == player {
                    let msg = message("You remove the ", &names[item]);
                    let ghost old_log = log@;
                    log.push(msg);
                    proof { lemma_names_view_push(old_log, msg); }
                }
            }
        }
        proof {
            assert(ents@ =~= remove_step(before, i as int).ents);
        }
        i = i + 1;
    }
}

fn make_without_drop(e: Ent) -> (r: Ent)
    ensures
        r == without_drop(e),
{
    proof { reveal(without_drop); }
    Ent { wants_to_drop: None, ..e }
}

fn clear_drop_requests(ents: &mut Vec<Ent>)
    ensures
        final(ents)@ == old(ents)@.map_values(|e: Ent| without_drop(e)),
{
    let ghost mid = ents@;
    let n = ents.len();
    let mut j: usize = 0;
    while j < n
        invariant
            0 <= j <= n,
            n == mid.len(),
            ents@.len() == n,
            forall|k: int| 0 <= k < j ==> #[trigger] ents@[k] == without_drop(mid[k]),
            forall|k: int| j <= k < n ==> #[trigger] ents@[k] == mid[k],
        decreases n - j,
    {
        let e = ents[j];
        let cleared = make_without_drop(e);
        ents.set(j, cleared);
        j = j + 1;
    }
    assert(ents@ =~= mid.map_values(|e: Ent| without_drop(e)));
}

fn make_without_remove(e: Ent) -> (r: Ent)
    ensures
        r == without_remove(e),
{
    proof { reveal(without_remove); }
    Ent { wants_to_remove: None, ..e }
}

fn clear_remove_requests(ents: &mut Vec<Ent>)
    ensures
        final(ents)@ == old(ents)@.map_values(|e: Ent| without_remove(e)),
{
    let ghost mid = ents@;
    let n = ents.len();
    let mut j: usize = 0;
    while j < n
        invariant
            0 <= j <= n,
            n == mid.len(),
            ents@.len() == n,
            forall|k: int| 0 <= k < j ==> #[trigger] ents@[k] == without_remove(mid[k]),
            forall|k: int| j <= k < n ==> #[trigger] ents@[k] == mid[k],
        decreases n - j,
    {
        let e = ents[j];
        let cleared = make_without_remove(e);
        ents.set(j, cleared);
        j = j + 1;
    }
    assert(ents@ =~= mid.map_values(|e: Ent| without_remove(e)));
}

pub struct ItemDropSystem {}

impl ItemDropSystem {
    pub fn run(&mut self, w: &mut World)
        requires
            old(w).wf(),
            drops_ok(old(w).view()),
        ensures
            final(w).wf(),
            final(w).view() == spec_item_drop(old(w).view()),
    {
        let ghost start = w.view();
        proof { lemma_drop_upto_shape(start, start.ents.len()); }
        run_drops(&mut w.ents, &w.names, &mut w.log.entries, w.player, Ghost(start));
        clear_drop_requests(&mut w.ents);
        proof {
            let mid = drop_upto(start, start.ents.len());
            assert(w.view().ents =~= spec_item_drop(start).ents);
            assert forall|k: int| 0 <= k < w.ents@.len() implies #[trigger] refs_in(w.ents@[k], w.ents@.len() as int) by {
                assert(refs_in(mid.ents[k], mid.ents.len() as int));
                reveal(without_drop);
            }
            assert(w.view() == spec_item_drop(start));
        }
    }
}

pub struct ItemRemoveSystem {}

impl ItemRemoveSystem {
    pub fn run(&mut self, w: &mut World)
        requires
            old(w).wf(),
            removes_ok(old(w).view()),
        ensures
            final(w).wf(),
            final(w).view() == spec_item_remove(old(w).view()),
    {
        let ghost start = w.view();
        proof { lemma_remove_upto_shape(start, start.ents.len()); }
        run_removes(&mut w.ents, &w.names, &mut w.log.entries, w.player, Ghost(start));
        clear_remove_requests(&mut w.ents);
        proof {
            let mid = remove_upto(start, start.ents.len());
            assert(w.view().ents =~= spec_item_remove(start).ents);
            assert forall|k: int| 0 <= k < w.ents@.len() implies #[trigger] refs_in(w.ents@[k], w.ents@.len() as int) by {
                assert(refs_in(mid.ents[k], mid.ents.len() as int));
                reveal(without_remove);
            }
            assert(w.view() == spec_item_remove(start));
        }
    }
}

// ----- what a drop undoes -----

/// With `c` the only entity asking to pick something up, the requests before `c`'s do
/// nothing and those after it find nothing to do.
proof fn lemma_pickup_single(w: WorldView, c: int, n: nat)
    requires
        w.wf(),
        0 <= c < w.ents.len(),
        n <= w.ents.len(),
        w.ents[c].wants_to_pickup matches Some(p) && p.item != c && p.collected_by == c,
        forall|k: int| 0 <= k < w.ents.len() && k != c ==> (#[trigger] w.ents[k]).wants_to_pickup is None,
    ensures
        pickup_upto(w, n) == if n <= c { w } else { pickup_step(w, c) },
    decreases n,
{
    reveal(stowed);
    reveal(marked_changed);
    if n > 0 {
        lemma_pickup_single(w, c, (n - 1) as nat);
        let k = n - 1;
        if k > c {
            assert(refs_in(w.ents[c], w.ents.len() as int));
            let v = pickup_step(w, c);
            assert(v.ents[k].wants_to_pickup is None);
        }
    }
}

/// With `c` the only entity asking to drop something, the requests before `c`'s do
/// nothing and those after it find nothing to do.
proof fn lemma_drop_single(w: WorldView, c: int, n: nat)
    requires
        w.wf(),
        0 <= c < w.ents.len(),
        n <= w.ents.len(),
        w.ents[c].wants_to_drop matches Some(it) && it != c,
        forall|k: int| 0 <= k < w.ents.len() && k != c ==> (#[trigger] w.ents[k]).wants_to_drop is None,
    ensures
        drop_upto(w, n) == if n <= c { w } else { drop_step(w, c) },
    decreases n,
{
    reveal(dropped_at);
    reveal(marked_changed);
    if n > 0 {
        lemma_drop_single(w, c, (n - 1) as nat);
        let k = n - 1;
        if k > c {
            assert(refs_in(w.ents[c], w.ents.len() as int));
            let v = drop_step(w, c);
            assert(v.ents[k].wants_to_drop is None);
        }
    }
}

/// An item that creature `c` picks up and then drops again, without having moved, lies
/// where it lay before and is in no backpack; in between it is in `c`'s backpack and
/// off the map.
pub proof fn law_drop_undoes_pickup(w: WorldView, c: Entity, it: Entity)
    requires
        w.wf(),
        c < w.ents.len(),
        it < w.ents.len(),
        c != it,
        w.ents[c as int].alive,
        w.ents[c as int].wants_to_pickup == Some(crate::world::WantsToPickupItem { collected_by: c, item: it }),
        forall|k: int| 0 <= k < w.ents.len() && k != c ==> (#[trigger] w.ents[k]).wants_to_pickup is None,
        forall|k: int| 0 <= k < w.ents.len() ==> (#[trigger] w.ents[k]).wants_to_drop is None,
        w.ents[c as int].position == w.ents[it as int].position,
    ensures
        spec_item_collection(w).ents[it as int].position is None,
        spec_item_collection(w).ents[it as int].in_backpack == Some(InBackpack { owner: c }),
        ({
            let w1 = spec_item_collection(w);
            let w2 = WorldView { ents: w1.ents.update(c as int, Ent { wants_to_drop: Some(it), ..w1.ents[c as int] }), ..w1 };
            let w3 = spec_item_drop(w2);
            &&& w3.ents[it as int].position == w.ents[it as int].position
            &&& w3.ents[it as int].in_backpack is None
        }),
{
    let n = w.ents.len();
    let w1 = spec_item_collection(w);
    lemma_collect_one(w, c, it);
    let w2 = WorldView { ents: w1.ents.update(c as int, Ent { wants_to_drop: Some(it), ..w1.ents[c as int] }), ..w1 };
    assert(w2.wf()) by {
        assert forall|k: int| 0 <= k < w2.ents.len() implies #[trigger] refs_in(w2.ents[k], w2.ents.len() as int) by {
            assert(refs_in(w1.ents[k], w1.ents.len() as int));
        }
    }
    assert forall|k: int| 0 <= k < w2.ents.len() && k != c implies (#[trigger] w2.ents[k]).wants_to_drop is None by {
        assert(w1.ents[k].wants_to_drop == w.ents[k].wants_to_drop);
    }
    lemma_drop_one(w2, c, it);
}

/// What dropping does when `c`, dropping `it`, is the only one dropping.
proof fn lemma_drop_one(w: WorldView, c: Entity, it: Entity)
    requires
        w.wf(),
        c < w.ents.len(),
        it < w.ents.len(),
        c != it,
        w.ents[c as int].alive,
        w.ents[c as int].wants_to_drop == Some(it),
        forall|k: int| 0 <= k < w.ents.len() && k != c ==> (#[trigger] w.ents[k]).wants_to_drop is None,
    ensures
        spec_item_drop(w).ents[it as int].in_backpack is None,
        spec_item_drop(w).ents[it as int].position
            == if w.ents[c as int].position is Some { w.ents[c as int].position } else { w.ents[it as int].position },
{
    let n = w.ents.len();
    lemma_drop_single(w, c as int, n);
    let ds = drop_step(w, c as int);
    assert(drop_upto(w, n) == ds);
    let e = w.ents[c as int];
    assert(ds.ents[it as int] == dropped_at(w.ents[it as int], e.position));
    assert(ds.ents.len() == w.ents.len());
    let v = spec_item_drop(w);
    assert(v.ents == ds.ents.map_values(|x: Ent| without_drop(x)));
    let r = v.ents[it as int];
    assert(r == without_drop(ds.ents[it as int]));
    lemma_dropped_fields(w.ents[it as int], e.position);
}

proof fn lemma_dropped_fields(x: Ent, pos: Option<Position>)
    ensures
        without_drop(dropped_at(x, pos)).in_backpack is None,
        without_drop(dropped_at(x, pos)).position == if pos is Some { pos } else { x.position },
{
    reveal(without_drop);
    reveal(dropped_at);
}

/// What collecting does when `c`, asking for `it`, is the only one asking.
proof fn lemma_collect_one(w: WorldView, c: Entity, it: Entity)
    requires
        w.wf(),
        c < w.ents.len(),
        it < w.ents.len(),
        c != it,
        w.ents[c as int].alive,
        w.ents[c as int].wants_to_pickup == Some(crate::world::WantsToPickupItem { collected_by: c, item: it }),
        forall|k: int| 0 <= k < w.ents.len() && k != c ==> (#[trigger] w.ents[k]).wants_to_pickup is None,
    ensures
        spec_item_collection(w).wf(),
        spec_item_collection(w).ents.len() == w.ents.len(),
        spec_item_collection(w).ents[it as int].position is None,
        spec_item_collection(w).ents[it as int].in_backpack == Some(InBackpack { owner: c }),
        spec_item_collection(w).ents[c as int].position == w.ents[c as int].position,
        spec_item_collection(w).ents[c as int].alive,
        forall|k: int| 0 <= k < w.ents.len() ==> (#[trigger] spec_item_collection(w).ents[k]).wants_to_drop == w.ents[k].wants_to_drop,
{
    let n = w.ents.len();
    lemma_pickup_single(w, c as int, n);
    lemma_pickup_upto_shape(w, n);
    let mid = pickup_upto(w, n);
    let w1 = spec_item_collection(w);
    assert(mid == pickup_step(w, c as int));
    assert(mid.ents[it as int] == stowed(w.ents[it as int], c));
    assert(mid.ents[c as int] == marked_changed(w.ents[c as int]));
    reveal(stowed);
    reveal(marked_changed);
    reveal(without_pickup);
    assert forall|k: int| 0 <= k < w1.ents.len() implies #[trigger] refs_in(w1.ents[k], w1.ents.len() as int) by {
        assert(refs_in(mid.ents[k], mid.ents.len() as int));
    }
    assert forall|k: int| 0 <= k < w.ents.len() implies (#[trigger] w1.ents[k]).wants_to_drop == w.ents[k].wants_to_drop by {
        assert(w1.ents[k] == without_pickup(mid.ents[k]));
    }
}
} // verus!
