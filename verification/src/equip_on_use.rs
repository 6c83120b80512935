//! Using an equippable item puts it on, unless a cursed item already fills its slot.

use vstd::prelude::*;
use crate::components::{EquipmentSlot, Equipped, Entity, InBackpack};
use crate::inventory_system::unequipped_to;
use crate::item_use_system::{refs_ok, worn_by};
use crate::logger::{LogStore, Logger, NamedColor};
use crate::world::{Ent, World, WorldView, journal_view, lemma_journal_push, lemma_update_keeps_refs, names_view, refs_in};

verus! {

pub open spec fn cursed_entry(name: Seq<char>) -> Seq<(NamedColor, Seq<char>)> {
    seq![(NamedColor::White, "You cannot unequip"@), (NamedColor::Cyan, name), (NamedColor::White, "- it is cursed"@)]
}

pub open spec fn unequip_entry(name: Seq<char>) -> Seq<(NamedColor, Seq<char>)> {
    seq![(NamedColor::White, "You unequip"@), (NamedColor::Cyan, name)]
}

pub open spec fn equip_entry(name: Seq<char>) -> Seq<(NamedColor, Seq<char>)> {
    seq![(NamedColor::White, "You equip"@), (NamedColor::Cyan, name)]
}

/// What `target` wears in `slot` among the first `n` entities: whether all of it can
/// come off (nothing is cursed), what will come off, and the journal with the notices.
pub open spec fn slot_scan(w: WorldView, target: Entity, slot: EquipmentSlot, n: nat)
    -> (bool, Seq<Entity>, Seq<Seq<(NamedColor, Seq<char>)>>)
    decreases n,
{
    if n == 0 {
        (true, Seq::empty(), w.journal)
    } else {
        let (ok, off, j) = slot_scan(w, target, slot, (n - 1) as nat);
        let e = w.ents[n - 1];
        if e.alive && e.has_name && (e.equipped matches Some(q) && q.owner == target && q.slot == slot) {
            if e.cursed {
                (false, off, j.push(cursed_entry(w.names[n - 1])))
            } else {
                (ok, off.push((n - 1) as Entity), if target == w.player { j.push(unequip_entry(w.names[n - 1])) } else { j })
            }
        } else {
            (ok, off, j)
        }
    }
}

/// Takes off the first `n` items of `off`, into `target`'s backpack.
pub open spec fn take_off(ents: Seq<Ent>, off: Seq<Entity>, target: Entity, n: nat) -> Seq<Ent>
    decreases n,
{
    if n == 0 {
        ents
    } else {
        let prev = take_off(ents, off, target, (n - 1) as nat);
        prev.update(off[n - 1] as int, unequipped_to(prev[off[n - 1] as int], target))
    }
}

#[verifier::opaque]
pub open spec fn learns_item(e: Ent, item: Entity) -> Ent {
    Ent { identified_item: Some(item), ..e }
}

/// Entity `i` puts on the equippable item it asked to use, if nothing cursed is in the way.
pub open spec fn equip_use_step(w: WorldView, i: int) -> WorldView {
    let e = w.ents[i];
    if e.alive && e.wants_to_use is Some && w.ents[e.wants_to_use->0.item as int].equippable is Some {
        let it = e.wants_to_use->0.item;
        let slot = w.ents[it as int].equippable->0.slot;
        let (ok, off, j) = slot_scan(w, i as Entity, slot, w.ents.len());
        if ok {
            let ents1 = if i == w.player { w.ents.update(i, learns_item(w.ents[i], it)) } else { w.ents };
            let ents2 = take_off(ents1, off, i as Entity, off.len());
            let ents3 = ents2.update(it as int, worn_by(ents2[it as int], i as Entity, slot));
            WorldView {
                ents: ents3,
                journal: if i == w.player { j.push(equip_entry(w.names[it as int])) } else { j },
                ..w
            }
        } else {
            WorldView { journal: j, ..w }
        }
    } else {
        w
    }
}

pub open spec fn equip_use_upto(w: WorldView, n: nat) -> WorldView
    decreases n,
{
    if n == 0 { w } else { equip_use_step(equip_use_upto(w, (n - 1) as nat), n - 1) }
}

#[verifier::opaque]
pub open spec fn done_with_use(e: Ent) -> Ent {
    Ent { equipment_changed: true, wants_to_use: None, ..e }
}

/// An entity whose use request was for an equippable item is done with it.
pub open spec fn finish_equip_use(ents: Seq<Ent>, e: Ent) -> Ent {
    if e.alive && e.wants_to_use is Some && 0 <= e.wants_to_use->0.item < ents.len()
        && ents[e.wants_to_use->0.item as int].equippable is Some {
        done_with_use(e)
    } else {
        e
    }
}

/// The world after every creature that asked to use an equippable item has put it
/// on (or been stopped by a cursed item), in entity order; those requests are then
/// cleared and the users' equipment marked as changed. Other use requests remain.
pub open spec fn spec_equip_on_use(w: WorldView) -> WorldView {
    let v = equip_use_upto(w, w.ents.len());
    WorldView { ents: Seq::new(v.ents.len(), |k: int| finish_equip_use(v.ents, v.ents[k])), ..v }
}

proof fn lemma_scan_bounds(w: WorldView, target: Entity, slot: EquipmentSlot, n: nat)
    requires
        n <= w.ents.len(),
        n <= usize::MAX,
    ensures
        forall|k: int| 0 <= k < slot_scan(w, target, slot, n).1.len() ==> #[trigger] slot_scan(w, target, slot, n).1[k] < n,
    decreases n,
{
    if n > 0 {
        lemma_scan_bounds(w, target, slot, (n - 1) as nat);
        let prev = slot_scan(w, target, slot, (n - 1) as nat);
        let cur = slot_scan(w, target, slot, n);
        assert forall|k: int| 0 <= k < cur.1.len() implies #[trigger] cur.1[k] < n by {
            if k < prev.1.len() {
                assert(cur.1[k] == prev.1[k]);
            }
        }
    }
}

fn log_entry(store: &mut LogStore, l: Logger)
    ensures
        journal_view(final(store).entries@) == journal_view(old(store).entries@).push(l.gathered()),
{
    let ghost before = store.entries@;
    l.log(store);
    proof { lemma_journal_push(before, store.entries@); }
}

fn scan_slot(ents: &Vec<Ent>, names: &Vec<String>, journal: &mut LogStore, player: Entity, target: Entity, slot: EquipmentSlot, Ghost(w): Ghost<WorldView>)
    -> (r: (bool, Vec<Entity>))
    requires
        ents@ == w.ents,
        names_view(names@) == w.names,
        names@.len() == w.ents.len(),
        journal_view(old(journal).entries@) == w.journal,
        player == w.player,
    ensures
        r.0 == slot_scan(w, target, slot, w.ents.len()).0,
        r.1@ == slot_scan(w, target, slot, w.ents.len()).1,
        journal_view(final(journal).entries@) == slot_scan(w, target, slot, w.ents.len()).2,
{
    let mut ok = true;
    let mut off: Vec<Entity> = Vec::new();
    let n = ents.len();
    let mut k: usize = 0;
    while k < n
        invariant
            k <= n,
            n == w.ents.len(),
            ents@ == w.ents,
            names_view(names@) == w.names,
            names@.len() == n,
            player == w.player,
            ok == slot_scan(w, target, slot, k as nat).0,
            off@ == slot_scan(w, target, slot, k as nat).1,
            journal_view(journal.entries@) == slot_scan(w, target, slot, k as nat).2,
        decreases n - k,
    {
        let e = ents[k];
        let mut hit = false;
        if e.alive && e.has_name {
            if let Some(q) = e.equipped {
                hit = q.owner == target && q.slot == slot;
            }
        }
        if hit {
            proof { assert(names@[k as int]@ == w.names[k as int]); }
            if e.cursed {
                ok = false;
                let l = Logger::new().append("You cannot unequip").item_name(names[k].as_str()).color(NamedColor::White).append("- it is cursed");
                proof { assert(l.gathered() =~= cursed_entry(w.names[k as int])); }
                log_entry(journal, l);
            } else {
                off.push(k);
                if target == player {
                    let l = Logger::new().append("You unequip").item_name(names[k].as_str());
                    proof { assert(l.gathered() =~= unequip_entry(w.names[k as int])); }
                    log_entry(journal, l);
                }
            }
        }
        k = k + 1;
    }
    (ok, off)
}

proof fn lemma_take_off_refs(ents: Seq<Ent>, off: Seq<Entity>, target: Entity, n: nat)
    requires
        n <= off.len(),
        refs_ok(ents),
        target < ents.len(),
        forall|k: int| 0 <= k < off.len() ==> #[trigger] off[k] < ents.len(),
    ensures
        refs_ok(take_off(ents, off, target, n)),
        take_off(ents, off, target, n).len() == ents.len(),
    decreases n,
{
    if n > 0 {
        lemma_take_off_refs(ents, off, target, (n - 1) as nat);
        let prev = take_off(ents, off, target, (n - 1) as nat);
        let k = off[n - 1] as int;
        assert(refs_in(prev[k], prev.len() as int));
        reveal(unequipped_to);
        lemma_update_keeps_refs(prev, k, unequipped_to(prev[k], target));
    }
}

fn equip_use(ents: &mut Vec<Ent>, names: &Vec<String>, journal: &mut LogStore, player: Entity, i: usize, Ghost(w): Ghost<WorldView>)
    requires
        w.wf(),
        i < w.ents.len(),
        old(ents)@ == w.ents,
        names_view(names@) == w.names,
        journal_view(old(journal).entries@) == w.journal,
        player == w.player,
    ensures
        final(ents)@ == equip_use_step(w, i as int).ents,
        journal_view(final(journal).entries@) == equip_use_step(w, i as int).journal,
        refs_ok(final(ents)@),
        final(ents)@.len() == old(ents)@.len(),
{
    let _len = ents.len();
    let e = ents[i];
    proof { assert(refs_in(w.ents[i as int], w.ents.len() as int)); }
    if !e.alive {
        return;
    }
    let u = match e.wants_to_use {
        Some(u) => u,
        None => { return; },
    };
    let it = u.item;
    let eq = match ents[it].equippable {
        Some(eq) => eq,
        None => { return; },
    };
    let (ok, off) = scan_slot(ents, names, journal, player, i, eq.slot, Ghost(w));
    if !ok {
        return;
    }
    proof { lemma_scan_bounds(w, i as Entity, eq.slot, w.ents.len()); }
    if i == player {
        let e2 = Ent { identified_item: Some(it), ..e };
        proof {
            reveal(learns_item);
            assert(e2 == learns_item(e, it));
            lemma_update_keeps_refs(ents@, i as int, e2);
        }
        ents.set(i, e2);
    }
    let ghost ents1 = ents@;
    let mut k: usize = 0;
    while k < off.len()
        invariant
            k <= off@.len(),
            ents1.len() == w.ents.len(),
            refs_ok(ents1),
            i < w.ents.len(),
            forall|m: int| 0 <= m < off@.len() ==> #[trigger] off@[m] < w.ents.len(),
            ents@ == take_off(ents1, off@, i as Entity, k as nat),
        decreases off@.len() - k,
    {
        proof { lemma_take_off_refs(ents1, off@, i as Entity, k as nat); }
        let m = off[k];
        let x = ents[m];
        let x2 = Ent { equipped: None, in_backpack: Some(InBackpack { owner: i }), ..x };
        proof { reveal(unequipped_to); assert(x2 == unequipped_to(x, i)); }
        ents.set(m, x2);
        k = k + 1;
    }
    proof { lemma_take_off_refs(ents1, off@, i as Entity, off@.len()); }
    let x = ents[it];
    let x2 = Ent { equipped: Some(Equipped { owner: i, slot: eq.slot }), in_backpack: None, ..x };
    proof {
        reveal(worn_by);
        assert(x2 == worn_by(x, i, eq.slot));
        assert(refs_in(x, ents@.len() as int));
        lemma_update_keeps_refs(ents@, it as int, x2);
    }
    ents.set(it, x2);
    if i == player {
        proof { assert(names@[it as int]@ == w.names[it as int]); }
        let l = Logger::new().append("You equip").item_name(names[it].as_str());
        proof { assert(l.gathered() =~= equip_entry(w.names[it as int])); }
        log_entry(journal, l);
    }
}

proof fn lemma_equip_use_frame(w: WorldView, n: nat)
    ensures
        equip_use_upto(w, n) == (WorldView { ents: equip_use_upto(w, n).ents, journal: equip_use_upto(w, n).journal, ..w }),
    decreases n,
{
    if n > 0 {
        lemma_equip_use_frame(w, (n - 1) as nat);
    }
}

fn finish_uses(ents: &mut Vec<Ent>)
    requires
        refs_ok(old(ents)@),
    ensures
        final(ents)@ == Seq::new(old(ents)@.len(), |k: int| finish_equip_use(old(ents)@, old(ents)@[k])),
        refs_ok(final(ents)@),
{
    let ghost mid = ents@;
    let n = ents.len();
    let mut j: usize = 0;
    while j < n
        invariant
            0 <= j <= n,
            n == mid.len(),
            ents@.len() == n,
            refs_ok(mid),
            forall|k: int| 0 <= k < j ==> #[trigger] ents@[k] == finish_equip_use(mid, mid[k]),
            forall|k: int| j <= k < n ==> #[trigger] ents@[k] == mid[k],
            forall|k: int| 0 <= k < n ==> #[trigger] ents@[k].equippable == mid[k].equippable,
        decreases n - j,
    {
        let e = ents[j];
        proof { assert(refs_in(mid[j as int], n as int)); }
        let mut finished = false;
        if e.alive {
            if let Some(u) = e.wants_to_use {
                finished = ents[u.item].equippable.is_some();
            }
        }
        if finished {
            let e2 = Ent { equipment_changed: true, wants_to_use: None, ..e };
            proof { reveal(done_with_use); assert(e2 == done_with_use(e)); }
            ents.set(j, e2);
        }
        proof {
            reveal(done_with_use);
            assert(ents@[j as int] == finish_equip_use(mid, mid[j as int]));
        }
        j = j + 1;
    }
    proof {
        assert(ents@ =~= Seq::new(mid.len(), |k: int| finish_equip_use(mid, mid[k])));
        assert forall|k: int| 0 <= k < n implies #[trigger] refs_in(ents@[k], n as int) by {
            assert(refs_in(mid[k], n as int));
            reveal(done_with_use);
        }
    }
}

pub struct ItemEquipOnUse {}

impl ItemEquipOnUse {
    pub fn run(&mut self, w: &mut World)
        requires
            old(w).wf(),
        ensures
            final(w).wf(),
            final(w).view() == spec_equip_on_use(old(w).view()),
    {
        let ghost start = w.view();
        let n = w.ents.len();
        let mut i: usize = 0;
        while i < n
            invariant
                0 <= i <= n,
                n == start.ents.len(),
                w.wf(),
                w.ents@.len() == n,
                w.view() == equip_use_upto(start, i as nat),
            decreases n - i,
        {
            let ghost before = w.view();
            equip_use(&mut w.ents, &w.names, &mut w.journal, w.player, i, Ghost(before));
            proof {
                lemma_equip_use_frame(start, (i + 1) as nat);
                assert(w.view() == equip_use_upto(start, (i + 1) as nat));
            }
            i = i + 1;
        }
        let ghost mid = w.view();
        finish_uses(&mut w.ents);
        proof {
            assert(w.view().ents =~= spec_equip_on_use(start).ents);
            assert(w.view() == spec_equip_on_use(start));
        }
    }
}

} // verus!
