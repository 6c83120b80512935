//! Learning what magic items are: once the player has used one, every item of its kind
//! shows its real name.

use vstd::prelude::*;
use crate::components::Entity;
use crate::world::{Ent, World, WorldView, lemma_names_view_push, names_view, refs_in};

verus! {

#[verifier::opaque]
pub open spec fn unmasked(e: Ent) -> Ent {
    Ent { obfuscated_name: false, ..e }
}

/// Every named item among the first `n` entities called `name` shows its real name.
pub open spec fn unmask_upto(w: WorldView, name: Seq<char>, n: nat) -> Seq<Ent>
    decreases n,
{
    if n == 0 {
        w.ents
    } else {
        let prev = unmask_upto(w, name, (n - 1) as nat);
        let e = w.ents[n - 1];
        if e.alive && e.item && e.has_name && w.names[n - 1] == name {
            prev.update(n - 1, unmasked(prev[n - 1]))
        } else {
            prev
        }
    }
}

/// The player entity `i`, if it has just learned an item, learns that item's kind when
/// the kind is magic (`magic[item]`) and not known yet.
pub open spec fn identify_step(w: WorldView, magic: Seq<bool>, i: int) -> WorldView {
    let e = w.ents[i];
    if e.alive && e.player && (e.identified_item matches Some(it) && !w.identified.contains(w.names[it as int]) && magic[it as int]) {
        let name = w.names[e.identified_item->0 as int];
        WorldView { identified: w.identified.push(name), ents: unmask_upto(w, name, w.ents.len()), ..w }
    } else {
        w
    }
}

pub open spec fn identify_upto(w: WorldView, magic: Seq<bool>, n: nat) -> WorldView
    decreases n,
{
    if n == 0 { w } else { identify_step(identify_upto(w, magic, (n - 1) as nat), magic, n - 1) }
}

#[verifier::opaque]
pub open spec fn forgets_learning(e: Ent) -> Ent {
    Ent { identified_item: None, ..e }
}

/// The world after each player entity, in entity order, learns the magic item kind it
/// has just used, and every record of a just-learned item is cleared.
pub open spec fn spec_item_identification(w: WorldView, magic: Seq<bool>) -> WorldView {
    let v = identify_upto(w, magic, w.ents.len());
    WorldView { ents: v.ents.map_values(|e: Ent| forgets_learning(e)), ..v }
}

proof fn lemma_unmask_shape(w: WorldView, name: Seq<char>, n: nat)
    requires
        n <= w.ents.len(),
    ensures
        unmask_upto(w, name, n).len() == w.ents.len(),
        forall|k: int| 0 <= k < w.ents.len() ==> #[trigger] unmask_upto(w, name, n)[k] == (
            if k < n && w.ents[k].alive && w.ents[k].item && w.ents[k].has_name && w.names[k] == name { unmasked(w.ents[k]) } else { w.ents[k] }),
    decreases n,
{
    if n > 0 {
        lemma_unmask_shape(w, name, (n - 1) as nat);
    }
}

proof fn lemma_identify_shape(w: WorldView, magic: Seq<bool>, n: nat)
    requires
        w.wf(),
    ensures
        identify_upto(w, magic, n) == (WorldView {
            ents: identify_upto(w, magic, n).ents,
            identified: identify_upto(w, magic, n).identified,
            ..w
        }),
        identify_upto(w, magic, n).wf(),
    decreases n,
{
    if n > 0 {
        lemma_identify_shape(w, magic, (n - 1) as nat);
        let v = identify_upto(w, magic, (n - 1) as nat);
        let e = v.ents[n - 1];
        if e.alive && e.player && (e.identified_item matches Some(it) && !v.identified.contains(v.names[it as int]) && magic[it as int]) {
            let name = v.names[e.identified_item->0 as int];
            lemma_unmask_shape(v, name, v.ents.len());
            let u = identify_step(v, magic, n - 1);
            assert forall|k: int| 0 <= k < u.ents.len() implies #[trigger] refs_in(u.ents[k], u.ents.len() as int) by {
                assert(refs_in(v.ents[k], v.ents.len() as int));
                reveal(unmasked);
            }
        }
    }
}

fn make_unmasked(e: Ent) -> (r: Ent)
    ensures
        r == unmasked(e),
{
    proof { reveal(unmasked); }
    Ent { obfuscated_name: false, ..e }
}

fn unmask_all(w: &mut World, it: Entity)
    requires
        old(w).wf(),
        it < old(w).view().ents.len(),
    ensures
        final(w).wf(),
        final(w).view() == (WorldView { ents: unmask_upto(old(w).view(), old(w).view().names[it as int], old(w).view().ents.len()), ..old(w).view() }),
{
    let ghost v = w.view();
    let ghost name = v.names[it as int];
    proof { assert(name == w.names@[it as int]@); lemma_unmask_shape(v, name, v.ents.len()); }
    let n = w.ents.len();
    let mut k: usize = 0;
    while k < n
        invariant
            k <= n,
            n == v.ents.len(),
            v.wf(),
            it < n,
            name == v.names[it as int],
            w.view() == (WorldView { ents: w.view().ents, ..v }),
            w.ents@.len() == n,
            forall|j: int| 0 <= j < n ==> #[trigger] w.ents@[j] == (
                if j < k && v.ents[j].alive && v.ents[j].item && v.ents[j].has_name && v.names[j] == name { unmasked(v.ents[j]) } else { v.ents[j] }),
        decreases n - k,
    {
        let e = w.ents[k];
        if e.alive && e.item && e.has_name && w.names[k].eq(&w.names[it]) {
            proof { assert(v.names[k as int] == w.names@[k as int]@); }
            let e2 = make_unmasked(e);
            w.ents.set(k, e2);
        } else {
            proof { assert(v.names[k as int] == w.names@[k as int]@); }
        }
        k = k + 1;
    }
    proof {
        assert(w.view().ents =~= unmask_upto(v, name, v.ents.len()));
        assert forall|j: int| 0 <= j < w.ents@.len() implies #[trigger] refs_in(w.ents@[j], w.ents@.len() as int) by {
            assert(refs_in(v.ents[j], v.ents.len() as int));
            reveal(unmasked);
        }
    }
}

fn is_known(w: &World, it: Entity) -> (b: bool)
    requires
        w.wf(),
        it < w.view().ents.len(),
    ensures
        b == w.view().identified.contains(w.view().names[it as int]),
{
    let ghost v = w.view();
    proof { assert(v.names[it as int] == w.names@[it as int]@); }
    let mut j: usize = 0;
    while j < w.identified.len()
        invariant
            j <= w.identified@.len(),
            v == w.view(),
            it < v.names.len(),
            v.names[it as int] == w.names@[it as int]@,
            forall|i: int| 0 <= i < j ==> #[trigger] v.identified[i] != v.names[it as int],
        decreases w.identified@.len() - j,
    {
        proof { assert(v.identified[j as int] == w.identified@[j as int]@); }
        if w.identified[j].eq(&w.names[it]) {
            return true;
        }
        j = j + 1;
    }
    proof {
        if v.identified.contains(v.names[it as int]) {
            let i = choose|i: int| 0 <= i < v.identified.len() && v.identified[i] == v.names[it as int];
            assert(v.identified[i] != v.names[it as int]);
        }
    }
    false
}

fn make_forgets(e: Ent) -> (r: Ent)
    ensures
        r == forgets_learning(e),
{
    proof { reveal(forgets_learning); }
    Ent { identified_item: None, ..e }
}

pub struct ItemIdentificationSystem {}

impl ItemIdentificationSystem {
    /// When the player has just used an item whose kind is magic (`magic[e]` tells, for
    /// each entity, whether its kind is) and not yet known, the kind becomes known and
    /// every item of that kind shows its real name. Then the records are cleared.
    pub fn run(&mut self, w: &mut World, magic: &Vec<bool>)
        requires
            old(w).wf(),
            magic@.len() == old(w).view().ents.len(),
        ensures
            final(w).wf(),
            final(w).view() == spec_item_identification(old(w).view(), magic@),
    {
        let ghost start = w.view();
        let n = w.ents.len();
        let mut i: usize = 0;
        while i < n
            invariant
                0 <= i <= n,
                n == start.ents.len(),
                magic@.len() == n,
                start.wf(),
                w.wf(),
                w.view() == identify_upto(start, magic@, i as nat),
            decreases n - i,
        {
            proof { lemma_identify_shape(start, magic@, i as nat); }
            let e = w.ents[i];
            if e.alive && e.player {
                if let Some(it) = e.identified_item {
                    proof { assert(refs_in(w.view().ents[i as int], n as int)); }
                    if !is_known(w, it) && magic[it] {
                        let name = w.names[it].clone();
                        unmask_all(w, it);
                        let ghost before = w.identified@;
                        w.identified.push(name);
                        proof { lemma_names_view_push(before, name); }
                    }
                }
            }
            i = i + 1;
        }
        let ghost mid = w.view();
        let n2 = w.ents.len();
        let mut j: usize = 0;
        while j < n2
            invariant
                0 <= j <= n2,
                n2 == mid.ents.len(),
                w.view() == (WorldView { ents: w.view().ents, ..mid }),
                w.ents@.len() == n2,
                forall|k: int| 0 <= k < j ==> #[trigger] w.ents@[k] == forgets_learning(mid.ents[k]),
                forall|k: int| j <= k < n2 ==> #[trigger] w.ents@[k] == mid.ents[k],
            decreases n2 - j,
        {
            let e = w.ents[j];
            let e2 = make_forgets(e);
            w.ents.set(j, e2);
            j = j + 1;
        }
        proof {
            assert(w.view().ents =~= mid.ents.map_values(|e: Ent| forgets_learning(e)));
            assert forall|k: int| 0 <= k < w.ents@.len() implies #[trigger] refs_in(w.ents@[k], w.ents@.len() as int) by {
                assert(refs_in(mid.ents[k], mid.ents.len() as int));
                reveal(forgets_learning);
            }
        }
    }
}

} // verus!
