//! The item pickers: which of the player's items each one lists, and the item a key
//! picks from that list.

use vstd::prelude::*;
use crate::components::Entity;
use crate::keys::Key;
use crate::menus::{ItemMenuResult, item_menu_choice, spec_item_menu};
use crate::world::{World, WorldView};

verus! {

/// The lists the pickers show.
#[derive(Clone, Copy, Debug, PartialEq, Eq, Structural)]
pub enum MenuKind {
    /// What the player carries.
    Backpack,
    /// What the player wears or wields.
    Equipped,
    /// Cursed items the player knows to be cursed.
    Cursed,
    /// The player's items whose kind is still unknown.
    Unidentified,
}

/// Whether the player has identified the item kind named `name`.
pub open spec fn is_identified(w: WorldView, name: Seq<char>) -> bool {
    w.identified.contains(name)
}

/// Whether picker `kind` lists entity `k`.
pub open spec fn menu_keeps(w: WorldView, kind: MenuKind, k: int) -> bool {
    let e = w.ents[k];
    let carried = e.in_backpack matches Some(b) && b.owner == w.player;
    let worn = e.equipped matches Some(q) && q.owner == w.player;
    e.alive && match kind {
        MenuKind::Backpack => carried,
        MenuKind::Equipped => worn,
        // A worn cursed item is known to be cursed; a carried one once its kind is known.
        MenuKind::Cursed => e.item && e.cursed && if e.equipped is Some {
            worn
        } else {
            carried && e.has_name && is_identified(w, w.names[k])
        },
        MenuKind::Unidentified => e.item && (carried || worn) && e.has_name && e.obfuscated_name
            && !is_identified(w, w.names[k]),
    }
}

/// The entities among the first `n` that picker `kind` lists, in entity order.
pub open spec fn menu_items(w: WorldView, kind: MenuKind, n: nat) -> Seq<Entity>
    decreases n,
{
    if n == 0 {
        Seq::empty()
    } else {
        let prev = menu_items(w, kind, (n - 1) as nat);
        if menu_keeps(w, kind, n - 1) { prev.push((n - 1) as Entity) } else { prev }
    }
}

pub open spec fn spec_menu_list(w: WorldView, kind: MenuKind) -> Seq<Entity> {
    menu_items(w, kind, w.ents.len())
}

fn identified_has(w: &World, k: usize) -> (b: bool)
    requires
        w.wf(),
        k < w.view().ents.len(),
    ensures
        b == is_identified(w.view(), w.view().names[k as int]),
{
    let ghost v = w.view();
    let mut j: usize = 0;
    proof { assert(v.names[k as int] == w.names@[k as int]@); }
    while j < w.identified.len()
        invariant
            j <= w.identified@.len(),
            v == w.view(),
            k < v.names.len(),
            v.names[k as int] == w.names@[k as int]@,
            forall|i: int| 0 <= i < j ==> #[trigger] v.identified[i] != v.names[k as int],
        decreases w.identified@.len() - j,
    {
        if w.identified[j].eq(&w.names[k]) {
            proof { assert(v.identified[j as int] == w.identified@[j as int]@); }
            return true;
        }
        proof { assert(v.identified[j as int] == w.identified@[j as int]@); }
        j = j + 1;
    }
    proof {
        if v.identified.contains(v.names[k as int]) {
            let i = choose|i: int| 0 <= i < v.identified.len() && v.identified[i] == v.names[k as int];
            assert(v.identified[i] != v.names[k as int]);
        }
    }
    false
}

fn keeps(w: &World, kind: MenuKind, k: usize) -> (b: bool)
    requires
        w.wf(),
        k < w.view().ents.len(),
    ensures
        b == menu_keeps(w.view(), kind, k as int),
{
    let e = w.ents[k];
    let carried = match e.in_backpack {
        Some(b) => b.owner == w.player,
        None => false,
    };
    let worn = match e.equipped {
        Some(q) => q.owner == w.player,
        None => false,
    };
    if !e.alive {
        return false;
    }
    match kind {
        MenuKind::Backpack => carried,
        MenuKind::Equipped => worn,
        MenuKind::Cursed => e.item && e.cursed && if e.equipped.is_some() {
            worn
        } else {
            carried && e.has_name && identified_has(w, k)
        },
        MenuKind::Unidentified => e.item && (carried || worn) && e.has_name && e.obfuscated_name
            && !identified_has(w, k),
    }
}

/// The items picker `kind` lists, in entity order.
pub fn menu_list(w: &World, kind: MenuKind) -> (r: Vec<Entity>)
    requires
        w.wf(),
    ensures
        r@ == spec_menu_list(w.view(), kind),
{
    let mut r: Vec<Entity> = Vec::new();
    let n = w.ents.len();
    let mut k: usize = 0;
    while k < n
        invariant
            k <= n,
            n == w.view().ents.len(),
            w.wf(),
            r@ == menu_items(w.view(), kind, k as nat),
        decreases n - k,
    {
        if keeps(w, kind, k) {
            r.push(k);
        }
        k = k + 1;
    }
    r
}

/// The inventory: picks one of the items the player carries.
pub fn show_inventory(w: &World, key: Option<Key>) -> (r: (ItemMenuResult, Option<Entity>))
    requires
        w.wf(),
    ensures
        r == spec_item_menu(spec_menu_list(w.view(), MenuKind::Backpack), key),
{
    item_menu_choice(&menu_list(w, MenuKind::Backpack), key)
}

/// Picks a carried item to drop.
pub fn drop_item_menu(w: &World, key: Option<Key>) -> (r: (ItemMenuResult, Option<Entity>))
    requires
        w.wf(),
    ensures
        r == spec_item_menu(spec_menu_list(w.view(), MenuKind::Backpack), key),
{
    item_menu_choice(&menu_list(w, MenuKind::Backpack), key)
}

/// Picks a worn or wielded item to take off.
pub fn remove_item_menu(w: &World, key: Option<Key>) -> (r: (ItemMenuResult, Option<Entity>))
    requires
        w.wf(),
    ensures
        r == spec_item_menu(spec_menu_list(w.view(), MenuKind::Equipped), key),
{
    item_menu_choice(&menu_list(w, MenuKind::Equipped), key)
}

/// Picks a cursed item to lift the curse from.
pub fn remove_curse_menu(w: &World, key: Option<Key>) -> (r: (ItemMenuResult, Option<Entity>))
    requires
        w.wf(),
    ensures
        r == spec_item_menu(spec_menu_list(w.view(), MenuKind::Cursed), key),
{
    item_menu_choice(&menu_list(w, MenuKind::Cursed), key)
}

/// Picks an item of unknown kind to identify.
pub fn identify_menu(w: &World, key: Option<Key>) -> (r: (ItemMenuResult, Option<Entity>))
    requires
        w.wf(),
    ensures
        r == spec_item_menu(spec_menu_list(w.view(), MenuKind::Unidentified), key),
{
    item_menu_choice(&menu_list(w, MenuKind::Unidentified), key)
}

} // verus!
