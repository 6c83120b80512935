//! Sight: a creature whose view is out of date looks again; what the player sees is
//! revealed, and hidden things on those tiles may be spotted.

use vstd::prelude::*;
use rltk::RandomNumberGenerator;
use crate::components::Entity;
use crate::item_use_system::{contents_at, tile_contents};
use crate::map::spec_xy_idx;
use crate::rng::roll_dice;
use crate::world::{Ent, Point, Viewshed, World, WorldView, lemma_names_view_push, lemma_update_keeps_refs, refs_in};

verus! {

/// The first `n` points of `pts` that lie on a map `w` by `h`, in order.
pub open spec fn on_map_upto(pts: Seq<Point>, w: int, h: int, n: nat) -> Seq<Point>
    decreases n,
{
    if n == 0 {
        Seq::empty()
    } else {
        let prev = on_map_upto(pts, w, h, (n - 1) as nat);
        let p = pts[n - 1];
        if 0 <= p.x < w && 0 <= p.y < h { prev.push(p) } else { prev }
    }
}

pub open spec fn on_map(pts: Seq<Point>, w: int, h: int) -> Seq<Point> {
    on_map_upto(pts, w, h, pts.len())
}

pub open spec fn spotted_msg(name: Seq<char>) -> Seq<char> {
    "You spotted a "@ + name + "."@
}

#[verifier::opaque]
pub open spec fn unhidden(e: Ent) -> Ent {
    Ent { hidden: false, ..e }
}

#[verifier::opaque]
pub open spec fn looked(e: Ent) -> Ent {
    Ent { viewshed: Some(Viewshed { dirty: false, ..e.viewshed->0 }), ..e }
}

/// The hidden things among `cs[0..n]` that the player spots: `spot(j, c)` tells whether
/// entity `c`, hidden on the `j`th tile in view, is spotted (a d24 roll of 1).
pub open spec fn spot_upto(w: WorldView, spot: spec_fn(int, Entity) -> bool, j: int, cs: Seq<Entity>, n: nat) -> WorldView
    decreases n,
{
    if n == 0 {
        w
    } else {
        let v = spot_upto(w, spot, j, cs, (n - 1) as nat);
        let c = cs[n - 1];
        if v.ents[c as int].hidden && spot(j, c) {
            WorldView {
                log: if v.ents[c as int].has_name { v.log.push(spotted_msg(v.names[c as int])) } else { v.log },
                ents: v.ents.update(c as int, unhidden(v.ents[c as int])),
                ..v
            }
        } else {
            v
        }
    }
}

/// The player looks at `tiles[0..n]`: each is revealed and in view, and hidden things
/// there may be spotted.
pub open spec fn see_upto(w: WorldView, spot: spec_fn(int, Entity) -> bool, tiles: Seq<Point>, n: nat) -> WorldView
    decreases n,
{
    if n == 0 {
        w
    } else {
        let v = see_upto(w, spot, tiles, (n - 1) as nat);
        let p = tiles[n - 1];
        let idx = spec_xy_idx(v.map_width as int, p.x as int, p.y as int);
        let v1 = WorldView { revealed: v.revealed.update(idx, true), visible: v.visible.update(idx, true), ..v };
        let cs = tile_contents(v1, idx);
        spot_upto(v1, spot, n - 1, cs, cs.len())
    }
}

/// Whether entity `i` looks again this turn.
pub open spec fn looks(w: WorldView, i: int) -> bool {
    let e = w.ents[i];
    e.alive && e.position is Some && (e.viewshed matches Some(v) && v.dirty)
}

/// Entity `i` looks again, if its view is out of date: `fov` is what it can see from
/// where it stands; for the player, the map's view is replaced by it.
pub open spec fn sight_step(w: WorldView, fov: Seq<Seq<Point>>, spot: spec_fn(int, int, Entity) -> bool, i: int) -> WorldView {
    if !looks(w, i) {
        w
    } else {
        let w1 = WorldView { ents: w.ents.update(i, looked(w.ents[i])), ..w };
        if w.ents[i].player {
            let tiles = on_map(fov[i], w.map_width as int, w.map_height as int);
            let w2 = WorldView { visible: Seq::new(w.visible.len(), |k: int| false), ..w1 };
            see_upto(w2, |j: int, c: Entity| spot(i, j, c), tiles, tiles.len())
        } else {
            w1
        }
    }
}

pub open spec fn sight_upto(w: WorldView, fov: Seq<Seq<Point>>, spot: spec_fn(int, int, Entity) -> bool, n: nat) -> WorldView
    decreases n,
{
    if n == 0 { w } else { sight_step(sight_upto(w, fov, spot, (n - 1) as nat), fov, spot, n - 1) }
}

/// The fields of view as plain sequences.
pub open spec fn fov_view(fov: Seq<Vec<Point>>) -> Seq<Seq<Point>> {
    fov.map_values(|v: Vec<Point>| v@)
}

/// The world after every entity, in entity order, looks again where it must, with
/// `spot` deciding what the player spots.
pub open spec fn spec_sight(w: WorldView, fov: Seq<Seq<Point>>, spot: spec_fn(int, int, Entity) -> bool) -> WorldView {
    sight_upto(w, fov, spot, w.ents.len())
}

// ----- frames -----

/// `u` differs from `v` at most in the entities, the log and the map's revealed and
/// visible tiles, with lengths kept.
pub open spec fn sight_framed(v: WorldView, u: WorldView) -> bool {
    &&& u == (WorldView { ents: u.ents, log: u.log, revealed: u.revealed, visible: u.visible, ..v })
    &&& u.ents.len() == v.ents.len()
    &&& u.revealed.len() == v.revealed.len()
    &&& u.visible.len() == v.visible.len()
    &&& forall|k: int| 0 <= k < v.ents.len() ==> #[trigger] u.ents[k].position == v.ents[k].position
        && u.ents[k].alive == v.ents[k].alive && u.ents[k].pools == v.ents[k].pools
        && u.ents[k].player == v.ents[k].player && u.ents[k].viewshed == v.ents[k].viewshed
        && u.ents[k].has_name == v.ents[k].has_name
        && (refs_in(v.ents[k], v.ents.len() as int) ==> refs_in(u.ents[k], u.ents.len() as int))
}

pub(crate) proof fn lemma_spot_frame(w: WorldView, spot: spec_fn(int, Entity) -> bool, j: int, cs: Seq<Entity>, n: nat)
    requires
        forall|k: int| 0 <= k < cs.len() ==> #[trigger] cs[k] < w.ents.len(),
        n <= cs.len(),
    ensures
        sight_framed(w, spot_upto(w, spot, j, cs, n)),
        spot_upto(w, spot, j, cs, n).revealed == w.revealed,
        spot_upto(w, spot, j, cs, n).visible == w.visible,
    decreases n,
{
    reveal(unhidden);
    if n > 0 {
        lemma_spot_frame(w, spot, j, cs, (n - 1) as nat);
        let c = cs[n - 1];
        assert(c < w.ents.len());
    }
}

pub(crate) proof fn lemma_contents_below(ents: Seq<Ent>, w: int, h: int, idx: int, n: nat)
    requires
        n <= usize::MAX,
    ensures
        forall|k: int| 0 <= k < crate::item_use_system::contents_upto(ents, w, h, idx, n).len()
            ==> #[trigger] crate::item_use_system::contents_upto(ents, w, h, idx, n)[k] < n,
    decreases n,
{
    if n > 0 {
        lemma_contents_below(ents, w, h, idx, (n - 1) as nat);
        let prev = crate::item_use_system::contents_upto(ents, w, h, idx, (n - 1) as nat);
        let cur = crate::item_use_system::contents_upto(ents, w, h, idx, n);
        assert forall|k: int| 0 <= k < cur.len() implies #[trigger] cur[k] < n by {
            if k < prev.len() {
                assert(cur[k] == prev[k]);
            }
        }
    }
}

proof fn lemma_sight_framed_trans(a: WorldView, b: WorldView, c: WorldView)
    requires
        sight_framed(a, b),
        sight_framed(b, c),
    ensures
        sight_framed(a, c),
{
}

pub(crate) proof fn lemma_see_frame(w: WorldView, spot: spec_fn(int, Entity) -> bool, tiles: Seq<Point>, n: nat)
    requires
        n <= tiles.len(),
        forall|k: int| 0 <= k < tiles.len() ==> 0 <= #[trigger] tiles[k].x < w.map_width && 0 <= tiles[k].y < w.map_height,
        w.map_width > 0,
        w.revealed.len() == w.map_width * w.map_height,
        w.visible.len() == w.map_width * w.map_height,
        w.ents.len() <= usize::MAX,
    ensures
        sight_framed(w, see_upto(w, spot, tiles, n)),
    decreases n,
{
    if n > 0 {
        lemma_see_frame(w, spot, tiles, (n - 1) as nat);
        let v = see_upto(w, spot, tiles, (n - 1) as nat);
        let p = tiles[n - 1];
        let idx = spec_xy_idx(v.map_width as int, p.x as int, p.y as int);
        assert(0 <= idx < w.map_width * w.map_height) by (nonlinear_arith)
            requires idx == p.y * w.map_width + p.x, 0 <= p.x < w.map_width, 0 <= p.y < w.map_height, v.map_width == w.map_width;
        let v1 = WorldView { revealed: v.revealed.update(idx, true), visible: v.visible.update(idx, true), ..v };
        let cs = tile_contents(v1, idx);
        lemma_contents_below(v1.ents, v1.map_width as int, v1.map_height as int, idx, v1.ents.len());
        lemma_spot_frame(v1, spot, n - 1, cs, cs.len());
        lemma_sight_framed_trans(w, v, v1);
        lemma_sight_framed_trans(w, v1, see_upto(w, spot, tiles, n));
    }
}


// ----- what a look depends on -----

proof fn lemma_contents_increasing(ents: Seq<Ent>, w: int, h: int, idx: int, n: nat)
    requires
        n <= usize::MAX,
    ensures
        forall|a: int, b: int| 0 <= a < b < crate::item_use_system::contents_upto(ents, w, h, idx, n).len()
            ==> crate::item_use_system::contents_upto(ents, w, h, idx, n)[a] < crate::item_use_system::contents_upto(ents, w, h, idx, n)[b],
    decreases n,
{
    if n > 0 {
        lemma_contents_increasing(ents, w, h, idx, (n - 1) as nat);
        lemma_contents_below(ents, w, h, idx, (n - 1) as nat);
        let prev = crate::item_use_system::contents_upto(ents, w, h, idx, (n - 1) as nat);
        let cur = crate::item_use_system::contents_upto(ents, w, h, idx, n);
        assert forall|a: int, b: int| 0 <= a < b < cur.len() implies cur[a] < cur[b] by {
            if b < prev.len() {
                assert(cur[a] == prev[a] && cur[b] == prev[b]);
            } else {
                assert(cur[a] == prev[a]);
                assert(prev[a] < n - 1);
            }
        }
    }
}

proof fn lemma_spot_agree(w: WorldView, s1: spec_fn(int, Entity) -> bool, s2: spec_fn(int, Entity) -> bool, j: int, cs: Seq<Entity>, n: nat)
    requires
        n <= cs.len(),
        forall|k: int| 0 <= k < n ==> s1(j, #[trigger] cs[k]) == s2(j, cs[k]),
    ensures
        spot_upto(w, s1, j, cs, n) == spot_upto(w, s2, j, cs, n),
    decreases n,
{
    if n > 0 {
        lemma_spot_agree(w, s1, s2, j, cs, (n - 1) as nat);
        assert(s1(j, cs[n - 1]) == s2(j, cs[n - 1]));
    }
}

proof fn lemma_see_agree(w: WorldView, s1: spec_fn(int, Entity) -> bool, s2: spec_fn(int, Entity) -> bool, tiles: Seq<Point>, n: nat)
    requires
        forall|j: int, c: Entity| 0 <= j < n ==> #[trigger] s1(j, c) == s2(j, c),
    ensures
        see_upto(w, s1, tiles, n) == see_upto(w, s2, tiles, n),
    decreases n,
{
    if n > 0 {
        lemma_see_agree(w, s1, s2, tiles, (n - 1) as nat);
        let v = see_upto(w, s1, tiles, (n - 1) as nat);
        let p = tiles[n - 1];
        let idx = spec_xy_idx(v.map_width as int, p.x as int, p.y as int);
        let v1 = WorldView { revealed: v.revealed.update(idx, true), visible: v.visible.update(idx, true), ..v };
        let cs = tile_contents(v1, idx);
        assert forall|k: int| 0 <= k < cs.len() implies s1(n - 1, #[trigger] cs[k]) == s2(n - 1, cs[k]) by {
            assert(s1(n - 1, cs[k]) == s2(n - 1, cs[k]));
        }
        lemma_spot_agree(v1, s1, s2, n - 1, cs, cs.len());
    }
}

proof fn lemma_sight_agree(w: WorldView, fov: Seq<Seq<Point>>, s1: spec_fn(int, int, Entity) -> bool, s2: spec_fn(int, int, Entity) -> bool, n: nat)
    requires
        forall|i: int, j: int, c: Entity| 0 <= i < n ==> #[trigger] s1(i, j, c) == s2(i, j, c),
    ensures
        sight_upto(w, fov, s1, n) == sight_upto(w, fov, s2, n),
    decreases n,
{
    if n > 0 {
        lemma_sight_agree(w, fov, s1, s2, (n - 1) as nat);
        let v = sight_upto(w, fov, s1, (n - 1) as nat);
        let i = n - 1;
        if looks(v, i) && v.ents[i].player {
            let w1 = WorldView { ents: v.ents.update(i, looked(v.ents[i])), ..v };
            let tiles = on_map(fov[i], v.map_width as int, v.map_height as int);
            let w2 = WorldView { visible: Seq::new(v.visible.len(), |k: int| false), ..w1 };
            let f1 = |j: int, c: Entity| s1(i, j, c);
            let f2 = |j: int, c: Entity| s2(i, j, c);
            assert forall|j: int, c: Entity| 0 <= j < tiles.len() implies #[trigger] f1(j, c) == f2(j, c) by {
                assert(s1(i, j, c) == s2(i, j, c));
            }
            lemma_see_agree(w2, f1, f2, tiles, tiles.len());
        }
    }
}

// ----- carrying a look out -----

fn make_unhidden(e: Ent) -> (r: Ent)
    ensures
        r == unhidden(e),
{
    proof { reveal(unhidden); }
    Ent { hidden: false, ..e }
}

fn log_line(w: &mut World, msg: String)
    requires
        old(w).wf(),
    ensures
        final(w).wf(),
        final(w).view() == (WorldView { log: old(w).view().log.push(msg@), ..old(w).view() }),
{
    let ghost before = w.log.entries@;
    w.log.entries.push(msg);
    proof { lemma_names_view_push(before, msg); }
}

fn unhide(w: &mut World, c: Entity)
    requires
        old(w).wf(),
        c < old(w).view().ents.len(),
    ensures
        final(w).wf(),
        final(w).view() == (WorldView {
            log: if old(w).view().ents[c as int].has_name { old(w).view().log.push(spotted_msg(old(w).view().names[c as int])) } else { old(w).view().log },
            ents: old(w).view().ents.update(c as int, unhidden(old(w).view().ents[c as int])),
            ..old(w).view()
        }),
{
    let ghost v = w.view();
    let e = w.ents[c];
    if e.has_name {
        let mut msg = String::from_str("You spotted a ");
        msg.append(w.names[c].as_str());
        msg.append(".");
        proof { assert(v.names[c as int] == w.names@[c as int]@); }
        log_line(w, msg);
    }
    let e2 = make_unhidden(e);
    proof {
        reveal(unhidden);
        assert(refs_in(e, v.ents.len() as int));
    }
    crate::player::set_ent(w, c, e2);
}

/// Override of `s` at `(i, j, c)`.
pub open spec fn with_spot(s: spec_fn(int, int, Entity) -> bool, i: int, j: int, c: Entity, val: bool) -> spec_fn(int, int, Entity) -> bool {
    |a: int, b: int, d: Entity| if a == i && b == j && d == c { val } else { s(a, b, d) }
}

fn spot_here(w: &mut World, i: usize, j: usize, cs: &Vec<Entity>, rng: &mut RandomNumberGenerator, Ghost(s0): Ghost<spec_fn(int, int, Entity) -> bool>)
    -> (r: Ghost<spec_fn(int, int, Entity) -> bool>)
    requires
        old(w).wf(),
        forall|k: int| 0 <= k < cs@.len() ==> #[trigger] cs@[k] < old(w).view().ents.len(),
        forall|a: int, b: int| 0 <= a < b < cs@.len() ==> cs@[a] < cs@[b],
    ensures
        final(w).wf(),
        final(w).view() == spot_upto(old(w).view(), |jj: int, c: Entity| r@(i as int, jj, c), j as int, cs@, cs@.len()),
        forall|a: int, b: int, c: Entity| (a != i || b != j) ==> #[trigger] r@(a, b, c) == s0(a, b, c),
{
    let ghost v0 = w.view();
    let ghost mut s = s0;
    let mut k: usize = 0;
    while k < cs.len()
        invariant
            k <= cs@.len(),
            w.wf(),
            v0.wf(),
            forall|m: int| 0 <= m < cs@.len() ==> #[trigger] cs@[m] < v0.ents.len(),
            forall|a: int, b: int| 0 <= a < b < cs@.len() ==> cs@[a] < cs@[b],
            w.view() == spot_upto(v0, |jj: int, c: Entity| s(i as int, jj, c), j as int, cs@, k as nat),
            forall|a: int, b: int, c: Entity| (a != i || b != j) ==> #[trigger] s(a, b, c) == s0(a, b, c),
        decreases cs@.len() - k,
    {
        proof { lemma_spot_frame(v0, |jj: int, c: Entity| s(i as int, jj, c), j as int, cs@, k as nat); }
        let c = cs[k];
        let ghost prev = s;
        if w.ents[c].hidden {
            let roll = roll_dice(rng, 1, 24);
            let val = roll == 1;
            proof { s = with_spot(prev, i as int, j as int, c, val); }
            proof {
                let f1 = |jj: int, d: Entity| prev(i as int, jj, d);
                let f2 = |jj: int, d: Entity| s(i as int, jj, d);
                assert forall|m: int| 0 <= m < k implies f1(j as int, #[trigger] cs@[m]) == f2(j as int, cs@[m]) by {
                    assert(cs@[m] < cs@[k as int]);
                }
                lemma_spot_agree(v0, f1, f2, j as int, cs@, k as nat);
            }
            if val {
                unhide(w, c);
            }
        } else {
            proof { s = with_spot(prev, i as int, j as int, c, false); }
            proof {
                let f1 = |jj: int, d: Entity| prev(i as int, jj, d);
                let f2 = |jj: int, d: Entity| s(i as int, jj, d);
                assert forall|m: int| 0 <= m < k implies f1(j as int, #[trigger] cs@[m]) == f2(j as int, cs@[m]) by {
                    assert(cs@[m] < cs@[k as int]);
                }
                lemma_spot_agree(v0, f1, f2, j as int, cs@, k as nat);
            }
        }
        k = k + 1;
    }
    Ghost(s)
}


fn mark_seen(w: &mut World, idx: usize)
    requires
        old(w).wf(),
        idx < old(w).view().revealed.len(),
    ensures
        final(w).wf(),
        final(w).view() == (WorldView {
            revealed: old(w).view().revealed.update(idx as int, true),
            visible: old(w).view().visible.update(idx as int, true),
            ..old(w).view()
        }),
{
    w.map.revealed_tiles.set(idx, true);
    w.map.visible_tiles.set(idx, true);
}

fn clear_visible(w: &mut World)
    requires
        old(w).wf(),
    ensures
        final(w).wf(),
        final(w).view() == (WorldView { visible: Seq::new(old(w).view().visible.len(), |k: int| false), ..old(w).view() }),
{
    let ghost v = w.view();
    let n = w.map.visible_tiles.len();
    let mut k: usize = 0;
    while k < n
        invariant
            k <= n,
            n == v.visible.len(),
            w.map.visible_tiles@.len() == n,
            w.view() == (WorldView { visible: w.map.visible_tiles@, ..v }),
            forall|m: int| 0 <= m < k ==> !#[trigger] w.map.visible_tiles@[m],
            v.wf(),
        decreases n - k,
    {
        w.map.visible_tiles.set(k, false);
        k = k + 1;
    }
    proof { assert(w.map.visible_tiles@ =~= Seq::new(v.visible.len(), |k: int| false)); }
}

fn keep_on_map(pts: &Vec<Point>, w: i32, h: i32) -> (r: Vec<Point>)
    ensures
        r@ == on_map(pts@, w as int, h as int),
        forall|k: int| 0 <= k < r@.len() ==> 0 <= #[trigger] r@[k].x < w && 0 <= r@[k].y < h,
{
    let mut r: Vec<Point> = Vec::new();
    let mut k: usize = 0;
    while k < pts.len()
        invariant
            k <= pts@.len(),
            r@ == on_map_upto(pts@, w as int, h as int, k as nat),
            forall|m: int| 0 <= m < r@.len() ==> 0 <= #[trigger] r@[m].x < w && 0 <= r@[m].y < h,
        decreases pts@.len() - k,
    {
        let p = pts[k];
        if 0 <= p.x && p.x < w && 0 <= p.y && p.y < h {
            r.push(p);
        }
        k = k + 1;
    }
    r
}

fn see_tiles(w: &mut World, i: usize, tiles: &Vec<Point>, rng: &mut RandomNumberGenerator, Ghost(s0): Ghost<spec_fn(int, int, Entity) -> bool>)
    -> (r: Ghost<spec_fn(int, int, Entity) -> bool>)
    requires
        old(w).wf(),
        forall|k: int| 0 <= k < tiles@.len() ==> 0 <= #[trigger] tiles@[k].x < old(w).view().map_width && 0 <= tiles@[k].y < old(w).view().map_height,
    ensures
        final(w).wf(),
        final(w).view() == see_upto(old(w).view(), |jj: int, c: Entity| r@(i as int, jj, c), tiles@, tiles@.len()),
        forall|a: int, b: int, c: Entity| a != i ==> #[trigger] r@(a, b, c) == s0(a, b, c),
{
    let ghost v0 = w.view();
    let ghost mut s = s0;
    let n = w.ents.len();
    let mut j: usize = 0;
    while j < tiles.len()
        invariant
            j <= tiles@.len(),
            w.wf(),
            v0.wf(),
            n == v0.ents.len(),
            forall|k: int| 0 <= k < tiles@.len() ==> 0 <= #[trigger] tiles@[k].x < v0.map_width && 0 <= tiles@[k].y < v0.map_height,
            w.view() == see_upto(v0, |jj: int, c: Entity| s(i as int, jj, c), tiles@, j as nat),
            forall|a: int, b: int, c: Entity| a != i ==> #[trigger] s(a, b, c) == s0(a, b, c),
        decreases tiles@.len() - j,
    {
        proof {
            lemma_see_frame(v0, |jj: int, c: Entity| s(i as int, jj, c), tiles@, j as nat);
        }
        let ghost before = w.view();
        let p = tiles[j];
        let idx = w.map.xy_idx(p.x, p.y);
        mark_seen(w, idx);
        let cs = contents_at(&w.ents, w.map.width, w.map.height, idx);
        proof {
            lemma_contents_increasing(w.ents@, w.map.width as int, w.map.height as int, idx as int, n as nat);
        }
        let ghost prev = s;
        let Ghost(s2) = spot_here(w, i, j, &cs, rng, Ghost(s));
        proof {
            s = s2;
            let f1 = |jj: int, c: Entity| prev(i as int, jj, c);
            let f2 = |jj: int, c: Entity| s(i as int, jj, c);
            assert forall|jj: int, c: Entity| 0 <= jj < j implies #[trigger] f1(jj, c) == f2(jj, c) by {
                assert(s2(i as int, jj, c) == prev(i as int, jj, c));
            }
            lemma_see_agree(v0, f1, f2, tiles@, j as nat);
            assert(w.view() == see_upto(v0, f2, tiles@, (j + 1) as nat));
        }
        j = j + 1;
    }
    Ghost(s)
}


pub(crate) proof fn lemma_sight_keeps(w: WorldView, fov: Seq<Seq<Point>>, s: spec_fn(int, int, Entity) -> bool, n: nat)
    requires
        w.wf(),
        w.ents.len() <= usize::MAX,
        n <= w.ents.len(),
        fov.len() == w.ents.len(),
    ensures
        sight_upto(w, fov, s, n).wf(),
        sight_upto(w, fov, s, n).ents.len() == w.ents.len(),
        forall|k: int| n <= k < w.ents.len() ==> #[trigger] sight_upto(w, fov, s, n).ents[k].viewshed == w.ents[k].viewshed,
        forall|k: int| 0 <= k < w.ents.len() ==> #[trigger] sight_upto(w, fov, s, n).ents[k].alive == w.ents[k].alive
            && sight_upto(w, fov, s, n).ents[k].position == w.ents[k].position
            && sight_upto(w, fov, s, n).ents[k].player == w.ents[k].player,
        sight_upto(w, fov, s, n) == (WorldView {
            ents: sight_upto(w, fov, s, n).ents, log: sight_upto(w, fov, s, n).log,
            revealed: sight_upto(w, fov, s, n).revealed, visible: sight_upto(w, fov, s, n).visible, ..w
        }),
    decreases n,
{
    reveal(looked);
    if n > 0 {
        lemma_sight_keeps(w, fov, s, (n - 1) as nat);
        let v = sight_upto(w, fov, s, (n - 1) as nat);
        let i = n - 1;
        if looks(v, i) {
            let w1 = WorldView { ents: v.ents.update(i, looked(v.ents[i])), ..v };
            assert(refs_in(v.ents[i], v.ents.len() as int));
            assert(refs_in(looked(v.ents[i]), v.ents.len() as int));
            lemma_update_keeps_refs(v.ents, i, looked(v.ents[i]));
            assert(w1.wf());
            if v.ents[i].player {
                let tiles = on_map(fov[i], v.map_width as int, v.map_height as int);
                let w2 = WorldView { visible: Seq::new(v.visible.len(), |k: int| false), ..w1 };
                assert(w2.wf());
                lemma_on_map_inside(fov[i], v.map_width as int, v.map_height as int, fov[i].len());
                let f = |j: int, c: Entity| s(i, j, c);
                lemma_see_frame(w2, f, tiles, tiles.len());
                let res = see_upto(w2, f, tiles, tiles.len());
                assert(res == sight_upto(w, fov, s, n));
                assert forall|k: int| 0 <= k < res.ents.len() implies #[trigger] refs_in(res.ents[k], res.ents.len() as int) by {
                    assert(res.ents[k].position == w2.ents[k].position);
                    assert(refs_in(w2.ents[k], w2.ents.len() as int));
                }
                assert forall|k: int| 0 <= k < res.ents.len() implies #[trigger] res.ents[k].viewshed == w2.ents[k].viewshed
                    && res.ents[k].alive == w2.ents[k].alive && res.ents[k].player == w2.ents[k].player
                    && res.ents[k].position == w2.ents[k].position by {
                    assert(res.ents[k].position == w2.ents[k].position);
                }
            }
        }
    }
}

pub(crate) proof fn lemma_on_map_inside(pts: Seq<Point>, w: int, h: int, n: nat)
    ensures
        forall|k: int| 0 <= k < on_map_upto(pts, w, h, n).len() ==> 0 <= #[trigger] on_map_upto(pts, w, h, n)[k].x < w
            && 0 <= on_map_upto(pts, w, h, n)[k].y < h,
    decreases n,
{
    if n > 0 {
        lemma_on_map_inside(pts, w, h, (n - 1) as nat);
        let prev = on_map_upto(pts, w, h, (n - 1) as nat);
        let cur = on_map_upto(pts, w, h, n);
        assert forall|k: int| 0 <= k < cur.len() implies 0 <= #[trigger] cur[k].x < w && 0 <= cur[k].y < h by {
            if k < prev.len() {
                assert(cur[k] == prev[k]);
            }
        }
    }
}

fn make_looked(e: Ent) -> (r: Ent)
    requires
        e.viewshed is Some,
    ensures
        r == looked(e),
{
    proof { reveal(looked); }
    let v = e.viewshed.unwrap();
    Ent { viewshed: Some(Viewshed { dirty: false, ..v }), ..e }
}

/// Entity `i` looks again if its view is out of date (see `sight_step`). Returns the
/// tiles it now sees when it looked, and `s0` with the spotting dice it rolled.
fn look_again(w: &mut World, i: usize, fov: &Vec<Vec<Point>>, rng: &mut RandomNumberGenerator, Ghost(s0): Ghost<spec_fn(int, int, Entity) -> bool>)
    -> (r: (Option<Vec<Point>>, Ghost<spec_fn(int, int, Entity) -> bool>))
    requires
        old(w).wf(),
        i < old(w).view().ents.len(),
        fov@.len() == old(w).view().ents.len(),
    ensures
        final(w).wf(),
        final(w).view() == sight_step(old(w).view(), fov_view(fov@), r.1@, i as int),
        forall|a: int, b: int, c: Entity| a != i ==> #[trigger] r.1@(a, b, c) == s0(a, b, c),
        (r.0 is Some) == looks(old(w).view(), i as int),
        r.0 matches Some(t) ==> t@ == on_map(fov@[i as int]@, old(w).view().map_width as int, old(w).view().map_height as int),
{
    let ghost v = w.view();
    let ghost fv = fov_view(fov@);
    let e = w.ents[i];
    let dirty = match e.viewshed {
        Some(vs) => vs.dirty,
        None => false,
    };
    if e.alive && e.position.is_some() && dirty {
        let e2 = make_looked(e);
        proof {
            reveal(looked);
            assert(refs_in(e, v.ents.len() as int));
        }
        crate::player::set_ent(w, i, e2);
        let tiles = keep_on_map(&fov[i], w.map.width, w.map.height);
        proof { assert(fv[i as int] == fov@[i as int]@); }
        if e.player {
            clear_visible(w);
            let Ghost(s2) = see_tiles(w, i, &tiles, rng, Ghost(s0));
            proof { assert(w.view() == sight_step(v, fv, s2, i as int)); }
            (Some(tiles), Ghost(s2))
        } else {
            (Some(tiles), Ghost(s0))
        }
    } else {
        (None, Ghost(s0))
    }
}

pub struct VisibilitySystem {}

impl VisibilitySystem {
    /// Every creature whose view is out of date looks again, in entity order. `fov[e]` is
    /// the field of view of entity `e` from where it stands, as far as it sees. For the
    /// player, the map's view becomes the seen tiles, which are revealed, and a hidden
    /// thing on them is spotted on a d24 roll of 1. Returns, for each entity that looked
    /// again, the tiles it now sees.
    pub fn run(&mut self, w: &mut World, fov: &Vec<Vec<Point>>, rng: &mut RandomNumberGenerator) -> (seen: Vec<Option<Vec<Point>>>)
        requires
            old(w).wf(),
            fov@.len() == old(w).view().ents.len(),
        ensures
            final(w).wf(),
            exists|spot: spec_fn(int, int, Entity) -> bool|
                final(w).view() == #[trigger] spec_sight(old(w).view(), fov_view(fov@), spot),
            seen@.len() == old(w).view().ents.len(),
            forall|k: int| 0 <= k < seen@.len() ==> (#[trigger] seen@[k] is Some) == looks(old(w).view(), k),
            forall|k: int| 0 <= k < seen@.len() ==> (#[trigger] seen@[k] matches Some(t) ==>
                t@ == on_map(fov@[k]@, old(w).view().map_width as int, old(w).view().map_height as int)),
    {
        let ghost start = w.view();
        let ghost fv = fov_view(fov@);
        let ghost mut s: spec_fn(int, int, Entity) -> bool = |a: int, b: int, c: Entity| false;
        let mut seen: Vec<Option<Vec<Point>>> = Vec::new();
        let n = w.ents.len();
        let mut i: usize = 0;
        while i < n
            invariant
                0 <= i <= n,
                n == start.ents.len(),
                fov@.len() == n,
                fv == fov_view(fov@),
                start.wf(),
                w.wf(),
                w.view() == sight_upto(start, fv, s, i as nat),
                seen@.len() == i,
                forall|k: int| 0 <= k < seen@.len() ==> (#[trigger] seen@[k] is Some) == looks(start, k),
                forall|k: int| 0 <= k < seen@.len() ==> (#[trigger] seen@[k] matches Some(t) ==>
                    t@ == on_map(fov@[k]@, start.map_width as int, start.map_height as int)),
            decreases n - i,
        {
            proof { lemma_sight_keeps(start, fv, s, i as nat); }
            let ghost prev = s;
            let (t, Ghost(s2)) = look_again(w, i, fov, rng, Ghost(s));
            proof {
                s = s2;
                assert forall|a: int, b: int, c: Entity| 0 <= a < i implies #[trigger] prev(a, b, c) == s(a, b, c) by {
                    assert(s2(a, b, c) == prev(a, b, c));
                }
                lemma_sight_agree(start, fv, prev, s, i as nat);
            }
            seen.push(t);
            i = i + 1;
        }
        proof {
            assert(w.view() == spec_sight(start, fv, s));
        }
        seen
    }
}

} // verus!
