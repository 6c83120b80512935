//! Creatures that hunt or flee: given the paths the map's path finding worked out, each
//! one whose turn it is picks its next step.

use vstd::prelude::*;
use crate::components::Entity;
use crate::world::{Ent, World, WorldView, refs_in};

verus! {

#[verifier::opaque]
pub open spec fn gives_up(e: Ent) -> Ent {
    Ent { chasing: None, ..e }
}

#[verifier::opaque]
pub open spec fn turn_over(e: Ent) -> Ent {
    Ent { my_turn: false, ..e }
}

#[verifier::opaque]
pub open spec fn heads_for(e: Ent, dest: usize) -> Ent {
    Ent { apply_move: Some(dest), ..e }
}

/// A hunter whose quarry has no place on this level gives up the chase.
pub open spec fn quarry_gone(w: WorldView, k: int) -> bool {
    let e = w.ents[k];
    e.alive && e.my_turn && (e.chasing matches Some(t) && w.ents[t as int].position is None)
}

/// Whether a path is one a hunter follows: found, with a first step, and short.
pub open spec fn path_usable(path: Option<Seq<usize>>) -> bool {
    path matches Some(steps) && 1 < steps.len() < 15
}

/// Entity `k` on its turn, still hunting: it steps along `path` when the path is usable
/// and gives up otherwise; either way its turn is over.
pub open spec fn chase_step(e: Ent, path: Option<Seq<usize>>) -> Ent {
    if e.alive && e.position is Some && e.chasing is Some && e.my_turn {
        let e1 = if path_usable(path) { heads_for(e, path->0[1]) } else { gives_up(e) };
        turn_over(e1)
    } else {
        e
    }
}

/// The hunters after the chase: first those whose quarry is gone give up, then each
/// hunter takes its step. `paths[k]` is the path from hunter `k` to its quarry.
pub open spec fn spec_chase(w: WorldView, paths: Seq<Option<Seq<usize>>>) -> Seq<Ent> {
    let pruned = Seq::new(w.ents.len(), |k: int| if quarry_gone(w, k) { gives_up(w.ents[k]) } else { w.ents[k] });
    Seq::new(w.ents.len(), |k: int| chase_step(pruned[k], paths[k]))
}

pub open spec fn paths_view(paths: Seq<Option<Vec<usize>>>) -> Seq<Option<Seq<usize>>> {
    paths.map_values(|p: Option<Vec<usize>>| match p { Some(v) => Some(v@), None => None })
}

fn make_gives_up(e: Ent) -> (r: Ent)
    ensures
        r == gives_up(e),
{
    proof { reveal(gives_up); }
    Ent { chasing: None, ..e }
}

fn make_turn_over(e: Ent) -> (r: Ent)
    ensures
        r == turn_over(e),
{
    proof { reveal(turn_over); }
    Ent { my_turn: false, ..e }
}

fn make_heads_for(e: Ent, dest: usize) -> (r: Ent)
    ensures
        r == heads_for(e, dest),
{
    proof { reveal(heads_for); }
    Ent { apply_move: Some(dest), ..e }
}

proof fn lemma_ai_refs(e: Ent, n: int, dest: usize)
    requires
        refs_in(e, n),
    ensures
        refs_in(gives_up(e), n),
        refs_in(turn_over(e), n),
        refs_in(heads_for(e, dest), n),
        refs_in(turn_over(gives_up(e)), n),
        refs_in(turn_over(heads_for(e, dest)), n),
{
    reveal(gives_up);
    reveal(turn_over);
    reveal(heads_for);
}

pub struct ChaseAI {}

impl ChaseAI {
    /// Runs the hunters' turn. `paths[k]` is what path finding found from hunter `k` to
    /// its quarry (`None` when it found none).
    pub fn run(&mut self, w: &mut World, paths: &Vec<Option<Vec<usize>>>)
        requires
            old(w).wf(),
            paths@.len() == old(w).view().ents.len(),
        ensures
            final(w).wf(),
            final(w).view() == (WorldView { ents: spec_chase(old(w).view(), paths_view(paths@)), ..old(w).view() }),
    {
        let ghost start = w.view();
        let n = w.ents.len();
        // Hunters whose quarry is gone give up.
        let mut k: usize = 0;
        while k < n
            invariant
                k <= n,
                n == start.ents.len(),
                start.wf(),
                w.view() == (WorldView { ents: w.view().ents, ..start }),
                w.ents@.len() == n,
                forall|j: int| 0 <= j < n ==> #[trigger] w.ents@[j] == if j < k && quarry_gone(start, j) { gives_up(start.ents[j]) } else { start.ents[j] },
            decreases n - k,
        {
            let e = w.ents[k];
            let mut gone = false;
            if e.alive && e.my_turn {
                if let Some(t) = e.chasing {
                    proof { assert(refs_in(start.ents[k as int], n as int)); }
                    gone = w.ents[t].position.is_none();
                    proof { reveal(gives_up); assert(w.ents@[t as int].position == start.ents[t as int].position); }
                }
            }
            if gone {
                let e2 = make_gives_up(e);
                w.ents.set(k, e2);
            }
            k = k + 1;
        }
        let ghost pruned = w.ents@;
        // Each hunter on its turn steps or gives up.
        let mut i: usize = 0;
        while i < n
            invariant
                i <= n,
                n == start.ents.len(),
                paths@.len() == n,
                start.wf(),
                pruned.len() == n,
                forall|j: int| 0 <= j < n ==> #[trigger] pruned[j] == if quarry_gone(start, j) { gives_up(start.ents[j]) } else { start.ents[j] },
                w.view() == (WorldView { ents: w.view().ents, ..start }),
                w.ents@.len() == n,
                forall|j: int| 0 <= j < n ==> #[trigger] w.ents@[j] == if j < i { chase_step(pruned[j], paths_view(paths@)[j]) } else { pruned[j] },
            decreases n - i,
        {
            let e = w.ents[i];
            proof { assert(paths_view(paths@)[i as int] == match paths@[i as int] { Some(v) => Some(v@), None => None::<Seq<usize>> }); }
            if e.alive && e.position.is_some() && e.chasing.is_some() && e.my_turn {
                let usable = match &paths[i] {
                    Some(steps) => 1 < steps.len() && steps.len() < 15,
                    None => false,
                };
                let e1 = if usable {
                    let dest = match &paths[i] {
                        Some(steps) => steps[1],
                        None => 0,
                    };
                    make_heads_for(e, dest)
                } else {
                    make_gives_up(e)
                };
                let e2 = make_turn_over(e1);
                w.ents.set(i, e2);
            }
            i = i + 1;
        }
        proof {
            assert(w.ents@ =~= spec_chase(start, paths_view(paths@)));
            assert forall|j: int| 0 <= j < n implies #[trigger] refs_in(w.ents@[j], n as int) by {
                assert(refs_in(start.ents[j], n as int));
                lemma_ai_refs(start.ents[j], n as int, 0);
                lemma_ai_refs(gives_up(start.ents[j]), n as int, 0);
                let p = paths_view(paths@)[j];
                if path_usable(p) {
                    lemma_ai_refs(pruned[j], n as int, p->0[1]);
                }
                lemma_ai_refs(pruned[j], n as int, 0);
            }
        }
    }
}

// ----- fleeing -----

#[verifier::opaque]
pub open spec fn calmed(e: Ent) -> Ent {
    Ent { wants_to_flee: false, ..e }
}

/// A fleeing creature on its turn heads for `exit` (the neighbouring tile farthest from
/// what it flees, as the flee map finds it) unless that tile is blocked; its turn is over.
pub open spec fn flee_step(e: Ent, exit: Option<usize>, blocked: Seq<bool>) -> Ent {
    if e.alive && e.position is Some && e.wants_to_flee && e.my_turn {
        let e1 = match exit {
            Some(t) => if !blocked[t as int] { heads_for(e, t) } else { e },
            None => e,
        };
        turn_over(e1)
    } else {
        e
    }
}

/// After the fleeing: each creature takes its flee step, and every wish to flee is spent.
pub open spec fn spec_flee(w: WorldView, exits: Seq<Option<usize>>, blocked: Seq<bool>) -> Seq<Ent> {
    Seq::new(w.ents.len(), |k: int| calmed(flee_step(w.ents[k], exits[k], blocked)))
}

fn make_calmed(e: Ent) -> (r: Ent)
    ensures
        r == calmed(e),
{
    proof { reveal(calmed); }
    Ent { wants_to_flee: false, ..e }
}

proof fn lemma_flee_refs(e: Ent, n: int, exit: Option<usize>, blocked: Seq<bool>)
    requires
        refs_in(e, n),
    ensures
        refs_in(calmed(flee_step(e, exit, blocked)), n),
{
    let f = flee_step(e, exit, blocked);
    let t = match exit { Some(t) => t, None => 0 };
    lemma_ai_refs(e, n, t);
    lemma_ai_refs(heads_for(e, t), n, t);
    assert(refs_in(f, n));
    lemma_calmed_refs(f, n);
}

proof fn lemma_calmed_refs(e: Ent, n: int)
    requires
        refs_in(e, n),
    ensures
        refs_in(calmed(e), n),
{
    reveal(calmed);
}

pub struct FleeAI {}

impl FleeAI {
    /// Runs the fleeing creatures' turn. `exits[k]` is the tile the flee map picks for
    /// creature `k`, and `blocked[t]` whether tile `t` is blocked.
    pub fn run(&mut self, w: &mut World, exits: &Vec<Option<usize>>, blocked: &Vec<bool>)
        requires
            old(w).wf(),
            exits@.len() == old(w).view().ents.len(),
            forall|k: int| 0 <= k < exits@.len() ==> (#[trigger] exits@[k] matches Some(t) ==> t < blocked@.len()),
        ensures
            final(w).wf(),
            final(w).view() == (WorldView { ents: spec_flee(old(w).view(), exits@, blocked@), ..old(w).view() }),
    {
        let ghost start = w.view();
        let n = w.ents.len();
        let mut i: usize = 0;
        while i < n
            invariant
                i <= n,
                n == start.ents.len(),
                exits@.len() == n,
                forall|k: int| 0 <= k < exits@.len() ==> (#[trigger] exits@[k] matches Some(t) ==> t < blocked@.len()),
                start.wf(),
                w.view() == (WorldView { ents: w.view().ents, ..start }),
                w.ents@.len() == n,
                forall|j: int| 0 <= j < n ==> #[trigger] w.ents@[j] == if j < i { calmed(flee_step(start.ents[j], exits@[j], blocked@)) } else { start.ents[j] },
            decreases n - i,
        {
            let e = w.ents[i];
            let mut e1 = e;
            if e.alive && e.position.is_some() && e.wants_to_flee && e.my_turn {
                if let Some(t) = exits[i] {
                    if !blocked[t] {
                        e1 = make_heads_for(e, t);
                    }
                }
                e1 = make_turn_over(e1);
            }
            let e2 = make_calmed(e1);
            proof { assert(e2 == calmed(flee_step(start.ents[i as int], exits@[i as int], blocked@))); }
            w.ents.set(i, e2);
            i = i + 1;
        }
        proof {
            assert(w.ents@ =~= spec_flee(start, exits@, blocked@));
            assert forall|j: int| 0 <= j < n implies #[trigger] refs_in(w.ents@[j], n as int) by {
                assert(refs_in(start.ents[j], n as int));
                lemma_flee_refs(start.ents[j], n as int, exits@[j], blocked@);
            }
        }
    }
}


// ----- wandering -----

/// The dice one wandering creature rolled: a d5 for a random step, and the column and row
/// of a new place to walk to.
#[derive(Clone, Copy, Debug, PartialEq, Eq, Structural)]
pub struct WanderRolls {
    pub step: i32,
    pub tx: i32,
    pub ty: i32,
}

/// A random step from `(x, y)`: west, east, north or south on a d5 roll of 1 to 4, and
/// staying put on a 5.
pub open spec fn random_step(x: int, y: int, roll: int) -> (int, int) {
    if roll == 1 { (x - 1, y) } else if roll == 2 { (x + 1, y) } else if roll == 3 { (x, y - 1) } else if roll == 4 { (x, y + 1) } else { (x, y) }
}

pub open spec fn interior(w: WorldView, x: int, y: int) -> bool {
    0 < x < w.map_width - 1 && 0 < y < w.map_height - 1
}

/// Whether creature `k` wanders this turn.
pub open spec fn wanders(e: Ent) -> bool {
    e.alive && e.position is Some && e.my_turn && e.move_mode is Some
}

/// One wandering creature's turn: its entity afterwards, its path afterwards, and the
/// path it asks for (from its tile to a picked floor tile), if it asks for one.
pub open spec fn wander(w: WorldView, e: Ent, path: Option<Seq<usize>>, blocked: Seq<bool>, r: WanderRolls)
    -> (Ent, Option<Seq<usize>>, Option<(usize, usize)>)
{
    if !wanders(e) {
        (e, path, None)
    } else {
        let pos = e.position->0;
        match e.move_mode->0 {
            crate::world::Movement::Static => (e, path, None),
            crate::world::Movement::Random => {
                let (x, y) = random_step(pos.x as int, pos.y as int, r.step as int);
                if interior(w, x, y) {
                    (turn_over(heads_for(e, crate::map::spec_xy_idx(w.map_width as int, x, y) as usize)), path, None)
                } else {
                    (e, path, None)
                }
            },
            crate::world::Movement::RandomWaypoint => match path {
                Some(p) => if p.len() > 1 {
                    if !blocked[p[1] as int] {
                        (turn_over(heads_for(e, p[1])), Some(p.drop_first()), None)
                    } else {
                        (e, path, None)
                    }
                } else {
                    (e, None, None)
                },
                None => {
                    let to = crate::map::spec_xy_idx(w.map_width as int, r.tx as int, r.ty as int);
                    if crate::player::tile_walkable(w.tiles[to]) {
                        (e, None, Some((crate::map::spec_xy_idx(w.map_width as int, pos.x as int, pos.y as int) as usize, to as usize)))
                    } else {
                        (e, None, None)
                    }
                },
            },
        }
    }
}

/// Dice a fair roll could show for a wandering creature.
pub open spec fn wander_rolls_possible(w: WorldView, r: WanderRolls) -> bool {
    &&& 1 <= r.step <= 5
    &&& (w.map_width >= 3 ==> 1 <= r.tx <= w.map_width - 2)
    &&& (w.map_height >= 3 ==> 1 <= r.ty <= w.map_height - 2)
}

/// The paths the wanderers ask for, among the first `n`, in entity order, each with the
/// creature that asks.
pub open spec fn path_requests(w: WorldView, paths: Seq<Option<Seq<usize>>>, blocked: Seq<bool>, rolls: Seq<WanderRolls>, n: nat)
    -> Seq<(usize, usize, usize)>
    decreases n,
{
    if n == 0 {
        Seq::empty()
    } else {
        let prev = path_requests(w, paths, blocked, rolls, (n - 1) as nat);
        match wander(w, w.ents[n - 1], paths[n - 1], blocked, rolls[n - 1]).2 {
            Some((from, to)) => prev.push(((n - 1) as usize, from, to)),
            None => prev,
        }
    }
}

/// Whether the map is wide and tall enough to pick a place to walk to, wherever a
/// waypoint walker without a path has to pick one.
pub open spec fn wander_ok(w: WorldView, paths: Seq<Option<Seq<usize>>>) -> bool {
    forall|k: int| 0 <= k < w.ents.len() && wanders(#[trigger] w.ents[k]) && w.ents[k].move_mode == Some(crate::world::Movement::RandomWaypoint)
        && paths[k] is None ==> w.map_width >= 3 && w.map_height >= 3
}

fn step_dest(w: &World, e: Ent, roll: i32) -> (r: Option<usize>)
    requires
        w.wf(),
        e.position is Some,
        1 <= roll <= 5,
    ensures
        ({
            let (x, y) = random_step(e.position->0.x as int, e.position->0.y as int, roll as int);
            match r {
                Some(d) => interior(w.view(), x, y) && d == crate::map::spec_xy_idx(w.view().map_width as int, x, y),
                None => !interior(w.view(), x, y),
            }
        }),
{
    let pos = e.position.unwrap();
    let x: i64 = if roll == 1 { pos.x as i64 - 1 } else if roll == 2 { pos.x as i64 + 1 } else { pos.x as i64 };
    let y: i64 = if roll == 3 { pos.y as i64 - 1 } else if roll == 4 { pos.y as i64 + 1 } else { pos.y as i64 };
    if x > 0 && x < w.map.width as i64 - 1 && y > 0 && y < w.map.height as i64 - 1 {
        Some(w.map.xy_idx(x as i32, y as i32))
    } else {
        None
    }
}

pub open spec fn opt_view(p: Option<Vec<usize>>) -> Option<Seq<usize>> {
    match p { Some(v) => Some(v@), None => None }
}

pub open spec fn waypoints_view(paths: Seq<Option<Vec<usize>>>) -> Seq<Option<Seq<usize>>> {
    paths.map_values(|p: Option<Vec<usize>>| opt_view(p))
}

/// Takes creature `k`'s path out, leaving none.
fn take_path(paths: &mut Vec<Option<Vec<usize>>>, k: usize) -> (p: Option<Vec<usize>>)
    requires
        k < old(paths)@.len(),
    ensures
        final(paths)@.len() == old(paths)@.len(),
        waypoints_view(final(paths)@) == waypoints_view(old(paths)@).update(k as int, None),
        (opt_view(p)) == waypoints_view(old(paths)@)[k as int],
{
    let ghost before = paths@;
    let mut slot: Option<Vec<usize>> = None;
    paths.set_and_swap(k, &mut slot);
    proof {
        assert(waypoints_view(paths@) =~= waypoints_view(before).update(k as int, None));
    }
    slot
}

/// Puts `p` in as creature `k`'s path.
fn put_path(paths: &mut Vec<Option<Vec<usize>>>, k: usize, p: Option<Vec<usize>>)
    requires
        k < old(paths)@.len(),
    ensures
        final(paths)@.len() == old(paths)@.len(),
        waypoints_view(final(paths)@) == waypoints_view(old(paths)@).update(k as int, opt_view(p)),
{
    let ghost before = paths@;
    let ghost pv = opt_view(p);
    paths.set(k, p);
    proof {
        assert(waypoints_view(paths@) =~= waypoints_view(before).update(k as int, pv));
    }
}

/// The path after its first step.
fn rest_of(p: &Vec<usize>) -> (r: Vec<usize>)
    requires
        p@.len() > 0,
    ensures
        r@ == p@.drop_first(),
{
    let mut r: Vec<usize> = Vec::new();
    let mut i: usize = 1;
    while i < p.len()
        invariant
            1 <= i <= p@.len(),
            r@ == p@.subrange(1, i as int),
        decreases p@.len() - i,
    {
        r.push(p[i]);
        proof { assert(r@ =~= p@.subrange(1, i + 1)); }
        i = i + 1;
    }
    proof { assert(r@ =~= p@.drop_first()); }
    r
}

/// The index of map position `(x, y)` on a map `width` wide, as the map computes it even
/// off the map.
fn tile_of(width: i32, x: i32, y: i32) -> (r: usize)
    ensures
        r == crate::map::spec_xy_idx(width as int, x as int, y as int) as usize,
{
    proof {
        let (yy, wd) = (y as int, width as int);
        assert(-0x4000_0000_0000_0000 <= yy * wd <= 0x4000_0000_0000_0000) by (nonlinear_arith)
            requires -0x8000_0000 <= yy < 0x8000_0000, -0x8000_0000 <= wd < 0x8000_0000;
    }
    let v: i64 = y as i64 * width as i64 + x as i64;
    v as usize
}

pub struct DefaultMoveAI {}

impl DefaultMoveAI {
    /// The wanderers' turn, in entity order. `paths[k]` is the path creature `k` walks
    /// (kept between turns) and `blocked[t]` whether tile `t` is blocked. A creature that
    /// moves at random steps with a d5; one that walks to waypoints takes the next step of
    /// its path when the tile is free, drops a finished path, and without a path picks a
    /// place at random. Returns the paths asked for: which creature, from which tile, to
    /// which tile; once path finding has found one, `adopt_path` gives it to the creature.
    pub fn run(&mut self, w: &mut World, paths: &mut Vec<Option<Vec<usize>>>, blocked: &Vec<bool>, rng: &mut rltk::RandomNumberGenerator)
        -> (requests: Vec<(usize, usize, usize)>)
        requires
            old(w).wf(),
            old(paths)@.len() == old(w).view().ents.len(),
            forall|k: int| 0 <= k < old(paths)@.len() ==> (#[trigger] old(paths)@[k] matches Some(p) ==>
                (p@.len() > 1 ==> p@[1] < blocked@.len())),
            wander_ok(old(w).view(), waypoints_view(old(paths)@)),
        ensures
            final(w).wf(),
            exists|rolls: Seq<WanderRolls>| #![trigger path_requests(old(w).view(), waypoints_view(old(paths)@), blocked@, rolls, old(w).view().ents.len())]
                rolls.len() == old(w).view().ents.len()
                && (forall|k: int| 0 <= k < rolls.len() && wanders(old(w).view().ents[k]) ==> wander_rolls_possible(old(w).view(), #[trigger] rolls[k]))
                && final(w).view() == (WorldView {
                    ents: Seq::new(old(w).view().ents.len(), |k: int| wander(old(w).view(), old(w).view().ents[k], waypoints_view(old(paths)@)[k], blocked@, rolls[k]).0),
                    ..old(w).view()
                })
                && waypoints_view(final(paths)@) == Seq::new(old(w).view().ents.len(), |k: int| wander(old(w).view(), old(w).view().ents[k], waypoints_view(old(paths)@)[k], blocked@, rolls[k]).1)
                && requests@ == path_requests(old(w).view(), waypoints_view(old(paths)@), blocked@, rolls, old(w).view().ents.len()),
    {
        let ghost start = w.view();
        let ghost p0 = waypoints_view(paths@);
        let ghost mut rolls: Seq<WanderRolls> = Seq::empty();
        let mut requests: Vec<(usize, usize, usize)> = Vec::new();
        let n = w.ents.len();
        let mut k: usize = 0;
        while k < n
            invariant
                k <= n,
                n == start.ents.len(),
                start.wf(),
                paths@.len() == n,
                p0.len() == n,
                forall|j: int| 0 <= j < n ==> (#[trigger] p0[j] matches Some(p) ==> (p.len() > 1 ==> p[1] < blocked@.len())),
                wander_ok(start, p0),
                w.view() == (WorldView { ents: w.view().ents, ..start }),
                w.ents@.len() == n,
                rolls.len() == k,
                forall|j: int| 0 <= j < k && wanders(start.ents[j]) ==> wander_rolls_possible(start, #[trigger] rolls[j]),
                forall|j: int| 0 <= j < n ==> #[trigger] w.ents@[j] == if j < k { wander(start, start.ents[j], p0[j], blocked@, rolls[j]).0 } else { start.ents[j] },
                forall|j: int| 0 <= j < n ==> #[trigger] waypoints_view(paths@)[j] == if j < k { wander(start, start.ents[j], p0[j], blocked@, rolls[j]).1 } else { p0[j] },
                requests@ == path_requests(start, p0, blocked@, rolls, k as nat),
                forall|j: int| 0 <= j < n ==> #[trigger] refs_in(w.ents@[j], n as int),
            decreases n - k,
        {
            let ghost rk = WanderRolls { step: 5, tx: 1, ty: 1 };
            let e = w.ents[k];
            proof {
                assert(waypoints_view(paths@)[k as int] == p0[k as int]);
                assert(refs_in(start.ents[k as int], n as int));
            }
            let ghost paths_before = paths@;
            if e.alive && e.position.is_some() && e.my_turn && e.move_mode.is_some() {
                let pos = e.position.unwrap();
                match e.move_mode.unwrap() {
                    crate::world::Movement::Static => {},
                    crate::world::Movement::Random => {
                        let roll = crate::rng::roll_dice(rng, 1, 5);
                        proof { rk = WanderRolls { step: roll, tx: 1, ty: 1 }; }
                        if let Some(d) = step_dest(w, e, roll) {
                            let e2 = make_turn_over(make_heads_for(e, d));
                            proof { lemma_ai_refs(e, n as int, d); }
                            w.ents.set(k, e2);
                        }
                    },
                    crate::world::Movement::RandomWaypoint => {
                        let cur = take_path(paths, k);
                        proof { assert(waypoints_view(paths_before)[k as int] == p0[k as int]); }
                        match cur {
                            Some(p) => {
                                if p.len() > 1 {
                                    proof {
                                        assert(p0[k as int] == Some(p@));
                                        assert(p@.len() > 1 ==> p@[1] < blocked@.len());
                                    }
                                    let next = p[1];
                                    proof { assert(next == p@[1]); }
                                    if !blocked[next] {
                                        let e2 = make_turn_over(make_heads_for(e, next));
                                        proof { lemma_ai_refs(e, n as int, next); }
                                        w.ents.set(k, e2);
                                        let rest = rest_of(&p);
                                        put_path(paths, k, Some(rest));
                                    } else {
                                        put_path(paths, k, Some(p));
                                    }
                                }
                            },
                            None => {
                                let tx = crate::rng::roll_dice(rng, 1, w.map.width - 2);
                                let ty = crate::rng::roll_dice(rng, 1, w.map.height - 2);
                                proof { rk = WanderRolls { step: 5, tx, ty }; }
                                let to = w.map.xy_idx(tx, ty);
                                if crate::player::is_tile_walkable(w.map.tiles[to]) {
                                    let from = tile_of(w.map.width, pos.x, pos.y);
                                    requests.push((k, from, to));
                                }
                            },
                        }
                    },
                }
            }
            proof {
                let old_rolls = rolls;
                let wd = wander(start, start.ents[k as int], p0[k as int], blocked@, rk);
                assert(start.ents[k as int] == e);
                assert(w.ents@[k as int] == wd.0);
                assert(waypoints_view(paths@)[k as int] == wd.1);
                rolls = rolls.push(rk);
                assert forall|j: int| 0 <= j < k implies #[trigger] rolls[j] == old_rolls[j] by {}
                assert(rolls.drop_last() =~= old_rolls);
                lemma_requests_prefix(start, p0, blocked@, old_rolls, rolls, k as nat);
            }
            k = k + 1;
        }
        proof {
            assert(w.ents@ =~= Seq::new(n as nat, |j: int| wander(start, start.ents[j], p0[j], blocked@, rolls[j]).0));
            assert(waypoints_view(paths@) =~= Seq::new(n as nat, |j: int| wander(start, start.ents[j], p0[j], blocked@, rolls[j]).1));
            assert(w.view() == (WorldView {
                ents: Seq::new(n as nat, |j: int| wander(start, start.ents[j], p0[j], blocked@, rolls[j]).0),
                ..start
            }));
            assert(requests@ == path_requests(start, p0, blocked@, rolls, n as nat));
        }
        requests
    }
}

proof fn lemma_requests_prefix(w: WorldView, paths: Seq<Option<Seq<usize>>>, blocked: Seq<bool>, r1: Seq<WanderRolls>, r2: Seq<WanderRolls>, n: nat)
    requires
        forall|j: int| 0 <= j < n ==> r1[j] == r2[j],
    ensures
        path_requests(w, paths, blocked, r1, n) == path_requests(w, paths, blocked, r2, n),
    decreases n,
{
    if n > 0 {
        lemma_requests_prefix(w, paths, blocked, r1, r2, (n - 1) as nat);
    }
}

/// Gives creature `k` the path that path finding found, when it found one with a step
/// to take.
pub fn adopt_path(paths: &mut Vec<Option<Vec<usize>>>, k: usize, found: Option<Vec<usize>>)
    requires
        k < old(paths)@.len(),
    ensures
        waypoints_view(final(paths)@) == match found {
            Some(p) => if p@.len() > 1 { waypoints_view(old(paths)@).update(k as int, Some(p@)) } else { waypoints_view(old(paths)@) },
            None => waypoints_view(old(paths)@),
        },
{
    let ghost before = paths@;
    if let Some(p) = found {
        if p.len() > 1 {
            paths.set(k, Some(p));
            proof {
                assert(waypoints_view(paths@) =~= waypoints_view(before).update(k as int, Some(paths@[k as int]->0@)));
            }
        }
    }
}

} // verus!
