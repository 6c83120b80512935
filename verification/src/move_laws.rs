//! What a move of the player keeps true.

use vstd::prelude::*;
use crate::components::{Entity, Position};
use crate::item_use_system::{contents_upto, indexed_at, tile_contents};
use crate::map::spec_xy_idx;
use crate::player::{
    bump_stage, first_bump, lemma_first_bump, looks_again, moved_to, opened, attacks, placed_at,
    spec_try_move_player, stepped, swap_stage, tile_blocked, walk_stage,
};
use crate::run_state::RunState;
use crate::world::{Ent, WorldView};

verus! {


proof fn lemma_contents_indexed(ents: Seq<Ent>, w: int, h: int, idx: int, n: nat)
    requires
        n <= ents.len(),
        n <= usize::MAX,
    ensures
        forall|k: int| 0 <= k < contents_upto(ents, w, h, idx, n).len() ==>
            #[trigger] contents_upto(ents, w, h, idx, n)[k] < n && indexed_at(ents[contents_upto(ents, w, h, idx, n)[k] as int], w, h, idx),
    decreases n,
{
    if n > 0 {
        lemma_contents_indexed(ents, w, h, idx, (n - 1) as nat);
        let prev = contents_upto(ents, w, h, idx, (n - 1) as nat);
        let cur = contents_upto(ents, w, h, idx, n);
        assert forall|k: int| 0 <= k < cur.len() implies #[trigger] cur[k] < n && indexed_at(ents[cur[k] as int], w, h, idx) by {
            if k < prev.len() {
                assert(cur[k] == prev[k]);
            }
        }
    }
}

proof fn lemma_idx_injective(w: int, x1: int, y1: int, x2: int, y2: int)
    requires
        0 <= x1 < w,
        0 <= x2 < w,
        0 <= y1,
        0 <= y2,
        y1 * w + x1 == y2 * w + x2,
    ensures
        x1 == x2,
        y1 == y2,
{
    assert(y1 == y2) by (nonlinear_arith)
        requires 0 <= x1 < w, 0 <= x2 < w, 0 <= y1, 0 <= y2, y1 * w + x1 == y2 * w + x2;
}

pub open spec fn on_map_at(w: WorldView, p: Position) -> bool {
    0 <= p.x < w.map_width && 0 <= p.y < w.map_height
}

/// The player stands on the map, and the `player_pos` resource is where they stand.
pub open spec fn player_placed(v: WorldView) -> bool {
    &&& v.ents[v.player as int].position matches Some(q) && on_map_at(v, q)
    &&& v.player_pos.x == v.ents[v.player as int].position->0.x
    &&& v.player_pos.y == v.ents[v.player as int].position->0.y
}

proof fn lemma_stepped_on_map(w: WorldView, q: Position, dx: int, dy: int)
    requires
        w.map_width > 0,
        w.map_height > 0,
    ensures
        on_map_at(w, stepped(w, q, dx, dy)),
        on_map_at(w, q) && dx == 0 && dy == 0 ==> stepped(w, q, dx, dy) == q,
{
}

proof fn lemma_bump_stage_placed(w: WorldView, pos: Position, dest: int, dx: i32, dy: i32)
    requires
        w.wf(),
        w.ents.len() <= usize::MAX,
        player_placed(w),
        w.ents[w.player as int].position == Some(pos),
    ensures
        player_placed(bump_stage(w, pos, dest, dx, dy).0),
        bump_stage(w, pos, dest, dx, dy).0 == (WorldView {
            ents: bump_stage(w, pos, dest, dx, dy).0.ents, player_pos: bump_stage(w, pos, dest, dx, dy).0.player_pos, ..w }),
        bump_stage(w, pos, dest, dx, dy).0.ents.len() == w.ents.len(),
        bump_stage(w, pos, dest, dx, dy).2 matches Some((t, old)) ==> old == pos && t < w.ents.len()
            && (t == w.player ==> dest == spec_xy_idx(w.map_width as int, pos.x as int, pos.y as int)),
        bump_stage(w, pos, dest, dx, dy).0.ents[w.player as int].position == Some(
            if bump_stage(w, pos, dest, dx, dy).2 is Some { stepped(w, pos, dx as int, dy as int) } else { pos }),
{
    reveal(bump_stage);
    reveal(moved_to);
    reveal(attacks);
    reveal(opened);
    reveal(looks_again);
    let cs = tile_contents(w, dest);
    lemma_first_bump(w, cs, cs.len());
    lemma_stepped_on_map(w, pos, dx as int, dy as int);
    lemma_contents_indexed(w.ents, w.map_width as int, w.map_height as int, dest, w.ents.len());
    if let Some(k) = first_bump(w, cs, cs.len()) {
        let t = cs[k];
        assert(indexed_at(w.ents[t as int], w.map_width as int, w.map_height as int, dest));
    }
}

proof fn lemma_walk_stage_placed(w: WorldView, w1: WorldView, r1: RunState, dest: int, dx: i32, dy: i32)
    requires
        w.wf(),
        player_placed(w1),
        w1.player == w.player,
        w1.map_width == w.map_width,
        w1.map_height == w.map_height,
        w1.ents.len() == w.ents.len(),
    ensures
        player_placed(walk_stage(w, w1, r1, dest, dx, dy).0),
        walk_stage(w, w1, r1, dest, dx, dy).0 == (WorldView {
            ents: walk_stage(w, w1, r1, dest, dx, dy).0.ents, player_pos: walk_stage(w, w1, r1, dest, dx, dy).0.player_pos, ..w1 }),
        walk_stage(w, w1, r1, dest, dx, dy).0.ents.len() == w.ents.len(),
{
    reveal(walk_stage);
    reveal(moved_to);
    let cur = w1.ents[w.player as int].position->0;
    lemma_stepped_on_map(w, cur, dx as int, dy as int);
}

proof fn lemma_placed_at_position(e: Ent, pos: Position)
    ensures
        placed_at(e, pos).position == Some(pos),
{
    reveal(placed_at);
}

proof fn lemma_swap_stage_placed(w2: WorldView, r2: RunState, swap: Option<(Entity, Position)>)
    requires
        player_placed(w2),
        w2.player < w2.ents.len(),
        swap matches Some((t, old)) ==> t < w2.ents.len() && (t != w2.player || (w2.ents[w2.player as int].position == Some(old))),
    ensures
        player_placed(swap_stage(w2, r2, swap).0),
{
    let pl = w2.player as int;
    let r = swap_stage(w2, r2, swap).0;
    if let Some((t, old)) = swap {
        if w2.ents[t as int].position is Some {
            lemma_placed_at_position(w2.ents[t as int], old);
            assert(r.player_pos == w2.player_pos);
            assert(r.map_width == w2.map_width && r.map_height == w2.map_height && r.player == w2.player);
            if t as int == pl {
                assert(r.ents[pl].position == Some(old));
            } else {
                assert(r.ents[pl] == w2.ents[pl]);
            }
        }
    }
}

/// A move never takes the player off the map: if the player stood on the map, they still
/// do afterwards, and the `player_pos` resource follows them whenever they move.
pub proof fn law_move_stays_on_map(w: WorldView, dx: i32, dy: i32)
    requires
        w.wf(),
        w.ents.len() <= usize::MAX,
        player_placed(w),
    ensures
        player_placed(spec_try_move_player(w, dx, dy).0),
{
    let pl = w.player as int;
    let e = w.ents[pl];
    let pos = e.position->0;
    let nx = pos.x + dx;
    let ny = pos.y + dy;
    if e.alive && e.player && e.viewshed is Some && !(nx < 1 || nx > w.map_width - 1 || ny < 1 || ny > w.map_height - 1) {
        let dest = spec_xy_idx(w.map_width as int, nx, ny);
        let b = bump_stage(w, pos, dest, dx, dy);
        lemma_bump_stage_placed(w, pos, dest, dx, dy);
        let wk = walk_stage(w, b.0, b.1, dest, dx, dy);
        lemma_walk_stage_placed(w, b.0, b.1, dest, dx, dy);
        if let Some((t, old)) = b.2 {
            if t == w.player {
                lemma_idx_injective(w.map_width as int, pos.x as int, pos.y as int, nx, ny);
                lemma_stepped_on_map(w, pos, 0, 0);
                lemma_walk_keeps_still(w, b.0, b.1, dest);
            }
        }
        lemma_swap_stage_placed(wk.0, wk.1, b.2);
        assert(spec_try_move_player(w, dx, dy) == swap_stage(wk.0, wk.1, b.2));
    }
}

proof fn lemma_walk_keeps_still(w: WorldView, w1: WorldView, r1: RunState, dest: int)
    requires
        w.wf(),
        player_placed(w1),
        w1.player == w.player,
        w1.map_width == w.map_width,
        w1.map_height == w.map_height,
        w1.ents.len() == w.ents.len(),
    ensures
        walk_stage(w, w1, r1, dest, 0, 0).0.ents[w.player as int].position == w1.ents[w.player as int].position,
{
    reveal(walk_stage);
    reveal(moved_to);
    let cur = w1.ents[w.player as int].position->0;
    assert(on_map_at(w, cur));
    lemma_stepped_on_map(w, cur, 0, 0);
}

/// Walking into a blocked tile where nothing reacts to a bump (a wall, say) changes
/// nothing and does not spend the player's turn.
pub proof fn law_blocked_move_changes_nothing(w: WorldView, dx: i32, dy: i32)
    requires
        w.wf(),
        w.ents[w.player as int].position is Some,
    ensures
        ({
            let p = w.ents[w.player as int].position->0;
            let dest = spec_xy_idx(w.map_width as int, p.x + dx, p.y + dy);
            let cs = tile_contents(w, dest);
            (tile_blocked(w, dest) && first_bump(w, cs, cs.len()) is None)
                ==> spec_try_move_player(w, dx, dy) == (w, RunState::AwaitingInput)
        }),
{
    reveal(bump_stage);
    reveal(walk_stage);
}

} // verus!
