//! What looking around keeps true of the map.

use vstd::prelude::*;
use crate::components::Entity;
use crate::item_use_system::tile_contents;
use crate::map::spec_xy_idx;
use crate::visibility_system::{
    lemma_contents_below, lemma_on_map_inside, lemma_see_frame, lemma_sight_keeps, lemma_spot_frame, looked, looks, on_map,
    see_upto, sight_step, sight_upto, spec_sight,
};
use crate::world::{Point, WorldView};

verus! {


/// Every tile in view is revealed.
pub open spec fn seen_revealed(w: WorldView) -> bool {
    forall|i: int| 0 <= i < w.visible.len() && #[trigger] w.visible[i] ==> i < w.revealed.len() && w.revealed[i]
}

proof fn lemma_see_keeps_seen_revealed(w: WorldView, spot: spec_fn(int, Entity) -> bool, tiles: Seq<Point>, n: nat)
    requires
        n <= tiles.len(),
        forall|k: int| 0 <= k < tiles.len() ==> 0 <= #[trigger] tiles[k].x < w.map_width && 0 <= tiles[k].y < w.map_height,
        w.map_width > 0,
        w.revealed.len() == w.map_width * w.map_height,
        w.visible.len() == w.map_width * w.map_height,
        w.ents.len() <= usize::MAX,
        seen_revealed(w),
    ensures
        seen_revealed(see_upto(w, spot, tiles, n)),
    decreases n,
{
    if n > 0 {
        lemma_see_keeps_seen_revealed(w, spot, tiles, (n - 1) as nat);
        lemma_see_frame(w, spot, tiles, (n - 1) as nat);
        let v = see_upto(w, spot, tiles, (n - 1) as nat);
        let p = tiles[n - 1];
        let idx = spec_xy_idx(v.map_width as int, p.x as int, p.y as int);
        assert(0 <= idx < w.map_width * w.map_height) by (nonlinear_arith)
            requires idx == p.y * w.map_width + p.x, 0 <= p.x < w.map_width, 0 <= p.y < w.map_height, v.map_width == w.map_width;
        let v1 = WorldView { revealed: v.revealed.update(idx, true), visible: v.visible.update(idx, true), ..v };
        assert(seen_revealed(v1));
        let cs = tile_contents(v1, idx);
        lemma_contents_below(v1.ents, v1.map_width as int, v1.map_height as int, idx, v1.ents.len());
        lemma_spot_frame(v1, spot, n - 1, cs, cs.len());
    }
}

/// Looking around keeps the map honest: when every tile in view was revealed before the
/// system runs, every tile in view is revealed after it, whatever was spotted.
pub proof fn law_seen_tiles_are_revealed(w: WorldView, fov: Seq<Seq<Point>>, spot: spec_fn(int, int, Entity) -> bool)
    requires
        w.wf(),
        w.ents.len() <= usize::MAX,
        fov.len() == w.ents.len(),
        seen_revealed(w),
    ensures
        seen_revealed(spec_sight(w, fov, spot)),
{
    lemma_sight_keeps_seen_revealed(w, fov, spot, w.ents.len());
}

proof fn lemma_sight_keeps_seen_revealed(w: WorldView, fov: Seq<Seq<Point>>, s: spec_fn(int, int, Entity) -> bool, n: nat)
    requires
        w.wf(),
        w.ents.len() <= usize::MAX,
        n <= w.ents.len(),
        fov.len() == w.ents.len(),
        seen_revealed(w),
    ensures
        seen_revealed(sight_upto(w, fov, s, n)),
    decreases n,
{
    if n > 0 {
        lemma_sight_keeps_seen_revealed(w, fov, s, (n - 1) as nat);
        lemma_sight_keeps(w, fov, s, (n - 1) as nat);
        let v = sight_upto(w, fov, s, (n - 1) as nat);
        let i = n - 1;
        if looks(v, i) && v.ents[i].player {
            let w1 = WorldView { ents: v.ents.update(i, looked(v.ents[i])), ..v };
            let tiles = on_map(fov[i], v.map_width as int, v.map_height as int);
            let w2 = WorldView { visible: Seq::new(v.visible.len(), |k: int| false), ..w1 };
            assert(seen_revealed(w2));
            lemma_on_map_inside(fov[i], v.map_width as int, v.map_height as int, fov[i].len());
            lemma_see_keeps_seen_revealed(w2, |j: int, c: Entity| s(i, j, c), tiles, tiles.len());
        }
    }
}


/// Whether map index `idx` is the index of one of the first `n` of `tiles`.
pub open spec fn among_tiles(tiles: Seq<Point>, width: int, n: int, idx: int) -> bool {
    exists|k: int| 0 <= k < n && idx == spec_xy_idx(width, #[trigger] tiles[k].x as int, tiles[k].y as int)
}

/// Looking at tiles marks exactly those tiles in view, on top of what was in view.
proof fn lemma_see_visible(w: WorldView, spot: spec_fn(int, Entity) -> bool, tiles: Seq<Point>, n: nat)
    requires
        n <= tiles.len(),
        forall|k: int| 0 <= k < tiles.len() ==> 0 <= #[trigger] tiles[k].x < w.map_width && 0 <= tiles[k].y < w.map_height,
        w.map_width > 0,
        w.revealed.len() == w.map_width * w.map_height,
        w.visible.len() == w.map_width * w.map_height,
        w.ents.len() <= usize::MAX,
    ensures
        see_upto(w, spot, tiles, n).visible.len() == w.visible.len(),
        forall|idx: int| 0 <= idx < w.visible.len() ==> (#[trigger] see_upto(w, spot, tiles, n).visible[idx]
            <==> (w.visible[idx] || among_tiles(tiles, w.map_width as int, n as int, idx))),
        forall|idx: int| 0 <= idx < w.revealed.len() ==> (#[trigger] see_upto(w, spot, tiles, n).revealed[idx]
            <==> (w.revealed[idx] || among_tiles(tiles, w.map_width as int, n as int, idx))),
    decreases n,
{
    lemma_see_frame(w, spot, tiles, n);
    if n > 0 {
        lemma_see_visible(w, spot, tiles, (n - 1) as nat);
        lemma_see_frame(w, spot, tiles, (n - 1) as nat);
        let v = see_upto(w, spot, tiles, (n - 1) as nat);
        let p = tiles[n - 1];
        let at = spec_xy_idx(v.map_width as int, p.x as int, p.y as int);
        assert(0 <= at < w.map_width * w.map_height) by (nonlinear_arith)
            requires at == p.y * w.map_width + p.x, 0 <= p.x < w.map_width, 0 <= p.y < w.map_height, v.map_width == w.map_width;
        let v1 = WorldView { revealed: v.revealed.update(at, true), visible: v.visible.update(at, true), ..v };
        let cs = tile_contents(v1, at);
        lemma_contents_below(v1.ents, v1.map_width as int, v1.map_height as int, at, v1.ents.len());
        lemma_spot_frame(v1, spot, n - 1, cs, cs.len());
        let r = see_upto(w, spot, tiles, n);
        assert(r.visible == v1.visible);
        assert(r.revealed == v1.revealed);
        assert forall|idx: int| 0 <= idx < w.revealed.len() implies (#[trigger] r.revealed[idx]
            <==> (w.revealed[idx] || among_tiles(tiles, w.map_width as int, n as int, idx))) by {
            if idx == at {
                assert(idx == spec_xy_idx(w.map_width as int, tiles[n - 1].x as int, tiles[n - 1].y as int));
            } else {
                assert(r.revealed[idx] == v.revealed[idx]);
                if among_tiles(tiles, w.map_width as int, n as int, idx) {
                    let k = choose|k: int| 0 <= k < n && idx == spec_xy_idx(w.map_width as int, #[trigger] tiles[k].x as int, tiles[k].y as int);
                    assert(k != n - 1);
                    assert(among_tiles(tiles, w.map_width as int, (n - 1) as int, idx));
                }
                if among_tiles(tiles, w.map_width as int, (n - 1) as int, idx) {
                    let k = choose|k: int| 0 <= k < n - 1 && idx == spec_xy_idx(w.map_width as int, #[trigger] tiles[k].x as int, tiles[k].y as int);
                    assert(among_tiles(tiles, w.map_width as int, n as int, idx));
                }
            }
        }
        assert forall|idx: int| 0 <= idx < w.visible.len() implies (#[trigger] r.visible[idx]
            <==> (w.visible[idx] || among_tiles(tiles, w.map_width as int, n as int, idx))) by {
            if idx == at {
                assert(idx == spec_xy_idx(w.map_width as int, tiles[n - 1].x as int, tiles[n - 1].y as int));
            } else {
                assert(r.visible[idx] == v.visible[idx]);
                if among_tiles(tiles, w.map_width as int, n as int, idx) {
                    let k = choose|k: int| 0 <= k < n && idx == spec_xy_idx(w.map_width as int, #[trigger] tiles[k].x as int, tiles[k].y as int);
                    assert(k != n - 1);
                    assert(among_tiles(tiles, w.map_width as int, (n - 1) as int, idx));
                }
                if among_tiles(tiles, w.map_width as int, (n - 1) as int, idx) {
                    let k = choose|k: int| 0 <= k < n - 1 && idx == spec_xy_idx(w.map_width as int, #[trigger] tiles[k].x as int, tiles[k].y as int);
                    assert(among_tiles(tiles, w.map_width as int, n as int, idx));
                }
            }
        }
    }
}

/// The player's view is replaced, not added to: after the player looks again, a map
/// tile is in view exactly when it is one of the on-map tiles of the player's field of
/// view; whatever was in view before and is not seen now leaves the view.
pub proof fn law_player_view_is_exactly_the_field_of_view(
    w: WorldView,
    fov: Seq<Seq<Point>>,
    spot: spec_fn(int, int, Entity) -> bool,
    i: int,
    idx: int,
)
    requires
        w.wf(),
        w.ents.len() <= usize::MAX,
        fov.len() == w.ents.len(),
        0 <= i < w.ents.len(),
        looks(w, i),
        w.ents[i].player,
        0 <= idx < w.visible.len(),
    ensures
        sight_step(w, fov, spot, i).visible[idx]
            <==> among_tiles(on_map(fov[i], w.map_width as int, w.map_height as int), w.map_width as int,
                on_map(fov[i], w.map_width as int, w.map_height as int).len() as int, idx),
{
    let w1 = WorldView { ents: w.ents.update(i, looked(w.ents[i])), ..w };
    let tiles = on_map(fov[i], w.map_width as int, w.map_height as int);
    let w2 = WorldView { visible: Seq::new(w.visible.len(), |k: int| false), ..w1 };
    lemma_on_map_inside(fov[i], w.map_width as int, w.map_height as int, fov[i].len());
    lemma_see_visible(w2, |j: int, c: Entity| spot(i, j, c), tiles, tiles.len());
    assert(!w2.visible[idx]);
}

/// What the player looks at is remembered: after the player looks again, a map tile is
/// revealed exactly when it was revealed before or is one of the on-map tiles of the
/// player's field of view.
pub proof fn law_player_look_reveals_the_field_of_view(
    w: WorldView,
    fov: Seq<Seq<Point>>,
    spot: spec_fn(int, int, Entity) -> bool,
    i: int,
    idx: int,
)
    requires
        w.wf(),
        w.ents.len() <= usize::MAX,
        fov.len() == w.ents.len(),
        0 <= i < w.ents.len(),
        looks(w, i),
        w.ents[i].player,
        0 <= idx < w.revealed.len(),
    ensures
        sight_step(w, fov, spot, i).revealed[idx]
            <==> (w.revealed[idx] || among_tiles(on_map(fov[i], w.map_width as int, w.map_height as int), w.map_width as int,
                on_map(fov[i], w.map_width as int, w.map_height as int).len() as int, idx)),
{
    let w1 = WorldView { ents: w.ents.update(i, looked(w.ents[i])), ..w };
    let tiles = on_map(fov[i], w.map_width as int, w.map_height as int);
    let w2 = WorldView { visible: Seq::new(w.visible.len(), |k: int| false), ..w1 };
    lemma_on_map_inside(fov[i], w.map_width as int, w.map_height as int, fov[i].len());
    lemma_see_visible(w2, |j: int, c: Entity| spot(i, j, c), tiles, tiles.len());
}

/// In a round of looking around where the player, the only one, looks again, the tiles
/// in view afterwards are exactly the on-map tiles of the player's field of view.
pub proof fn law_sight_round_view_is_the_players_field_of_view(
    w: WorldView,
    fov: Seq<Seq<Point>>,
    spot: spec_fn(int, int, Entity) -> bool,
    idx: int,
)
    requires
        w.wf(),
        w.ents.len() <= usize::MAX,
        fov.len() == w.ents.len(),
        looks(w, w.player as int),
        w.ents[w.player as int].player,
        forall|k: int| 0 <= k < w.ents.len() && #[trigger] w.ents[k].player ==> k == w.player,
        0 <= idx < w.visible.len(),
    ensures
        spec_sight(w, fov, spot).visible[idx]
            <==> among_tiles(on_map(fov[w.player as int], w.map_width as int, w.map_height as int), w.map_width as int,
                on_map(fov[w.player as int], w.map_width as int, w.map_height as int).len() as int, idx),
{
    lemma_sight_round_visible(w, fov, spot, w.ents.len(), idx);
}

proof fn lemma_sight_round_visible(
    w: WorldView,
    fov: Seq<Seq<Point>>,
    spot: spec_fn(int, int, Entity) -> bool,
    n: nat,
    idx: int,
)
    requires
        w.wf(),
        w.ents.len() <= usize::MAX,
        n <= w.ents.len(),
        fov.len() == w.ents.len(),
        looks(w, w.player as int),
        w.ents[w.player as int].player,
        forall|k: int| 0 <= k < w.ents.len() && #[trigger] w.ents[k].player ==> k == w.player,
        0 <= idx < w.visible.len(),
    ensures
        sight_upto(w, fov, spot, n).visible.len() == w.visible.len(),
        n <= w.player ==> sight_upto(w, fov, spot, n).visible == w.visible,
        n > w.player ==> (sight_upto(w, fov, spot, n).visible[idx]
            <==> among_tiles(on_map(fov[w.player as int], w.map_width as int, w.map_height as int), w.map_width as int,
                on_map(fov[w.player as int], w.map_width as int, w.map_height as int).len() as int, idx)),
    decreases n,
{
    lemma_sight_keeps(w, fov, spot, n);
    if n > 0 {
        lemma_sight_round_visible(w, fov, spot, (n - 1) as nat, idx);
        lemma_sight_keeps(w, fov, spot, (n - 1) as nat);
        let v = sight_upto(w, fov, spot, (n - 1) as nat);
        let i = n - 1;
        assert(v.ents[i].player == w.ents[i].player);
        if i == w.player {
            assert(v.ents[i].viewshed == w.ents[i].viewshed);
            assert(v.ents[i].alive == w.ents[i].alive && v.ents[i].position == w.ents[i].position);
            assert(v.map_width == w.map_width && v.map_height == w.map_height);
            assert(looks(v, i));
            law_player_view_is_exactly_the_field_of_view(v, fov, spot, i, idx);
        } else {
            assert(!v.ents[i].player);
            assert(sight_step(v, fov, spot, i).visible == v.visible);
        }
    }
}

} // verus!
