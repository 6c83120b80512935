//! The tile map of one dungeon level, and what is read off it: glyphs, stairs,
//! revealed tiles and spawn spots.

use vstd::prelude::*;

verus! {

#[derive(Clone, Copy, Debug, PartialEq, Eq, Structural)]
pub enum TileType {
    Wall,
    Floor,
    DownStairs,
    UpStairs,
    WoodFloor,
    Bridge,
    Road,
    Grass,
    ShallowWater,
    DeepWater,
}

/// A rectangular level, stored row by row.
pub struct GameMap {
    pub width: i32,
    pub height: i32,
    pub depth: i32,
    pub tiles: Vec<TileType>,
    pub revealed_tiles: Vec<bool>,
    pub visible_tiles: Vec<bool>,
}

/// The row-major index of `(x, y)` on a map `width` tiles wide.
pub open spec fn spec_xy_idx(width: int, x: int, y: int) -> int {
    y * width + x
}

impl GameMap {
    pub open spec fn wf(&self) -> bool {
        &&& 0 < self.width
        &&& 0 < self.height
        &&& self.width * self.height <= usize::MAX
        &&& self.tiles@.len() == self.width * self.height
        &&& self.revealed_tiles@.len() == self.width * self.height
        &&& self.visible_tiles@.len() == self.width * self.height
    }

    pub open spec fn in_bounds(&self, x: int, y: int) -> bool {
        0 <= x < self.width && 0 <= y < self.height
    }

    /// A map of `width` by `height` tiles, all walls, none revealed or visible.
    pub fn new(width: i32, height: i32, depth: i32) -> (m: GameMap)
        requires
            0 < width,
            0 < height,
            width * height <= usize::MAX,
        ensures
            m.wf(),
            m.width == width,
            m.height == height,
            m.depth == depth,
            forall|i: int| 0 <= i < width * height ==> #[trigger] m.tiles@[i] == TileType::Wall,
            forall|i: int| 0 <= i < width * height ==> !#[trigger] m.revealed_tiles@[i],
            forall|i: int| 0 <= i < width * height ==> !#[trigger] m.visible_tiles@[i],
    {
        let n = (width as usize) * (height as usize);
        let mut tiles: Vec<TileType> = Vec::new();
        let mut revealed: Vec<bool> = Vec::new();
        let mut visible: Vec<bool> = Vec::new();
        let mut i: usize = 0;
        while i < n
            invariant
                i <= n,
                n == width * height,
                tiles@.len() == i,
                revealed@.len() == i,
                visible@.len() == i,
                forall|j: int| 0 <= j < i ==> #[trigger] tiles@[j] == TileType::Wall,
                forall|j: int| 0 <= j < i ==> !#[trigger] revealed@[j],
                forall|j: int| 0 <= j < i ==> !#[trigger] visible@[j],
            decreases n - i,
        {
            tiles.push(TileType::Wall);
            revealed.push(false);
            visible.push(false);
            i = i + 1;
        }
        GameMap { width, height, depth, tiles, revealed_tiles: revealed, visible_tiles: visible }
    }

    /// The index of tile `(x, y)`.
    pub fn xy_idx(&self, x: i32, y: i32) -> (idx: usize)
        requires
            self.wf(),
            self.in_bounds(x as int, y as int),
        ensures
            idx == spec_xy_idx(self.width as int, x as int, y as int),
            idx < self.tiles@.len(),
    {
        proof { lemma_idx_in_range(self.width as int, self.height as int, x as int, y as int); }
        (y as usize) * (self.width as usize) + (x as usize)
    }

    /// Marks every tile of row `row` as revealed.
    pub fn reveal_row(&mut self, row: i32)
        requires
            old(self).wf(),
            0 <= row < old(self).height,
        ensures
            final(self).wf(),
            final(self).width == old(self).width,
            final(self).height == old(self).height,
            final(self).depth == old(self).depth,
            final(self).tiles@ == old(self).tiles@,
            final(self).visible_tiles@ == old(self).visible_tiles@,
            forall|i: int| 0 <= i < final(self).revealed_tiles@.len() ==>
                #[trigger] final(self).revealed_tiles@[i] == (old(self).revealed_tiles@[i] || i / (old(self).width as int) == row),
    {
        let ghost w = self.width as int;
        let mut x: i32 = 0;
        while x < self.width
            invariant
                self.wf(),
                0 <= x <= self.width,
                0 <= row < self.height,
                self.width == old(self).width,
                self.height == old(self).height,
                self.depth == old(self).depth,
                w == self.width,
                self.tiles@ == old(self).tiles@,
                self.visible_tiles@ == old(self).visible_tiles@,
                forall|i: int| 0 <= i < self.revealed_tiles@.len() ==>
                    #[trigger] self.revealed_tiles@[i] == (old(self).revealed_tiles@[i] || (i / w == row && i % w < x)),
            decreases self.width - x,
        {
            let idx = self.xy_idx(x, row);
            self.revealed_tiles.set(idx, true);
            proof {
                assert forall|i: int| 0 <= i < self.revealed_tiles@.len() implies
                    #[trigger] self.revealed_tiles@[i] == (old(self).revealed_tiles@[i] || (i / w == row && i % w < x + 1)) by {
                    lemma_div_mod_of_idx(w, x as int, row as int);
                    if i == idx as int {
                    } else {
                        lemma_idx_unique(w, i, x as int, row as int);
                    }
                }
            }
            x = x + 1;
        }
        proof {
            assert forall|i: int| 0 <= i < self.revealed_tiles@.len() implies
                #[trigger] self.revealed_tiles@[i] == (old(self).revealed_tiles@[i] || i / w == row) by {
                assert(0 <= i % w < w) by (nonlinear_arith) requires w > 0;
            }
        }
    }

    /// Marks every tile as revealed.
    pub fn reveal_all(&mut self)
        requires
            old(self).wf(),
        ensures
            final(self).wf(),
            final(self).width == old(self).width,
            final(self).height == old(self).height,
            final(self).depth == old(self).depth,
            final(self).tiles@ == old(self).tiles@,
            final(self).visible_tiles@ == old(self).visible_tiles@,
            forall|i: int| 0 <= i < final(self).revealed_tiles@.len() ==> #[trigger] final(self).revealed_tiles@[i],
    {
        let n = self.revealed_tiles.len();
        let mut i: usize = 0;
        while i < n
            invariant
                self.wf(),
                i <= n,
                n == self.revealed_tiles@.len(),
                self.width == old(self).width,
                self.height == old(self).height,
                self.depth == old(self).depth,
                self.tiles@ == old(self).tiles@,
                self.visible_tiles@ == old(self).visible_tiles@,
                forall|j: int| 0 <= j < i ==> #[trigger] self.revealed_tiles@[j],
            decreases n - i,
        {
            self.revealed_tiles.set(i, true);
            i = i + 1;
        }
    }
}

proof fn lemma_idx_in_range(w: int, h: int, x: int, y: int)
    requires
        0 < w,
        0 <= x < w,
        0 <= y < h,
    ensures
        0 <= y * w + x < w * h,
{
    assert(y * w + x < w * h) by (nonlinear_arith)
        requires
            0 <= x < w,
            0 <= y < h,
    ;
    assert(0 <= y * w) by (nonlinear_arith)
        requires
            0 <= y,
            0 < w,
    ;
}

proof fn lemma_div_mod_of_idx(w: int, x: int, y: int)
    requires
        0 < w,
        0 <= x < w,
        0 <= y,
    ensures
        (y * w + x) / w == y,
        (y * w + x) % w == x,
{
    vstd::arithmetic::div_mod::lemma_fundamental_div_mod_converse(y * w + x, w, y, x);
}

proof fn lemma_idx_unique(w: int, i: int, x: int, y: int)
    requires
        0 < w,
        0 <= x < w,
        0 <= y,
        0 <= i,
        i != y * w + x,
    ensures
        !(i / w == y && i % w == x),
{
    vstd::arithmetic::div_mod::lemma_fundamental_div_mod(i, w);
    if i / w == y && i % w == x {
        assert(w * y == y * w) by (nonlinear_arith);
    }
}

} // verus!
