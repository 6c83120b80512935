//! The index of what blocks each tile. (What stands on a tile is read straight off the
//! entity table: see `tile_contents`.)

use vstd::prelude::*;
use crate::player::{blocked_at, tile_blocked};
use crate::world::World;

verus! {

pub struct MapIndexingSystem {}

impl MapIndexingSystem {
    /// Works out, for every tile, whether it blocks movement: its terrain does, or a
    /// living blocking creature or object stands there.
    pub fn run(&mut self, w: &World) -> (blocked: Vec<bool>)
        requires
            w.wf(),
        ensures
            blocked@.len() == w.view().tiles.len(),
            forall|i: int| 0 <= i < blocked@.len() ==> #[trigger] blocked@[i] == tile_blocked(w.view(), i),
    {
        let n = w.map.tiles.len();
        let mut blocked: Vec<bool> = Vec::new();
        let mut i: usize = 0;
        while i < n
            invariant
                i <= n,
                n == w.view().tiles.len(),
                w.wf(),
                blocked@.len() == i,
                forall|k: int| 0 <= k < i ==> #[trigger] blocked@[k] == tile_blocked(w.view(), k),
            decreases n - i,
        {
            let b = blocked_at(w, i);
            blocked.push(b);
            i = i + 1;
        }
        blocked
    }
}

} // verus!
