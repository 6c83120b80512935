//! The camera: which part of the map is on screen, and which glyph each tile shows.

use vstd::prelude::*;
use crate::font::{cp437, to_cp437};
use crate::map::{GameMap, TileType, spec_xy_idx};

verus! {

/// The screen window centred on the player: `(min_x, max_x, min_y, max_y)`.
pub open spec fn spec_screen_bounds(player_x: int, player_y: int, x_chars: int, y_chars: int) -> (int, int, int, int) {
    let min_x = player_x - x_chars / 2;
    let min_y = player_y - y_chars / 2;
    (min_x, min_x + x_chars, min_y, min_y + y_chars)
}

pub open spec fn fits_i32(x: int) -> bool {
    i32::MIN <= x <= i32::MAX
}

/// The map coordinates the screen shows, given the player's position and the console
/// size in characters.
pub fn get_screen_bounds(player_x: i32, player_y: i32, x_chars: u32, y_chars: u32) -> (b: (i32, i32, i32, i32))
    requires
        x_chars <= i32::MAX,
        y_chars <= i32::MAX,
        fits_i32(player_x - x_chars / 2),
        fits_i32(player_y - y_chars / 2),
        fits_i32(player_x - x_chars / 2 + x_chars),
        fits_i32(player_y - y_chars / 2 + y_chars),
    ensures
        (b.0 as int, b.1 as int, b.2 as int, b.3 as int) == spec_screen_bounds(player_x as int, player_y as int, x_chars as int, y_chars as int),
{
    let center_x = (x_chars / 2) as i32;
    let center_y = (y_chars / 2) as i32;
    let min_x = player_x - center_x;
    let max_x = min_x + x_chars as i32;
    let min_y = player_y - center_y;
    let max_y = min_y + y_chars as i32;
    (min_x, max_x, min_y, max_y)
}

/// Whether the tile at `(x, y)` is a wall the player has seen.
pub open spec fn spec_revealed_wall(m: &GameMap, x: int, y: int) -> bool {
    let idx = spec_xy_idx(m.width as int, x, y);
    m.tiles@[idx] == TileType::Wall && m.revealed_tiles@[idx]
}

pub fn is_revealed_and_wall(m: &GameMap, x: i32, y: i32) -> (b: bool)
    requires
        m.wf(),
        m.in_bounds(x as int, y as int),
    ensures
        b == spec_revealed_wall(m, x as int, y as int),
{
    let idx = m.xy_idx(x, y);
    m.tiles[idx] == TileType::Wall && m.revealed_tiles[idx]
}

/// Which neighbours of an inner wall tile are seen walls: 1 above, 2 below, 4 left, 8 right.
pub open spec fn spec_wall_mask(m: &GameMap, x: int, y: int) -> int {
    (if spec_revealed_wall(m, x, y - 1) { 1int } else { 0int })
        + (if spec_revealed_wall(m, x, y + 1) { 2int } else { 0int })
        + (if spec_revealed_wall(m, x - 1, y) { 4int } else { 0int })
        + (if spec_revealed_wall(m, x + 1, y) { 8int } else { 0int })
}

/// The line-drawing glyph (code page 437) that joins a wall to the neighbours in `mask`.
pub open spec fn spec_mask_glyph(mask: int) -> u16 {
    if mask == 0 { 9 }
    else if mask == 1 || mask == 2 || mask == 3 { 186 }
    else if mask == 4 || mask == 8 || mask == 12 { 205 }
    else if mask == 5 { 188 }
    else if mask == 6 { 187 }
    else if mask == 7 { 185 }
    else if mask == 9 { 200 }
    else if mask == 10 { 201 }
    else if mask == 11 { 204 }
    else if mask == 13 { 202 }
    else if mask == 14 { 203 }
    else if mask == 15 { 206 }
    else { 35 }
}

/// A wall on the map's outer edge is drawn as `#`; an inner wall joins its seen
/// wall neighbours.
pub open spec fn spec_wall_glyph(m: &GameMap, x: int, y: int) -> u16 {
    if x < 1 || x > m.width - 2 || y < 1 || y > m.height - 2 {
        35
    } else {
        spec_mask_glyph(spec_wall_mask(m, x, y))
    }
}

pub fn wall_glyph(m: &GameMap, x: i32, y: i32) -> (g: u16)
    requires
        m.wf(),
        m.in_bounds(x as int, y as int),
    ensures
        g == spec_wall_glyph(m, x as int, y as int),
{
    if x < 1 || x > m.width - 2 || y < 1 || y > m.height - 2 {
        return 35;
    }
    let mut mask: u8 = 0;
    if is_revealed_and_wall(m, x, y - 1) {
        mask += 1;
    }
    if is_revealed_and_wall(m, x, y + 1) {
        mask += 2;
    }
    if is_revealed_and_wall(m, x - 1, y) {
        mask += 4;
    }
    if is_revealed_and_wall(m, x + 1, y) {
        mask += 8;
    }
    match mask {
        0 => 9,
        1 => 186,
        2 => 186,
        3 => 186,
        4 => 205,
        5 => 188,
        6 => 187,
        7 => 185,
        8 => 205,
        9 => 200,
        10 => 201,
        11 => 204,
        12 => 205,
        13 => 202,
        14 => 203,
        15 => 206,
        _ => 35,
    }
}

/// The glyph (code page 437) that a tile shows.
pub open spec fn spec_tile_glyph(m: &GameMap, idx: int) -> u16 {
    match m.tiles@[idx] {
        TileType::Floor => cp437('.'),
        TileType::WoodFloor => cp437('.'),
        TileType::DownStairs => cp437('>'),
        TileType::UpStairs => cp437('<'),
        TileType::Wall => spec_wall_glyph(m, idx % (m.width as int), idx / (m.width as int)),
        TileType::Bridge => cp437('.'),
        TileType::Road => cp437('!'),
        TileType::Grass => cp437('"'),
        TileType::ShallowWater => cp437('\u{2248}'),
        TileType::DeepWater => cp437('\u{2248}'),
    }
}

pub fn tile_glyph(m: &GameMap, idx: usize) -> (g: u16)
    requires
        m.wf(),
        idx < m.tiles@.len(),
    ensures
        g == spec_tile_glyph(m, idx as int),
{
    match m.tiles[idx] {
        TileType::Floor => to_cp437('.'),
        TileType::WoodFloor => to_cp437('.'),
        TileType::DownStairs => to_cp437('>'),
        TileType::UpStairs => to_cp437('<'),
        TileType::Wall => {
            let w = m.width as usize;
            proof {
                let wi = m.width as int;
                assert(0 <= (idx as int) % wi < wi) by (nonlinear_arith) requires wi > 0;
                assert((idx as int) / wi < m.height as int) by (nonlinear_arith)
                    requires wi > 0, (idx as int) < wi * (m.height as int), idx >= 0;
                assert((idx as int) / wi >= 0) by (nonlinear_arith) requires wi > 0, idx >= 0;
            }
            wall_glyph(m, (idx % w) as i32, (idx / w) as i32)
        },
        TileType::Bridge => to_cp437('.'),
        TileType::Road => to_cp437('!'),
        TileType::Grass => to_cp437('"'),
        TileType::ShallowWater => to_cp437('\u{2248}'),
        TileType::DeepWater => to_cp437('\u{2248}'),
    }
}

/// An inner wall with no seen wall beside it is drawn as a pillar.
pub proof fn law_lone_wall_is_pillar(m: &GameMap, x: int, y: int)
    requires
        1 <= x <= m.width - 2,
        1 <= y <= m.height - 2,
        !spec_revealed_wall(m, x, y - 1),
        !spec_revealed_wall(m, x, y + 1),
        !spec_revealed_wall(m, x - 1, y),
        !spec_revealed_wall(m, x + 1, y),
    ensures
        spec_wall_glyph(m, x, y) == 9,
{
}

/// The screen window is as wide and as tall as the console, and the player is in it.
pub proof fn law_player_on_screen(px: int, py: int, x_chars: int, y_chars: int)
    requires
        x_chars > 0,
        y_chars > 0,
    ensures
        spec_screen_bounds(px, py, x_chars, y_chars).1 - spec_screen_bounds(px, py, x_chars, y_chars).0 == x_chars,
        spec_screen_bounds(px, py, x_chars, y_chars).3 - spec_screen_bounds(px, py, x_chars, y_chars).2 == y_chars,
        spec_screen_bounds(px, py, x_chars, y_chars).0 <= px < spec_screen_bounds(px, py, x_chars, y_chars).1,
        spec_screen_bounds(px, py, x_chars, y_chars).2 <= py < spec_screen_bounds(px, py, x_chars, y_chars).3,
{
}

} // verus!
