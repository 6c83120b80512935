//! Glyphs of rltk's code page 437 font.

use vstd::prelude::*;

verus! {

/// The glyph rltk's font draws for character `c`, as `rltk::to_cp437` looks it up in its
/// fixed table (0 for a character the table lacks).
pub uninterp spec fn cp437(c: char) -> u16;

/// Looks `c` up in rltk's code page 437 table (`rltk::to_cp437`). The table itself is
/// rltk's and is not restated: the result is named `cp437(c)`, a function of `c` alone.
#[verifier::external_body]
pub(crate) fn to_cp437(c: char) -> (g: u16)
    ensures
        g == cp437(c),
{
    rltk::to_cp437(c)
}

} // verus!
