//! Per-node rendering options: text alignment and row spacing.

use vstd::prelude::*;

verus! {

/// Which side the text of a `Single` block is flushed to when the block is
/// padded to a larger draw width.  Padding spaces go on the opposite side.
#[derive(Clone, Copy, Debug)]
pub enum Alignment {
    Left,
    Right,
}

impl Default for Alignment {
    /// The default alignment is `Left`.
    fn default() -> (r: Self)
        ensures
            r == Alignment::Left,
    {
        Alignment::Left
    }
}

/// Options for a `Row`: `spacing` is the uniform gap, in space characters,
/// inserted before, between and after every child of the row.
#[derive(Clone, Copy, Debug)]
pub struct RowSettings {
    pub spacing: usize,
}

} // verus!
