//! The sprite record: a movable, prioritized, pattern-bearing screen object
//! living in one slot of the sprite pool.

use vstd::prelude::*;

use crate::bgsp_common::{SpCode, SpPalette, SpSymmetry, Symmetry};

verus! {

/// Screen position of a sprite, in unscaled pixels; may lie off screen.
#[derive(Clone, Copy, Debug, PartialEq, Eq, Structural)]
pub struct SpPos {
    pub x: i32,
    pub y: i32,
}

impl SpPos {
    /// The position `(x, y)`.
    pub fn new(x: i32, y: i32) -> (r: SpPos)
        ensures
            r == (SpPos { x, y }),
    {
        SpPos { x, y }
    }
}

impl Default for SpPos {
    /// The origin.
    fn default() -> (r: SpPos)
        ensures
            r == (SpPos { x: 0, y: 0 }),
    {
        SpPos { x: 0, y: 0 }
    }
}

/// The state of one fresh sprite slot: at the origin, pattern zero,
/// palette zero, identity symmetry, priority zero, invisible.
pub open spec fn spec_default_sprite() -> ClassicSprite {
    ClassicSprite {
        pos: SpPos { x: 0, y: 0 },
        code: 0,
        palette: 0,
        symmetry: Symmetry::Normal,
        priority: 0,
        visible: false,
    }
}

/// One sprite slot: position, pattern, palette, symmetry, stacking
/// priority and visibility.
#[derive(Clone, Copy, Debug, PartialEq, Eq, Structural)]
pub struct ClassicSprite {
    pub pos: SpPos,
    pub code: SpCode,
    pub palette: SpPalette,
    pub symmetry: SpSymmetry,
    pub priority: i32,
    pub visible: bool,
}

impl Default for ClassicSprite {
    /// A fresh, invisible slot.
    fn default() -> (r: ClassicSprite)
        ensures
            r == spec_default_sprite(),
    {
        ClassicSprite {
            pos: SpPos { x: 0, y: 0 },
            code: 0,
            palette: 0,
            symmetry: Symmetry::Normal,
            priority: 0,
            visible: false,
        }
    }
}

} // verus!
