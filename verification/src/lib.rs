//! A retained-mode 2D tile/sprite compositor in the style of classic console
//! graphics hardware: fixed-size palette-indexed patterns are combined with a
//! palette selection and a geometric symmetry to produce pixel bitmaps, which
//! are cached by a texture bank and blitted into output frames by a toroidal
//! background plane and a fixed-pool sprite compositor.

pub mod bg_resources;
pub mod bgsp_common;
pub mod classic_sprite;
pub mod imageops;
pub mod texture_bank;
pub mod rgba_image;
pub mod sp_resources;
