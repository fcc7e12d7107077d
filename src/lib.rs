//! Rasterises a planar subdivision into a colour buffer, keeping a per-pixel
//! cell classification so that recolouring a cell never repeats point location.

pub mod color;
pub mod engine;
pub mod picker;
