//! A Julia-set fractal renderer.
//!
//! The image is partitioned into a grid of rectangular tiles; for every pixel
//! of a tile, a coordinate transform, an escape-time iteration and a gradient
//! lookup produce a colour, and the per-tile results are merged into one
//! output buffer. This crate holds the integer core of that pipeline: the
//! configuration, the tiling scheme, the pixel enumeration, the merge into
//! the buffer, and the rule that maps extreme escape counts to black. The
//! floating-point kernels (the escape iteration itself, the plane transform,
//! the gradient) live with the caller, which hands their results back in as
//! plain values.

mod buffer;
mod color;
mod picture;
mod tiling;

pub use buffer::OutputImage;
pub use buffer::all_black;
pub use color::select_pixel_color;
pub use picture::FractalPicture;
pub use picture::RawImage;
pub use picture::lemma_merge_idempotent;
pub use picture::lemma_merged_dom_within;
pub use picture::lemma_merged_unique;
pub use picture::lemma_merged_untouched;
pub use picture::merged;
pub use picture::rect;
pub use tiling::PixelTask;
pub use tiling::grid_covers;
pub use tiling::grid_task;
pub use tiling::lemma_grid_complete;
pub use tiling::lemma_pixel_in_region;
pub use tiling::lemma_render_enumerates_once;
pub use tiling::lemma_tile_enumeration;
pub use tiling::tile_pixels;
