//! The tiling scheme: rectangular per-worker regions and the order in which a
//! worker visits the pixels of its region.

use vstd::prelude::*;
use vstd::arithmetic::div_mod::lemma_div_pos_is_pos;
use vstd::arithmetic::div_mod::lemma_fundamental_div_mod;
use vstd::arithmetic::div_mod::lemma_fundamental_div_mod_converse;
use vstd::arithmetic::div_mod::lemma_mod_bound;
use vstd::arithmetic::div_mod::lemma_multiply_divide_lt;
use vstd::arithmetic::mul::lemma_mul_inequality;
use vstd::arithmetic::mul::lemma_mul_nonnegative;

verus! {

/// A rectangular sub-region of the image, assigned to one worker: an origin
/// and an extent, both in pixel coordinates.
pub struct PixelTask {
    pub origin: (u32, u32),
    pub extent: (u32, u32),
}

impl PixelTask {
    /// The region stays inside pixel-coordinate range and its pixel count
    /// fits a vector length.
    pub open spec fn wf(self) -> bool {
        &&& self.origin.0 + self.extent.0 <= u32::MAX
        &&& self.origin.1 + self.extent.1 <= u32::MAX
        &&& self.extent.0 * self.extent.1 <= usize::MAX
    }

    /// Whether the pixel (px, py) lies in this region.
    pub open spec fn covers(self, px: int, py: int) -> bool {
        &&& self.origin.0 <= px < self.origin.0 + self.extent.0
        &&& self.origin.1 <= py < self.origin.1 + self.extent.1
    }

    /// How many pixels the region holds.
    pub open spec fn area(self) -> int {
        self.extent.0 * self.extent.1
    }

    /// The pixel visited at step k of the enumeration: columns are walked one
    /// after the other, each from top to bottom.
    pub open spec fn pixel(self, k: int) -> (int, int) {
        (
            self.origin.0 + k / (self.extent.1 as int),
            self.origin.1 + k % (self.extent.1 as int),
        )
    }
}

/// Every pixel of the task's region, in enumeration order: entry k is
/// `task.pixel(k)`, so each covered pixel appears exactly once
/// (`lemma_tile_enumeration`).
pub fn tile_pixels(task: &PixelTask) -> (r: Vec<(u32, u32)>)
    requires
        task.wf(),
    ensures
        r@.len() == task.area(),
        forall|k: int|
            0 <= k < r@.len() ==> (#[trigger] r@[k]).0 == task.pixel(k).0 && r@[k].1
                == task.pixel(k).1,
{
    let ox: u32 = task.origin.0;
    let oy: u32 = task.origin.1;
    let e0: u32 = task.extent.0;
    let e1: u32 = task.extent.1;
    let mut r: Vec<(u32, u32)> = Vec::new();
    let mut x: u32 = 0;
    while x < e0
        invariant
            task.wf(),
            ox == task.origin.0,
            oy == task.origin.1,
            e0 == task.extent.0,
            e1 == task.extent.1,
            x <= e0,
            r@.len() == x as int * e1 as int,
            forall|k: int|
                0 <= k < r@.len() ==> (#[trigger] r@[k]).0 == task.pixel(k).0 && r@[k].1
                    == task.pixel(k).1,
        decreases e0 - x,
    {
        let mut y: u32 = 0;
        while y < e1
            invariant
                task.wf(),
                ox == task.origin.0,
                oy == task.origin.1,
                e0 == task.extent.0,
                e1 == task.extent.1,
                x < e0,
                y <= e1,
                r@.len() == x as int * e1 as int + y as int,
                forall|k: int|
                    0 <= k < r@.len() ==> (#[trigger] r@[k]).0 == task.pixel(k).0 && r@[k].1
                        == task.pixel(k).1,
            decreases e1 - y,
        {
            proof {
                lemma_mul_inequality(x as int + 1, e0 as int, e1 as int);
                assert((x as int + 1) * e1 as int == x as int * e1 as int + e1 as int)
                    by (nonlinear_arith);
                lemma_fundamental_div_mod_converse(
                    x as int * e1 as int + y as int,
                    e1 as int,
                    x as int,
                    y as int,
                );
            }
            r.push((ox + x, oy + y));
            y = y + 1;
        }
        proof {
            assert((x as int + 1) * e1 as int == x as int * e1 as int + e1 as int)
                by (nonlinear_arith);
        }
        x = x + 1;
    }
    r
}

/// The tile of the T x T grid at position (i, j): what `FractalPicture::tile`
/// hands a worker. Its extent is the integer quotient of the resolution by
/// the thread count, its origin that extent scaled by the grid position.
pub open spec fn grid_task(width: u32, height: u32, t: u32, i: int, j: int) -> PixelTask {
    let tw = width as int / t as int;
    let th = height as int / t as int;
    PixelTask {
        origin: ((i * tw) as u32, (j * th) as u32),
        extent: (tw as u32, th as u32),
    }
}

/// The fields of a grid task, read back as unbounded integers: for grid
/// positions inside the grid, none of the casts in `grid_task` truncates.
proof fn lemma_grid_task_fields(width: u32, height: u32, t: u32, i: int, j: int)
    requires
        1 <= t,
        0 <= i < t,
        0 <= j < t,
    ensures
        ({
            let tw = width as int / t as int;
            let th = height as int / t as int;
            let task = grid_task(width, height, t, i, j);
            &&& task.extent.0 == tw
            &&& task.extent.1 == th
            &&& task.origin.0 == i * tw
            &&& task.origin.1 == j * th
            &&& i * tw + tw <= width
            &&& j * th + th <= height
        }),
{
    let tw = width as int / t as int;
    let th = height as int / t as int;
    lemma_fundamental_div_mod(width as int, t as int);
    lemma_fundamental_div_mod(height as int, t as int);
    lemma_mod_bound(width as int, t as int);
    lemma_mod_bound(height as int, t as int);
    lemma_div_pos_is_pos(width as int, t as int);
    lemma_div_pos_is_pos(height as int, t as int);
    lemma_mul_inequality(i + 1, t as int, tw);
    lemma_mul_inequality(j + 1, t as int, th);
    lemma_mul_nonnegative(i, tw);
    lemma_mul_nonnegative(j, th);
    assert((i + 1) * tw == i * tw + tw) by (nonlinear_arith);
    assert((j + 1) * th == j * th + th) by (nonlinear_arith);
}

/// Whether the tile at grid position (i, j) of the T x T tiling of a
/// width x height image covers the pixel (px, py). Each tile's extent is the
/// integer quotient of the resolution by the thread count, and its origin is
/// that extent scaled by the grid position.
pub open spec fn grid_covers(width: u32, height: u32, t: u32, i: int, j: int, px: int, py: int) -> bool {
    let tw = width as int / t as int;
    let th = height as int / t as int;
    &&& i * tw <= px < i * tw + tw
    &&& j * th <= py < j * th + th
}

/// Tiling completeness: when both sides of the resolution divide evenly by
/// the thread count, every pixel of the image is covered by exactly one tile
/// of the grid, the one at the quotient of the pixel by the tile extent.
pub proof fn lemma_grid_complete(width: u32, height: u32, t: u32, px: int, py: int)
    requires
        1 <= t,
        width as int % t as int == 0,
        height as int % t as int == 0,
        0 <= px < width,
        0 <= py < height,
    ensures
        ({
            let tw = width as int / t as int;
            let th = height as int / t as int;
            &&& 0 < tw && 0 < th
            &&& 0 <= px / tw < t
            &&& 0 <= py / th < t
            &&& grid_covers(width, height, t, px / tw, py / th, px, py)
            &&& forall|i: int, j: int|
                0 <= i < t && 0 <= j < t && #[trigger] grid_covers(width, height, t, i, j, px, py)
                    ==> i == px / tw && j == py / th
        }),
{
    let w = width as int;
    let h = height as int;
    let tt = t as int;
    let tw = w / tt;
    let th = h / tt;
    lemma_fundamental_div_mod(w, tt);
    lemma_fundamental_div_mod(h, tt);
    assert(w == tt * tw && h == tt * th);
    assert(0 < tw && 0 < th) by (nonlinear_arith)
        requires
            w == tt * tw,
            h == tt * th,
            1 <= tt,
            0 < w,
            0 < h,
    ;
    lemma_div_pos_is_pos(px, tw);
    lemma_div_pos_is_pos(py, th);
    lemma_multiply_divide_lt(px, tw, tt);
    lemma_multiply_divide_lt(py, th, tt);
    lemma_fundamental_div_mod(px, tw);
    lemma_fundamental_div_mod(py, th);
    lemma_mod_bound(px, tw);
    lemma_mod_bound(py, th);
    assert(0 <= px / tw < tt);
    assert(0 <= py / th < tt);
    assert((px / tw) * tw <= px < (px / tw) * tw + tw);
    assert((py / th) * th <= py < (py / th) * th + th);
    assert(grid_covers(width, height, t, px / tw, py / th, px, py));
    assert forall|i: int, j: int|
        0 <= i < t && 0 <= j < t && #[trigger] grid_covers(width, height, t, i, j, px, py)
            implies i == px / tw && j == py / th by {
        lemma_fundamental_div_mod_converse(px, tw, i, px - i * tw);
        lemma_fundamental_div_mod_converse(py, th, j, py - j * th);
    }
}

/// Full tiling completeness: when both sides of the resolution divide evenly
/// by the thread count, every pixel of the image is visited by exactly one
/// enumeration step of exactly one grid tile, so one render computes each
/// pixel exactly once.
pub proof fn lemma_render_enumerates_once(width: u32, height: u32, t: u32, px: int, py: int)
    requires
        1 <= t,
        width as int % t as int == 0,
        height as int % t as int == 0,
        0 <= px < width,
        0 <= py < height,
    ensures
        ({
            let tw = width as int / t as int;
            let th = height as int / t as int;
            let i0 = px / tw;
            let j0 = py / th;
            let k0 = (px - i0 * tw) * th + (py - j0 * th);
            &&& 0 <= i0 < t && 0 <= j0 < t
            &&& 0 <= k0 < grid_task(width, height, t, i0, j0).area()
            &&& grid_task(width, height, t, i0, j0).pixel(k0) == (px, py)
            &&& forall|i: int, j: int, k: int|
                0 <= i < t && 0 <= j < t && 0 <= k < grid_task(width, height, t, i, j).area()
                    && #[trigger] grid_task(width, height, t, i, j).pixel(k) == (px, py) ==> i
                    == i0 && j == j0 && k == k0
        }),
{
    let tw = width as int / t as int;
    let th = height as int / t as int;
    lemma_grid_complete(width, height, t, px, py);
    let i0 = px / tw;
    let j0 = py / th;
    let task0 = grid_task(width, height, t, i0, j0);
    lemma_grid_task_fields(width, height, t, i0, j0);
    assert(task0.covers(px, py));
    lemma_tile_enumeration(task0, px, py);
    let k0 = (px - i0 * tw) * th + (py - j0 * th);
    assert forall|i: int, j: int, k: int|
        0 <= i < t && 0 <= j < t && 0 <= k < grid_task(width, height, t, i, j).area()
            && #[trigger] grid_task(width, height, t, i, j).pixel(k) == (px, py) implies i == i0
        && j == j0 && k == k0 by {
        let task = grid_task(width, height, t, i, j);
        lemma_grid_task_fields(width, height, t, i, j);
        lemma_pixel_in_region(task, k);
        assert(grid_covers(width, height, t, i, j, px, py));
        assert(i == i0 && j == j0);
        lemma_tile_enumeration(task0, px, py);
    }
}

/// Every step of a tile's enumeration stays inside the tile's region.
pub proof fn lemma_pixel_in_region(task: PixelTask, k: int)
    requires
        0 <= k < task.area(),
    ensures
        task.covers(task.pixel(k).0, task.pixel(k).1),
{
    let e0 = task.extent.0 as int;
    let e1 = task.extent.1 as int;
    assert(1 <= e0 && 1 <= e1) by (nonlinear_arith)
        requires
            0 <= k,
            k < e0 * e1,
            0 <= e0,
            0 <= e1,
    ;
    lemma_div_pos_is_pos(k, e1);
    lemma_mod_bound(k, e1);
    lemma_multiply_divide_lt(k, e1, e0);
}

/// The enumeration of `tile_pixels` hits every pixel of its region exactly
/// once: a covered pixel is named by the index built from its offsets, and by
/// no other in-range index.
pub proof fn lemma_tile_enumeration(task: PixelTask, px: int, py: int)
    requires
        task.covers(px, py),
    ensures
        ({
            let k = (px - task.origin.0) * task.extent.1 + (py - task.origin.1);
            &&& 0 <= k < task.area()
            &&& task.pixel(k) == (px, py)
            &&& forall|k2: int|
                0 <= k2 < task.area() && #[trigger] task.pixel(k2) == (px, py) ==> k2 == k
        }),
{
    let e1 = task.extent.1 as int;
    let i = px - task.origin.0;
    let j = py - task.origin.1;
    let k = i * e1 + j;
    lemma_fundamental_div_mod_converse(k, e1, i, j);
    lemma_mul_inequality(0, i, e1);
    lemma_mul_inequality(i + 1, task.extent.0 as int, e1);
    assert((i + 1) * e1 == i * e1 + e1) by (nonlinear_arith);
    assert forall|k2: int|
        0 <= k2 < task.area() && #[trigger] task.pixel(k2) == (px, py) implies k2 == k by {
        assert(k2 / e1 == i && k2 % e1 == j);
        lemma_fundamental_div_mod(k2, e1);
        assert(k2 == e1 * i + j);
    }
}

} // verus!
