//! The picture being rendered: its configuration, the grid of worker tiles,
//! and the merge of worker results into the output buffer.

use vstd::prelude::*;
use vstd::arithmetic::div_mod::lemma_fundamental_div_mod;
use vstd::arithmetic::div_mod::lemma_mod_bound;
use vstd::arithmetic::mul::lemma_mul_inequality;
use vstd::arithmetic::mul::lemma_mul_nonnegative;

use crate::buffer::OutputImage;
use crate::buffer::all_black;
use crate::buffer::get_image_pixel;
use crate::buffer::image_dims;
use crate::buffer::image_pixels;
use crate::buffer::new_image;
use crate::buffer::put_image_pixel;
use crate::tiling::PixelTask;
use crate::tiling::grid_covers;
use crate::tiling::grid_task;

verus! {

/// One computed pixel: its coordinates and its colour. A worker produces one
/// of these per pixel of its tile and hands them back to be merged.
pub struct RawImage {
    pub x: u32,
    pub y: u32,
    pub rgb: (u8, u8, u8),
}

impl RawImage {
    /// Packs one computed pixel.
    pub fn new(x: u32, y: u32, rgb: (u8, u8, u8)) -> (r: RawImage)
        ensures
            r.x == x,
            r.y == y,
            r.rgb == rgb,
    {
        RawImage { x, y, rgb }
    }
}

/// The set of pixel coordinates of a width x height image.
pub open spec fn rect(width: u32, height: u32) -> Set<(u32, u32)> {
    Set::new(|p: (u32, u32)| p.0 < width && p.1 < height)
}

/// The buffer contents after a list of worker results is written over `m`,
/// one by one, in order: a later entry wins where two name the same pixel.
pub open spec fn merged(m: Map<(u32, u32), (u8, u8, u8)>, rs: Seq<RawImage>) -> Map<
    (u32, u32),
    (u8, u8, u8),
>
    decreases rs.len(),
{
    if rs.len() == 0 {
        m
    } else {
        merged(m, rs.drop_last()).insert((rs.last().x, rs.last().y), rs.last().rgb)
    }
}

/// A merge leaves a coordinate alone that no entry of the batch names.
pub proof fn lemma_merged_untouched(
    m: Map<(u32, u32), (u8, u8, u8)>,
    rs: Seq<RawImage>,
    x: u32,
    y: u32,
)
    requires
        forall|k: int| 0 <= k < rs.len() ==> !((#[trigger] rs[k]).x == x && rs[k].y == y),
    ensures
        merged(m, rs)[(x, y)] == m[(x, y)],
        merged(m, rs).dom().contains((x, y)) == m.dom().contains((x, y)),
    decreases rs.len(),
{
    if rs.len() > 0 {
        lemma_merged_untouched(m, rs.drop_last(), x, y);
    }
}

/// Where exactly one entry of the batch names a coordinate, the merge writes
/// that entry's colour there.
pub proof fn lemma_merged_unique(m: Map<(u32, u32), (u8, u8, u8)>, rs: Seq<RawImage>, k: int)
    requires
        0 <= k < rs.len(),
        forall|k2: int|
            0 <= k2 < rs.len() && (#[trigger] rs[k2]).x == rs[k].x && rs[k2].y == rs[k].y
                ==> k2 == k,
    ensures
        merged(m, rs).dom().contains((rs[k].x, rs[k].y)),
        merged(m, rs)[(rs[k].x, rs[k].y)] == rs[k].rgb,
    decreases rs.len(),
{
    if k == rs.len() - 1 {
    } else {
        lemma_merged_unique(m, rs.drop_last(), k);
    }
}

/// The merge of a batch whose coordinates the buffer already holds adds no
/// coordinate: the domain stays what it was.
pub proof fn lemma_merged_dom_within(m: Map<(u32, u32), (u8, u8, u8)>, rs: Seq<RawImage>)
    requires
        forall|k: int| 0 <= k < rs.len() ==> m.dom().contains(((#[trigger] rs[k]).x, rs[k].y)),
    ensures
        merged(m, rs).dom() == m.dom(),
    decreases rs.len(),
{
    if rs.len() > 0 {
        lemma_merged_dom_within(m, rs.drop_last());
        assert(merged(m, rs).dom() =~= m.dom());
    }
}

/// Idempotence of the merge: writing a batch that names each pixel at most
/// once, and only pixels the buffer holds, a second time changes nothing.
pub proof fn lemma_merge_idempotent(m: Map<(u32, u32), (u8, u8, u8)>, rs: Seq<RawImage>)
    requires
        forall|k: int| 0 <= k < rs.len() ==> m.dom().contains(((#[trigger] rs[k]).x, rs[k].y)),
        forall|k: int, k2: int|
            0 <= k < rs.len() && 0 <= k2 < rs.len() && (#[trigger] rs[k]).x == (
            #[trigger] rs[k2]).x && rs[k].y == rs[k2].y ==> k == k2,
    ensures
        merged(merged(m, rs), rs) == merged(m, rs),
{
    let m1 = merged(m, rs);
    let m2 = merged(m1, rs);
    lemma_merged_dom_within(m, rs);
    lemma_merged_dom_within(m1, rs);
    assert forall|p: (u32, u32)| m1.dom().contains(p) implies m2[p] == m1[p] by {
        if exists|k: int| 0 <= k < rs.len() && (#[trigger] rs[k]).x == p.0 && rs[k].y == p.1 {
            let k = choose|k: int|
                0 <= k < rs.len() && (#[trigger] rs[k]).x == p.0 && rs[k].y == p.1;
            lemma_merged_unique(m, rs, k);
            lemma_merged_unique(m1, rs, k);
        } else {
            lemma_merged_untouched(m1, rs, p.0, p.1);
        }
    }
    assert(m2 =~= m1);
}

/// Relies on num_cpus::get: the number of logical CPUs available to the
/// process, documented to always be at least one.
#[verifier::external_body]
fn cpu_count() -> (n: usize)
    ensures
        1 <= n,
{
    num_cpus::get()
}

/// A Julia-set picture under construction: the configuration fixed at
/// creation and the output buffer the render is merged into.
pub struct FractalPicture {
    resolution: (u32, u32),
    pic: OutputImage,
    zoom_point: (u32, u32),
    colorspace: ((u8, u8, u8), (u8, u8, u8)),
    thread_count: u32,
}

impl FractalPicture {
    /// The image dimensions: (width, height).
    pub closed spec fn resolution_spec(self) -> (u32, u32) {
        self.resolution
    }

    /// The focal pixel of the view, in absolute pixel coordinates.
    pub closed spec fn zoom_point_spec(self) -> (u32, u32) {
        self.zoom_point
    }

    /// The gradient endpoints: (base colour, target colour).
    pub closed spec fn colorspace_spec(self) -> ((u8, u8, u8), (u8, u8, u8)) {
        self.colorspace
    }

    /// How many workers the image is partitioned for, per axis.
    pub closed spec fn thread_count_spec(self) -> u32 {
        self.thread_count
    }

    /// What the output buffer holds, per pixel coordinate.
    pub closed spec fn pixels(self) -> Map<(u32, u32), (u8, u8, u8)> {
        image_pixels(self.pic)
    }

    /// Well-formedness: the buffer has exactly the configured dimensions and
    /// holds every coordinate of the image rectangle, the thread count is
    /// positive, and the image's byte length fits a vector.
    pub closed spec fn wf(self) -> bool {
        &&& image_dims(self.pic) == self.resolution
        &&& image_pixels(self.pic).dom() == rect(self.resolution.0, self.resolution.1)
        &&& 1 <= self.thread_count
        &&& 3 * self.resolution.0 * self.resolution.1 <= usize::MAX
    }

    /// What well-formedness gives a caller: the buffer's domain is the image
    /// rectangle and the worker count is positive.
    pub proof fn lemma_wf(self)
        requires
            self.wf(),
        ensures
            self.pixels().dom() == rect(self.resolution_spec().0, self.resolution_spec().1),
            1 <= self.thread_count_spec(),
            3 * self.resolution_spec().0 * self.resolution_spec().1 <= usize::MAX,
    {
    }

    /// Builds the picture with an explicit worker count. The zoom point is
    /// the image centre shifted by the given offset; the buffer starts all
    /// black.
    pub fn with_thread_count(
        resolution: (u32, u32),
        zoom_point: (i32, i32),
        colorspace: ((u8, u8, u8), (u8, u8, u8)),
        thread_count: u32,
    ) -> (p: FractalPicture)
        requires
            3 * resolution.0 * resolution.1 <= usize::MAX,
            0 <= resolution.0 as int / 2 + zoom_point.0 as int,
            0 <= resolution.1 as int / 2 + zoom_point.1 as int,
            1 <= thread_count,
        ensures
            p.wf(),
            p.resolution_spec() == resolution,
            p.zoom_point_spec().0 as int == resolution.0 as int / 2 + zoom_point.0 as int,
            p.zoom_point_spec().1 as int == resolution.1 as int / 2 + zoom_point.1 as int,
            p.colorspace_spec() == colorspace,
            p.thread_count_spec() == thread_count,
            p.pixels() == all_black(resolution.0, resolution.1),
    {
        let zx: i64 = (resolution.0 / 2) as i64 + zoom_point.0 as i64;
        let zy: i64 = (resolution.1 / 2) as i64 + zoom_point.1 as i64;
        let pic = new_image(resolution.0, resolution.1);
        proof {
            assert(all_black(resolution.0, resolution.1).dom() =~= rect(
                resolution.0,
                resolution.1,
            ));
        }
        FractalPicture { resolution, pic, zoom_point: (zx as u32, zy as u32), colorspace, thread_count }
    }

    /// Builds the picture as the renderer does on its own: the worker count
    /// is half the machine's logical CPUs, clamped to at least one and at
    /// most u32::MAX. The count depends on the machine, so only its
    /// positivity is promised.
    pub fn new(
        resolution: (u32, u32),
        zoom_point: (i32, i32),
        colorspace: ((u8, u8, u8), (u8, u8, u8)),
    ) -> (p: FractalPicture)
        requires
            3 * resolution.0 * resolution.1 <= usize::MAX,
            0 <= resolution.0 as int / 2 + zoom_point.0 as int,
            0 <= resolution.1 as int / 2 + zoom_point.1 as int,
        ensures
            p.wf(),
            p.resolution_spec() == resolution,
            p.zoom_point_spec().0 as int == resolution.0 as int / 2 + zoom_point.0 as int,
            p.zoom_point_spec().1 as int == resolution.1 as int / 2 + zoom_point.1 as int,
            p.colorspace_spec() == colorspace,
            1 <= p.thread_count_spec(),
            p.pixels() == all_black(resolution.0, resolution.1),
    {
        let cpus: usize = cpu_count();
        let half: usize = cpus / 2;
        let threads: u32 = if half == 0 {
            1
        } else if half > (u32::MAX as usize) {
            u32::MAX
        } else {
            half as u32
        };
        Self::with_thread_count(resolution, zoom_point, colorspace, threads)
    }

    /// The width and height of the image.
    pub fn resolution(&self) -> (r: (u32, u32))
        ensures
            r == self.resolution_spec(),
    {
        self.resolution
    }

    /// The focal pixel of the view.
    pub fn zoom_point(&self) -> (r: (u32, u32))
        ensures
            r == self.zoom_point_spec(),
    {
        self.zoom_point
    }

    /// The gradient endpoints.
    pub fn colorspace(&self) -> (r: ((u8, u8, u8), (u8, u8, u8)))
        ensures
            r == self.colorspace_spec(),
    {
        self.colorspace
    }

    /// The per-axis worker count.
    pub fn thread_count(&self) -> (r: u32)
        ensures
            r == self.thread_count_spec(),
    {
        self.thread_count
    }

    /// The grid tile at position (i, j): its extent is the integer quotient
    /// of the resolution by the thread count, its origin that extent scaled
    /// by the grid position. Covering a pixel coincides with `grid_covers`.
    pub fn tile(&self, i: u32, j: u32) -> (task: PixelTask)
        requires
            self.wf(),
            i < self.thread_count_spec(),
            j < self.thread_count_spec(),
        ensures
            task.wf(),
            task == grid_task(
                self.resolution_spec().0,
                self.resolution_spec().1,
                self.thread_count_spec(),
                i as int,
                j as int,
            ),
            task.extent.0 as int == self.resolution_spec().0 as int
                / self.thread_count_spec() as int,
            task.extent.1 as int == self.resolution_spec().1 as int
                / self.thread_count_spec() as int,
            task.origin.0 as int == i as int * task.extent.0 as int,
            task.origin.1 as int == j as int * task.extent.1 as int,
            forall|px: int, py: int|
                task.covers(px, py) <==> grid_covers(
                    self.resolution_spec().0,
                    self.resolution_spec().1,
                    self.thread_count_spec(),
                    i as int,
                    j as int,
                    px,
                    py,
                ),
    {
        let w: u32 = self.resolution.0;
        let h: u32 = self.resolution.1;
        let t: u32 = self.thread_count;
        let tw: u32 = w / t;
        let th: u32 = h / t;
        proof {
            lemma_fundamental_div_mod(w as int, t as int);
            lemma_fundamental_div_mod(h as int, t as int);
            lemma_mod_bound(w as int, t as int);
            lemma_mod_bound(h as int, t as int);
            lemma_mul_inequality(i as int + 1, t as int, tw as int);
            lemma_mul_inequality(j as int + 1, t as int, th as int);
            lemma_mul_nonnegative(i as int, tw as int);
            lemma_mul_nonnegative(j as int, th as int);
            assert((i as int + 1) * tw as int == i as int * tw as int + tw as int)
                by (nonlinear_arith);
            assert((j as int + 1) * th as int == j as int * th as int + th as int)
                by (nonlinear_arith);
            assert(tw as int <= w as int && th as int <= h as int) by (nonlinear_arith)
                requires
                    w as int == t as int * tw as int + w as int % t as int,
                    h as int == t as int * th as int + h as int % t as int,
                    0 <= w as int % t as int,
                    0 <= h as int % t as int,
                    1 <= t as int,
                    0 <= tw as int,
                    0 <= th as int,
            ;
            lemma_mul_inequality(tw as int, w as int, th as int);
            lemma_mul_inequality(th as int, h as int, w as int);
            lemma_mul_nonnegative(w as int, h as int);
            assert(i as int * tw as int + tw as int <= w as int);
            assert(j as int * th as int + th as int <= h as int);
            assert(tw as int * th as int <= w as int * h as int);
            assert(3 * (w as int) * (h as int) <= usize::MAX as int);
            assert(w as int * h as int <= 3 * (w as int) * (h as int)) by (nonlinear_arith)
                requires
                    0 <= w as int * h as int,
            ;
        }
        PixelTask { origin: (i * tw, j * th), extent: (tw, th) }
    }

    /// All tiles of row batch i: the tile at grid position (i, j) for every j
    /// below the thread count. One render processes the batches in turn,
    /// merging each batch's results before the next starts. Where the
    /// resolution does not divide evenly by the thread count, the remainder
    /// pixels at the far edges belong to no tile and keep the buffer's
    /// initial black: an accepted boundary condition of this renderer.
    pub fn batch_tiles(&self, i: u32) -> (tasks: Vec<PixelTask>)
        requires
            self.wf(),
            i < self.thread_count_spec(),
        ensures
            tasks@.len() == self.thread_count_spec(),
            forall|j: int|
                0 <= j < tasks@.len() ==> {
                    let task = #[trigger] tasks@[j];
                    &&& task.wf()
                    &&& task == grid_task(
                        self.resolution_spec().0,
                        self.resolution_spec().1,
                        self.thread_count_spec(),
                        i as int,
                        j,
                    )
                    &&& task.extent.0 as int == self.resolution_spec().0 as int
                        / self.thread_count_spec() as int
                    &&& task.extent.1 as int == self.resolution_spec().1 as int
                        / self.thread_count_spec() as int
                    &&& task.origin.0 as int == i as int * task.extent.0 as int
                    &&& task.origin.1 as int == j * task.extent.1 as int
                    &&& forall|px: int, py: int|
                        task.covers(px, py) <==> grid_covers(
                            self.resolution_spec().0,
                            self.resolution_spec().1,
                            self.thread_count_spec(),
                            i as int,
                            j,
                            px,
                            py,
                        )
                },
    {
        let t: u32 = self.thread_count;
        let mut tasks: Vec<PixelTask> = Vec::new();
        let mut j: u32 = 0;
        while j < t
            invariant
                self.wf(),
                t == self.thread_count_spec(),
                i < t,
                j <= t,
                tasks@.len() == j,
                forall|j2: int|
                    0 <= j2 < tasks@.len() ==> {
                        let task = #[trigger] tasks@[j2];
                        &&& task.wf()
                        &&& task == grid_task(
                            self.resolution_spec().0,
                            self.resolution_spec().1,
                            t,
                            i as int,
                            j2,
                        )
                        &&& task.extent.0 as int == self.resolution_spec().0 as int / t as int
                        &&& task.extent.1 as int == self.resolution_spec().1 as int / t as int
                        &&& task.origin.0 as int == i as int * task.extent.0 as int
                        &&& task.origin.1 as int == j2 * task.extent.1 as int
                        &&& forall|px: int, py: int|
                            task.covers(px, py) <==> grid_covers(
                                self.resolution_spec().0,
                                self.resolution_spec().1,
                                t,
                                i as int,
                                j2,
                                px,
                                py,
                            )
                    },
            decreases t - j,
        {
            let task = self.tile(i, j);
            tasks.push(task);
            j = j + 1;
        }
        tasks
    }

    /// Merges one batch of worker results into the output buffer: entry after
    /// entry, in order, each writing its colour at its coordinates. The new
    /// contents are exactly `merged` of the old contents and the batch;
    /// nothing else about the picture changes.
    pub fn write_results(&mut self, results: &Vec<RawImage>)
        requires
            old(self).wf(),
            forall|k: int|
                0 <= k < results@.len() ==> (#[trigger] results@[k]).x
                    < old(self).resolution_spec().0 && results@[k].y
                    < old(self).resolution_spec().1,
        ensures
            final(self).wf(),
            final(self).resolution_spec() == old(self).resolution_spec(),
            final(self).zoom_point_spec() == old(self).zoom_point_spec(),
            final(self).colorspace_spec() == old(self).colorspace_spec(),
            final(self).thread_count_spec() == old(self).thread_count_spec(),
            final(self).pixels() == merged(old(self).pixels(), results@),
    {
        let ghost m0 = image_pixels(old(self).pic);
        let n: usize = results.len();
        let mut k: usize = 0;
        while k < n
            invariant
                self.resolution == old(self).resolution,
                self.zoom_point == old(self).zoom_point,
                self.colorspace == old(self).colorspace,
                self.thread_count == old(self).thread_count,
                old(self).wf(),
                n == results@.len(),
                k <= n,
                forall|k2: int|
                    0 <= k2 < results@.len() ==> (#[trigger] results@[k2]).x
                        < old(self).resolution.0 && results@[k2].y < old(self).resolution.1,
                m0 == image_pixels(old(self).pic),
                image_dims(self.pic) == old(self).resolution,
                image_pixels(self.pic).dom() == rect(old(self).resolution.0, old(self).resolution.1),
                image_pixels(self.pic) == merged(m0, results@.take(k as int)),
            decreases n - k,
        {
            let rx: u32 = results[k].x;
            let ry: u32 = results[k].y;
            let rc: (u8, u8, u8) = results[k].rgb;
            let ghost pre = image_pixels(self.pic);
            put_image_pixel(&mut self.pic, rx, ry, rc);
            proof {
                assert(image_pixels(self.pic).dom() =~= rect(
                    old(self).resolution.0,
                    old(self).resolution.1,
                ));
                assert(results@.take(k as int + 1).drop_last() =~= results@.take(k as int));
                assert(results@.take(k as int + 1).last() == results@[k as int]);
                assert(image_pixels(self.pic) == merged(m0, results@.take(k as int + 1)));
            }
            k = k + 1;
        }
        proof {
            assert(results@.take(n as int) =~= results@);
        }
    }

    /// The colour the buffer holds at (x, y).
    pub fn pixel_at(&self, x: u32, y: u32) -> (c: (u8, u8, u8))
        requires
            self.wf(),
            x < self.resolution_spec().0,
            y < self.resolution_spec().1,
        ensures
            c == self.pixels()[(x, y)],
    {
        get_image_pixel(&self.pic, x, y)
    }
}

} // verus!
