//! Tests that drive the whole pipeline: the floating-point kernels (plane
//! transform, escape iteration, gradient colouring) are written here, feed
//! the verified core, and the finished buffer is checked pixel by pixel.

use fractal_render::FractalPicture;
use fractal_render::RawImage;
use fractal_render::select_pixel_color;
use fractal_render::tile_pixels;

use nalgebra::Complex;
use palette::gradient;
use palette::{LinSrgb, Pixel, Srgb};

const BLUE_GREEN: ((u8, u8, u8), (u8, u8, u8)) = ((0, 0, 255), (0, 255, 0));

fn julia_set(x: f64, y: f64, c: (f64, f64)) -> u8 {
    let mut z = Complex::new(x, y);
    let c = Complex::new(c.0, c.1);
    let mut i = 0;
    while i < 255 && z.norm() < 2.0 {
        z = z * z + c;
        i += 1;
    }
    i as u8
}

fn plane_x(x: u32, resolution: (u32, u32), zoom_point: (u32, u32), zoom_level: f64) -> f64 {
    (x as f64 - (resolution.0 + zoom_point.0 - resolution.0 / 2) as f64 / 2.0)
        / (resolution.0 as f64 / 2.0)
        * zoom_level
}

fn plane_y(y: u32, resolution: (u32, u32), zoom_point: (u32, u32), zoom_level: f64) -> f64 {
    (y as f64 - (resolution.1 + (zoom_point.1 - resolution.1 / 2)) as f64 / 2.0)
        / (resolution.1 as f64 / 2.0)
        * zoom_level
}

fn gradient_remix(
    zoom_point: (u32, u32),
    resolution: (u32, u32),
    colorspace: ((u8, u8, u8), (u8, u8, u8)),
    point: (u32, u32),
    zoom_level: f64,
) -> (u8, u8, u8) {
    let dist_max =
        ((resolution.0 as f64 / 2.0).powi(2) + (resolution.1 as f64 / 2.0).powi(2)).sqrt();
    let dist_zoom_to_center = ((zoom_point.0 as f64 - resolution.0 as f64 / 2.0).powi(2)
        + (zoom_point.1 as f64 - resolution.1 as f64 / 2.0).powi(2))
    .sqrt()
        * zoom_level;
    let dist_zoom_to_point = ((zoom_point.0 as f64 - point.0 as f64).powi(2)
        + (zoom_point.1 as f64 - point.1 as f64).powi(2))
    .sqrt()
        * zoom_level;
    let dist_rel = (dist_zoom_to_center + dist_zoom_to_point) / dist_max;

    let color_a = LinSrgb::new(
        colorspace.0.0 as f32 / 255.0,
        colorspace.0.1 as f32 / 255.0,
        colorspace.0.2 as f32 / 255.0,
    );
    let color_b = LinSrgb::new(
        colorspace.1.0 as f32 / 255.0,
        colorspace.1.1 as f32 / 255.0,
        colorspace.1.2 as f32 / 255.0,
    );
    let g = gradient::Gradient::new([color_a, color_b]).get(dist_rel as f32);
    let encoded: [u8; 3] = Srgb::from_linear(g).into_format().into_raw();
    (
        (encoded[0] as f64 * dist_rel) as u8,
        (encoded[2] as f64 + dist_rel) as u8,
        (encoded[1] as f64 + dist_rel) as u8,
    )
}

fn render_full(
    resolution: (u32, u32),
    seed: (f64, f64),
    offset: (i32, i32),
    zoom_level: f64,
    colorspace: ((u8, u8, u8), (u8, u8, u8)),
    threads: u32,
) -> FractalPicture {
    let mut p = FractalPicture::with_thread_count(resolution, offset, colorspace, threads);
    let zoom_point = p.zoom_point();
    for i in 0..threads {
        for task in p.batch_tiles(i) {
            let mut results = Vec::new();
            for (x, y) in tile_pixels(&task) {
                let px = plane_x(x, resolution, zoom_point, zoom_level);
                let py = plane_y(y, resolution, zoom_point, zoom_level);
                let erg = julia_set(px, py, seed);
                let remix = gradient_remix(zoom_point, resolution, colorspace, (x, y), zoom_level);
                results.push(RawImage::new(x, y, select_pixel_color(erg, remix)));
            }
            p.write_results(&results);
        }
    }
    p
}

#[test]
fn escape_count_range_and_in_set() {
    // The origin under seed (0, 0) never escapes: the iteration cap is hit.
    assert_eq!(julia_set(0.0, 0.0, (0.0, 0.0)), 255);
    // A start far outside the escape radius leaves at once.
    assert_eq!(julia_set(3.0, 0.0, (0.0, 0.0)), 0);
    assert_eq!(julia_set(0.0, -2.5, (-0.8, 0.156)), 0);
    // Any escape count is a u8, so it lies in [0, 255].
    for &(x, y) in &[(0.5, 0.5), (-0.3, 0.7), (1.99, 0.0), (0.0, 0.0)] {
        let _count: u8 = julia_set(x, y, (-0.8, 0.156));
    }
}

#[test]
fn coordinate_mapper_at_zoom_point() {
    // At the zoom-point pixel itself, with zoom level 1.0 and no offset, the
    // transform lands exactly on the plane origin.
    let resolution = (100, 100);
    let zoom_point = (50, 50);
    assert_eq!(plane_x(50, resolution, zoom_point, 1.0), 0.0);
    assert_eq!(plane_y(50, resolution, zoom_point, 1.0), 0.0);
    // Regression values for the image edges under the same view.
    assert_eq!(plane_x(0, resolution, zoom_point, 1.0), -1.0);
    assert_eq!(plane_y(0, resolution, zoom_point, 1.0), -1.0);
    assert_eq!(plane_x(99, resolution, zoom_point, 1.0), 0.98);
    assert_eq!(plane_y(99, resolution, zoom_point, 1.0), 0.98);
}

#[test]
fn render_twice_identical() {
    let a = render_full((20, 20), (-0.8, 0.156), (3, -2), 1.0, BLUE_GREEN, 2);
    let b = render_full((20, 20), (-0.8, 0.156), (3, -2), 1.0, BLUE_GREEN, 2);
    for x in 0..20 {
        for y in 0..20 {
            assert_eq!(a.pixel_at(x, y), b.pixel_at(x, y));
        }
    }
}

#[test]
fn end_to_end_scenario() {
    let resolution = (100, 100);
    let seed = (-0.8, 0.156);
    let zoom_level = 1.0;
    let p = render_full(resolution, seed, (0, 0), zoom_level, BLUE_GREEN, 4);
    assert_eq!(p.resolution(), resolution);
    let zoom_point = p.zoom_point();
    assert_eq!(zoom_point, (50, 50));

    let mut nonblack_center = 0;
    for x in 0..100 {
        for y in 0..100 {
            let px = plane_x(x, resolution, zoom_point, zoom_level);
            let py = plane_y(y, resolution, zoom_point, zoom_level);
            let erg = julia_set(px, py, seed);
            let c = p.pixel_at(x, y);
            if erg == 0 || erg == 255 {
                // Immediate escape and presumed-in-set both come out black.
                assert_eq!(c, (0, 0, 0));
            } else {
                // Everything else carries the remixed gradient colour.
                let expected = gradient_remix(zoom_point, resolution, BLUE_GREEN, (x, y), zoom_level);
                assert_eq!(c, expected);
                if (40..60).contains(&x) && (40..60).contains(&y) && c != (0, 0, 0) {
                    nonblack_center += 1;
                }
            }
        }
    }
    assert!(nonblack_center > 0);
}
