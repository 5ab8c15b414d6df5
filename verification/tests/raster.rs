use mandelbrot::bands::{partition, Band};
use mandelbrot::escape::IterationResult;
use mandelbrot::raster::Image;

/// The escape-time classification of one complex point, as the unverified
/// evaluator computes it: iterate z := z^2 + c up to `limit` times and
/// report the first iteration whose result has squared magnitude above 4.
fn escape_count(c_re: f64, c_im: f64, limit: u32) -> IterationResult {
    let mut z_re = 0.0f64;
    let mut z_im = 0.0f64;
    for i in 0..limit {
        let re = z_re * z_re - z_im * z_im + c_re;
        let im = 2.0 * z_re * z_im + c_im;
        z_re = re;
        z_im = im;
        if z_re * z_re + z_im * z_im > 4.0 {
            return IterationResult::Divergent(i);
        }
    }
    IterationResult::Bounded
}

/// The linear interpolation from a pixel corner to a complex coordinate,
/// as the unverified coordinate mapper computes it.
fn pixel_point(
    bounds: (usize, usize),
    pixel: (usize, usize),
    upper_left: (f64, f64),
    lower_right: (f64, f64),
) -> (f64, f64) {
    let width = lower_right.0 - upper_left.0;
    let height = upper_left.1 - lower_right.1;
    (
        upper_left.0 + pixel.0 as f64 * width / bounds.0 as f64,
        upper_left.1 - pixel.1 as f64 * height / bounds.1 as f64,
    )
}

#[test]
fn new_image_is_zeroed() {
    let img = Image::<u8>::new(3, 2);
    assert_eq!(img.width(), 3);
    assert_eq!(img.height(), 2);
    assert_eq!(img.pixels(), &vec![0u8; 6]);
}

#[test]
fn zero_width_resolution_yields_empty_buffer() {
    let img = Image::<u8>::new(0, 5);
    assert_eq!(img.width(), 0);
    assert_eq!(img.height(), 5);
    assert!(img.pixels().is_empty());
}

#[test]
fn zero_height_resolution_yields_empty_buffer() {
    let img = Image::<u8>::new(5, 0);
    assert!(img.pixels().is_empty());
    let bands = partition(0, 8);
    assert!(bands.is_empty());
}

#[test]
fn indices_run_row_major() {
    let img = Image::<u8>::new(3, 2);
    let indices = img.get_indices();
    assert_eq!(
        indices,
        vec![(0, 0), (1, 0), (2, 0), (0, 1), (1, 1), (2, 1)]
    );
}

#[test]
fn set_pixel_writes_one_entry() {
    let mut img = Image::<u8>::new(3, 3);
    img.set_pixel(1, 2, 9);
    assert_eq!(img.pixels(), &vec![0, 0, 0, 0, 0, 0, 0, 9, 0]);
    assert_eq!(*img.get_pixel(1, 2), 9);
    assert_eq!(*img.get_pixel(2, 1), 0);
}

#[test]
fn row_returns_its_width_entries() {
    let mut img = Image::<u8>::new(3, 2);
    img.set_pixel(0, 1, 4);
    img.set_pixel(1, 1, 5);
    img.set_pixel(2, 1, 6);
    assert_eq!(img.row(0), vec![0, 0, 0]);
    assert_eq!(img.row(1), vec![4, 5, 6]);
}

#[test]
fn write_band_touches_only_its_rows() {
    let mut img = Image::<u8>::new(3, 3);
    img.write_band(Band { top: 1, num_rows: 1 }, &vec![7, 8, 9]);
    assert_eq!(img.pixels(), &vec![0, 0, 0, 7, 8, 9, 0, 0, 0]);
}

#[test]
fn render_maps_each_outcome_to_its_pixel() {
    let results = vec![
        IterationResult::Divergent(0),
        IterationResult::Bounded,
        IterationResult::Divergent(5),
        IterationResult::Divergent(200),
        IterationResult::Bounded,
        IterationResult::Divergent(254),
    ];
    let mut img = Image::<u8>::new(3, 2);
    img.render(&results);
    assert_eq!(img.pixels(), &vec![255, 0, 250, 55, 0, 1]);
}

#[test]
fn worker_count_does_not_change_the_rendered_bytes() {
    let width: usize = 8;
    let height: usize = 8;
    let mut results = Vec::new();
    for k in 0..width * height {
        results.push(if k % 3 == 0 {
            IterationResult::Bounded
        } else {
            IterationResult::Divergent((k % 251) as u32)
        });
    }
    let mut flat = Image::<u8>::new(width, height);
    flat.render(&results);
    for workers in [1usize, 2, 8] {
        let bands = partition(height, workers);
        let mut banded = Image::<u8>::new(width, height);
        banded.render_bands(&bands, &results);
        assert_eq!(banded.pixels(), flat.pixels());
    }
}

#[test]
fn full_pipeline_is_identical_for_any_worker_count() {
    let width: usize = 16;
    let height: usize = 16;
    let upper_left = (-2.0f64, 1.0f64);
    let lower_right = (1.0f64, -1.0f64);
    let limit = 255u32;

    let mut results = Vec::new();
    for row in 0..height {
        for col in 0..width {
            let (re, im) = pixel_point((width, height), (col, row), upper_left, lower_right);
            results.push(escape_count(re, im, limit));
        }
    }

    let mut flat = Image::<u8>::new(width, height);
    flat.render(&results);
    for workers in [1usize, 2, 8] {
        let bands = partition(height, workers);
        let mut banded = Image::<u8>::new(width, height);
        banded.render_bands(&bands, &results);
        assert_eq!(banded.pixels(), flat.pixels());
    }
}

#[test]
fn rendering_twice_is_idempotent() {
    let results = vec![
        IterationResult::Divergent(3),
        IterationResult::Bounded,
        IterationResult::Divergent(17),
        IterationResult::Divergent(80),
    ];
    let mut first = Image::<u8>::new(2, 2);
    first.render(&results);
    let mut second = Image::<u8>::new(2, 2);
    second.render(&results);
    assert_eq!(first.pixels(), second.pixels());
    second.render(&results);
    assert_eq!(first.pixels(), second.pixels());
}

#[test]
fn four_by_four_viewport_classifies_center_and_corner() {
    let bounds = (4usize, 4usize);
    let upper_left = (-2.0f64, 1.0f64);
    let lower_right = (1.0f64, -1.0f64);
    let limit = 50u32;

    let mut img = Image::<u8>::new(4, 4);
    let mut results = Vec::new();
    for (col, row) in img.get_indices() {
        let (re, im) = pixel_point(bounds, (col, row), upper_left, lower_right);
        results.push(escape_count(re, im, limit));
    }
    img.render(&results);

    // The pixel nearest the origin, (3, 2) -> 0.25 + 0i, never escapes and
    // is drawn at the minimum intensity.
    assert_eq!(results[2 * 4 + 3], IterationResult::Bounded);
    assert_eq!(*img.get_pixel(3, 2), 0);

    // The pixel at the corner near -2.0, (0, 0) -> -2 + i, escapes at once
    // and is drawn bright.
    match results[0] {
        IterationResult::Divergent(n) => assert!(n < 3),
        IterationResult::Bounded => panic!("corner point must diverge"),
    }
    assert!(*img.get_pixel(0, 0) > 250);
}
