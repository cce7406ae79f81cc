use terrain_noise::buffer::PixelBuffer;
use terrain_noise::classify::{overlay, recolor_proportion, recolor_solid, threshhold};
use terrain_noise::dla::Dla;
use terrain_noise::error::NoiseError;
use terrain_noise::masks;
use terrain_noise::transform::{
    add, interpolate_smoothing, invert, linear_scale_noise, normalize, red_range, scale_noise,
};
use terrain_noise::value::{fractal_from_grids, fractal_value, value, value_from_grid};
use terrain_noise::voronoi::{voronoi, voronoi_from_sites};

fn gray_buffer(width: u32, height: u32, values: &[u8]) -> PixelBuffer {
    let mut b = PixelBuffer::solid(width, height, (0, 0, 0));
    for y in 0..height {
        for x in 0..width {
            let v = values[(y * width + x) as usize];
            b.set(x, y, (v, v, v));
        }
    }
    b
}

fn pixels(b: &PixelBuffer) -> Vec<(u8, u8, u8)> {
    let mut out = Vec::new();
    for y in 0..b.height() {
        for x in 0..b.width() {
            out.push(b.get(x, y));
        }
    }
    out
}

fn lerp(x1: i64, y1: i64, x2: i64, y2: i64, x: i64) -> i64 {
    if x1 == x2 {
        y1
    } else {
        y1 + ((x - x1) * (y2 - y1)).div_euclid(x2 - x1)
    }
}

#[test]
fn solid_buffer_has_its_color_everywhere() {
    let b = PixelBuffer::solid(3, 2, (1, 2, 3));
    assert_eq!(b.width(), 3);
    assert_eq!(b.height(), 2);
    assert!(pixels(&b).iter().all(|p| *p == (1, 2, 3)));
}

#[test]
fn invert_twice_gives_back_the_field() {
    let values: Vec<u8> = (0..12).map(|i| (i * 23) as u8).collect();
    let a = gray_buffer(4, 3, &values);
    let once = invert(gray_buffer(4, 3, &values));
    assert_eq!(once.get(1, 0), (232, 232, 232));
    let twice = invert(once);
    assert_eq!(pixels(&twice), pixels(&a));
}

#[test]
fn threshold_without_preserve_is_bilevel() {
    let values: Vec<u8> = (0..16).map(|i| (i * 17) as u8).collect();
    let b = gray_buffer(4, 4, &values);
    let m = threshhold(&b, 40, 150, false);
    for (p, v) in pixels(&m).iter().zip(values.iter()) {
        assert!(p.0 == 0 || p.0 == 255);
        assert!(p.1 == 0 || p.1 == 255);
        assert!(p.2 == 0 || p.2 == 255);
        assert_eq!(p.0 == 255, *v >= 40 && *v <= 150);
    }
}

#[test]
fn threshold_with_preserve_keeps_values() {
    let b = gray_buffer(3, 1, &[10, 50, 90]);
    let m = threshhold(&b, 20, 60, true);
    assert_eq!(pixels(&m), vec![(0, 0, 0), (50, 50, 50), (0, 0, 0)]);
}

#[test]
fn normalize_stretches_to_full_white() {
    let mut b = gray_buffer(3, 1, &[10, 50, 100]);
    normalize(&mut b);
    assert_eq!(pixels(&b), vec![(25, 25, 25), (127, 127, 127), (255, 255, 255)]);
}

#[test]
fn normalize_leaves_black_field_alone() {
    let mut b = gray_buffer(2, 2, &[0, 0, 0, 0]);
    normalize(&mut b);
    assert!(pixels(&b).iter().all(|p| *p == (0, 0, 0)));
}

#[test]
fn red_range_finds_extremes() {
    let b = gray_buffer(2, 2, &[7, 3, 200, 9]);
    assert_eq!(red_range(&b), (3, 200));
}

#[test]
fn smoothing_follows_the_ratio_formula() {
    let mut b = gray_buffer(3, 1, &[10, 15, 20]);
    interpolate_smoothing(&mut b, 0, 255);
    assert_eq!(pixels(&b), vec![(0, 0, 0), (95, 95, 95), (255, 255, 255)]);
}

#[test]
fn smoothing_saturates_instead_of_wrapping() {
    let mut b = gray_buffer(3, 1, &[1, 128, 255]);
    interpolate_smoothing(&mut b, 255, 255);
    assert_eq!(pixels(&b), vec![(255, 255, 255), (255, 255, 255), (255, 255, 255)]);
}

#[test]
fn fractal_from_equal_grids_is_equal() {
    let grids = vec![vec![vec![3u8, 90, 17], vec![250, 0, 64]], vec![vec![9u8, 8], vec![7, 6]]];
    let a = fractal_from_grids(7, 4, &grids);
    let b = fractal_from_grids(7, 4, &grids);
    assert_eq!(pixels(&a), pixels(&b));
}

#[test]
fn scale_noise_saturates() {
    let mut b = gray_buffer(2, 1, &[100, 200]);
    scale_noise(&mut b, 3, 2);
    assert_eq!(pixels(&b), vec![(150, 150, 150), (255, 255, 255)]);
    let mut c = gray_buffer(1, 1, &[201]);
    scale_noise(&mut c, 1, 4);
    assert_eq!(c.get(0, 0), (50, 50, 50));
}

#[test]
fn linear_scale_noise_clamps_both_ways() {
    let mut b = gray_buffer(3, 1, &[10, 128, 250]);
    linear_scale_noise(&mut b, 20);
    assert_eq!(pixels(&b), vec![(30, 30, 30), (148, 148, 148), (255, 255, 255)]);
    linear_scale_noise(&mut b, -40);
    assert_eq!(pixels(&b), vec![(0, 0, 0), (108, 108, 108), (215, 215, 215)]);
}

#[test]
fn add_saturates_per_channel() {
    let mut a = PixelBuffer::solid(1, 1, (100, 200, 0));
    let b = PixelBuffer::solid(1, 1, (100, 100, 7));
    add(&mut a, b);
    assert_eq!(a.get(0, 0), (200, 255, 7));
}

#[test]
fn overlay_copies_non_black_pixels() {
    let mut base = PixelBuffer::solid(2, 1, (1, 2, 3));
    let mut layer = PixelBuffer::solid(2, 1, (0, 0, 0));
    layer.set(1, 0, (0, 0, 9));
    overlay(&mut base, layer);
    assert_eq!(pixels(&base), vec![(1, 2, 3), (0, 0, 9)]);
}

#[test]
fn recolor_proportion_tints_gray() {
    let b = gray_buffer(2, 1, &[255, 128]);
    let r = recolor_proportion(b, 1, 87, 255);
    assert_eq!(pixels(&r), vec![(1, 87, 255), (0, 43, 128)]);
}

#[test]
fn recolor_solid_paints_white_only() {
    let b = gray_buffer(3, 1, &[255, 254, 0]);
    let r = recolor_solid(b, 10, 20, 30);
    assert_eq!(pixels(&r), vec![(10, 20, 30), (254, 254, 254), (0, 0, 0)]);
}

#[test]
fn boolean_masks() {
    let a = gray_buffer(4, 1, &[255, 255, 0, 0]);
    let b = gray_buffer(4, 1, &[255, 0, 255, 0]);
    let w = (255, 255, 255);
    let k = (0, 0, 0);
    let r = masks::and(gray_buffer(4, 1, &[255, 255, 0, 0]), gray_buffer(4, 1, &[255, 0, 255, 0]));
    assert_eq!(pixels(&r), vec![w, k, k, k]);
    let r = masks::or(gray_buffer(4, 1, &[255, 255, 0, 0]), gray_buffer(4, 1, &[255, 0, 255, 0]));
    assert_eq!(pixels(&r), vec![w, w, w, k]);
    let r = masks::subtract(a, b);
    assert_eq!(pixels(&r), vec![k, w, k, k]);
    let r = masks::not((0, 0, 0), gray_buffer(3, 1, &[0, 5, 255]));
    assert_eq!(pixels(&r), vec![k, w, w]);
}

#[test]
fn value_two_by_two_is_bilinear() {
    let grid = vec![vec![0u8, 100], vec![200, 50]];
    let b = value_from_grid(5, 5, &grid);
    assert_eq!(b.get(2, 2), (87, 87, 87));
    for y in 0..5i64 {
        for x in 0..5i64 {
            let top = lerp(0, 0, 4, 100, x);
            let bottom = lerp(0, 200, 4, 50, x);
            let v = lerp(0, top, 4, bottom, y) as u8;
            assert_eq!(b.get(x as u32, y as u32), (v, v, v));
        }
    }
}

#[test]
fn value_hits_control_points() {
    let grid = vec![vec![10u8, 20, 30], vec![40, 50, 60], vec![70, 80, 90]];
    let b = value_from_grid(7, 5, &grid);
    // control columns at 0, 3, 6 and control rows at 0, 2, 4
    assert_eq!(b.get(0, 0), (10, 10, 10));
    assert_eq!(b.get(3, 0), (20, 20, 20));
    assert_eq!(b.get(6, 2), (60, 60, 60));
    assert_eq!(b.get(3, 4), (80, 80, 80));
    assert_eq!(b.get(6, 4), (90, 90, 90));
}

#[test]
fn value_with_coinciding_control_points() {
    // on 2 pixels, 3 control points sit at 0, 0 and 1: the empty span is skipped
    let grid = vec![vec![1u8, 2, 3], vec![4, 5, 6], vec![7, 8, 9]];
    let b = value_from_grid(2, 2, &grid);
    assert_eq!(pixels(&b), vec![(5, 5, 5), (6, 6, 6), (8, 8, 8), (9, 9, 9)]);
}

#[test]
fn value_on_a_single_pixel_is_the_last_control_value() {
    let grid = vec![vec![1u8, 2], vec![3, 4]];
    let b = value_from_grid(1, 1, &grid);
    assert_eq!(b.get(0, 0), (4, 4, 4));
}

#[test]
fn fractal_from_grids_adds_scaled_octaves() {
    let grids = vec![
        vec![vec![0u8, 100], vec![200, 50]],
        vec![vec![40u8, 40], vec![40, 40]],
        vec![vec![200u8, 200, 200], vec![200, 200, 200], vec![200, 200, 200]],
    ];
    let b = fractal_from_grids(5, 5, &grids);
    // 87 + 40 / 4 + 200 / 8
    assert_eq!(b.get(2, 2), (122, 122, 122));
    let saturated = fractal_from_grids(1, 1, &vec![vec![vec![250u8, 250], vec![250, 250]], vec![vec![255u8, 255], vec![255, 255]]]);
    assert_eq!(saturated.get(0, 0), (255, 255, 255));
}

#[test]
fn value_rejects_bad_parameters() {
    assert_eq!(value(0, 5, 2, 2).err(), Some(NoiseError::ZeroArea));
    assert_eq!(value(5, 5, 1, 2).err(), Some(NoiseError::TooFewPoints));
    assert!(value(5, 5, 6, 2).is_ok());
    let b = value(8, 6, 3, 2).ok().unwrap();
    assert_eq!((b.width(), b.height()), (8, 6));
    assert!(pixels(&b).iter().all(|p| p.0 == p.1 && p.1 == p.2));
}

#[test]
fn fractal_value_rejects_too_many_octaves() {
    assert!(fractal_value(64, 64, 3, 3, 3, 4).is_ok());
    assert_eq!(fractal_value(64, 64, 3, 3, 0, 2).err(), Some(NoiseError::TooFewPoints));
    assert_eq!(fractal_value(4, 4, 2, 2, 0x8000_0000, 2).err(), Some(NoiseError::TooManyPoints));
    assert_eq!(fractal_value(0, 4, 2, 2, 2, 2).err(), Some(NoiseError::ZeroArea));
    assert!(fractal_value(64, 64, 3, 3, 3, 3).is_ok());
}

#[test]
fn voronoi_single_site_is_distance() {
    let b = voronoi_from_sites(5, 4, &vec![(2, 1)]);
    assert_eq!(b.get(2, 1), (0, 0, 0));
    assert_eq!(b.get(0, 0), (2, 2, 2));
    for y in 0..4u32 {
        for x in 0..5u32 {
            let dx = x as f64 - 2.0;
            let dy = y as f64 - 1.0;
            let d = ((dx * dx + dy * dy).sqrt() as u32).min(255) as u8;
            assert_eq!(b.get(x, y), (d, d, d));
        }
    }
}

#[test]
fn voronoi_clamps_far_pixels() {
    let b = voronoi_from_sites(300, 1, &vec![(0, 0)]);
    assert_eq!(b.get(254, 0), (254, 254, 254));
    assert_eq!(b.get(255, 0), (255, 255, 255));
    assert_eq!(b.get(299, 0), (255, 255, 255));
}

#[test]
fn voronoi_takes_nearest_site() {
    let b = voronoi_from_sites(10, 1, &vec![(0, 0), (9, 0)]);
    assert_eq!(b.get(3, 0), (3, 3, 3));
    assert_eq!(b.get(7, 0), (2, 2, 2));
}

#[test]
fn voronoi_rejects_bad_parameters() {
    assert_eq!(voronoi(5, 5, 0).err(), Some(NoiseError::TooFewPoints));
    assert_eq!(voronoi(5, 5, 6).err(), Some(NoiseError::TooManyPoints));
    assert_eq!(voronoi(5, 0, 1).err(), Some(NoiseError::ZeroArea));
    let b = voronoi(12, 12, 1).ok().unwrap();
    let zeros = pixels(&b).iter().filter(|p| p.0 == 0).count();
    assert_eq!(zeros, 1);
}

#[test]
fn voronoi_places_one_site_per_cell() {
    let b = voronoi(12, 12, 2).ok().unwrap();
    let mut zeros = Vec::new();
    for y in 0..12u32 {
        for x in 0..12u32 {
            if b.get(x, y).0 == 0 {
                zeros.push((x / 6, y / 6));
            }
        }
    }
    zeros.sort();
    assert_eq!(zeros, vec![(0, 0), (0, 1), (1, 0), (1, 1)]);
}

fn run_dla(width: u32, height: u32, ratio: u32) -> Dla {
    let mut s = Dla::new(width, height, ratio);
    while !s.is_done() {
        s.step(rand::random(), rand::random());
    }
    s
}

#[test]
fn dla_reaches_its_target_within_one_pixel() {
    let s = run_dla(9, 7, 30);
    let b = &s.buffer;
    let whites = pixels(b).iter().filter(|p| **p == (255, 255, 255)).count() as u64;
    assert!(pixels(b).iter().all(|p| *p == (255, 255, 255) || *p == (0, 0, 0)));
    assert_eq!(whites, s.count);
    assert!(whites * 100 >= 30 * 63);
    assert!((whites - 1) * 100 < 30 * 63);
    assert_eq!(b.get(4, 3), (255, 255, 255));
}

#[test]
fn dla_fills_whole_area_on_full_ratio() {
    let s = run_dla(3, 3, 100);
    assert_eq!(s.count, 9);
    assert!(pixels(&s.buffer).iter().all(|p| *p == (255, 255, 255)));
}

#[test]
fn dla_zero_ratio_keeps_only_the_seed() {
    let s = run_dla(5, 5, 0);
    assert_eq!(s.count, 1);
    assert_eq!(s.buffer.get(2, 2), (255, 255, 255));
}

#[test]
fn dla_step_releases_on_black_only() {
    let mut s = Dla::new(5, 5, 50);
    s.step(2, 2);
    assert_eq!(s.walker, None);
    s.step(0, 0);
    assert_eq!(s.walker, Some((0, 0)));
    s.step(1, 0);
    assert_eq!(s.walker, Some((1, 0)));
}

#[test]
fn pipeline_band_is_exactly_the_low_values() {
    let mut data = fractal_value(64, 64, 3, 3, 3, 3).ok().unwrap();
    interpolate_smoothing(&mut data, 0, 255);
    let mask = threshhold(&data, 0, 31, false);
    for y in 0..64 {
        for x in 0..64 {
            let v = data.get(x, y).0;
            let m = mask.get(x, y);
            if v <= 31 {
                assert_eq!(m, (255, 255, 255));
            } else {
                assert_eq!(m, (0, 0, 0));
            }
        }
    }
}
