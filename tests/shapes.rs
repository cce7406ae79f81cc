use terrain_noise::buffer::PixelBuffer;
use terrain_noise::masks::{expand, generate_noisemap_binary, generate_noisemap_bw, noisemap_binary_from, noisemap_bw_from};
use terrain_noise::transform::{upscale_image_lines, upscale_image_square};

const W: (u8, u8, u8) = (255, 255, 255);
const K: (u8, u8, u8) = (0, 0, 0);

#[test]
fn upscale_square_repeats_each_pixel() {
    let mut b = PixelBuffer::solid(2, 1, (1, 1, 1));
    b.set(1, 0, (9, 8, 7));
    let r = upscale_image_square(3, b);
    assert_eq!((r.width(), r.height()), (6, 3));
    for y in 0..3 {
        for x in 0..6 {
            let expected = if x < 3 { (1, 1, 1) } else { (9, 8, 7) };
            assert_eq!(r.get(x, y), expected);
        }
    }
}

#[test]
fn upscale_lines_draws_crosses() {
    let mut b = PixelBuffer::solid(2, 2, K);
    b.set(1, 1, W);
    let r = upscale_image_lines(1, b);
    assert_eq!((r.width(), r.height()), (6, 6));
    let white: Vec<(u32, u32)> = (0..6)
        .flat_map(|y| (0..6).map(move |x| (x, y)))
        .filter(|&(x, y)| r.get(x, y) == W)
        .collect();
    assert_eq!(white, vec![(3, 2), (2, 3), (3, 3), (4, 3), (3, 4)]);
}

#[test]
fn upscale_lines_clips_at_the_edge() {
    let mut b = PixelBuffer::solid(1, 1, K);
    b.set(0, 0, W);
    let r = upscale_image_lines(2, b);
    assert_eq!((r.width(), r.height()), (5, 5));
    assert_eq!(r.get(0, 0), W);
    assert_eq!(r.get(2, 0), W);
    assert_eq!(r.get(0, 2), W);
    assert_eq!(r.get(3, 0), K);
    assert_eq!(r.get(1, 1), K);
}

#[test]
fn expand_paints_the_window() {
    let mut b = PixelBuffer::solid(8, 1, K);
    b.set(3, 0, W);
    let r = expand(1, W, b);
    let row: Vec<bool> = (0..8).map(|x| r.get(x, 0) == W).collect();
    // columns 3 - 1 ..< 3 + 2
    assert_eq!(row, vec![false, false, true, true, true, false, false, false]);
}

#[test]
fn expand_with_zero_radius_is_black() {
    let b = PixelBuffer::solid(3, 3, W);
    let r = expand(0, W, b);
    for y in 0..3 {
        for x in 0..3 {
            assert_eq!(r.get(x, y), K);
        }
    }
}

#[test]
fn noisemap_binary_is_bilevel() {
    let b = generate_noisemap_binary(6, 5, 128);
    for y in 0..5 {
        for x in 0..6 {
            let p = b.get(x, y);
            assert!(p == W || p == K);
        }
    }
    let never = generate_noisemap_binary(4, 4, 0);
    for y in 0..4 {
        for x in 0..4 {
            assert_eq!(never.get(x, y), K);
        }
    }
}

#[test]
fn noisemap_bw_is_gray() {
    let b = generate_noisemap_bw(5, 5);
    for y in 0..5 {
        for x in 0..5 {
            let p = b.get(x, y);
            assert!(p.0 == p.1 && p.1 == p.2);
        }
    }
}

#[test]
fn noisemaps_from_bytes() {
    let bytes = vec![vec![0u8, 127, 128], vec![200, 5, 255]];
    let m = noisemap_binary_from(&bytes, 3, 2, 128);
    assert_eq!(
        (0..2).flat_map(|y| (0..3).map(move |x| (x, y))).map(|(x, y)| m.get(x, y) == W).collect::<Vec<bool>>(),
        vec![true, true, false, false, true, false]
    );
    let g = noisemap_bw_from(&bytes, 3, 2);
    assert_eq!(g.get(0, 1), (200, 200, 200));
    assert_eq!(g.get(2, 1), (255, 255, 255));
}
