use media_bar::blur::{apply_blur, box_blur_h, box_blur_v};

fn noise(n: usize) -> Vec<u8> {
    let mut x: u32 = 12345;
    let mut v = Vec::new();
    for _ in 0..n {
        x = x.wrapping_mul(1_664_525).wrapping_add(1_013_904_223);
        v.push((x >> 24) as u8);
    }
    v
}

fn mean_h(src: &[u8], w: usize, x: usize, y: usize, c: usize, r: usize) -> u8 {
    let mut sum: u64 = 0;
    for d in 0..=2 * r {
        let sx = (x + d).saturating_sub(r).min(w - 1);
        sum += src[(y * w + sx) * 4 + c] as u64;
    }
    (sum / (2 * r as u64 + 1)) as u8
}

fn mean_v(src: &[u8], w: usize, h: usize, x: usize, y: usize, c: usize, r: usize) -> u8 {
    let mut sum: u64 = 0;
    for d in 0..=2 * r {
        let sy = (y + d).saturating_sub(r).min(h - 1);
        sum += src[(sy * w + x) * 4 + c] as u64;
    }
    (sum / (2 * r as u64 + 1)) as u8
}

#[test]
fn rows_are_averaged_over_the_window() {
    for (w, h, r) in [(1usize, 1usize, 0usize), (5, 3, 1), (7, 2, 3), (4, 4, 12), (30, 5, 2)] {
        let src = noise(w * h * 4);
        let mut dst = vec![0u8; w * h * 4];
        box_blur_h(&src, &mut dst, w, h, r);
        for y in 0..h {
            for x in 0..w {
                for c in 0..3 {
                    assert_eq!(dst[(y * w + x) * 4 + c], mean_h(&src, w, x, y, c, r));
                }
                assert_eq!(dst[(y * w + x) * 4 + 3], src[(y * w + x) * 4 + 3]);
            }
        }
    }
}

#[test]
fn columns_are_averaged_over_the_window() {
    for (w, h, r) in [(1usize, 1usize, 0usize), (5, 3, 1), (2, 7, 3), (4, 4, 12), (3, 30, 2)] {
        let src = noise(w * h * 4);
        let mut dst = vec![0u8; w * h * 4];
        box_blur_v(&src, &mut dst, w, h, r);
        for y in 0..h {
            for x in 0..w {
                for c in 0..3 {
                    assert_eq!(dst[(y * w + x) * 4 + c], mean_v(&src, w, h, x, y, c, r));
                }
                assert_eq!(dst[(y * w + x) * 4 + 3], src[(y * w + x) * 4 + 3]);
            }
        }
    }
}

#[test]
fn one_row_of_three_pixels() {
    let src = [0u8, 0, 0, 9, 30, 60, 90, 8, 60, 120, 255, 7];
    let mut dst = [0u8; 12];
    box_blur_h(&src, &mut dst, 3, 1, 1);
    assert_eq!(dst, [10, 20, 30, 9, 30, 60, 115, 8, 50, 100, 200, 7]);
}

#[test]
fn the_blur_is_both_passes_twice() {
    let (w, h, r) = (9usize, 6usize, 2usize);
    let mut pixels = noise(w * h * 4 + 5);
    let mut expected = pixels.clone();
    let mut tmp = vec![0u8; expected.len()];
    for _ in 0..2 {
        box_blur_h(&expected, &mut tmp, w, h, r);
        box_blur_v(&tmp, &mut expected, w, h, r);
    }
    apply_blur(&mut pixels, w, h, r);
    assert_eq!(pixels, expected);
}

#[test]
fn transparency_is_left_alone() {
    let (w, h) = (12usize, 5usize);
    let before = noise(w * h * 4);
    let mut pixels = before.clone();
    apply_blur(&mut pixels, w, h, 12);
    for i in 0..w * h {
        assert_eq!(pixels[i * 4 + 3], before[i * 4 + 3]);
    }
}

#[test]
fn a_flat_colour_stays_flat() {
    let (w, h) = (10usize, 4usize);
    let mut pixels = Vec::new();
    for _ in 0..w * h {
        pixels.extend_from_slice(&[12, 200, 77, 255]);
    }
    let before = pixels.clone();
    apply_blur(&mut pixels, w, h, 12);
    assert_eq!(pixels, before);
}

#[test]
fn blurring_stays_between_the_darkest_and_the_brightest() {
    let (w, h) = (16usize, 8usize);
    let mut pixels = noise(w * h * 4);
    for b in pixels.iter_mut() {
        *b = 40 + *b % 100;
    }
    apply_blur(&mut pixels, w, h, 3);
    for i in 0..w * h {
        for c in 0..3 {
            assert!(pixels[i * 4 + c] >= 40 && pixels[i * 4 + c] < 140);
        }
    }
}

#[test]
fn a_blur_without_radius_changes_nothing() {
    let (w, h) = (6usize, 3usize);
    let mut pixels = noise(w * h * 4);
    let before = pixels.clone();
    apply_blur(&mut pixels, w, h, 0);
    assert_eq!(pixels, before);
    let mut none: Vec<u8> = Vec::new();
    apply_blur(&mut none, 0, 0, 12);
    assert!(none.is_empty());
}
