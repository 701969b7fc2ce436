use media_bar::binary64::Double;
use media_bar::layout::{on_seek_bar, seek_offset, SEEK_W};
use media_bar::seek::{drag_fill, played_fill, seek_target};

fn float_target(dur: i64, offset: i32) -> i64 {
    (dur as f64 * (offset as f64 / SEEK_W as f64)) as i64
}

fn float_fill(pos: i64, dur: i64) -> i32 {
    (SEEK_W as f64 * (pos as f64 / dur as f64)) as i32
}

fn lengths() -> Vec<i64> {
    let mut v: Vec<i64> = vec![
        1,
        2,
        3,
        7,
        359,
        360,
        361,
        10_000_000,
        2_154_320_000,
        36_000_000_001,
        (1 << 53) - 1,
        1 << 53,
        (1 << 53) + 1,
        (1 << 53) + 3,
        (1 << 62) + 12_345,
        i64::MAX - 1,
        i64::MAX,
    ];
    let mut n: i64 = 1_234_567;
    for _ in 0..40 {
        n = n.wrapping_mul(6_364_136_223_846_793_005).wrapping_add(1_442_695_040_888_963_407);
        v.push((n & i64::MAX) + (n == 0) as i64);
        v.push(((n >> 20) & 0xFFF_FFFF_FFFF) + 1);
    }
    v
}

#[test]
fn integers_become_the_nearest_doubles() {
    for n in [0u64, 1, 5, (1 << 53) - 1, 1 << 53, (1 << 53) + 1, (1 << 53) + 3, u64::MAX - 1024, u64::MAX] {
        assert_eq!(Double::from_u64(n).truncate(), n as f64 as u64);
    }
    assert_eq!(Double::from_u64((1 << 53) + 1).truncate(), 1 << 53);
    assert_eq!(Double::from_u64((1 << 53) + 3).truncate(), (1 << 53) + 4);
}

#[test]
fn quotients_and_products_round_like_doubles() {
    let numbers: [u64; 10] =
        [1, 2, 3, 10, 360, 4_503_599_627_370_497, 9_007_199_254_740_991, 1 << 60, 12_345_678_901_234_567, u64::MAX];
    for a in numbers {
        for b in numbers {
            for c in numbers {
                let exact = Double::from_u64(a).quotient(Double::from_u64(b));
                let r = Double::from_u64(c).product(exact).truncate();
                assert_eq!(r, (c as f64 * (a as f64 / b as f64)) as u64, "{} * ({} / {})", c, a, b);
            }
        }
    }
}

#[test]
fn the_drag_fill_is_what_doubles_give() {
    for k in 0..=SEEK_W {
        assert_eq!(drag_fill(k), (SEEK_W as f64 * (k as f64 / SEEK_W as f64)) as i32);
    }
    assert_eq!(drag_fill(0), 0);
    assert_eq!(drag_fill(12), 12);
    assert_eq!(drag_fill(13), 12);
    assert_eq!(drag_fill(180), 180);
    assert_eq!(drag_fill(360), 360);
}

#[test]
fn the_seek_target_is_what_doubles_give() {
    for dur in lengths() {
        for k in 0..=SEEK_W {
            assert_eq!(seek_target(dur, k), float_target(dur, k), "{} at {}", dur, k);
        }
    }
    assert_eq!(seek_target(3600, 90), 900);
    assert_eq!(seek_target(2_000_000_000, 90), 500_000_000);
    assert_eq!(seek_target(2_000_000_000, 1), 5_555_555);
}

#[test]
fn the_played_fill_is_what_doubles_give() {
    for dur in lengths() {
        for pos in [0, 1, dur / 3, dur / 2, dur - 1, dur, -1, -dur, i64::MIN, i64::MAX] {
            assert_eq!(played_fill(pos, dur), float_fill(pos, dur), "{} of {}", pos, dur);
        }
    }
    assert_eq!(played_fill(500_000_000, 2_000_000_000), 90);
    assert_eq!(played_fill(-500_000_000, 2_000_000_000), -90);
    assert_eq!(played_fill(i64::MAX, 1), i32::MAX);
    assert_eq!(played_fill(i64::MIN, 1), i32::MIN);
}

#[test]
fn the_fill_is_empty_at_the_start_and_full_at_the_end() {
    for dur in lengths() {
        assert_eq!(played_fill(0, dur), 0);
        assert_eq!(played_fill(dur, dur), SEEK_W);
        assert!(played_fill(dur / 2, dur) >= 0 && played_fill(dur / 2, dur) <= SEEK_W);
    }
}

#[test]
fn the_target_moves_with_the_pointer_from_start_to_end() {
    for dur in lengths() {
        assert_eq!(seek_target(dur, 0), 0);
        for k in 0..SEEK_W {
            assert!(seek_target(dur, k) <= seek_target(dur, k + 1));
            assert!(seek_target(dur, k) <= dur);
        }
        if dur < 1 << 53 {
            assert_eq!(seek_target(dur, SEEK_W), dur);
        }
    }
    assert_eq!(seek_target((1 << 53) + 3, SEEK_W), (1 << 53) + 4);
    assert_eq!(seek_target(i64::MAX, SEEK_W), i64::MAX);
}

#[test]
fn the_track_lies_left_of_the_gear() {
    assert!(!on_seek_bar(1495, 1920));
    assert!(on_seek_bar(1496, 1920));
    assert!(on_seek_bar(1855, 1920));
    assert!(!on_seek_bar(1856, 1920));
    assert_eq!(seek_offset(1496, 1920), 0);
    assert_eq!(seek_offset(1600, 1920), 104);
    assert_eq!(seek_offset(-32768, 1920), 0);
    assert_eq!(seek_offset(32767, 1920), 360);
    assert_eq!(seek_offset(i32::MAX, i32::MIN), 360);
}

#[test]
fn the_knob_stays_under_the_pointer() {
    for k in 0..=SEEK_W {
        assert!(drag_fill(k) == k || drag_fill(k) == k - 1);
    }
}

#[test]
fn the_fill_shows_the_played_share() {
    for dur in lengths() {
        for pos in [0, 1.min(dur), dur / 7, dur / 3, dur / 2, dur - dur / 9, dur] {
            let fill = played_fill(pos, dur) as i128;
            let (pos, dur) = (pos as i128, dur as i128);
            assert!(fill * dur < 360 * pos + dur);
            assert!(360 * pos < (fill + 2) * dur);
        }
    }
}

#[test]
fn the_target_is_the_share_left_of_the_pointer() {
    for dur in lengths() {
        for k in [0, 1, 13, 90, 180, 359, 360] {
            if dur < 1 << 50 {
                let exact = dur as i128 * k as i128 / 360;
                assert!((seek_target(dur, k) as i128 - exact).abs() <= 1, "{} at {}", dur, k);
            }
        }
    }
}
