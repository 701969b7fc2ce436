use media_bar::settings::Settings;
use media_bar::thumbnail::{
    backdrop_crop, fit_thumbnail, place_picture, plan_art, ArtPlan, ArtSizes, Bitmaps, CachedArt, Placement,
    BG_ART_SIZE,
};
use media_bar::window::BarState;
use std::sync::Arc;

fn float_fit(w: u32, h: u32, size: i32) -> (i32, i32) {
    let scale = (size as f64 / w as f64).min(size as f64 / h as f64);
    (((w as f64 * scale) as i32).max(1), ((h as f64 * scale) as i32).max(1))
}

fn float_rows(w: i32, h: i32) -> i32 {
    let exact = BG_ART_SIZE as f64 * h as f64 / w as f64;
    (exact.ceil() as i32).max(1).min(BG_ART_SIZE)
}

#[test]
fn pictures_are_fitted_as_doubles_fit_them() {
    let sides = [0u32, 1, 2, 3, 7, 39, 40, 41, 299, 300, 301, 544, 640, 1000, 4096, 65_537, 1 << 31, u32::MAX];
    for w in sides {
        for h in sides {
            for size in [1, 2, 40, 41, 64, 99, 100, 300, 4096, i32::MAX] {
                let p = fit_thumbnail(w, h, size);
                assert_eq!((p.dst_w, p.dst_h), float_fit(w, h, size), "{} by {} in {}", w, h, size);
            }
        }
    }
}

#[test]
fn a_fitted_picture_stays_in_the_middle_of_its_square() {
    let p = fit_thumbnail(640, 360, 40);
    assert_eq!((p.dst_w, p.dst_h, p.x_off, p.y_off), (40, 22, 0, 9));
    let p = fit_thumbnail(300, 300, 300);
    assert_eq!((p.dst_w, p.dst_h, p.x_off, p.y_off), (300, 300, 0, 0));
    let p = fit_thumbnail(1, 1000, 100);
    assert_eq!((p.dst_w, p.dst_h, p.x_off, p.y_off), (1, 100, 49, 0));
    for w in [1u32, 17, 500, 3000] {
        for h in [1u32, 23, 480, 2999] {
            let p = fit_thumbnail(w, h, 64);
            assert!(p.x_off >= 0 && p.y_off >= 0);
            assert!(p.x_off + p.dst_w <= 64 && p.y_off + p.dst_h <= 64);
            assert!(p.dst_w == 64 || p.dst_h == 64 || p.dst_w == 63 || p.dst_h == 63);
        }
    }
}

#[test]
fn a_picture_is_copied_to_its_place_and_nowhere_else() {
    let at = Placement { dst_w: 2, dst_h: 1, x_off: 0, y_off: 0 };
    let img: Vec<u8> = (1..=8).collect();
    let mut dst = vec![0u8; 16];
    place_picture(&img, &mut dst, at, 2);
    assert_eq!(dst, vec![1, 2, 3, 4, 5, 6, 7, 8, 0, 0, 0, 0, 0, 0, 0, 0]);

    let at = fit_thumbnail(2, 4, 4);
    let img: Vec<u8> = (0..32).map(|i| i as u8 + 100).collect();
    let mut dst = vec![7u8; 64];
    place_picture(&img, &mut dst, at, 4);
    for y in 0..4usize {
        for x in 0..4usize {
            for c in 0..4usize {
                let got = dst[(y * 4 + x) * 4 + c];
                if x == 1 || x == 2 {
                    assert_eq!(got, 100 + ((y * 2 + (x - 1)) * 4 + c) as u8);
                } else {
                    assert_eq!(got, 7);
                }
            }
        }
    }
}

#[test]
fn the_backdrop_keeps_the_proportions_of_the_bar() {
    for w in [-1920, -1, 0, 1, 2, 39, 300, 1366, 1920, 3840, i32::MAX, i32::MIN] {
        for h in [-40, -1, 0, 1, 40, 41, 55, 100, 300, 1080, i32::MAX, i32::MIN] {
            let (y, rows) = backdrop_crop(w, h);
            assert_eq!(rows, float_rows(w, h), "{} by {}", w, h);
            assert_eq!(y, ((BG_ART_SIZE - rows) / 2).max(0));
        }
    }
    assert_eq!(backdrop_crop(1920, 40), (146, 7));
    assert_eq!(backdrop_crop(300, 300), (0, 300));
    assert_eq!(backdrop_crop(100_000, 1), (149, 1));
}

fn cached(key: &str) -> Option<CachedArt> {
    Some(CachedArt { key: key.to_string(), bitmaps: Bitmaps { small: 11, large: 12 } })
}

fn bar(title: &str, picture: bool) -> BarState {
    let mut s = BarState::new(Settings::default(), 7);
    s.info.title = title.to_string();
    s.info.thumbnail = if picture { Some(Arc::new(vec![1, 2, 3])) } else { None };
    s
}

fn kept(s: &BarState) -> Option<(&str, isize, isize)> {
    s.art.as_ref().map(|a| (a.key.as_str(), a.bitmaps.small, a.bitmaps.large))
}

#[test]
fn art_is_decoded_once_per_title() {
    let song = "Song".to_string();
    let other = "Other".to_string();
    let empty = String::new();
    let old = Some(Bitmaps { small: 11, large: 12 });
    let both = Some(ArtSizes { small: 40, large: 300 });
    assert_eq!(plan_art(&None, &song, true, 40), ArtPlan { delete: None, decode: both });
    assert_eq!(plan_art(&cached("Song"), &song, true, 40), ArtPlan { delete: None, decode: None });
    assert_eq!(plan_art(&cached("Song"), &other, true, 40), ArtPlan { delete: old, decode: both });
    assert_eq!(plan_art(&cached("Song"), &other, false, 40), ArtPlan { delete: old, decode: None });
    assert_eq!(plan_art(&cached("Song"), &empty, true, 40), ArtPlan { delete: old, decode: None });
    assert_eq!(plan_art(&None, &empty, true, 40), ArtPlan { delete: None, decode: None });
}

#[test]
fn the_art_of_the_title_is_kept() {
    let mut s = bar("Song", true);
    s.art = cached("Song");
    assert_eq!(s.begin_paint(55), ArtPlan { delete: None, decode: None });
    assert_eq!(kept(&s), Some(("Song", 11, 12)));
}

#[test]
fn the_art_of_another_title_is_replaced() {
    let mut s = bar("Song", true);
    s.art = cached("Other");
    let plan = s.begin_paint(55);
    assert_eq!(plan.delete, Some(Bitmaps { small: 11, large: 12 }));
    assert_eq!(plan.decode, Some(ArtSizes { small: 55, large: 300 }));
    assert_eq!(kept(&s), None);
    s.art_decoded(Some(21), Some(22));
    assert_eq!(kept(&s), Some(("Song", 21, 22)));
    assert_eq!(s.begin_paint(55), ArtPlan { delete: None, decode: None });
}

#[test]
fn art_needs_both_bitmaps_and_a_title() {
    for (small, large) in [(None, None), (Some(1), None), (None, Some(2))] {
        let mut s = bar("Song", true);
        assert!(s.begin_paint(40).decode.is_some());
        s.art_decoded(small, large);
        assert_eq!(kept(&s), None);
    }
    let mut s = bar("", true);
    s.art = cached("Other");
    assert_eq!(s.begin_paint(40), ArtPlan { delete: Some(Bitmaps { small: 11, large: 12 }), decode: None });
    s.art_decoded(Some(1), Some(2));
    assert_eq!(kept(&s), None);
    let mut s = bar("Song", true);
    s.art = cached("Song");
    s.art_decoded(Some(1), Some(2));
    assert_eq!(kept(&s), Some(("Song", 11, 12)));
}

#[test]
fn art_that_was_given_up_is_decoded_anew() {
    let mut s = bar("Song", true);
    s.art = cached("Song");
    assert_eq!(s.take_art(), Some(Bitmaps { small: 11, large: 12 }));
    assert_eq!(s.take_art(), None);
    assert_eq!(s.begin_paint(64).decode, Some(ArtSizes { small: 64, large: 300 }));
    assert_eq!((s.info.title.as_str(), s.accent, s.seeking), ("Song", 7, None));
}

#[test]
fn pictures_keep_their_proportions() {
    for (w, h) in [(640u32, 360u32), (3, 1000), (1000, 3), (1, u32::MAX), (544, 544), (4095, 4096)] {
        for size in [1, 40, 64, 300, i32::MAX] {
            let p = fit_thumbnail(w, h, size);
            let longer = w.max(h) as i128;
            for (side, fitted) in [(w as i128, p.dst_w as i128), (h as i128, p.dst_h as i128)] {
                assert!((fitted - 1) * longer <= side * size as i128);
                assert!(side * (size as i128) < (fitted + 2) * longer);
            }
        }
    }
}
