use media_bar::layout::{hit_bar, Hover};
use media_bar::media::{MediaInfo, RepeatMode, Tracker};
use media_bar::paint::{
    accent_color, can_paint, draw_btn_group, draw_gear_btn, draw_media_text, draw_shr_group, on_paint, Align,
    FontRole, Op, ShrGroupState,
};
use media_bar::settings::Settings;
use media_bar::text::from_utf16_lossy;
use media_bar::thumbnail::{Bitmaps, CachedArt};
use media_bar::window::BarState;

fn line(op: &Op<Vec<u16>>) -> String {
    match op {
        Op::Fill { rect: r, color } => {
            format!("fill {},{},{},{} {:06X}", r.left, r.top, r.right, r.bottom, color)
        }
        Op::Clip { rect: r, corner } => {
            format!("clip {},{},{},{} {}", r.left, r.top, r.right, r.bottom, corner)
        }
        Op::Unclip => "unclip".to_string(),
        Op::Border { rect: r, corner, color } => {
            format!("border {},{},{},{} {} {:06X}", r.left, r.top, r.right, r.bottom, corner, color)
        }
        Op::Line { x, top, bottom, color } => format!("line {} {},{} {:06X}", x, top, bottom, color),
        Op::Text { rect: r, text, color, font, align, ellipsis } => format!(
            "text {},{},{},{} {:?} {:06X} {}{}{}",
            r.left,
            r.top,
            r.right,
            r.bottom,
            from_utf16_lossy(text),
            color,
            match font {
                FontRole::Text => "t",
                FontRole::Icon => "i",
            },
            match align {
                Align::Left => "l",
                Align::Center => "c",
                Align::Right => "r",
            },
            if *ellipsis { "e" } else { "" },
        ),
        Op::Backdrop { src_y, src_h, radius } => format!("backdrop {},{} {}", src_y, src_h, radius),
        Op::Shade { alpha } => format!("shade {}", alpha),
        Op::Art { rect: r } => format!("art {},{},{},{}", r.left, r.top, r.right, r.bottom),
        Op::Knob { x, y, d, src_d, color } => format!("knob {},{} {} {} {:06X}", x, y, d, src_d, color),
    }
}

fn lines(ops: &[Op<Vec<u16>>]) -> Vec<String> {
    ops.iter().map(line).collect()
}

fn bar(info: MediaInfo) -> BarState {
    let mut s = BarState::new(Settings::default(), 0xD47800);
    s.info = info;
    s
}

fn art() -> CachedArt {
    CachedArt { key: "Song".to_string(), bitmaps: Bitmaps { small: 1, large: 2 } }
}

fn song() -> MediaInfo {
    MediaInfo {
        title: "Song".to_string(),
        artist: "Band".to_string(),
        playing: true,
        duration_100ns: 2_000_000_000,
        shuffle: true,
        shuffle_enabled: true,
        repeat: Some(RepeatMode::Track),
        repeat_enabled: false,
        ..MediaInfo::default()
    }
}

#[test]
fn the_accent_colour_is_read_with_blue_on_top() {
    assert_eq!(accent_color(Some((0x12, 0x34, 0x56))), 0x563412);
    assert_eq!(accent_color(Some((255, 0, 0))), 0x0000FF);
    assert_eq!(accent_color(None), 0xD47800);
}

#[test]
fn the_playback_buttons() {
    let mut out = Vec::new();
    draw_btn_group(&mut out, 7, 56, Hover::Play, true);
    assert_eq!(
        lines(&out),
        vec![
            "clip 56,7,165,34 6",
            "fill 56,7,164,33 2D2D2D",
            "fill 92,7,128,33 3D3D3D",
            "unclip",
            "border 56,7,164,33 6 686868",
            "line 92 11,29 484848",
            "line 128 11,29 484848",
            "text 56,7,92,33 \"\\u{e892}\" CCCCCC ic",
            "text 92,7,128,33 \"\\u{e769}\" CCCCCC ic",
            "text 128,7,164,33 \"\\u{e893}\" CCCCCC ic",
        ]
    );
    let mut out = Vec::new();
    draw_btn_group(&mut out, 7, 56, Hover::Gear, false);
    assert_eq!(out.len(), 9);
    assert_eq!(line(&out[3]), "border 56,7,164,33 6 484848");
    assert_eq!(line(&out[7]), "text 92,7,128,33 \"\\u{e768}\" CCCCCC ic");
}

#[test]
fn the_mode_buttons() {
    let state = ShrGroupState {
        hover: Hover::Repeat,
        shuffle_active: true,
        shuffle_enabled: true,
        repeat_active: true,
        repeat_enabled: false,
        repeat_one: true,
        accent: 0x112233,
    };
    let mut out = Vec::new();
    draw_shr_group(&mut out, 172, 7, &state);
    assert_eq!(
        lines(&out),
        vec![
            "clip 172,7,229,34 6",
            "fill 172,7,228,33 2D2D2D",
            "fill 200,7,228,33 3D3D3D",
            "unclip",
            "border 172,7,228,33 6 686868",
            "line 200 11,29 484848",
            "text 172,7,200,33 \"\\u{e8b1}\" 112233 ic",
            "text 200,7,228,33 \"\\u{e8ed}\" 555555 ic",
        ]
    );
    let state = ShrGroupState { hover: Hover::Nothing, shuffle_active: false, repeat_one: false, repeat_enabled: true, ..state };
    let mut out = Vec::new();
    draw_shr_group(&mut out, 172, 7, &state);
    assert_eq!(line(&out[5]), "text 172,7,200,33 \"\\u{e8b1}\" CCCCCC ic");
    assert_eq!(line(&out[6]), "text 200,7,228,33 \"\\u{e8ee}\" 112233 ic");
}

#[test]
fn the_gear() {
    let mut out = Vec::new();
    draw_gear_btn(&mut out, 1880, 7, true);
    assert_eq!(
        lines(&out),
        vec![
            "clip 1880,7,1913,34 6",
            "fill 1880,7,1912,33 3D3D3D",
            "unclip",
            "border 1880,7,1912,33 6 686868",
            "text 1880,7,1912,33 \"\\u{e713}\" CCCCCC ic",
        ]
    );
    let mut out = Vec::new();
    draw_gear_btn(&mut out, 1880, 7, false);
    assert_eq!(line(&out[1]), "fill 1880,7,1912,33 2D2D2D");
    assert_eq!(line(&out[3]), "border 1880,7,1912,33 6 484848");
}

#[test]
fn title_dash_and_artist() {
    let mut out = Vec::new();
    draw_media_text(&mut out, "Song", "Band", 248, 1382, 40, 60, 5);
    assert_eq!(
        lines(&out),
        vec![
            "text 248,1,308,40 \"Song\" F2F2F2 tl",
            "text 314,1,319,40 \"-\" 555555 tl",
            "text 325,1,1366,40 \"Band\" 888888 tle",
        ]
    );
    let mut out = Vec::new();
    draw_media_text(&mut out, "Song", "", 248, 1382, 40, 60, 5);
    assert_eq!(lines(&out), vec!["text 248,1,308,40 \"Song\" F2F2F2 tl"]);
    let mut out = Vec::new();
    draw_media_text(&mut out, "", "Band", 248, 1382, 40, 60, 5);
    assert_eq!(lines(&out), vec!["text 248,1,1366,40 \"No media playing\" 888888 tl"]);
}

#[test]
fn a_long_title_is_cut_off() {
    let mut out = Vec::new();
    draw_media_text(&mut out, "Song", "Band", 0, 216, 40, 500, 5);
    assert_eq!(
        lines(&out),
        vec![
            "text 0,1,110,40 \"Song\" F2F2F2 tle",
            "text 116,1,121,40 \"-\" 555555 tl",
            "text 127,1,200,40 \"Band\" 888888 tle",
        ]
    );
    let mut out = Vec::new();
    draw_media_text(&mut out, "Song", "Band", 0, 216, 40, 110, 5);
    assert_eq!(line(&out[0]), "text 0,1,110,40 \"Song\" F2F2F2 tl");
}

#[test]
fn text_without_room_is_left_out() {
    for max_x in [-50, 0, 16] {
        let mut out = Vec::new();
        draw_media_text(&mut out, "Song", "Band", 0, max_x, 40, 60, 5);
        assert!(out.is_empty());
    }
    let mut out = Vec::new();
    draw_media_text(&mut out, "Song", "Band", 0, 53, 40, 500, 5);
    assert_eq!(lines(&out), vec!["text 0,1,20,40 \"Song\" F2F2F2 tle"]);
    let mut out = Vec::new();
    draw_media_text(&mut out, "Song", "Band", 0, 54, 40, 500, 5);
    assert_eq!(lines(&out), vec!["text 0,1,20,40 \"Song\" F2F2F2 tle", "text 26,1,31,40 \"-\" 555555 tl"]);
    let mut out = Vec::new();
    draw_media_text(&mut out, "Song", "Band", 0, 116, 40, 58, 12);
    assert_eq!(lines(&out).len(), 3);
    let mut out = Vec::new();
    draw_media_text(&mut out, "Song", "Band", 0, 116, 40, 58, 13);
    assert_eq!(lines(&out).len(), 2);
}

#[test]
fn text_stays_in_its_space() {
    for max_x in 0..300 {
        for title_cx in [0, 10, 100, 400] {
            let mut out = Vec::new();
            draw_media_text(&mut out, "Song", "Band", 10, max_x, 40, title_cx, 7);
            let mut last = 10;
            for op in &out {
                match op {
                    Op::Text { rect: r, .. } => {
                        assert!(r.left >= last && r.right >= r.left && r.right <= max_x - 16);
                        last = r.right;
                    }
                    _ => panic!("text expected"),
                }
            }
        }
    }
}

#[test]
fn a_bar_on_which_nothing_plays() {
    let s = bar(MediaInfo::default());
    assert!(can_paint(&s, 1920, 40, 0));
    let ops = lines(&on_paint(&s, 1920, 40, 0, 5, 0));
    assert_eq!(ops.len(), 25);
    assert_eq!(ops[0], "fill 0,0,1920,40 1C1C1C");
    assert_eq!(ops[1], "fill 0,1,40,40 282828");
    assert_eq!(ops[2], "clip 56,7,165,34 6");
    assert_eq!(ops[9], "text 92,7,128,33 \"\\u{e768}\" CCCCCC ic");
    assert_eq!(ops[11], "clip 172,7,229,34 6");
    assert_eq!(ops[17], "text 200,7,228,33 \"\\u{e8ee}\" 555555 ic");
    assert_eq!(ops[18], "text 248,1,1864,40 \"No media playing\" 888888 tl");
    assert_eq!(ops[19], "clip 1880,7,1913,34 6");
    assert_eq!(ops[24], "fill 0,0,1920,1 D47800");
}

#[test]
fn a_bar_on_which_a_song_plays() {
    let mut s = bar(song());
    s.tracker = Tracker { effective_pos: 400_000_000, last_smtc_pos: 400_000_000 };
    s.hover = Hover::Next;
    s.art = Some(art());
    assert!(can_paint(&s, 1920, 40, 10_000_000_000));
    let ops = lines(&on_paint(&s, 1920, 40, 60, 5, 10_000_000_000));
    assert_eq!(
        ops,
        vec![
            "backdrop 146,7 12",
            "shade 170",
            "art 0,1,40,40",
            "clip 56,7,165,34 6",
            "fill 56,7,164,33 2D2D2D",
            "fill 128,7,164,33 3D3D3D",
            "unclip",
            "border 56,7,164,33 6 686868",
            "line 92 11,29 484848",
            "line 128 11,29 484848",
            "text 56,7,92,33 \"\\u{e892}\" CCCCCC ic",
            "text 92,7,128,33 \"\\u{e769}\" CCCCCC ic",
            "text 128,7,164,33 \"\\u{e893}\" CCCCCC ic",
            "clip 172,7,229,34 6",
            "fill 172,7,228,33 2D2D2D",
            "unclip",
            "border 172,7,228,33 6 484848",
            "line 200 11,29 484848",
            "text 172,7,200,33 \"\\u{e8b1}\" D47800 ic",
            "text 200,7,228,33 \"\\u{e8ed}\" 555555 ic",
            "text 248,1,308,40 \"Song\" F2F2F2 tl",
            "text 314,1,319,40 \"-\" 555555 tl",
            "text 325,1,1366,40 \"Band\" 888888 tle",
            "text 1398,1,1480,40 \"0:50 / 3:20\" 888888 tr",
            "fill 1496,19,1856,22 484848",
            "fill 1496,19,1586,22 D47800",
            "knob 1581,15 10 30 F2F2F2",
            "clip 1880,7,1913,34 6",
            "fill 1880,7,1912,33 2D2D2D",
            "unclip",
            "border 1880,7,1912,33 6 484848",
            "text 1880,7,1912,33 \"\\u{e713}\" CCCCCC ic",
            "fill 0,0,1920,1 D47800",
        ]
    );
}

#[test]
fn the_fill_follows_a_drag() {
    let mut s = bar(song());
    s.seeking = Some(270);
    let ops = lines(&on_paint(&s, 1920, 40, 60, 5, 0));
    assert!(ops.contains(&"fill 1496,19,1766,22 D47800".to_string()));
    assert!(ops.contains(&"knob 1761,15 10 30 F2F2F2".to_string()));
    assert!(ops.contains(&"text 1398,1,1480,40 \"0:00 / 3:20\" 888888 tr".to_string()));
    s.seeking = Some(0);
    let ops = lines(&on_paint(&s, 1920, 40, 60, 5, 0));
    assert!(ops.contains(&"knob 1491,15 10 30 F2F2F2".to_string()));
    assert_eq!(ops.iter().filter(|l| l.starts_with("fill 1496")).count(), 1);
}

#[test]
fn repeat_is_shown_as_it_is_set() {
    for (mode, icon, color) in [
        (None, "e8ee", "CCCCCC"),
        (Some(RepeatMode::Off), "e8ee", "CCCCCC"),
        (Some(RepeatMode::List), "e8ee", "D47800"),
        (Some(RepeatMode::Track), "e8ed", "D47800"),
        (Some(RepeatMode::Unknown), "e8ee", "D47800"),
    ] {
        let s = bar(MediaInfo { repeat: mode, repeat_enabled: true, ..MediaInfo::default() });
        let ops = lines(&on_paint(&s, 1920, 40, 0, 0, 0));
        assert_eq!(ops[17], format!("text 200,7,228,33 \"\\u{{{}}}\" {} ic", icon, color));
    }
}

#[test]
fn only_the_button_under_the_pointer_is_lit() {
    let mut s = bar(song());
    for x in 0..1920 {
        s.hover = hit_bar(x, 1920, 40);
        let mut lit = Vec::new();
        for op in on_paint(&s, 1920, 40, 60, 5, 0) {
            match op {
                Op::Fill { rect: r, color: 0x3D3D3D } => lit.push(r),
                _ => {}
            }
        }
        if s.hover == Hover::Nothing {
            assert!(lit.is_empty());
        } else {
            assert_eq!(lit.len(), 1);
            assert!(lit[0].left <= x && x < lit[0].right);
        }
    }
}

#[test]
fn every_clip_ends() {
    let mut s = bar(song());
    s.art = Some(art());
    let mut clipped = false;
    for op in on_paint(&s, 1920, 40, 60, 5, 0) {
        match op {
            Op::Clip { .. } => {
                assert!(!clipped);
                clipped = true;
            }
            Op::Unclip => {
                assert!(clipped);
                clipped = false;
            }
            Op::Text { .. } => assert!(!clipped),
            _ => {}
        }
    }
    assert!(!clipped);
}

#[test]
fn bars_beyond_the_coordinates_cannot_be_drawn() {
    let mut s = bar(song());
    assert!(can_paint(&s, 0, 0, 0));
    assert!(can_paint(&s, 100, 40, 0));
    assert!(!can_paint(&s, i32::MIN, 40, 0));
    assert!(!can_paint(&s, 1920, i32::MAX, 0));
    assert!(!can_paint(&s, 1920, i32::MIN, 0));
    assert!(can_paint(&s, i32::MAX, 40, 0));
    s.tracker.effective_pos = i64::MIN;
    assert!(!can_paint(&s, -1_000_000_000, 40, 0));
    assert!(!can_paint(&s, 1920, 40, 1 << 63));
}

#[test]
fn a_low_bar_keeps_its_buttons_centred() {
    let s = bar(MediaInfo::default());
    let ops = lines(&on_paint(&s, 800, 20, 0, 0, 0));
    assert_eq!(ops[2], "clip 36,-2,145,25 6");
    let ops = lines(&on_paint(&s, 800, 100, 0, 0, 0));
    assert_eq!(ops[2], "clip 116,37,225,64 6");
}
