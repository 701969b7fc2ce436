use media_bar::dialog::{
    dialog_controls, open_settings, read_dialog_message, window_position, DialogAction, OpenStep,
};
use media_bar::fonts::{bar_fonts, face_name, sort_faces};
use media_bar::settings::{Settings, REG_SZ};
use media_bar::startup::{at_launch, startup_value, toggled, tray_tip, StartupChange};
use media_bar::text::w16z;

fn field(s: &str) -> [u16; 32] {
    let mut f = [0u16; 32];
    for (i, u) in s.encode_utf16().enumerate() {
        f[i] = u;
    }
    f
}

#[test]
fn the_first_launch_registers_and_later_ones_do_not() {
    assert_eq!(at_launch(false), StartupChange::Register);
    assert_eq!(at_launch(true), StartupChange::Keep);
}

#[test]
fn toggling_twice_restores() {
    assert_eq!(toggled(false), StartupChange::Register);
    assert_eq!(toggled(true), StartupChange::Unregister);
}

#[test]
fn the_program_is_registered_in_quotation_marks() {
    let v = startup_value("C:\\Program Files\\bar.exe");
    assert_eq!(v.kind, REG_SZ);
    let mut expected = Vec::new();
    for u in w16z("\"C:\\Program Files\\bar.exe\"") {
        expected.push((u & 0xFF) as u8);
        expected.push((u >> 8) as u8);
    }
    assert_eq!(v.data, expected);
}

#[test]
fn the_tip_is_cut_to_its_field() {
    let tip = tray_tip("MediaBar");
    assert_eq!(tip[..9], w16z("MediaBar")[..]);
    assert!(tip[9..].iter().all(|u| *u == 0));
    let long = tray_tip(&"x".repeat(200));
    assert!(long[..127].iter().all(|u| *u == 0x78));
    assert_eq!(long[127], 0);
}

#[test]
fn faces_are_read_from_their_fields() {
    assert_eq!(face_name(&field("Segoe UI")), Some("Segoe UI".to_string()));
    assert_eq!(face_name(&field("@Meiryo")), None);
    assert_eq!(face_name(&field("")), None);
    assert_eq!(face_name(&[0x41; 32]), Some("A".repeat(32)));
    assert_eq!(face_name(&field("M@")), Some("M@".to_string()));
}

#[test]
fn faces_are_offered_once_and_in_order() {
    let names = ["Meiryo", "Arial", "游ゴシック", "Arial", "arial", "Arial Black", "😀", "\u{E000}", "Meiryo"];
    let list: Vec<String> = names.iter().map(|s| s.to_string()).collect();
    let mut expected = list.clone();
    expected.sort_unstable();
    expected.dedup();
    assert_eq!(sort_faces(&list), expected);
    assert_eq!(sort_faces(&expected), expected);
    assert!(sort_faces(&Vec::new()).is_empty());
}

#[test]
fn the_bar_is_drawn_with_two_fonts() {
    let s = Settings { bar_h: 40, font_face: "Meiryo".to_string(), font_size: 17, monitor_idx: 0 };
    let (text, icons) = bar_fonts(&s, 72);
    assert_eq!((text.face, text.height), (w16z("Meiryo"), -17));
    assert_eq!((icons.face, icons.height), (w16z("Segoe MDL2 Assets"), -14));
}

#[test]
fn the_settings_window_stands_in_the_middle() {
    assert_eq!(window_position(1920, 1080), (772, 438));
    assert_eq!(window_position(375, 203), (0, 0));
    assert_eq!(window_position(0, 0), (-188, -102));
}

#[test]
fn the_settings_window_has_its_controls() {
    let c = dialog_controls();
    let seen: Vec<(&str, &str, i32, i32, i32, i32, i32)> =
        c.iter().map(|c| (c.class, c.text, c.x, c.y, c.w, c.h, c.id)).collect();
    assert_eq!(
        seen,
        vec![
            ("STATIC", "バーの高さ", 20, 22, 112, 22, 0),
            ("STATIC", "px", 208, 22, 28, 22, 0),
            ("STATIC", "フォント", 20, 58, 112, 22, 0),
            ("STATIC", "フォントサイズ", 20, 94, 112, 22, 0),
            ("STATIC", "pt", 208, 94, 28, 22, 0),
            ("EDIT", "", 140, 20, 60, 22, 101),
            ("EDIT", "", 140, 92, 60, 22, 103),
            ("COMBOBOX", "", 140, 55, 196, 200, 102),
            ("BUTTON", "OK", 264, 129, 72, 26, 1),
            ("BUTTON", "キャンセル", 184, 129, 72, 26, 2),
        ]
    );
    let styles: Vec<(u32, u32)> = c.iter().map(|c| (c.ex, c.style)).collect();
    assert_eq!(styles[0], (0, 0));
    assert_eq!(styles[5], (0x200, 0x1_0000));
    assert_eq!(styles[7], (0, 0x1_0003));
    assert_eq!(styles[8], (0, 0x1_0001));
    assert_eq!(styles[9], (0, 0x1_0000));
}

#[test]
fn controls_do_not_overlap() {
    let c = dialog_controls();
    for i in 0..c.len() {
        for j in i + 1..c.len() {
            let height = |k: usize| if c[k].id == 102 { 22 } else { c[k].h };
            let apart = c[i].x + c[i].w <= c[j].x
                || c[j].x + c[j].w <= c[i].x
                || c[i].y + height(i) <= c[j].y
                || c[j].y + height(j) <= c[i].y;
            assert!(apart, "{} and {}", i, j);
            assert!(c[i].id == 0 || c[i].id != c[j].id);
        }
    }
}

#[test]
fn the_settings_window_answers_its_messages() {
    assert_eq!(read_dialog_message(1, 0, false), DialogAction::Fill);
    assert_eq!(read_dialog_message(0x111, 1, true), DialogAction::Confirm);
    assert_eq!(read_dialog_message(0x111, 0x5_0001, true), DialogAction::Confirm);
    assert_eq!(read_dialog_message(0x111, 2, true), DialogAction::Close);
    assert_eq!(read_dialog_message(0x111, 102, true), DialogAction::Nothing);
    assert_eq!(read_dialog_message(0x111, 1, false), DialogAction::Default);
    assert_eq!(read_dialog_message(0x10, 0, true), DialogAction::Close);
    assert_eq!(read_dialog_message(2, 0, true), DialogAction::Forget);
    assert_eq!(read_dialog_message(0x200, 0, true), DialogAction::Default);
}

#[test]
fn font_sizes_are_points() {
    let height = |size: i32, dpi: u32| {
        let s = Settings { font_size: size, ..Settings::default() };
        bar_fonts(&s, dpi).0.height
    };
    assert_eq!(height(13, 96), -17);
    assert_eq!(height(12, 96), -16);
    assert_eq!(height(1, 96), -1);
    assert_eq!(height(13, 144), -26);
    assert_eq!(height(500, 72), -500);
    assert_eq!(height(13, 0), 0);
    assert_eq!(height(i32::MAX, 96), -i32::MAX);
    for size in 1..200 {
        assert!(height(size + 1, 120) <= height(size, 120));
    }
}

#[test]
fn the_settings_window_is_opened_once() {
    assert_eq!(open_settings(false), OpenStep::Create);
    assert_eq!(open_settings(true), OpenStep::BringToFront);
}
