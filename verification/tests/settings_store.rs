use media_bar::fonts::face_name;
use media_bar::settings::{
    edit_settings, load_settings, save_settings, string_value, RegValue, Settings, StoredSettings,
    DEFAULT_FONT_FACE, REG_DWORD, REG_SZ,
};

fn nothing_stored() -> StoredSettings {
    StoredSettings { bar_h: None, font_size: None, font_face: None, monitor_idx: None }
}

fn dword(v: u32) -> Option<RegValue> {
    Some(RegValue { kind: REG_DWORD, data: v.to_le_bytes().to_vec() })
}

fn face(units: &[u16]) -> Option<RegValue> {
    let mut data = Vec::new();
    for u in units {
        data.extend_from_slice(&u.to_le_bytes());
    }
    Some(RegValue { kind: REG_SZ, data })
}

fn units(s: &str) -> Vec<u16> {
    s.encode_utf16().collect()
}

fn fields(s: &Settings) -> (i32, &str, i32, u32) {
    (s.bar_h, s.font_face.as_str(), s.font_size, s.monitor_idx)
}

#[test]
fn a_bar_that_was_never_configured_has_the_defaults() {
    let s = load_settings(&nothing_stored());
    assert_eq!(fields(&s), (40, "Segoe UI Variable Text", 13, 0));
    assert_eq!(fields(&Settings::default()), (40, "Segoe UI Variable Text", 13, 0));
}

#[test]
fn stored_values_are_loaded() {
    let mut name = units("Yu Gothic UI");
    name.push(0);
    let s = load_settings(&StoredSettings {
        bar_h: dword(64),
        font_size: dword(48),
        font_face: face(&name),
        monitor_idx: dword(2),
    });
    assert_eq!(fields(&s), (64, "Yu Gothic UI", 48, 2));
}

#[test]
fn the_bar_height_stays_within_its_range() {
    for (stored, loaded) in [(0u32, 40), (20, 40), (39, 40), (40, 40), (41, 41), (99, 99), (100, 100), (101, 100), (u32::MAX, 40)] {
        let s = load_settings(&StoredSettings { bar_h: dword(stored), ..nothing_stored() });
        assert_eq!(s.bar_h, loaded);
    }
}

#[test]
fn the_font_size_is_any_positive_integer() {
    for (stored, loaded) in [(0u32, 1), (1, 1), (7, 7), (8, 8), (33, 33), (500, 500), (0x7FFF_FFFF, i32::MAX), (0x8000_0000, 1), (u32::MAX, 1)] {
        let s = load_settings(&StoredSettings { font_size: dword(stored), ..nothing_stored() });
        assert_eq!(s.font_size, loaded);
    }
}

#[test]
fn values_of_the_wrong_form_are_replaced_by_their_defaults() {
    let wrong = |kind: u32, data: Vec<u8>| Some(RegValue { kind, data });
    let s = load_settings(&StoredSettings {
        bar_h: wrong(REG_SZ, vec![80, 0, 0, 0]),
        font_size: wrong(REG_DWORD, vec![20, 0, 0, 0, 0]),
        font_face: wrong(REG_DWORD, vec![65, 0, 0, 0]),
        monitor_idx: wrong(11, vec![1, 0, 0, 0]),
    });
    assert_eq!(fields(&s), (40, DEFAULT_FONT_FACE, 13, 0));
    let s = load_settings(&StoredSettings { bar_h: wrong(REG_DWORD, vec![80, 0]), ..nothing_stored() });
    assert_eq!(s.bar_h, 80);
}

#[test]
fn a_stored_face_ends_at_its_first_zero() {
    let load = |v: Option<RegValue>| load_settings(&StoredSettings { font_face: v, ..nothing_stored() }).font_face;
    assert_eq!(load(face(&[0x41, 0x42, 0, 0x43])), "AB");
    assert_eq!(load(face(&[0x41, 0x42])), "AB");
    assert_eq!(load(face(&[0, 0x41])), DEFAULT_FONT_FACE);
    assert_eq!(load(face(&[])), DEFAULT_FONT_FACE);
    assert_eq!(load(face(&[0x41, 0xD800])), "A\u{FFFD}");
    assert_eq!(load(Some(RegValue { kind: REG_SZ, data: vec![0x41, 0, 0x42] })), "A");
    assert_eq!(load(face(&[0x41; 256])), "A".repeat(256));
    assert_eq!(load(face(&[0x41; 257])), DEFAULT_FONT_FACE);
}

#[test]
fn settings_are_saved_under_their_names() {
    let s = Settings { bar_h: 55, font_face: "Aé".to_string(), font_size: 300, monitor_idx: 7 };
    let saved = save_settings(&s);
    let names: Vec<&str> = saved.iter().map(|e| e.name).collect();
    assert_eq!(names, vec!["BarH", "FontSize", "FontFace", "MonitorIdx"]);
    assert_eq!(saved[0].value.kind, REG_DWORD);
    assert_eq!(saved[0].value.data, vec![55, 0, 0, 0]);
    assert_eq!(saved[1].value.data, vec![44, 1, 0, 0]);
    assert_eq!(saved[2].value.kind, REG_SZ);
    assert_eq!(saved[2].value.data, vec![0x41, 0, 0xE9, 0, 0, 0]);
    assert_eq!(saved[3].value.data, vec![7, 0, 0, 0]);
}

#[test]
fn saved_settings_load_again() {
    for (h, f, size, m) in [(40, "A", 1, 0u32), (100, "游ゴシック 😀", i32::MAX, u32::MAX), (73, "Segoe UI", 13, 3)] {
        let s = Settings { bar_h: h, font_face: f.to_string(), font_size: size, monitor_idx: m };
        let mut it = save_settings(&s).into_iter().map(|e| Some(e.value));
        let stored = StoredSettings {
            bar_h: it.next().unwrap(),
            font_size: it.next().unwrap(),
            font_face: it.next().unwrap(),
            monitor_idx: it.next().unwrap(),
        };
        assert_eq!(fields(&load_settings(&stored)), (h, f, size, m));
    }
}

#[test]
fn a_text_value_is_utf16_with_a_zero() {
    let v = string_value("\"C:\\bar.exe\"");
    assert_eq!(v.kind, REG_SZ);
    let mut expected = Vec::new();
    for u in "\"C:\\bar.exe\"\0".encode_utf16() {
        expected.extend_from_slice(&u.to_le_bytes());
    }
    assert_eq!(v.data, expected);
}

#[test]
fn confirming_the_window_takes_over_what_was_entered() {
    let mut s = Settings { bar_h: 50, font_face: "Old".to_string(), font_size: 20, monitor_idx: 4 };
    edit_settings(&mut s, &units(" 72 "), &Some(units("Meiryo")), &units("6"));
    assert_eq!(fields(&s), (72, "Meiryo", 6, 4));
    edit_settings(&mut s, &units("39"), &None, &units("0"));
    assert_eq!(fields(&s), (40, DEFAULT_FONT_FACE, 1, 4));
    edit_settings(&mut s, &units("101"), &Some(Vec::new()), &units("1000"));
    assert_eq!(fields(&s), (100, DEFAULT_FONT_FACE, 1000, 4));
    edit_settings(&mut s, &units("tall"), &Some(units("X")), &units(""));
    assert_eq!(fields(&s), (40, "X", 13, 4));
}

#[test]
fn confirming_without_a_change_changes_nothing() {
    let mut s = Settings { bar_h: 88, font_face: "Yu Gothic".to_string(), font_size: 17, monitor_idx: 1 };
    let (a, b) = media_bar::dialog::initial_texts(&s);
    assert_eq!(a, units("88\0"));
    assert_eq!(b, units("17\0"));
    let selected = Some(units(&s.font_face));
    edit_settings(&mut s, &a[..a.len() - 1], &selected, &b[..b.len() - 1]);
    assert_eq!(fields(&s), (88, "Yu Gothic", 17, 1));
}

#[test]
fn every_offered_face_survives_saving() {
    let mut full = [0x41u16; 32];
    full[31] = 0xD800;
    let mut pairs = [0u16; 32];
    for i in 0..16 {
        pairs[2 * i] = 0xD83D;
        pairs[2 * i + 1] = 0xDE00;
    }
    let lone = [0xDC00u16; 32];
    for field in [[0x41u16; 32], full, pairs, lone] {
        let name = face_name(&field).unwrap();
        let mut s = Settings::default();
        edit_settings(&mut s, &units("60"), &Some(units(&name)), &units("20"));
        assert_eq!(s.font_face, name);
        let mut it = save_settings(&s).into_iter().map(|e| Some(e.value));
        let stored = StoredSettings {
            bar_h: it.next().unwrap(),
            font_size: it.next().unwrap(),
            font_face: it.next().unwrap(),
            monitor_idx: it.next().unwrap(),
        };
        assert_eq!(fields(&load_settings(&stored)), (60, name.as_str(), 20, 0));
    }
}
