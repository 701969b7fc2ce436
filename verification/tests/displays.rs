use media_bar::layout::Rect;
use media_bar::menu::{context_menu, read_choice, select_display, MenuChoice, MenuItem};
use media_bar::monitors::{
    docked_rect, effective_index, monitor_info, monitor_rect, sort_monitors, window_placing, MonitorInfo,
    Placing,
};
use media_bar::settings::Settings;
use media_bar::text::from_utf16_lossy;

fn rect(left: i32, top: i32, right: i32, bottom: i32) -> Rect {
    Rect { left, top, right, bottom }
}

fn two_displays() -> Vec<MonitorInfo> {
    vec![
        MonitorInfo { rect: rect(-1920, 0, 0, 1080), primary: false },
        MonitorInfo { rect: rect(0, 0, 2560, 1440), primary: true },
    ]
}

fn shown(label: &[u16]) -> String {
    assert_eq!(label.last(), Some(&0));
    from_utf16_lossy(&label[..label.len() - 1])
}

#[test]
fn displays_are_ordered_from_left_to_right() {
    let list = vec![
        monitor_info(rect(1920, 0, 3840, 1080), 0),
        monitor_info(rect(0, 1080, 1920, 2160), 2),
        monitor_info(rect(0, 0, 1920, 1080), 1),
        monitor_info(rect(-1280, 500, 0, 1524), 3),
    ];
    let sorted = sort_monitors(&list);
    let corners: Vec<(i32, i32, bool)> = sorted.iter().map(|m| (m.rect.left, m.rect.top, m.primary)).collect();
    assert_eq!(corners, vec![(-1280, 500, true), (0, 0, true), (0, 1080, false), (1920, 0, false)]);
}

#[test]
fn displays_at_one_corner_keep_their_order() {
    let list = vec![
        monitor_info(rect(5, 5, 30, 10), 0),
        monitor_info(rect(5, 5, 20, 10), 1),
        monitor_info(rect(0, 9, 1, 10), 0),
        monitor_info(rect(5, 5, 10, 10), 0),
    ];
    let sorted = sort_monitors(&list);
    let rights: Vec<i32> = sorted.iter().map(|m| m.rect.right).collect();
    assert_eq!(rights, vec![1, 30, 20, 10]);
    let mut expected = list.clone();
    expected.sort_by_key(|m| (m.rect.left, m.rect.top));
    assert_eq!(sorted, expected);
    assert!(sort_monitors(&Vec::new()).is_empty());
}

#[test]
fn an_index_beyond_the_last_display_stands_for_the_last() {
    assert_eq!(effective_index(0, 0), 0);
    assert_eq!(effective_index(9, 0), 0);
    assert_eq!(effective_index(1, 3), 1);
    assert_eq!(effective_index(3, 3), 2);
    assert_eq!(effective_index(u32::MAX, 3), 2);
    let list = two_displays();
    assert_eq!(monitor_rect(&list, 0, 800, 600), list[0].rect);
    assert_eq!(monitor_rect(&list, 7, 800, 600), list[1].rect);
    assert_eq!(monitor_rect(&Vec::new(), 7, 800, 600), rect(0, 0, 800, 600));
}

#[test]
fn the_bar_takes_a_strip_at_the_bottom() {
    let strip = docked_rect(rect(-1920, -200, 0, 880), 40);
    assert_eq!(strip, rect(-1920, 840, 0, 880));
    assert_eq!(window_placing(strip), Placing { x: -1920, y: 840, width: 1920, height: 40 });
}

#[test]
fn the_menu_of_one_display_offers_no_choice_of_displays() {
    let list = vec![MonitorInfo { rect: rect(0, 0, 1920, 1080), primary: true }];
    let menu = context_menu(true, &list, 0);
    assert_eq!(menu.len(), 5);
    let mut seen = Vec::new();
    for item in &menu {
        match item {
            MenuItem::Entry(e) => seen.push((e.id, shown(&e.label), e.checked)),
            MenuItem::Displays { .. } => panic!("no displays expected"),
            MenuItem::Separator => seen.push((0, String::new(), false)),
        }
    }
    assert_eq!(
        seen,
        vec![
            (3, "設定 (&P)".to_string(), false),
            (0, String::new(), false),
            (1, "スタートアップ時に起動 (&S)".to_string(), true),
            (0, String::new(), false),
            (2, "終了 (&X)".to_string(), false),
        ]
    );
}

#[test]
fn the_menu_lists_the_displays() {
    let menu = context_menu(false, &two_displays(), 5);
    assert_eq!(menu.len(), 6);
    match &menu[1] {
        MenuItem::Displays { label, entries } => {
            assert_eq!(shown(label), "表示画面 (&D)");
            let lines: Vec<(usize, String, bool)> =
                entries.iter().map(|e| (e.id, shown(&e.label), e.checked)).collect();
            assert_eq!(
                lines,
                vec![
                    (100, "ディスプレイ 1".to_string(), false),
                    (101, "ディスプレイ 2 (プライマリ)".to_string(), true),
                ]
            );
        }
        _ => panic!("displays expected"),
    }
    match &menu[3] {
        MenuItem::Entry(e) => assert!(e.id == 1 && !e.checked),
        _ => panic!("entry expected"),
    }
}

#[test]
fn choices_mean_what_the_menu_says() {
    assert_eq!(read_choice(0, 2), MenuChoice::Nothing);
    assert_eq!(read_choice(1, 2), MenuChoice::ToggleStartup);
    assert_eq!(read_choice(2, 2), MenuChoice::Exit);
    assert_eq!(read_choice(3, 2), MenuChoice::Settings);
    assert_eq!(read_choice(4, 2), MenuChoice::Nothing);
    assert_eq!(read_choice(99, 2), MenuChoice::Nothing);
    assert_eq!(read_choice(100, 2), MenuChoice::Display(0));
    assert_eq!(read_choice(101, 2), MenuChoice::Display(1));
    assert_eq!(read_choice(102, 2), MenuChoice::Nothing);
    assert_eq!(read_choice(-1, 2), MenuChoice::Nothing);
}

#[test]
fn a_chosen_display_gets_the_check_mark() {
    let list = two_displays();
    for i in 0..2u32 {
        let mut s = Settings::default();
        match read_choice(100 + i as i32, list.len()) {
            MenuChoice::Display(k) => select_display(&mut s, k),
            _ => panic!("display expected"),
        }
        assert_eq!((s.monitor_idx, s.bar_h), (i, 40));
        match &context_menu(false, &list, s.monitor_idx)[1] {
            MenuItem::Displays { entries, .. } => {
                for (k, e) in entries.iter().enumerate() {
                    assert_eq!(e.checked, k == i as usize);
                }
            }
            _ => panic!("displays expected"),
        }
    }
}
