use media_bar::layout::{hit_bar, hit_btn, Hover};
use media_bar::media::{display_pos, Command, MediaInfo, Tracker};
use media_bar::settings::Settings;
use media_bar::window::{
    handle, handle_without_state, read_message, route, signed_high_word, signed_low_word, Action, BarState,
    Message, Route,
};

const W: i32 = 1920;
const H: i32 = 40;

fn bar(duration: i64) -> BarState {
    let mut s = BarState::new(Settings::default(), 0xD47800);
    s.info.duration_100ns = duration;
    s
}

fn down(x: i32) -> Message {
    Message::LeftDown { x, w: W, h: H }
}

fn moved(x: i32) -> Message {
    Message::MouseMove { x, w: W, h: H }
}

#[test]
fn a_new_bar_shows_nothing() {
    let s = BarState::new(Settings::default(), 7);
    assert_eq!((s.hover, s.accent, s.seeking), (Hover::Nothing, 7, None));
    assert_eq!(s.tracker, Tracker::new());
    assert!(s.info.title.is_empty());
}

#[test]
fn buttons_are_found_under_the_pointer() {
    let expected = [
        (55, Hover::Nothing),
        (56, Hover::Prev),
        (91, Hover::Prev),
        (92, Hover::Play),
        (127, Hover::Play),
        (128, Hover::Next),
        (163, Hover::Next),
        (164, Hover::Nothing),
        (171, Hover::Nothing),
        (172, Hover::Shuffle),
        (199, Hover::Shuffle),
        (200, Hover::Repeat),
        (227, Hover::Repeat),
        (228, Hover::Nothing),
        (1879, Hover::Nothing),
        (1880, Hover::Gear),
        (1911, Hover::Gear),
        (1912, Hover::Nothing),
        (-5, Hover::Nothing),
    ];
    for (x, button) in expected {
        assert_eq!(hit_bar(x, W, H), button, "{}", x);
        assert_eq!(hit_btn(x, 56, 172, 200, 1880), button, "{}", x);
    }
    assert_eq!(hit_btn(i32::MAX, i32::MAX, 0, 0, 0), Hover::Prev);
    assert_eq!(hit_btn(10, 0, 10, 10, 10), Hover::Prev);
    assert_eq!(hit_btn(110, 0, 110, 110, 110), Hover::Shuffle);
}

#[test]
fn messages_are_read() {
    let read = |msg: u32, lp: i64| read_message(msg, 0xC123, lp, W, H);
    assert_eq!(read(0x000F, 0), Message::Paint);
    assert_eq!(read(0x8002, 0), Message::MediaUpdate);
    assert_eq!(read(0x0200, 0x0014_0064), moved(100));
    assert_eq!(read(0x0200, 0x0014_FFFE), moved(-2));
    assert_eq!(read(0x0201, 0x0005_0600), down(0x600));
    assert_eq!(read(0x02A3, 0), Message::MouseLeave);
    assert_eq!(read(0x0202, 0), Message::LeftUp);
    assert_eq!(read(0x001A, 0), Message::SettingChange);
    assert_eq!(read(0x0204, 0), Message::RightDown);
    assert_eq!(read(0x8003, 0x0205), Message::TrayMenu);
    assert_eq!(read(0x8003, 0x007B), Message::TrayMenu);
    assert_eq!(read(0x8003, 0x0203), Message::TraySettings);
    assert_eq!(read(0x8003, 0x1_0000_0203), Message::TraySettings);
    assert_eq!(read(0x8003, 0x0200), Message::TrayOther);
    assert_eq!(read(0x0113, 0), Message::Timer);
    assert_eq!(read(0x0002, 0), Message::Destroy);
    assert_eq!(read(0x0003, 0), Message::Other);
    assert_eq!(read(0xC123, 0), Message::TaskbarCreated);
    assert_eq!(read_message(0, 0, 0, W, H), Message::Other);
}

#[test]
fn words_are_signed() {
    for lp in [0i64, 1, 0x7FFF, 0x8000, 0xFFFF, 0x1234_5678, 0x8000_8000, -1, -0x12345, i64::MIN, i64::MAX] {
        assert_eq!(signed_low_word(lp), (lp & 0xFFFF) as i16 as i32);
        assert_eq!(signed_high_word(lp), ((lp as i32) >> 16) as i16 as i32);
    }
}

#[test]
fn moving_the_pointer_lights_buttons() {
    let mut s = bar(0);
    assert_eq!(handle(&mut s, moved(100)), vec![Action::Invalidate, Action::TrackLeave]);
    assert_eq!(s.hover, Hover::Play);
    assert_eq!(handle(&mut s, moved(101)), vec![Action::TrackLeave]);
    assert_eq!(handle(&mut s, moved(1890)), vec![Action::Invalidate, Action::TrackLeave]);
    assert_eq!(s.hover, Hover::Gear);
    assert_eq!(handle(&mut s, Message::MouseLeave), vec![Action::Invalidate]);
    assert_eq!(s.hover, Hover::Nothing);
}

#[test]
fn pressing_a_button_does_what_it_says() {
    let cases = [
        (60, vec![Action::Send(Command::Prev)]),
        (100, vec![Action::Send(Command::Play)]),
        (130, vec![Action::Send(Command::Next)]),
        (180, vec![Action::Send(Command::Shuffle)]),
        (210, vec![Action::Send(Command::Repeat)]),
        (1890, vec![Action::OpenSettings]),
        (400, vec![]),
    ];
    for (x, actions) in cases {
        let mut s = bar(1000);
        assert_eq!(handle(&mut s, down(x)), actions, "{}", x);
        assert_eq!(s.seeking, None);
    }
    assert_eq!(handle_without_state(down(1890)), vec![]);
    assert_eq!(handle_without_state(down(60)), vec![Action::Send(Command::Prev)]);
}

#[test]
fn a_click_on_the_seek_bar_seeks() {
    let mut s = bar(3600);
    assert_eq!(handle(&mut s, down(1496 + 90)), vec![Action::SetCapture, Action::Invalidate]);
    assert_eq!(s.seeking, Some(90));
    assert_eq!(
        handle(&mut s, Message::LeftUp),
        vec![Action::ReleaseCapture, Action::Seek(900), Action::Invalidate]
    );
    assert_eq!(s.seeking, None);
    assert_eq!(handle(&mut s, Message::LeftUp), vec![Action::ReleaseCapture]);
}

#[test]
fn a_drag_follows_the_pointer_and_stays_on_the_track() {
    let mut s = bar(3600);
    handle(&mut s, down(1500));
    assert_eq!(handle(&mut s, moved(1676)), vec![Action::Invalidate, Action::TrackLeave]);
    assert_eq!((s.seeking, s.hover), (Some(180), Hover::Nothing));
    handle(&mut s, moved(-100));
    assert_eq!(s.seeking, Some(0));
    handle(&mut s, moved(100));
    assert_eq!((s.seeking, s.hover), (Some(0), Hover::Nothing));
    handle(&mut s, moved(5000));
    assert_eq!(s.seeking, Some(360));
    assert_eq!(
        handle(&mut s, Message::LeftUp),
        vec![Action::ReleaseCapture, Action::Seek(3600), Action::Invalidate]
    );
}

#[test]
fn nothing_can_be_sought_in_what_has_no_length() {
    let mut s = bar(0);
    assert_eq!(handle(&mut s, down(1600)), vec![]);
    assert_eq!(s.seeking, None);
    let mut s = bar(1000);
    handle(&mut s, down(1600));
    s.info = MediaInfo::default();
    assert_eq!(handle(&mut s, Message::LeftUp), vec![Action::ReleaseCapture, Action::Invalidate]);
}

#[test]
fn the_other_messages() {
    let mut s = bar(0);
    assert_eq!(handle(&mut s, Message::Paint), vec![Action::Paint]);
    assert_eq!(handle(&mut s, Message::MediaUpdate), vec![Action::Invalidate]);
    assert_eq!(handle(&mut s, Message::SettingChange), vec![Action::ReadAccent, Action::Invalidate]);
    assert_eq!(handle(&mut s, Message::RightDown), vec![Action::ShowMenu]);
    assert_eq!(handle(&mut s, Message::TrayMenu), vec![Action::ShowMenu]);
    assert_eq!(handle(&mut s, Message::TraySettings), vec![Action::OpenSettings]);
    assert_eq!(handle(&mut s, Message::TrayOther), vec![]);
    assert_eq!(handle(&mut s, Message::Timer), vec![Action::Invalidate]);
    assert_eq!(handle(&mut s, Message::TaskbarCreated), vec![Action::AddTrayIcon]);
    assert_eq!(handle(&mut s, Message::Other), vec![Action::Default]);
    assert_eq!(
        handle(&mut s, Message::Destroy),
        vec![Action::KillTimer, Action::RemoveTrayIcon, Action::RemoveAppbar, Action::Quit]
    );
}

#[test]
fn without_state_nothing_is_painted() {
    for m in [Message::Paint, Message::MouseLeave, Message::LeftUp, Message::SettingChange, Message::TraySettings] {
        assert_eq!(handle_without_state(m), vec![]);
    }
    assert_eq!(handle_without_state(moved(100)), vec![Action::TrackLeave]);
    assert_eq!(handle_without_state(Message::Timer), vec![Action::Invalidate]);
    assert_eq!(handle_without_state(Message::TaskbarCreated), vec![Action::AddTrayIcon]);
}

#[test]
fn messages_leave_what_plays_alone() {
    let mut s = bar(5000);
    s.info.title = "Song".to_string();
    s.tracker = Tracker { effective_pos: 17, last_smtc_pos: 16 };
    for m in [moved(60), down(1700), moved(1800), Message::LeftUp, Message::MouseLeave, Message::Timer] {
        handle(&mut s, m);
        assert!(s.seeking.is_none() || (s.seeking.unwrap() >= 0 && s.seeking.unwrap() <= 360));
    }
    assert_eq!((s.info.title.as_str(), s.info.duration_100ns), ("Song", 5000));
    assert_eq!(s.tracker, Tracker { effective_pos: 17, last_smtc_pos: 16 });
    assert_eq!(s.accent, 0xD47800);
}

#[test]
fn readings_reach_the_bar() {
    let mut s = bar(0);
    let song = |pos: i64| MediaInfo {
        title: "Song".to_string(),
        playing: true,
        position_100ns: pos,
        duration_100ns: 2_000_000_000,
        ..MediaInfo::default()
    };
    assert!(s.poll(Some(song(30)), &String::new(), 0));
    assert_eq!((s.tracker.effective_pos, s.info.title.as_str()), (30, "Song"));
    assert!(!s.poll(Some(song(30)), &"Song".to_string(), 1_000_000_000));
    assert_eq!(s.tracker.effective_pos, 30);
    s.seek_done(900);
    assert_eq!(s.tracker, Tracker { effective_pos: 900, last_smtc_pos: 900 });
    assert!(!s.refresh(None));
    assert_eq!(s.info.title, "Song");
    assert!(s.refresh(Some(song(901))));
    assert_eq!(s.tracker, Tracker { effective_pos: 901, last_smtc_pos: 901 });
    assert!(!s.poll(None, &"Song".to_string(), 0));
    assert!(s.info.title.is_empty() && !s.info.playing);
    assert_eq!(s.tracker.effective_pos, 901);
}

#[test]
fn the_settings_window_gets_keys_and_wheel() {
    assert_eq!(route(false, 0x020A, 0x0010_0020), Route::Dispatch);
    assert_eq!(route(true, 0x020A, 0x0010_0020), Route::Wheel { x: 32, y: 16 });
    assert_eq!(route(true, 0x020A, 0xFFF0_FFE0), Route::Wheel { x: -32, y: -16 });
    assert_eq!(route(true, 0x0100, 0), Route::Dialog);
}

#[test]
fn a_seek_is_shown_at_once() {
    let mut s = bar(3600);
    s.info.playing = true;
    s.seek_done(900);
    assert_eq!(display_pos(s.tracker.effective_pos, true, 0, 3600), 900);
    assert_eq!(display_pos(s.tracker.effective_pos, true, 5_000, 3600), 950);
}

#[test]
fn a_drag_among_other_messages_seeks_where_it_ends() {
    let mut s = bar(3600);
    handle(&mut s, down(1500));
    for m in [moved(1600), Message::Timer, Message::Paint, moved(1586), Message::MediaUpdate, Message::MouseLeave] {
        handle(&mut s, m);
    }
    assert_eq!(
        handle(&mut s, Message::LeftUp),
        vec![Action::ReleaseCapture, Action::Seek(900), Action::Invalidate]
    );
    assert_eq!(s.seeking, None);
}
