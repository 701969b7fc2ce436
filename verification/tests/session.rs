use media_bar::media::{
    display_pos, fetch_media_info, needs_modes, next_repeat, position_fits, repeat_mode, send_cmd,
    thumbnail_len, Command, MediaInfo, PlaybackModes, RepeatMode, Request, SessionReadings, Timeline,
    Tracker,
};
use std::sync::Arc;

fn readings(title: Option<&str>) -> SessionReadings {
    SessionReadings {
        playback_type: Some(1),
        status: Some(4),
        title: title.map(|t| t.to_string()),
        artist: Some("Artist".to_string()),
        shuffle: Some(true),
        repeat: Some(2),
        shuffle_enabled: Some(true),
        repeat_enabled: Some(false),
        timeline: Some(Timeline { position: 700, start: 100, end: 5100 }),
    }
}

fn info(title: &str, position: i64, duration: i64) -> MediaInfo {
    MediaInfo {
        title: title.to_string(),
        position_100ns: position,
        duration_100ns: duration,
        ..MediaInfo::default()
    }
}

#[test]
fn a_session_is_read() {
    let old = Some(Arc::new(vec![1u8]));
    let new = Some(Arc::new(vec![2u8, 3]));
    let m = fetch_media_info(readings(Some("Song")), &"Other".to_string(), old, new).unwrap();
    assert_eq!(m.title, "Song");
    assert_eq!(m.artist, "Artist");
    assert!(m.playing);
    assert_eq!(*m.thumbnail.unwrap(), vec![2, 3]);
    assert_eq!((m.position_100ns, m.duration_100ns), (600, 5000));
    assert!(m.shuffle && m.shuffle_enabled && !m.repeat_enabled);
    assert_eq!(m.repeat, Some(RepeatMode::List));
}

#[test]
fn the_picture_is_kept_under_the_same_title() {
    let old = Some(Arc::new(vec![1u8]));
    let r = readings(Some("Song"));
    assert!(!r.wants_picture(&"Song".to_string()));
    assert!(r.wants_picture(&"Other".to_string()));
    let m = fetch_media_info(r, &"Song".to_string(), old, None).unwrap();
    assert_eq!(*m.thumbnail.unwrap(), vec![1]);
    assert!(!readings(None).wants_picture(&String::new()));
    assert!(readings(None).wants_picture(&"Song".to_string()));
}

#[test]
fn videos_are_left_alone() {
    let mut r = readings(Some("Film"));
    r.playback_type = Some(2);
    assert!(!r.wants_picture(&String::new()));
    assert!(fetch_media_info(r, &String::new(), None, None).is_none());
    let mut r = readings(Some("Talk"));
    r.playback_type = None;
    assert!(fetch_media_info(r, &String::new(), None, None).is_some());
}

#[test]
fn what_a_session_does_not_say_is_off_or_empty() {
    let r = SessionReadings {
        playback_type: None,
        status: None,
        title: None,
        artist: None,
        shuffle: None,
        repeat: None,
        shuffle_enabled: None,
        repeat_enabled: None,
        timeline: None,
    };
    let m = fetch_media_info(r, &String::new(), None, Some(Arc::new(vec![9]))).unwrap();
    let none = MediaInfo::default();
    assert_eq!((m.title.as_str(), m.artist.as_str()), ("", ""));
    assert_eq!((m.playing, m.shuffle, m.shuffle_enabled, m.repeat_enabled), (false, false, false, false));
    assert_eq!((m.position_100ns, m.duration_100ns, m.repeat), (0, 0, None));
    assert!(m.thumbnail.is_none() && none.thumbnail.is_none());
    assert!(none.title.is_empty() && !none.playing && none.duration_100ns == 0);
}

#[test]
fn without_a_length_there_is_no_position() {
    for (start, end) in [(100, 100), (100, 50)] {
        let mut r = readings(Some("Radio"));
        r.timeline = Some(Timeline { position: 700, start, end });
        let m = fetch_media_info(r, &String::new(), None, None).unwrap();
        assert_eq!((m.position_100ns, m.duration_100ns), (0, 0));
    }
    let mut r = readings(Some("Paused"));
    r.status = Some(5);
    assert!(!fetch_media_info(r, &String::new(), None, None).unwrap().playing);
}

#[test]
fn an_empty_stream_has_no_picture() {
    assert_eq!(thumbnail_len(0), None);
    assert_eq!(thumbnail_len(1), Some(1));
    assert_eq!(thumbnail_len(0xFFFF_FFFF), Some(0xFFFF_FFFF));
    assert_eq!(thumbnail_len(0x1_0000_0000), None);
    assert_eq!(thumbnail_len(0x1_0000_0007), Some(7));
}

#[test]
fn the_position_counts_on_while_something_plays() {
    assert_eq!(display_pos(1000, true, 250_000_000, 10_000_000_000), 2_501_000);
    assert_eq!(display_pos(1000, false, 250_000_000, 10_000_000_000), 1000);
    assert_eq!(display_pos(9_999_999_000, true, 250_000_000, 10_000_000_000), 10_000_000_000);
    assert_eq!(display_pos(0, true, 199, 10), 1);
    assert_eq!(display_pos(i64::MAX, true, 1_000_000, 77), 77);
    assert_eq!(display_pos(5, true, (1u128 << 64) + 300, 1000), 8);
    assert!(position_fits(0, true, 1 << 63));
    assert!(position_fits(i64::MIN, false, 1 << 63));
    assert!(!position_fits(i64::MIN, true, 1 << 63));
}

#[test]
fn a_new_position_is_taken_over() {
    let mut t = Tracker::new();
    assert_eq!((t.effective_pos, t.last_smtc_pos), (0, i64::MIN));
    let now = info("A", 40_000_000, 2_000_000_000);
    assert!(t.follow(&now, &"A".to_string(), true, 0));
    assert_eq!((t.effective_pos, t.last_smtc_pos), (40_000_000, 40_000_000));
}

#[test]
fn a_stale_position_does_not_disturb_the_count() {
    let mut t = Tracker { effective_pos: 40_000_000, last_smtc_pos: 40_000_000 };
    let same = info("A", 40_000_000, 2_000_000_000);
    assert!(!t.follow(&same, &"A".to_string(), true, 5_000_000_000));
    assert_eq!(t, Tracker { effective_pos: 40_000_000, last_smtc_pos: 40_000_000 });
}

#[test]
fn another_title_is_taken_over_at_once() {
    let mut t = Tracker { effective_pos: 90, last_smtc_pos: 40 };
    assert!(t.follow(&info("B", 40, 2_000_000_000), &"A".to_string(), true, 0));
    assert_eq!(t, Tracker { effective_pos: 40, last_smtc_pos: 40 });
    let mut t = Tracker { effective_pos: 90, last_smtc_pos: 40 };
    assert!(!t.follow(&info("B", 40, 0), &"A".to_string(), true, 0));
    assert_eq!(t, Tracker { effective_pos: 90, last_smtc_pos: 40 });
}

#[test]
fn near_the_end_every_reading_counts() {
    let dur = 2_000_000_000;
    let mut t = Tracker { effective_pos: dur - 5_000_000, last_smtc_pos: 7 };
    assert!(t.follow(&info("A", 7, dur), &"A".to_string(), false, 0));
    assert_eq!(t, Tracker { effective_pos: 7, last_smtc_pos: 7 });
    let mut t = Tracker { effective_pos: dur - 5_000_001, last_smtc_pos: 7 };
    assert!(!t.follow(&info("A", 7, dur), &"A".to_string(), false, 0));
    assert!(t.follow(&info("A", 7, dur), &"A".to_string(), true, 100));
}

#[test]
fn buttons_ask_the_session() {
    let modes = Some(PlaybackModes { shuffle: Some(false), repeat: Some(1) });
    assert_eq!(send_cmd(Command::Prev, None), Some(Request::SkipPrevious));
    assert_eq!(send_cmd(Command::Play, None), Some(Request::TogglePlayPause));
    assert_eq!(send_cmd(Command::Next, modes), Some(Request::SkipNext));
    assert_eq!(send_cmd(Command::Shuffle, modes), Some(Request::SetShuffle(true)));
    assert_eq!(send_cmd(Command::Repeat, modes), Some(Request::SetRepeat(RepeatMode::Off)));
    assert_eq!(send_cmd(Command::Shuffle, None), None);
    assert_eq!(send_cmd(Command::Repeat, None), None);
    let silent = Some(PlaybackModes { shuffle: None, repeat: None });
    assert_eq!(send_cmd(Command::Shuffle, silent), Some(Request::SetShuffle(true)));
    assert_eq!(send_cmd(Command::Repeat, silent), Some(Request::SetRepeat(RepeatMode::List)));
    assert!(needs_modes(Command::Shuffle) && needs_modes(Command::Repeat));
    assert!(!needs_modes(Command::Prev) && !needs_modes(Command::Play) && !needs_modes(Command::Next));
}

#[test]
fn repeat_goes_round() {
    assert_eq!(next_repeat(None), RepeatMode::List);
    assert_eq!(next_repeat(Some(RepeatMode::Off)), RepeatMode::List);
    assert_eq!(next_repeat(Some(RepeatMode::List)), RepeatMode::Track);
    assert_eq!(next_repeat(Some(RepeatMode::Track)), RepeatMode::Off);
    assert_eq!(next_repeat(Some(RepeatMode::Unknown)), RepeatMode::Off);
    assert_eq!(repeat_mode(0), RepeatMode::Off);
    assert_eq!(repeat_mode(1), RepeatMode::Track);
    assert_eq!(repeat_mode(2), RepeatMode::List);
    assert_eq!(repeat_mode(3), RepeatMode::Unknown);
}

#[test]
fn shuffle_twice_restores() {
    for on in [false, true] {
        let first = send_cmd(Command::Shuffle, Some(PlaybackModes { shuffle: Some(on), repeat: None }));
        assert_eq!(first, Some(Request::SetShuffle(!on)));
        let second = send_cmd(Command::Shuffle, Some(PlaybackModes { shuffle: Some(!on), repeat: None }));
        assert_eq!(second, Some(Request::SetShuffle(on)));
    }
}

#[test]
fn times_wrap_around() {
    for (position, start, end) in [
        (0, i64::MIN, i64::MAX),
        (0, i64::MAX, i64::MIN),
        (i64::MAX, -5, 10),
        (i64::MIN, 5, 10),
        (5, i64::MIN, -1),
    ] {
        let mut r = readings(Some("Song"));
        r.timeline = Some(Timeline { position, start, end });
        let m = fetch_media_info(r, &String::new(), None, None).unwrap();
        let dur = end.wrapping_sub(start);
        let expected = if dur <= 0 { (0, 0) } else { (position.wrapping_sub(start), dur) };
        assert_eq!((m.position_100ns, m.duration_100ns), expected);
    }
}
