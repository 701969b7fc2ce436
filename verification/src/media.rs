//! What plays: how it is read from the media session, how its position is tracked between two
//! readings, and what the playback buttons ask for.
use crate::numbers;
use std::sync::Arc;
use vstd::prelude::*;

verus! {

/// The session's code for something that plays a video.
pub const TYPE_VIDEO: i32 = 2;

/// The session's code for something that is playing now.
pub const STATUS_PLAYING: i32 = 4;

/// This close to the end, in ticks, every reading of the position is taken over.
pub const NEAR_END: i64 = 5_000_000;

/// How what plays is repeated.
#[derive(Clone, Copy, PartialEq, Eq, Structural, Debug)]
pub enum RepeatMode {
    Off,
    Track,
    List,
    Unknown,
}

/// What plays.
#[derive(Clone)]
pub struct MediaInfo {
    pub title: String,
    pub artist: String,
    pub playing: bool,
    pub thumbnail: Option<Arc<Vec<u8>>>,
    pub position_100ns: i64,
    pub duration_100ns: i64,
    pub shuffle: bool,
    pub repeat: Option<RepeatMode>,
    pub shuffle_enabled: bool,
    pub repeat_enabled: bool,
}

/// What plays, as mathematics sees it.
pub struct MediaView {
    pub title: Seq<char>,
    pub artist: Seq<char>,
    pub playing: bool,
    pub thumbnail: Option<Seq<u8>>,
    pub position: int,
    pub duration: int,
    pub shuffle: bool,
    pub repeat: Option<RepeatMode>,
    pub shuffle_enabled: bool,
    pub repeat_enabled: bool,
}

/// The bytes of a picture.
pub open spec fn picture_view(p: Option<Arc<Vec<u8>>>) -> Option<Seq<u8>> {
    match p {
        Some(v) => Some(v@),
        None => None,
    }
}

impl View for MediaInfo {
    type V = MediaView;

    open spec fn view(&self) -> MediaView {
        MediaView {
            title: self.title@,
            artist: self.artist@,
            playing: self.playing,
            thumbnail: picture_view(self.thumbnail),
            position: self.position_100ns as int,
            duration: self.duration_100ns as int,
            shuffle: self.shuffle,
            repeat: self.repeat,
            shuffle_enabled: self.shuffle_enabled,
            repeat_enabled: self.repeat_enabled,
        }
    }
}

/// Nothing plays.
pub open spec fn no_media() -> MediaView {
    MediaView {
        title: seq![],
        artist: seq![],
        playing: false,
        thumbnail: None,
        position: 0,
        duration: 0,
        shuffle: false,
        repeat: None,
        shuffle_enabled: false,
        repeat_enabled: false,
    }
}

impl Default for MediaInfo {
    fn default() -> (r: MediaInfo)
        ensures
            r@ == no_media(),
    {
        MediaInfo {
            title: String::new(),
            artist: String::new(),
            playing: false,
            thumbnail: None,
            position_100ns: 0,
            duration_100ns: 0,
            shuffle: false,
            repeat: None,
            shuffle_enabled: false,
            repeat_enabled: false,
        }
    }
}

/// The repeat mode of a session's code.
pub open spec fn repeat_mode_of(code: int) -> RepeatMode {
    if code == 0 {
        RepeatMode::Off
    } else if code == 1 {
        RepeatMode::Track
    } else if code == 2 {
        RepeatMode::List
    } else {
        RepeatMode::Unknown
    }
}

/// Reads a session's code for a repeat mode.
pub fn repeat_mode(code: i32) -> (r: RepeatMode)
    ensures
        r == repeat_mode_of(code as int),
{
    if code == 0 {
        RepeatMode::Off
    } else if code == 1 {
        RepeatMode::Track
    } else if code == 2 {
        RepeatMode::List
    } else {
        RepeatMode::Unknown
    }
}

/// The times of a session, in ticks: where it is, where it starts and where it ends.
#[derive(Clone, Copy)]
pub struct Timeline {
    pub position: i64,
    pub start: i64,
    pub end: i64,
}

/// What a media session says of itself; what it could not say is absent.
pub struct SessionReadings {
    pub playback_type: Option<i32>,
    pub status: Option<i32>,
    pub title: Option<String>,
    pub artist: Option<String>,
    pub shuffle: Option<bool>,
    pub repeat: Option<i32>,
    pub shuffle_enabled: Option<bool>,
    pub repeat_enabled: Option<bool>,
    pub timeline: Option<Timeline>,
}

/// A difference of two tick counts, wrapped around where a tick count cannot hold it.
pub open spec fn wrapped(v: int) -> int {
    if v > i64::MAX {
        v - 0x1_0000_0000_0000_0000
    } else if v < i64::MIN {
        v + 0x1_0000_0000_0000_0000
    } else {
        v
    }
}

impl Timeline {
    /// The position from the start, and the length; both zero where there is no length.
    pub open spec fn times(self) -> (int, int) {
        let length = wrapped(self.end - self.start);
        if length > 0 {
            (wrapped(self.position - self.start), length)
        } else {
            (0, 0)
        }
    }
}

/// A text, empty where there is none.
pub open spec fn text_or_empty(t: Option<String>) -> Seq<char> {
    match t {
        Some(s) => s@,
        None => seq![],
    }
}

/// A flag, off where there is none.
pub open spec fn is_on(f: Option<bool>) -> bool {
    f == Some(true)
}

impl SessionReadings {
    /// The session plays a video, which the bar leaves alone.
    pub open spec fn is_video(self) -> bool {
        self.playback_type == Some(TYPE_VIDEO)
    }

    /// What the session plays, with the picture given.
    pub open spec fn info(self, thumbnail: Option<Seq<u8>>) -> MediaView {
        let times = match self.timeline {
            Some(t) => t.times(),
            None => (0, 0),
        };
        MediaView {
            title: text_or_empty(self.title),
            artist: text_or_empty(self.artist),
            playing: self.status == Some(STATUS_PLAYING),
            thumbnail,
            position: times.0,
            duration: times.1,
            shuffle: is_on(self.shuffle),
            repeat: match self.repeat {
                Some(code) => Some(repeat_mode_of(code as int)),
                None => None,
            },
            shuffle_enabled: is_on(self.shuffle_enabled),
            repeat_enabled: is_on(self.repeat_enabled),
        }
    }

    /// Finds whether the picture has to be read anew: the session plays something that counts,
    /// under another title than before.
    pub fn wants_picture(&self, prev_title: &String) -> (r: bool)
        ensures
            r <==> !self.is_video() && text_or_empty(self.title) != prev_title@,
    {
        if self.video() {
            return false;
        }
        match &self.title {
            Some(t) => !(*t == *prev_title),
            None => {
                assert(text_or_empty(self.title) =~= seq![]);
                assert(prev_title@.len() == 0 ==> prev_title@ =~= seq![]);
                !prev_title.as_str().is_empty()
            },
        }
    }

    fn video(&self) -> (r: bool)
        ensures
            r == self.is_video(),
    {
        match self.playback_type {
            Some(t) => t == TYPE_VIDEO,
            None => false,
        }
    }
}

fn or_off(f: Option<bool>) -> (r: bool)
    ensures
        r == is_on(f),
{
    match f {
        Some(b) => b,
        None => false,
    }
}

fn or_empty(t: Option<String>) -> (r: String)
    ensures
        r@ == text_or_empty(t),
{
    match t {
        Some(s) => s,
        None => String::new(),
    }
}

/// What a session plays: nothing where it plays a video. Under the title that was shown before the
/// picture stays `prev_thumb`; under another one it is `new_thumb`.
pub fn fetch_media_info(
    session: SessionReadings,
    prev_title: &String,
    prev_thumb: Option<Arc<Vec<u8>>>,
    new_thumb: Option<Arc<Vec<u8>>>,
) -> (r: Option<MediaInfo>)
    ensures
        r is None <==> session.is_video(),
        r is Some && session.title is Some ==> r->0.title@ == session.title->0@,
        r is Some && session.title is None ==> r->0.title@.len() == 0,
        r is Some && session.artist is Some ==> r->0.artist@ == session.artist->0@,
        r is Some && session.artist is None ==> r->0.artist@.len() == 0,
        r is Some ==> r->0@ == session.info(
            if text_or_empty(session.title) == prev_title@ {
                picture_view(prev_thumb)
            } else {
                picture_view(new_thumb)
            },
        ),
{
    if session.video() {
        return None;
    }
    let thumbnail: Option<Arc<Vec<u8>>> = if session.wants_picture(prev_title) {
        new_thumb
    } else {
        prev_thumb
    };
    let playing: bool = match session.status {
        Some(s) => s == STATUS_PLAYING,
        None => false,
    };
    let repeat: Option<RepeatMode> = match session.repeat {
        Some(code) => Some(repeat_mode(code)),
        None => None,
    };
    let (position_100ns, duration_100ns): (i64, i64) = match session.timeline {
        Some(t) => {
            let dur: i64 = t.end.wrapping_sub(t.start);
            if dur <= 0 {
                (0, 0)
            } else {
                (t.position.wrapping_sub(t.start), dur)
            }
        },
        None => (0, 0),
    };
    Some(
        MediaInfo {
            title: or_empty(session.title),
            artist: or_empty(session.artist),
            playing,
            thumbnail,
            position_100ns,
            duration_100ns,
            shuffle: or_off(session.shuffle),
            repeat,
            shuffle_enabled: or_off(session.shuffle_enabled),
            repeat_enabled: or_off(session.repeat_enabled),
        },
    )
}

/// Finds how many bytes of a picture stream to read: its size, of which the reader takes 32 bits.
/// An empty stream has no picture.
pub fn thumbnail_len(size: u64) -> (r: Option<u32>)
    ensures
        r is None <==> size % 0x1_0000_0000 == 0,
        r is Some ==> r->0 == size % 0x1_0000_0000,
{
    let n: u32 = (size % 0x1_0000_0000) as u32;
    if n == 0 {
        None
    } else {
        Some(n)
    }
}

/// A count of nanoseconds in ticks. The count is cut to 64 bits and read as a signed number first.
pub open spec fn ticks_of(nanos: int) -> int {
    let low = nanos % 0x1_0000_0000_0000_0000;
    let signed = if low < 0x8000_0000_0000_0000 {
        low
    } else {
        low - 0x1_0000_0000_0000_0000
    };
    numbers::trunc_div(signed, 100)
}

/// The ticks that have passed since the position was sampled: none while nothing plays.
pub open spec fn elapsed_ticks(playing: bool, nanos: int) -> int {
    if playing {
        ticks_of(nanos)
    } else {
        0
    }
}

fn elapsed(playing: bool, nanos: u128) -> (r: i64)
    ensures
        r == elapsed_ticks(playing, nanos as int),
        -0x200_0000_0000_0000 < r < 0x200_0000_0000_0000,
{
    if !playing {
        return 0;
    }
    let low: u128 = nanos % 0x1_0000_0000_0000_0000;
    let signed: i128 = if low < 0x8000_0000_0000_0000 {
        low as i128
    } else {
        low as i128 - 0x1_0000_0000_0000_0000
    };
    (signed / 100) as i64
}

/// The position to show: the sampled one and what has passed since, but no later than the end.
pub open spec fn position_now(sampled: int, elapsed: int, dur: int) -> int {
    if sampled + elapsed < dur {
        sampled + elapsed
    } else {
        dur
    }
}

/// Finds whether a sampled position and what has passed since make a position that can be shown.
pub fn position_fits(sampled: i64, playing: bool, nanos: u128) -> (r: bool)
    ensures
        r == (sampled + elapsed_ticks(playing, nanos as int) >= i64::MIN),
{
    sampled as i128 + elapsed(playing, nanos) as i128 >= i64::MIN as i128
}

/// Computes the position to show.
pub fn display_pos(sampled: i64, playing: bool, nanos: u128, dur: i64) -> (r: i64)
    requires
        sampled + elapsed_ticks(playing, nanos as int) >= i64::MIN,
    ensures
        r == position_now(sampled as int, elapsed_ticks(playing, nanos as int), dur as int),
{
    let now: i128 = sampled as i128 + elapsed(playing, nanos) as i128;
    if now < dur as i128 {
        now as i64
    } else {
        dur
    }
}

/// The tracked position: what the bar counts from, and the last position that the session gave.
///
/// Sessions report their position seldom. Between two reports the bar counts on by itself from the
/// position it sampled last.
#[derive(Clone, Copy, PartialEq, Eq, Structural, Debug)]
pub struct Tracker {
    pub effective_pos: i64,
    pub last_smtc_pos: i64,
}

impl Tracker {
    /// A tracker that has seen no position.
    pub fn new() -> (r: Tracker)
        ensures
            r == (Tracker { effective_pos: 0, last_smtc_pos: i64::MIN }),
    {
        Tracker { effective_pos: 0, last_smtc_pos: i64::MIN }
    }

    /// A tracker that counts from a given position.
    pub open spec fn at(pos: int) -> Tracker {
        Tracker { effective_pos: pos as i64, last_smtc_pos: pos as i64 }
    }

    /// Counts from `pos` on. The caller samples the clock.
    pub fn sample(&mut self, pos: i64)
        ensures
            *final(self) == Tracker::at(pos as int),
    {
        self.effective_pos = pos;
        self.last_smtc_pos = pos;
    }

    /// A reading is taken over: something can be sought in, and the title is another one, or the
    /// session gives another position than last time, or the count has come near the end.
    pub open spec fn resyncs(self, new: MediaView, prev_title: Seq<char>, elapsed: int) -> bool {
        &&& new.duration > 0
        &&& {
            ||| new.title != prev_title
            ||| new.position != self.last_smtc_pos
            ||| position_now(self.effective_pos as int, elapsed, new.duration) >= new.duration
                - NEAR_END
        }
    }

    /// Follows a new reading of the session. `playing` and `nanos` say what was shown until now and
    /// how long ago the position was sampled. Returns whether the clock has to be sampled.
    pub fn follow(&mut self, new: &MediaInfo, prev_title: &String, playing: bool, nanos: u128) -> (r:
        bool)
        ensures
            r == old(self).resyncs(
                new@,
                prev_title@,
                elapsed_ticks(playing, nanos as int),
            ),
            *final(self) == (if r {
                Tracker::at(new@.position)
            } else {
                *old(self)
            }),
    {
        let dur: i64 = new.duration_100ns;
        if dur <= 0 {
            return false;
        }
        let now: i128 = self.effective_pos as i128 + elapsed(playing, nanos) as i128;
        let near_end: bool = now >= dur as i128 - NEAR_END as i128;
        if !(new.title == *prev_title) || new.position_100ns != self.last_smtc_pos || near_end {
            self.sample(new.position_100ns);
            true
        } else {
            false
        }
    }
}

/// What a playback button asks for.
#[derive(Clone, Copy, PartialEq, Eq, Structural, Debug)]
pub enum Command {
    Prev,
    Play,
    Next,
    Shuffle,
    Repeat,
}

/// The shuffle and repeat state that a session reports; what it could not say is absent.
#[derive(Clone, Copy)]
pub struct PlaybackModes {
    pub shuffle: Option<bool>,
    pub repeat: Option<i32>,
}

/// A request to the media session.
#[derive(Clone, Copy, PartialEq, Eq, Structural, Debug)]
pub enum Request {
    SkipPrevious,
    TogglePlayPause,
    SkipNext,
    SetShuffle(bool),
    SetRepeat(RepeatMode),
}

/// The repeat mode that follows another one: from off to the list, to the track, to off again.
pub open spec fn next_repeat_of(cur: Option<RepeatMode>) -> RepeatMode {
    match cur {
        None => RepeatMode::List,
        Some(RepeatMode::Off) => RepeatMode::List,
        Some(RepeatMode::List) => RepeatMode::Track,
        Some(_) => RepeatMode::Off,
    }
}

/// Finds the repeat mode that follows another one.
pub fn next_repeat(cur: Option<RepeatMode>) -> (r: RepeatMode)
    ensures
        r == next_repeat_of(cur),
{
    match cur {
        None => RepeatMode::List,
        Some(RepeatMode::Off) => RepeatMode::List,
        Some(RepeatMode::List) => RepeatMode::Track,
        Some(_) => RepeatMode::Off,
    }
}

/// The request that a command makes of a session. Shuffle and repeat change what is set now, so
/// without the session's modes they ask for nothing.
pub open spec fn request_of(cmd: Command, modes: Option<PlaybackModes>) -> Option<Request> {
    match cmd {
        Command::Prev => Some(Request::SkipPrevious),
        Command::Play => Some(Request::TogglePlayPause),
        Command::Next => Some(Request::SkipNext),
        Command::Shuffle => match modes {
            Some(m) => Some(Request::SetShuffle(!is_on(m.shuffle))),
            None => None,
        },
        Command::Repeat => match modes {
            Some(m) => Some(
                Request::SetRepeat(
                    next_repeat_of(
                        match m.repeat {
                            Some(code) => Some(repeat_mode_of(code as int)),
                            None => None,
                        },
                    ),
                ),
            ),
            None => None,
        },
    }
}

/// Finds whether a command depends on the session's modes.
pub fn needs_modes(cmd: Command) -> (r: bool)
    ensures
        r <==> exists|a: Option<PlaybackModes>, b: Option<PlaybackModes>| #[trigger]
            request_of(cmd, a) != #[trigger] request_of(cmd, b),
{
    proof {
        let m = PlaybackModes { shuffle: None, repeat: None };
        if cmd == Command::Shuffle || cmd == Command::Repeat {
            assert(request_of(cmd, None) != request_of(cmd, Some(m)));
        }
    }
    match cmd {
        Command::Shuffle | Command::Repeat => true,
        _ => false,
    }
}

/// Finds the request that a command makes of a session.
pub fn send_cmd(cmd: Command, modes: Option<PlaybackModes>) -> (r: Option<Request>)
    ensures
        r == request_of(cmd, modes),
{
    match cmd {
        Command::Prev => Some(Request::SkipPrevious),
        Command::Play => Some(Request::TogglePlayPause),
        Command::Next => Some(Request::SkipNext),
        Command::Shuffle => match modes {
            Some(m) => Some(Request::SetShuffle(!or_off(m.shuffle))),
            None => None,
        },
        Command::Repeat => match modes {
            Some(m) => {
                let cur: Option<RepeatMode> = match m.repeat {
                    Some(code) => Some(repeat_mode(code)),
                    None => None,
                };
                Some(Request::SetRepeat(next_repeat(cur)))
            },
            None => None,
        },
    }
}

/// Three presses of the repeat button lead back to the mode that was set, and pass through all
/// three modes on the way.
pub proof fn repeat_goes_round(mode: RepeatMode)
    requires
        mode != RepeatMode::Unknown,
    ensures
        ({
            let first = next_repeat_of(Some(mode));
            let second = next_repeat_of(Some(first));
            &&& next_repeat_of(Some(second)) == mode
            &&& first != mode
            &&& second != mode
            &&& first != second
        }),
{
}

/// Pressing the shuffle button twice leaves shuffle as it was.
pub proof fn shuffle_twice_restores(on: bool, repeat: Option<i32>)
    ensures
        ({
            let modes = |b: bool| Some(PlaybackModes { shuffle: Some(b), repeat });
            request_of(Command::Shuffle, modes(!on)) == Some(Request::SetShuffle(on)) && request_of(
                Command::Shuffle,
                modes(on),
            ) == Some(Request::SetShuffle(!on))
        }),
{
}

/// The position shown never runs past the end, and while the end is not reached it is the sampled
/// position plus the time that has passed.
pub proof fn shown_position_stays_before_the_end(sampled: int, elapsed: int, dur: int)
    ensures
        position_now(sampled, elapsed, dur) <= dur,
        sampled + elapsed <= dur ==> position_now(sampled, elapsed, dur) == sampled + elapsed,
{
}

/// A session that reports the same position again, under the same title and far from the end, does
/// not disturb the count.
pub proof fn stale_reading_is_ignored(t: Tracker, new: MediaView, elapsed: int)
    requires
        new.position == t.last_smtc_pos,
        t.effective_pos + elapsed < new.duration - NEAR_END,
    ensures
        !t.resyncs(new, new.title, elapsed),
{
}

/// After a reading has been taken over, the same reading again is stale, until the end is near.
pub proof fn reading_is_taken_over_once(new: MediaView, elapsed: int)
    requires
        i64::MIN <= new.position <= i64::MAX,
        new.position + elapsed < new.duration - NEAR_END,
    ensures
        !Tracker::at(new.position).resyncs(new, new.title, elapsed),
{
}

/// Every field of what plays is seen as it is.
pub proof fn media_is_seen_as_it_is(m: MediaInfo)
    ensures
        m@.title == m.title@,
        m@.artist == m.artist@,
        m@.playing == m.playing,
        m@.thumbnail is Some <==> m.thumbnail is Some,
        m.thumbnail matches Some(bytes) ==> m@.thumbnail->0 == bytes@,
        m@.position == m.position_100ns,
        m@.duration == m.duration_100ns,
        m@.shuffle == m.shuffle,
        m@.repeat == m.repeat,
        m@.shuffle_enabled == m.shuffle_enabled,
        m@.repeat_enabled == m.repeat_enabled,
{
}

/// The title and the artist are those that the session gives, whatever else it says: whether it
/// plays or is paused, with times or without. They are empty only where it gives none.
pub proof fn title_and_artist_are_the_sessions(r: SessionReadings, thumbnail: Option<Seq<u8>>)
    ensures
        r.title matches Some(t) ==> r.info(thumbnail).title == t@,
        r.title is None ==> r.info(thumbnail).title.len() == 0,
        r.artist matches Some(t) ==> r.info(thumbnail).artist == t@,
        r.artist is None ==> r.info(thumbnail).artist.len() == 0,
{
}

/// The status decides whether something plays, and nothing but that: two sessions that say the same
/// in all else differ in nothing else.
pub proof fn pausing_changes_only_the_status(
    r: SessionReadings,
    status: Option<i32>,
    thumbnail: Option<Seq<u8>>,
)
    ensures
        ({
            let other = SessionReadings { status, ..r };
            &&& r.info(thumbnail) == (MediaView {
                playing: r.info(thumbnail).playing,
                ..other.info(thumbnail)
            })
            &&& r.info(thumbnail).playing <==> r.status == Some(4i32)
            &&& r.is_video() == other.is_video()
        }),
{
}

/// The modes are those that the session gives, off where it gives none; the picture is the one that
/// was read.
pub proof fn modes_are_the_sessions(r: SessionReadings, thumbnail: Option<Seq<u8>>)
    ensures
        r.info(thumbnail).thumbnail == thumbnail,
        r.info(thumbnail).shuffle <==> r.shuffle == Some(true),
        r.info(thumbnail).shuffle_enabled <==> r.shuffle_enabled == Some(true),
        r.info(thumbnail).repeat_enabled <==> r.repeat_enabled == Some(true),
        r.repeat is None <==> r.info(thumbnail).repeat is None,
        r.repeat == Some(0i32) <==> r.info(thumbnail).repeat == Some(RepeatMode::Off),
        r.repeat == Some(1i32) <==> r.info(thumbnail).repeat == Some(RepeatMode::Track),
        r.repeat == Some(2i32) <==> r.info(thumbnail).repeat == Some(RepeatMode::List),
        r.is_video() <==> r.playback_type == Some(2i32),
{
}

/// The length is the end less the start, and the position is counted from the start. A session
/// without a timeline, or whose end does not come after its start, has neither.
pub proof fn times_are_counted_from_the_start(r: SessionReadings, thumbnail: Option<Seq<u8>>)
    ensures
        r.timeline is None ==> r.info(thumbnail).duration == 0 && r.info(thumbnail).position == 0,
        r.timeline matches Some(t) ==> {
            let m = r.info(thumbnail);
            &&& t.end <= t.start && t.start - t.end <= i64::MAX ==> m.duration == 0 && m.position
                == 0
            &&& t.start < t.end && t.end - t.start <= i64::MAX && i64::MIN <= t.position - t.start
                <= i64::MAX ==> t.start + m.duration == t.end && t.start + m.position == t.position
        },
{
}

/// While nothing plays no time passes; while something plays ten million ticks pass in a second.
pub proof fn time_passes_only_while_something_plays(nanos: int)
    ensures
        elapsed_ticks(false, nanos) == 0,
        0 <= nanos < 0x8000_0000_0000_0000 ==> 100 * elapsed_ticks(true, nanos) <= nanos < 100 * (
        elapsed_ticks(true, nanos) + 1),
{
}

/// The position shown is the earlier of the count and the end.
pub proof fn position_is_the_earlier_of_count_and_end(sampled: int, elapsed: int, dur: int)
    ensures
        position_now(sampled, elapsed, dur) <= sampled + elapsed,
        position_now(sampled, elapsed, dur) <= dur,
        position_now(sampled, elapsed, dur) == sampled + elapsed || position_now(
            sampled,
            elapsed,
            dur,
        ) == dur,
{
}

/// A jump in the player is followed, forwards or backwards: a reading with a length, whose position
/// is not the one that the session gave last, is taken over. The tracker then counts from there.
pub proof fn jumps_are_followed(t: Tracker, new: MediaView, prev_title: Seq<char>, elapsed: int)
    requires
        new.duration > 0,
        new.position < t.last_smtc_pos || new.position > t.last_smtc_pos,
    ensures
        t.resyncs(new, prev_title, elapsed),
        i64::MIN <= new.position <= i64::MAX ==> Tracker::at(new.position).effective_pos
            == new.position && Tracker::at(new.position).last_smtc_pos == new.position,
{
}

/// Another title is followed at once, wherever it stands.
pub proof fn another_title_is_followed(
    t: Tracker,
    new: MediaView,
    prev_title: Seq<char>,
    elapsed: int,
)
    requires
        new.duration > 0,
        new.title != prev_title,
    ensures
        t.resyncs(new, prev_title, elapsed),
{
}

/// In the last half second every reading is followed.
pub proof fn the_end_is_followed(
    t: Tracker,
    new: MediaView,
    prev_title: Seq<char>,
    elapsed: int,
)
    requires
        new.duration > 0,
        t.effective_pos + elapsed >= new.duration - 5_000_000,
    ensures
        t.resyncs(new, prev_title, elapsed),
{
}

/// A reading without a length is never followed; and of the others only one of another title, of
/// another position, or in the last half second.
pub proof fn nothing_else_is_followed(
    t: Tracker,
    new: MediaView,
    prev_title: Seq<char>,
    elapsed: int,
)
    requires
        t.resyncs(new, prev_title, elapsed),
    ensures
        new.duration > 0,
        new.title != prev_title || new.position != t.last_smtc_pos || t.effective_pos + elapsed
            >= new.duration - 5_000_000,
{
}

/// The three plain buttons ask for the same whatever the session's modes are.
pub proof fn plain_buttons_ignore_the_modes(modes: Option<PlaybackModes>)
    ensures
        request_of(Command::Prev, modes) == Some(Request::SkipPrevious),
        request_of(Command::Play, modes) == Some(Request::TogglePlayPause),
        request_of(Command::Next, modes) == Some(Request::SkipNext),
{
}

/// Shuffle turns on unless it is on, whatever the repeat mode is; without the session's modes it
/// asks for nothing.
pub proof fn shuffle_is_turned_over(m: PlaybackModes)
    ensures
        request_of(Command::Shuffle, None) is None,
        request_of(Command::Shuffle, Some(m)) == Some(
            Request::SetShuffle(m.shuffle != Some(true)),
        ),
{
}

/// Repeat goes from off, or nothing, to the list, from the list to the track, and from anything else
/// to off, whether shuffle is on or not; without the session's modes it asks for nothing.
pub proof fn repeat_moves_on(m: PlaybackModes)
    ensures
        request_of(Command::Repeat, None) is None,
        m.repeat is None || m.repeat == Some(0i32) ==> request_of(Command::Repeat, Some(m)) == Some(
            Request::SetRepeat(RepeatMode::List),
        ),
        m.repeat == Some(2i32) ==> request_of(Command::Repeat, Some(m)) == Some(
            Request::SetRepeat(RepeatMode::Track),
        ),
        m.repeat is Some && m.repeat != Some(0i32) && m.repeat != Some(2i32) ==> request_of(
            Command::Repeat,
            Some(m),
        ) == Some(Request::SetRepeat(RepeatMode::Off)),
{
}

/// Where no session plays, there is no title, no artist, no picture and no length, nothing plays and
/// nothing can be set.
pub proof fn without_a_session_nothing_is_shown()
    ensures
        ({
            let i = no_media();
            &&& i.title.len() == 0 && i.artist.len() == 0
            &&& !i.playing
            &&& i.thumbnail is None
            &&& i.position == 0 && i.duration == 0
            &&& !i.shuffle && i.repeat is None
            &&& !i.shuffle_enabled && !i.repeat_enabled
        }),
{
}

/// A difference of two tick counts is a tick count again, and the same up to a whole turn; one that
/// a tick count can hold is not changed.
pub proof fn differences_wrap_around(a: i64, b: i64)
    ensures
        i64::MIN <= wrapped(a - b) <= i64::MAX,
        (wrapped(a - b) - (a - b)) % 0x1_0000_0000_0000_0000 == 0,
        i64::MIN <= a - b <= i64::MAX ==> wrapped(a - b) == a - b,
{
}

/// Ticks of 100 ns are counted toward zero. The count of nanoseconds is a signed number of 64 bits:
/// it begins anew after a whole turn, and in the second half of a turn it counts down to zero.
pub proof fn ticks_are_counted_toward_zero(nanos: int)
    ensures
        0 <= nanos < 0x8000_0000_0000_0000 ==> 100 * ticks_of(nanos) <= nanos < 100 * ticks_of(nanos)
            + 100,
        0x8000_0000_0000_0000 <= nanos < 0x1_0000_0000_0000_0000 ==> 100 * -ticks_of(nanos)
            <= 0x1_0000_0000_0000_0000 - nanos < 100 * -ticks_of(nanos) + 100,
        ticks_of(nanos + 0x1_0000_0000_0000_0000) == ticks_of(nanos),
{
    vstd::arithmetic::div_mod::lemma_mod_add_multiples_vanish(nanos, 0x1_0000_0000_0000_0000);
}

} // verus!
