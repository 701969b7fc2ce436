//! The bar's window: what it does on each message that the system sends it.
//!
//! The window procedure reads a message, lets [`handle`] change the bar's state, and carries out
//! the actions that it returns, in their order.
use crate::layout;
use crate::layout::Hover;
use crate::media::{Command, MediaInfo, MediaView, Tracker};
use crate::seek;
use crate::settings::{Settings, SettingsView};
use crate::thumbnail;
use crate::thumbnail::{ArtPlan, ArtView, Bitmaps, CachedArt};
use vstd::prelude::*;

verus! {

pub const WM_DESTROY: u32 = 0x0002;

pub const WM_PAINT: u32 = 0x000F;

pub const WM_SETTINGCHANGE: u32 = 0x001A;

pub const WM_CONTEXTMENU: u32 = 0x007B;

pub const WM_TIMER: u32 = 0x0113;

pub const WM_MOUSEMOVE: u32 = 0x0200;

pub const WM_LBUTTONDOWN: u32 = 0x0201;

pub const WM_LBUTTONUP: u32 = 0x0202;

pub const WM_LBUTTONDBLCLK: u32 = 0x0203;

pub const WM_RBUTTONDOWN: u32 = 0x0204;

pub const WM_RBUTTONUP: u32 = 0x0205;

pub const WM_MOUSEWHEEL: u32 = 0x020A;

pub const WM_MOUSE_LEAVE: u32 = 0x02A3;

/// The message by which the system reports on the bar's docking.
pub const WM_APPBAR: u32 = 0x8001;

/// The message that the polling thread posts when it has read the session.
pub const WM_MEDIA_UPDATE: u32 = 0x8002;

/// The message that the icon in the notification area sends.
pub const WM_TRAYICON: u32 = 0x8003;

/// The bar's state.
pub struct BarState {
    pub info: MediaInfo,
    pub hover: Hover,
    pub accent: u32,
    /// The pointer's offset along the seek bar while the user drags.
    pub seeking: Option<i32>,
    pub tracker: Tracker,
    pub settings: Settings,
    /// The decoded album art.
    pub art: Option<CachedArt>,
}

/// The bar's state, as mathematics sees it.
pub struct BarView {
    pub info: MediaView,
    pub hover: Hover,
    pub accent: u32,
    pub seeking: Option<i32>,
    pub tracker: Tracker,
    pub settings: SettingsView,
    pub art: Option<ArtView>,
}

impl View for BarState {
    type V = BarView;

    open spec fn view(&self) -> BarView {
        BarView {
            info: self.info@,
            hover: self.hover,
            accent: self.accent,
            seeking: self.seeking,
            tracker: self.tracker,
            settings: self.settings@,
            art: thumbnail::art_view(self.art),
        }
    }
}

impl BarView {
    /// A drag is always on the track.
    pub open spec fn well_formed(self) -> bool {
        self.seeking is Some ==> 0 <= self.seeking->0 <= layout::SEEK_W
    }
}

impl BarState {
    /// The state of a bar that has just been created.
    pub fn new(settings: Settings, accent: u32) -> (r: BarState)
        ensures
            r@ == (BarView {
                info: crate::media::no_media(),
                hover: Hover::Nothing,
                accent,
                seeking: None,
                tracker: Tracker { effective_pos: 0, last_smtc_pos: i64::MIN },
                settings: settings@,
                art: None,
            }),
            r@.well_formed(),
    {
        BarState {
            info: MediaInfo::default(),
            hover: Hover::Nothing,
            accent,
            seeking: None,
            tracker: Tracker::new(),
            settings,
            art: None,
        }
    }

    /// Takes over what the session plays after a command or a seek. Returns whether the clock has
    /// to be sampled.
    pub fn refresh(&mut self, fetched: Option<MediaInfo>) -> (r: bool)
        ensures
            r == fetched is Some,
            final(self)@ == (match fetched {
                Some(new) => BarView {
                    info: new@,
                    tracker: Tracker::at(new@.position),
                    ..old(self)@
                },
                None => old(self)@,
            }),
    {
        match fetched {
            Some(new) => {
                self.tracker.sample(new.position_100ns);
                self.info = new;
                true
            },
            None => false,
        }
    }

    /// Counts from the position that was sought. The caller samples the clock.
    pub fn seek_done(&mut self, pos: i64)
        ensures
            final(self)@ == (BarView { tracker: Tracker::at(pos as int), ..old(self)@ }),
    {
        self.tracker.sample(pos);
    }

    /// Takes over what the polling thread read; nothing plays where it read nothing. `prev_title`
    /// is the title that the bar showed when the reading began, `nanos` the time since the clock
    /// was sampled. Returns whether the clock has to be sampled.
    pub fn poll(&mut self, fetched: Option<MediaInfo>, prev_title: &String, nanos: u128) -> (r: bool)
        ensures
            r == (fetched is Some && old(self).tracker.resyncs(
                fetched->0@,
                prev_title@,
                crate::media::elapsed_ticks(old(self)@.info.playing, nanos as int),
            )),
            final(self)@ == (BarView {
                info: match fetched {
                    Some(new) => new@,
                    None => crate::media::no_media(),
                },
                tracker: if r {
                    Tracker::at(fetched->0@.position)
                } else {
                    old(self)@.tracker
                },
                ..old(self)@
            }),
    {
        match fetched {
            Some(new) => {
                let playing: bool = self.info.playing;
                let r: bool = self.tracker.follow(&new, prev_title, playing, nanos);
                self.info = new;
                r
            },
            None => {
                self.info = MediaInfo::default();
                false
            },
        }
    }
}

impl BarView {
    /// What happens to the art before the bar is drawn at height `h`.
    pub open spec fn art_plan(self, h: i32) -> ArtPlan {
        thumbnail::art_plan_of(self.art, self.info.title, self.info.thumbnail is Some, h)
    }

    /// The state when stale art has been thrown away.
    pub open spec fn without_stale_art(self) -> BarView {
        BarView { art: thumbnail::art_left(self.art, self.info.title), ..self }
    }

    /// The state when the picture has been decoded.
    pub open spec fn with_decoded_art(self, small: Option<isize>, large: Option<isize>) -> BarView {
        BarView {
            art: thumbnail::art_after_decoding(self.art, self.info.title, small, large),
            ..self
        }
    }

    /// The state with which the bar is drawn at height `h`, where decoding the picture, if the
    /// plan asks for it, gives these bitmaps.
    pub open spec fn ready_to_paint(self, h: i32, small: Option<isize>, large: Option<isize>) -> BarView {
        if self.art_plan(h).decode is Some {
            self.without_stale_art().with_decoded_art(small, large)
        } else {
            self.without_stale_art()
        }
    }
}

impl BarState {
    /// Gets ready to be drawn at height `h`: throws stale art away, and says which bitmaps to delete
    /// and whether to decode the picture.
    pub fn begin_paint(&mut self, h: i32) -> (r: ArtPlan)
        ensures
            r == old(self)@.art_plan(h),
            final(self)@ == old(self)@.without_stale_art(),
    {
        let r: ArtPlan = thumbnail::plan_art(
            &self.art,
            &self.info.title,
            self.info.thumbnail.is_some(),
            h,
        );
        if r.delete.is_some() {
            self.art = None;
        }
        r
    }

    /// Takes over the bitmaps of the decoded picture; what could not be decoded is absent.
    pub fn art_decoded(&mut self, small: Option<isize>, large: Option<isize>)
        ensures
            final(self)@ == old(self)@.with_decoded_art(small, large),
    {
        if self.art.is_some() || self.info.title.as_str().is_empty() {
            return ;
        }
        match (small, large) {
            (Some(small), Some(large)) => {
                self.art = Some(
                    CachedArt {
                        key: self.info.title.clone(),
                        bitmaps: Bitmaps { small, large },
                    },
                );
            },
            _ => {},
        }
    }

    /// Gives up the art, whose size depends on the bar's height. Returns the bitmaps to delete.
    pub fn take_art(&mut self) -> (r: Option<Bitmaps>)
        ensures
            r == (match old(self)@.art {
                Some(a) => Some(a.bitmaps),
                None => None,
            }),
            final(self)@ == (BarView { art: None, ..old(self)@ }),
    {
        match self.art.take() {
            Some(a) => Some(a.bitmaps),
            None => None,
        }
    }
}

/// A message, as far as the bar cares for it. `w` and `h` are the size of the bar.
#[derive(Clone, Copy, PartialEq, Eq, Structural, Debug)]
pub enum Message {
    TaskbarCreated,
    Paint,
    MediaUpdate,
    MouseMove { x: i32, w: i32, h: i32 },
    MouseLeave,
    LeftUp,
    LeftDown { x: i32, w: i32, h: i32 },
    SettingChange,
    RightDown,
    TrayMenu,
    TraySettings,
    TrayOther,
    Timer,
    Destroy,
    Other,
}

/// The low 16 bits of a parameter, as a signed number.
pub open spec fn low_word(lp: int) -> int {
    let v = lp % 0x1_0000;
    if v < 0x8000 {
        v
    } else {
        v - 0x1_0000
    }
}

/// The 16 bits above the low ones, as a signed number.
pub open spec fn high_word(lp: int) -> int {
    low_word(lp / 0x1_0000)
}

/// Reads the low 16 bits of a parameter as a signed number.
pub fn signed_low_word(lp: i64) -> (r: i32)
    ensures
        r == low_word(lp as int),
{
    let v: i128 = (lp as i128 + 0x1_0000_0000_0000_0000) % 0x1_0000;
    if v < 0x8000 {
        v as i32
    } else {
        (v - 0x1_0000) as i32
    }
}

/// Reads the 16 bits above the low ones as a signed number.
pub fn signed_high_word(lp: i64) -> (r: i32)
    ensures
        r == high_word(lp as int),
{
    let above: i64 = if lp >= 0 {
        lp / 0x1_0000
    } else {
        -1 - (-1 - lp) / 0x1_0000
    };
    assert(above == lp as int / 0x1_0000);
    signed_low_word(above)
}

/// The message that a number and a parameter stand for. The number of `TaskbarCreated` is given
/// out by the system; while it is zero there is none.
pub open spec fn message_of(msg: u32, taskbar_created: u32, lp: int, w: i32, h: i32) -> Message {
    if msg == taskbar_created && msg != 0 {
        Message::TaskbarCreated
    } else if msg == WM_PAINT {
        Message::Paint
    } else if msg == WM_MEDIA_UPDATE {
        Message::MediaUpdate
    } else if msg == WM_MOUSEMOVE {
        Message::MouseMove { x: low_word(lp) as i32, w, h }
    } else if msg == WM_MOUSE_LEAVE {
        Message::MouseLeave
    } else if msg == WM_LBUTTONUP {
        Message::LeftUp
    } else if msg == WM_LBUTTONDOWN {
        Message::LeftDown { x: low_word(lp) as i32, w, h }
    } else if msg == WM_SETTINGCHANGE {
        Message::SettingChange
    } else if msg == WM_RBUTTONDOWN {
        Message::RightDown
    } else if msg == WM_TRAYICON {
        let event = lp % 0x1_0000_0000;
        if event == WM_RBUTTONUP || event == WM_CONTEXTMENU {
            Message::TrayMenu
        } else if event == WM_LBUTTONDBLCLK {
            Message::TraySettings
        } else {
            Message::TrayOther
        }
    } else if msg == WM_TIMER {
        Message::Timer
    } else if msg == WM_DESTROY {
        Message::Destroy
    } else {
        Message::Other
    }
}

/// Reads a message.
pub fn read_message(msg: u32, taskbar_created: u32, lp: i64, w: i32, h: i32) -> (r: Message)
    ensures
        r == message_of(msg, taskbar_created, lp as int, w, h),
{
    if msg == taskbar_created && msg != 0 {
        Message::TaskbarCreated
    } else if msg == WM_PAINT {
        Message::Paint
    } else if msg == WM_MEDIA_UPDATE {
        Message::MediaUpdate
    } else if msg == WM_MOUSEMOVE {
        Message::MouseMove { x: signed_low_word(lp), w, h }
    } else if msg == WM_MOUSE_LEAVE {
        Message::MouseLeave
    } else if msg == WM_LBUTTONUP {
        Message::LeftUp
    } else if msg == WM_LBUTTONDOWN {
        Message::LeftDown { x: signed_low_word(lp), w, h }
    } else if msg == WM_SETTINGCHANGE {
        Message::SettingChange
    } else if msg == WM_RBUTTONDOWN {
        Message::RightDown
    } else if msg == WM_TRAYICON {
        let event: u32 = ((lp as i128 + 0x1_0000_0000_0000_0000) % 0x1_0000_0000) as u32;
        if event == WM_RBUTTONUP || event == WM_CONTEXTMENU {
            Message::TrayMenu
        } else if event == WM_LBUTTONDBLCLK {
            Message::TraySettings
        } else {
            Message::TrayOther
        }
    } else if msg == WM_TIMER {
        Message::Timer
    } else if msg == WM_DESTROY {
        Message::Destroy
    } else {
        Message::Other
    }
}

/// Something that the window procedure does.
#[derive(Clone, Copy, PartialEq, Eq, Structural, Debug)]
pub enum Action {
    /// Paint the bar.
    Paint,
    /// Ask for the bar to be painted.
    Invalidate,
    /// Ask to be told when the pointer leaves the bar.
    TrackLeave,
    SetCapture,
    ReleaseCapture,
    /// Ask the session to play from a position, in ticks.
    Seek(i64),
    /// Send a command to the session.
    Send(Command),
    OpenSettings,
    /// Read the system's accent colour anew.
    ReadAccent,
    ShowMenu,
    AddTrayIcon,
    RemoveTrayIcon,
    RemoveAppbar,
    KillTimer,
    Quit,
    /// Leave the message to the system.
    Default,
}

/// What pressing a button does; `live` says whether the bar has its state.
pub open spec fn button_actions(button: Hover, live: bool) -> Seq<Action> {
    match button {
        Hover::Prev => seq![Action::Send(Command::Prev)],
        Hover::Play => seq![Action::Send(Command::Play)],
        Hover::Next => seq![Action::Send(Command::Next)],
        Hover::Shuffle => seq![Action::Send(Command::Shuffle)],
        Hover::Repeat => seq![Action::Send(Command::Repeat)],
        Hover::Gear => if live {
            seq![Action::OpenSettings]
        } else {
            seq![]
        },
        Hover::Nothing => seq![],
    }
}

/// The state after a message.
pub open spec fn next_state(s: BarView, m: Message) -> BarView {
    match m {
        Message::MouseMove { x, w, h } => if s.seeking is Some {
            BarView {
                seeking: Some(
                    layout::clamped_offset(x - layout::seek_x(w as int)) as i32,
                ),
                ..s
            }
        } else {
            BarView { hover: layout::hover_at(x as int, w as int, h as int), ..s }
        },
        Message::MouseLeave => BarView { hover: Hover::Nothing, ..s },
        Message::LeftUp => BarView { seeking: None, ..s },
        Message::LeftDown { x, w, h } => if layout::within(
            x as int,
            layout::seek_x(w as int),
            layout::SEEK_W as int,
        ) && s.info.duration > 0 {
            BarView { seeking: Some((x - layout::seek_x(w as int)) as i32), ..s }
        } else {
            s
        },
        _ => s,
    }
}

/// Where a drag that ends leads: its target, but no later than a tick count can say.
pub open spec fn drag_target(dur: int, offset: int) -> int {
    let t = seek::target_of(dur as nat, offset as nat);
    if t > i64::MAX {
        i64::MAX as int
    } else {
        t as int
    }
}

/// The actions on a message, while the bar has its state.
pub open spec fn live_actions(s: BarView, m: Message) -> Seq<Action> {
    match m {
        Message::TaskbarCreated => seq![Action::AddTrayIcon],
        Message::Paint => seq![Action::Paint],
        Message::MediaUpdate => seq![Action::Invalidate],
        Message::MouseMove { x, w, h } => if s.seeking is Some || s.hover != layout::hover_at(
            x as int,
            w as int,
            h as int,
        ) {
            seq![Action::Invalidate, Action::TrackLeave]
        } else {
            seq![Action::TrackLeave]
        },
        Message::MouseLeave => seq![Action::Invalidate],
        Message::LeftUp => match s.seeking {
            Some(offset) => if s.info.duration > 0 {
                seq![
                    Action::ReleaseCapture,
                    Action::Seek(drag_target(s.info.duration, offset as int) as i64),
                    Action::Invalidate,
                ]
            } else {
                seq![Action::ReleaseCapture, Action::Invalidate]
            },
            None => seq![Action::ReleaseCapture],
        },
        Message::LeftDown { x, w, h } => if layout::within(
            x as int,
            layout::seek_x(w as int),
            layout::SEEK_W as int,
        ) {
            if s.info.duration > 0 {
                seq![Action::SetCapture, Action::Invalidate]
            } else {
                seq![]
            }
        } else {
            button_actions(layout::hover_at(x as int, w as int, h as int), true)
        },
        Message::SettingChange => seq![Action::ReadAccent, Action::Invalidate],
        Message::RightDown => seq![Action::ShowMenu],
        Message::TrayMenu => seq![Action::ShowMenu],
        Message::TraySettings => seq![Action::OpenSettings],
        Message::TrayOther => seq![],
        Message::Timer => seq![Action::Invalidate],
        Message::Destroy => seq![
            Action::KillTimer,
            Action::RemoveTrayIcon,
            Action::RemoveAppbar,
            Action::Quit,
        ],
        Message::Other => seq![Action::Default],
    }
}

/// The actions on a message before the bar has its state, and after it has given it up.
pub open spec fn stateless_actions(m: Message) -> Seq<Action> {
    match m {
        Message::TaskbarCreated => seq![Action::AddTrayIcon],
        Message::Paint => seq![],
        Message::MediaUpdate => seq![Action::Invalidate],
        Message::MouseMove { .. } => seq![Action::TrackLeave],
        Message::MouseLeave => seq![],
        Message::LeftUp => seq![],
        Message::LeftDown { x, w, h } => button_actions(
            layout::hover_at(x as int, w as int, h as int),
            false,
        ),
        Message::SettingChange => seq![],
        Message::RightDown => seq![Action::ShowMenu],
        Message::TrayMenu => seq![Action::ShowMenu],
        Message::TraySettings => seq![],
        Message::TrayOther => seq![],
        Message::Timer => seq![Action::Invalidate],
        Message::Destroy => seq![
            Action::KillTimer,
            Action::RemoveTrayIcon,
            Action::RemoveAppbar,
            Action::Quit,
        ],
        Message::Other => seq![Action::Default],
    }
}

fn press(button: Hover, live: bool) -> (r: Vec<Action>)
    ensures
        r@ == button_actions(button, live),
{
    match button {
        Hover::Prev => vec![Action::Send(Command::Prev)],
        Hover::Play => vec![Action::Send(Command::Play)],
        Hover::Next => vec![Action::Send(Command::Next)],
        Hover::Shuffle => vec![Action::Send(Command::Shuffle)],
        Hover::Repeat => vec![Action::Send(Command::Repeat)],
        Hover::Gear => if live {
            vec![Action::OpenSettings]
        } else {
            Vec::new()
        },
        Hover::Nothing => Vec::new(),
    }
}

/// Handles a message while the bar has its state.
pub fn handle(s: &mut BarState, m: Message) -> (r: Vec<Action>)
    requires
        old(s)@.well_formed(),
    ensures
        final(s)@ == next_state(old(s)@, m),
        final(s)@.well_formed(),
        r@ == live_actions(old(s)@, m),
{
    match m {
        Message::MouseMove { x, w, h } => {
            if s.seeking.is_some() {
                s.seeking = Some(layout::seek_offset(x, w));
                vec![Action::Invalidate, Action::TrackLeave]
            } else {
                let hover: Hover = layout::hit_bar(x, w, h);
                if s.hover != hover {
                    s.hover = hover;
                    vec![Action::Invalidate, Action::TrackLeave]
                } else {
                    vec![Action::TrackLeave]
                }
            }
        },
        Message::MouseLeave => {
            s.hover = Hover::Nothing;
            vec![Action::Invalidate]
        },
        Message::LeftUp => {
            let drag: Option<i32> = s.seeking.take();
            match drag {
                Some(offset) => {
                    let dur: i64 = s.info.duration_100ns;
                    if dur > 0 {
                        vec![
                            Action::ReleaseCapture,
                            Action::Seek(seek::seek_target(dur, offset)),
                            Action::Invalidate,
                        ]
                    } else {
                        vec![Action::ReleaseCapture, Action::Invalidate]
                    }
                },
                None => vec![Action::ReleaseCapture],
            }
        },
        Message::LeftDown { x, w, h } => {
            if layout::on_seek_bar(x, w) {
                if s.info.duration_100ns > 0 {
                    s.seeking = Some(layout::seek_offset(x, w));
                    vec![Action::SetCapture, Action::Invalidate]
                } else {
                    Vec::new()
                }
            } else {
                press(layout::hit_bar(x, w, h), true)
            }
        },
        Message::Paint => vec![Action::Paint],
        Message::SettingChange => vec![Action::ReadAccent, Action::Invalidate],
        Message::TraySettings => vec![Action::OpenSettings],
        _ => handle_without_state(m),
    }
}

/// Handles a message before the bar has its state, and after it has given it up.
pub fn handle_without_state(m: Message) -> (r: Vec<Action>)
    ensures
        r@ == stateless_actions(m),
{
    match m {
        Message::TaskbarCreated => vec![Action::AddTrayIcon],
        Message::MediaUpdate => vec![Action::Invalidate],
        Message::MouseMove { x, w, h } => vec![Action::TrackLeave],
        Message::LeftDown { x, w, h } => press(layout::hit_bar(x, w, h), false),
        Message::RightDown => vec![Action::ShowMenu],
        Message::TrayMenu => vec![Action::ShowMenu],
        Message::Timer => vec![Action::Invalidate],
        Message::Destroy => vec![
            Action::KillTimer,
            Action::RemoveTrayIcon,
            Action::RemoveAppbar,
            Action::Quit,
        ],
        Message::Other => vec![Action::Default],
        Message::Paint => Vec::new(),
        Message::MouseLeave => Vec::new(),
        Message::LeftUp => Vec::new(),
        Message::SettingChange => Vec::new(),
        Message::TraySettings => Vec::new(),
        Message::TrayOther => Vec::new(),
    }
}

/// Where the message loop sends a message.
#[derive(Clone, Copy, PartialEq, Eq, Structural, Debug)]
pub enum Route {
    /// To whatever window lies at a point of the screen; to the settings window if none does.
    Wheel { x: i32, y: i32 },
    /// To the settings window, which may take it as a keyboard command.
    Dialog,
    /// To the window that it is for.
    Dispatch,
}

/// The route of a message, by whether the settings window is open.
pub open spec fn route_of(settings_open: bool, msg: u32, lp: int) -> Route {
    if !settings_open {
        Route::Dispatch
    } else if msg == WM_MOUSEWHEEL {
        Route::Wheel { x: low_word(lp) as i32, y: high_word(lp) as i32 }
    } else {
        Route::Dialog
    }
}

/// Finds the route of a message.
pub fn route(settings_open: bool, msg: u32, lp: i64) -> (r: Route)
    ensures
        r == route_of(settings_open, msg, lp as int),
{
    if !settings_open {
        Route::Dispatch
    } else if msg == WM_MOUSEWHEEL {
        Route::Wheel { x: signed_low_word(lp), y: signed_high_word(lp) }
    } else {
        Route::Dialog
    }
}

/// The state after messages, one after the other.
pub open spec fn run(s: BarView, ms: Seq<Message>) -> BarView
    decreases ms.len(),
{
    if ms.len() == 0 {
        s
    } else {
        next_state(run(s, ms.drop_last()), ms.last())
    }
}

/// Messages never change what plays, the tracked position, the accent, the settings or the art; and
/// however many come, a drag stays on the track.
pub proof fn messages_only_move_the_pointer(s: BarView, ms: Seq<Message>)
    requires
        s.well_formed(),
    ensures
        run(s, ms).well_formed(),
        run(s, ms).info == s.info,
        run(s, ms).tracker == s.tracker,
        run(s, ms).accent == s.accent,
        run(s, ms).settings == s.settings,
        run(s, ms).art == s.art,
    decreases ms.len(),
{
    if ms.len() > 0 {
        messages_only_move_the_pointer(s, ms.drop_last());
    }
}

/// Only a press on the seek bar, while there is something to seek in, begins a drag; and only
/// letting go ends one.
pub proof fn drags_begin_and_end(s: BarView, m: Message)
    ensures
        s.seeking is None && next_state(s, m).seeking is Some ==> s.info.duration > 0
            && m is LeftDown && layout::within(
            m->LeftDown_x as int,
            layout::seek_x(m->LeftDown_w as int),
            layout::SEEK_W as int,
        ),
        s.seeking is Some && next_state(s, m).seeking is None ==> m == Message::LeftUp,
{
}

/// A seek is asked for only when a drag ends, and then once. It leads into what plays; where the
/// drag ends at the right end of the track, this holds for every length that its double does not
/// exceed.
pub proof fn seeks_come_from_drags(s: BarView, m: Message, i: int)
    requires
        s.well_formed(),
        s.info.duration <= i64::MAX,
        s.seeking != Some(layout::SEEK_W) || crate::binary64::of_nat(
            s.info.duration as nat,
        ).quanta() <= s.info.duration * crate::binary64::unit(),
        0 <= i < live_actions(s, m).len(),
        live_actions(s, m)[i] is Seek,
    ensures
        m == Message::LeftUp,
        s.seeking is Some,
        i == 1,
        0 <= live_actions(s, m)[i]->Seek_0 <= s.info.duration,
{
    assert(s.seeking is Some && s.info.duration > 0);
    seek::target_stays_inside(s.info.duration as nat, s.seeking->0 as nat);
}

/// A click on the seek bar, a press and a release at one place, seeks to the position under the
/// pointer.
pub proof fn a_click_seeks_under_the_pointer(s: BarView, x: i32, w: i32, h: i32)
    requires
        s.info.duration > 0,
        layout::within(x as int, layout::seek_x(w as int), layout::SEEK_W as int),
    ensures
        ({
            let pressed = next_state(s, Message::LeftDown { x, w, h });
            &&& live_actions(pressed, Message::LeftUp)[1] == Action::Seek(
                drag_target(s.info.duration, x - layout::seek_x(w as int)) as i64,
            )
            &&& next_state(pressed, Message::LeftUp).seeking is None
        }),
{
}

/// Where a drag is after messages: at the last place that the pointer moved to.
pub open spec fn dragged_to(start: int, ms: Seq<Message>) -> int
    decreases ms.len(),
{
    if ms.len() == 0 {
        start
    } else {
        match ms.last() {
            Message::MouseMove { x, w, h } => layout::clamped_offset(
                x - layout::seek_x(w as int),
            ),
            _ => dragged_to(start, ms.drop_last()),
        }
    }
}

proof fn lemma_drag_goes_on(s: BarView, ms: Seq<Message>)
    requires
        s.seeking is Some,
        forall|i: int|
            0 <= i < ms.len() ==> !(#[trigger] ms[i] is LeftDown) && ms[i] != Message::LeftUp,
    ensures
        run(s, ms) == (BarView {
            seeking: Some(dragged_to(s.seeking->0 as int, ms) as i32),
            hover: run(s, ms).hover,
            ..s
        }),
    decreases ms.len(),
{
    if ms.len() > 0 {
        lemma_drag_goes_on(s, ms.drop_last());
        assert(!(ms[ms.len() - 1] is LeftDown) && ms[ms.len() - 1] != Message::LeftUp);
    }
}

/// Dragging seeks: a press on the seek bar, whatever messages follow while the button is down, and a
/// release ask for one seek, to the position under the last place that the pointer moved to.
pub proof fn a_drag_seeks_where_it_ends(s: BarView, x: i32, w: i32, h: i32, ms: Seq<Message>)
    requires
        s.info.duration > 0,
        layout::within(x as int, layout::seek_x(w as int), layout::SEEK_W as int),
        forall|i: int|
            0 <= i < ms.len() ==> !(#[trigger] ms[i] is LeftDown) && ms[i] != Message::LeftUp,
    ensures
        ({
            let dragging = run(next_state(s, Message::LeftDown { x, w, h }), ms);
            let end = dragged_to(x - layout::seek_x(w as int), ms);
            &&& dragging.seeking == Some(end as i32)
            &&& live_actions(dragging, Message::LeftUp) == seq![
                Action::ReleaseCapture,
                Action::Seek(drag_target(s.info.duration, end) as i64),
                Action::Invalidate,
            ]
            &&& next_state(dragging, Message::LeftUp) == (BarView {
                seeking: None,
                hover: dragging.hover,
                ..s
            })
        }),
{
    let start = x - layout::seek_x(w as int);
    lemma_drag_goes_on(next_state(s, Message::LeftDown { x, w, h }), ms);
    lemma_drag_stays_on_track(start, ms);
}

proof fn lemma_drag_stays_on_track(start: int, ms: Seq<Message>)
    requires
        0 <= start <= layout::SEEK_W,
    ensures
        0 <= dragged_to(start, ms) <= layout::SEEK_W,
    decreases ms.len(),
{
    if ms.len() > 0 {
        lemma_drag_stays_on_track(start, ms.drop_last());
    }
}

/// A press on the seek bar of a bar of one size, moves of the pointer to `xs` one after the other,
/// and a release seek to the position under the last of these places, kept on the track.
pub proof fn a_drag_seeks_under_the_pointer(s: BarView, x: i32, xs: Seq<i32>, w: i32, h: i32)
    requires
        s.info.duration > 0,
        layout::within(x as int, layout::seek_x(w as int), layout::SEEK_W as int),
    ensures
        ({
            let moves = xs.map_values(|p: i32| Message::MouseMove { x: p, w, h });
            let dragging = run(next_state(s, Message::LeftDown { x, w, h }), moves);
            let last = if xs.len() == 0 {
                x
            } else {
                xs.last()
            };
            &&& live_actions(dragging, Message::LeftUp) == seq![
                Action::ReleaseCapture,
                Action::Seek(
                    drag_target(
                        s.info.duration,
                        layout::clamped_offset(last - layout::seek_x(w as int)),
                    ) as i64,
                ),
                Action::Invalidate,
            ]
            &&& next_state(dragging, Message::LeftUp).seeking is None
        }),
{
    let moves = xs.map_values(|p: i32| Message::MouseMove { x: p, w, h });
    a_drag_seeks_where_it_ends(s, x, w, h, moves);
}

/// The art that the bar is drawn with is that of the title that plays. Art of this title is kept as
/// it is, and nothing is decoded. Other art is deleted; new art is there exactly where there is a
/// title and a picture, and the picture could be decoded at both sizes. Nothing else changes.
pub proof fn painting_shows_the_art_of_the_title(
    s: BarView,
    h: i32,
    small: Option<isize>,
    large: Option<isize>,
)
    requires
        s.art is Some ==> s.art->0.key.len() > 0,
    ensures
        ({
            let plan = s.art_plan(h);
            let t = s.ready_to_paint(h, small, large);
            let (title, has_picture) = (s.info.title, s.info.thumbnail is Some);
            &&& t == (BarView { art: t.art, ..s })
            &&& t.art is Some ==> t.art->0.key == title && title.len() > 0
            &&& s.art is Some && s.art->0.key == title ==> t == s && plan == (ArtPlan {
                delete: None,
                decode: None,
            })
            &&& s.art is None || s.art->0.key != title ==> {
                &&& plan.delete == (match s.art {
                    Some(a) => Some(a.bitmaps),
                    None => None,
                })
                &&& plan.decode == (if title.len() > 0 && has_picture {
                    Some(thumbnail::ArtSizes { small: h, large: thumbnail::BG_ART_SIZE })
                } else {
                    None
                })
                &&& t.art is Some <==> title.len() > 0 && has_picture && small is Some && large
                    is Some
                &&& t.art is Some ==> t.art->0.bitmaps == (Bitmaps {
                    small: small->0,
                    large: large->0,
                })
            }
        }),
{
}

/// Once the bar has given up its art, the next painting decodes it anew, at the new height.
pub proof fn art_is_decoded_anew(s: BarView, h: i32)
    ensures
        ({
            let given_up = BarView { art: None, ..s };
            &&& given_up.art_plan(h).delete is None
            &&& given_up.art_plan(h).decode is Some <==> s.info.title.len() > 0
                && s.info.thumbnail is Some
            &&& given_up.art_plan(h).decode is Some ==> given_up.art_plan(h).decode->0.small == h
        }),
{
}

/// A position that was sought is shown at once, and counted on from while something plays.
pub proof fn a_seek_is_shown_at_once(pos: int, elapsed: int, dur: int)
    requires
        i64::MIN <= pos,
        pos + elapsed <= dur <= i64::MAX,
        0 <= elapsed,
    ensures
        crate::media::position_now(Tracker::at(pos).effective_pos as int, elapsed, dur) == pos + elapsed,
{
}

/// The pointer's button is lit while it is over the bar and no drag is under way, and none is lit
/// once it has left.
pub proof fn hover_follows_the_pointer(s: BarView, x: i32, w: i32, h: i32)
    requires
        s.seeking is None,
    ensures
        next_state(s, Message::MouseMove { x, w, h }).hover == layout::hover_at(
            x as int,
            w as int,
            h as int,
        ),
        next_state(s, Message::MouseLeave).hover == Hover::Nothing,
{
}

/// Whatever a message changes is painted: when the state changes, the bar asks to be painted.
pub proof fn changes_are_painted(s: BarView, m: Message)
    ensures
        next_state(s, m) != s ==> live_actions(s, m).contains(Action::Invalidate),
{
    let a = live_actions(s, m);
    match m {
        Message::MouseMove { x, w, h } => {
            if a.len() == 2 {
                assert(a[0] == Action::Invalidate);
            } else {
                assert(next_state(s, m) == s);
            }
        },
        Message::MouseLeave => {
            assert(a[0] == Action::Invalidate);
        },
        Message::LeftUp => {
            if s.seeking is Some {
                assert(a[a.len() - 1] == Action::Invalidate);
            } else {
                assert(next_state(s, m) == s);
            }
        },
        Message::LeftDown { x, w, h } => {
            if next_state(s, m) != s {
                assert(a[1] == Action::Invalidate);
            }
        },
        _ => {},
    }
}

/// Every field of the bar's state is seen as it is.
pub proof fn the_bar_is_seen_as_it_is(s: BarState)
    ensures
        s@.info == s.info@,
        s@.hover == s.hover,
        s@.accent == s.accent,
        s@.seeking == s.seeking,
        s@.tracker == s.tracker,
        s@.settings == s.settings@,
        s@.art is Some <==> s.art is Some,
        s.art matches Some(a) ==> s@.art->0.key == a.key@ && s@.art->0.bitmaps == a.bitmaps,
{
}

/// The coordinates in a parameter are signed: of all numbers with the same low 16 bits, the one
/// between -32768 and 32767.
pub proof fn coordinates_are_signed(lp: int)
    ensures
        -0x8000 <= low_word(lp) < 0x8000,
        (lp - low_word(lp)) % 0x1_0000 == 0,
        -0x8000 <= high_word(lp) < 0x8000,
        (lp / 0x1_0000 - high_word(lp)) % 0x1_0000 == 0,
{
}

/// Each message is read as what it is, whatever its parameter and the bar's size are.
pub proof fn messages_are_read_as_they_are(lp: int, w: i32, h: i32, created: u32)
    requires
        created == 0 || created >= 0xC000,
    ensures
        message_of(0x000F, created, lp, w, h) == Message::Paint,
        message_of(0x8002, created, lp, w, h) == Message::MediaUpdate,
        message_of(0x0200, created, lp, w, h) == (Message::MouseMove {
            x: low_word(lp) as i32,
            w,
            h,
        }),
        message_of(0x02A3, created, lp, w, h) == Message::MouseLeave,
        message_of(0x0202, created, lp, w, h) == Message::LeftUp,
        message_of(0x0201, created, lp, w, h) == (Message::LeftDown {
            x: low_word(lp) as i32,
            w,
            h,
        }),
        message_of(0x001A, created, lp, w, h) == Message::SettingChange,
        message_of(0x0204, created, lp, w, h) == Message::RightDown,
        message_of(0x0113, created, lp, w, h) == Message::Timer,
        message_of(0x0002, created, lp, w, h) == Message::Destroy,
        created != 0 ==> message_of(created, created, lp, w, h) == Message::TaskbarCreated,
{
}

/// The icon in the notification area opens the menu on a right click or the menu key, and the
/// settings on a double click, whatever the system puts above the low half of the parameter.
pub proof fn the_icon_answers_clicks(high: int, event: int, created: u32, w: i32, h: i32)
    requires
        0 <= event < 0x1_0000_0000,
        created == 0 || created >= 0xC000,
    ensures
        ({
            let m = message_of(0x8003, created, high * 0x1_0000_0000 + event, w, h);
            &&& m == Message::TrayMenu <==> event == 0x0205 || event == 0x007B
            &&& m == Message::TraySettings <==> event == 0x0203
            &&& m == Message::TrayMenu || m == Message::TraySettings || m == Message::TrayOther
        }),
{
    assert((high * 0x1_0000_0000 + event) % 0x1_0000_0000 == event);
}

/// Messages that the bar does not know are left to the system.
pub proof fn other_messages_are_left_alone(msg: u32, created: u32, lp: int, w: i32, h: i32)
    requires
        msg != created,
        msg != 0x000F && msg != 0x8002 && msg != 0x0200 && msg != 0x02A3 && msg != 0x0202,
        msg != 0x0201 && msg != 0x001A && msg != 0x0204 && msg != 0x8003 && msg != 0x0113,
        msg != 0x0002,
    ensures
        message_of(msg, created, lp, w, h) == Message::Other,
        forall|s: BarView| #[trigger]
            live_actions(s, Message::Other) == seq![Action::Default],
        stateless_actions(Message::Other) == seq![Action::Default],
{
}

/// Pressing a button does what the button says, whatever plays and whatever the state is, and
/// changes nothing in it. Columns count from the bar's left edge; the bar is wide enough for the
/// buttons to lie left of the seek bar.
pub proof fn pressing_a_button_does_what_it_says(s: BarView, x: i32, w: i32, h: i32)
    requires
        h + 188 <= w - 424,
    ensures
        ({
            let m = Message::LeftDown { x, w, h };
            let a = live_actions(s, m);
            &&& h + 16 <= x < h + 52 ==> a == seq![Action::Send(Command::Prev)]
            &&& h + 52 <= x < h + 88 ==> a == seq![Action::Send(Command::Play)]
            &&& h + 88 <= x < h + 124 ==> a == seq![Action::Send(Command::Next)]
            &&& h + 132 <= x < h + 160 ==> a == seq![Action::Send(Command::Shuffle)]
            &&& h + 160 <= x < h + 188 ==> a == seq![Action::Send(Command::Repeat)]
            &&& w - 40 <= x < w - 8 ==> a == seq![Action::OpenSettings]
            &&& x < h + 16 || h + 124 <= x < h + 132 || h + 188 <= x < w - 424 || w - 64 <= x < w
                - 40 || x >= w - 8 ==> a.len() == 0
            &&& x < w - 424 || x >= w - 64 ==> next_state(s, m) == s
        }),
{
}

/// A press on the seek bar begins a drag where there is something to seek in, and does nothing
/// where there is not, whether something plays or is paused.
pub proof fn pressing_the_seek_bar_begins_a_drag(s: BarView, x: i32, w: i32, h: i32)
    requires
        w - 424 <= x < w - 64,
    ensures
        ({
            let m = Message::LeftDown { x, w, h };
            let t = next_state(s, m);
            &&& s.info.duration > 0 ==> t.seeking == Some((x - (w - 424)) as i32) && live_actions(
                s,
                m,
            ) == seq![Action::SetCapture, Action::Invalidate]
            &&& s.info.duration > 0 ==> t == (BarView { seeking: t.seeking, ..s })
            &&& s.info.duration <= 0 ==> t == s && live_actions(s, m).len() == 0
        }),
{
}

/// Moving the pointer moves the drag while there is one, and the light otherwise; in any case the
/// bar asks to be told when the pointer leaves.
pub proof fn moving_the_pointer_moves_what_it_should(s: BarView, x: i32, w: i32, h: i32)
    ensures
        ({
            let m = Message::MouseMove { x, w, h };
            let (t, a) = (next_state(s, m), live_actions(s, m));
            let d = x - (w - 424);
            &&& a.len() > 0 && a.last() == Action::TrackLeave
            &&& s.seeking is Some ==> {
                &&& t == (BarView { seeking: t.seeking, ..s })
                &&& t.seeking is Some
                &&& 0 <= d <= 360 ==> t.seeking->0 == d
                &&& d < 0 ==> t.seeking->0 == 0
                &&& d > 360 ==> t.seeking->0 == 360
                &&& a == seq![Action::Invalidate, Action::TrackLeave]
            }
            &&& s.seeking is None ==> {
                &&& t == (BarView { hover: layout::hover_at(x as int, w as int, h as int), ..s })
                &&& t.hover != s.hover ==> a == seq![Action::Invalidate, Action::TrackLeave]
                &&& t.hover == s.hover ==> a == seq![Action::TrackLeave]
            }
        }),
{
}

/// The other messages do the same in every state, and change nothing in it but the light, which goes
/// out when the pointer leaves, and the drag, which ends when the button is let go.
pub proof fn other_messages_do_the_same_in_every_state(s: BarView)
    ensures
        live_actions(s, Message::Paint) == seq![Action::Paint],
        live_actions(s, Message::MediaUpdate) == seq![Action::Invalidate],
        live_actions(s, Message::Timer) == seq![Action::Invalidate],
        live_actions(s, Message::MouseLeave) == seq![Action::Invalidate],
        live_actions(s, Message::SettingChange) == seq![Action::ReadAccent, Action::Invalidate],
        live_actions(s, Message::RightDown) == seq![Action::ShowMenu],
        live_actions(s, Message::TrayMenu) == seq![Action::ShowMenu],
        live_actions(s, Message::TraySettings) == seq![Action::OpenSettings],
        live_actions(s, Message::TrayOther).len() == 0,
        live_actions(s, Message::TaskbarCreated) == seq![Action::AddTrayIcon],
        live_actions(s, Message::Destroy) == seq![
            Action::KillTimer,
            Action::RemoveTrayIcon,
            Action::RemoveAppbar,
            Action::Quit,
        ],
        next_state(s, Message::Paint) == s,
        next_state(s, Message::MediaUpdate) == s,
        next_state(s, Message::Timer) == s,
        next_state(s, Message::SettingChange) == s,
        next_state(s, Message::RightDown) == s,
        next_state(s, Message::TrayMenu) == s,
        next_state(s, Message::TraySettings) == s,
        next_state(s, Message::TrayOther) == s,
        next_state(s, Message::TaskbarCreated) == s,
        next_state(s, Message::Destroy) == s,
        next_state(s, Message::Other) == s,
        next_state(s, Message::MouseLeave) == (BarView { hover: Hover::Nothing, ..s }),
        next_state(s, Message::LeftUp) == (BarView { seeking: None, ..s }),
{
}

/// Letting go ends a drag with one seek where there is something to seek in, whether something plays
/// or is paused; without a drag it only releases the pointer.
pub proof fn letting_go_ends_the_drag(s: BarView)
    requires
        s.well_formed(),
    ensures
        ({
            let a = live_actions(s, Message::LeftUp);
            &&& a.len() > 0 && a[0] == Action::ReleaseCapture
            &&& s.seeking is None ==> a.len() == 1
            &&& s.seeking is Some && s.info.duration <= 0 ==> a.len() == 2 && a[1]
                == Action::Invalidate
            &&& s.seeking is Some && s.info.duration > 0 ==> a.len() == 3 && a[1] is Seek && a[2]
                == Action::Invalidate
        }),
{
}

/// The seek that ends a drag leads to the share of what plays that lies left of the pointer: to the
/// tick before it, but for an error of one part in 2^51, and no later than a tick count can say.
pub proof fn drags_lead_to_the_share_left_of_the_pointer(s: BarView, offset: i32)
    requires
        0 < s.info.duration <= i64::MAX,
        0 <= offset <= 360,
        s.seeking == Some(offset),
    ensures
        ({
            let t = live_actions(s, Message::LeftUp)[1]->Seek_0 as int;
            let d = s.info.duration;
            &&& 0 <= t
            &&& 0x8_0000_0000_0000 * (360 * t) <= 0x8_0000_0000_0001 * (d * offset)
            &&& t < i64::MAX ==> 0x7_FFFF_FFFF_FFFF * (d * offset) < 0x8_0000_0000_0000 * (360 * (t
                + 1))
        }),
{
    let (d, k) = (s.info.duration as nat, offset as nat);
    seek::target_is_the_pointers_share(d, k);
    let x = seek::target_of(d, k) as int;
    assert(drag_target(d as int, k as int) <= x);
    assert(d * k == s.info.duration * offset);
}

/// Without its state the bar still sends the commands of its buttons, but opens no settings and
/// paints nothing.
pub proof fn buttons_work_without_the_state(x: i32, w: i32, h: i32)
    ensures
        ({
            let a = stateless_actions(Message::LeftDown { x, w, h });
            &&& h + 16 <= x < h + 52 ==> a == seq![Action::Send(Command::Prev)]
            &&& h + 52 <= x < h + 88 ==> a == seq![Action::Send(Command::Play)]
            &&& h + 88 <= x < h + 124 ==> a == seq![Action::Send(Command::Next)]
            &&& h + 132 <= x < h + 160 ==> a == seq![Action::Send(Command::Shuffle)]
            &&& h + 160 <= x < h + 188 ==> a == seq![Action::Send(Command::Repeat)]
            &&& x < h + 16 || h + 124 <= x < h + 132 || h + 188 <= x ==> a.len() == 0
        }),
        stateless_actions(Message::MouseMove { x, w, h }) == seq![Action::TrackLeave],
        stateless_actions(Message::Paint).len() == 0,
        stateless_actions(Message::LeftUp).len() == 0,
        stateless_actions(Message::TraySettings).len() == 0,
{
}

/// While the settings window is open it gets every message first, the wheel going to whatever lies
/// under the pointer; while it is closed every message goes to its own window.
pub proof fn the_settings_window_gets_messages_first(msg: u32, lp: int)
    ensures
        route_of(false, msg, lp) == Route::Dispatch,
        msg != 0x020A ==> route_of(true, msg, lp) == Route::Dialog,
        route_of(true, 0x020A, lp) == (Route::Wheel {
            x: low_word(lp) as i32,
            y: high_word(lp) as i32,
        }),
{
}

/// The message that the taskbar has been created anew is the registered one, whatever number it has,
/// and nothing else. Where none could be registered there is no such message.
pub proof fn the_taskbar_is_known_by_its_registered_message(
    msg: u32,
    created: u32,
    lp: int,
    w: i32,
    h: i32,
)
    ensures
        message_of(msg, created, lp, w, h) == Message::TaskbarCreated <==> msg == created && 0
            < created,
{
}

} // verus!
