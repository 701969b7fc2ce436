//! Where everything on the bar lies, and what lies under the pointer.
//!
//! From left to right: the album art, a square as high as the bar; the group of previous, play and
//! next; the pair of shuffle and repeat; the text; the times and the seek bar, where there is
//! something to seek in; and the gear at the far right.
use crate::numbers;
use vstd::prelude::*;

verus! {

/// The height of the accent line along the top edge.
pub const ACCENT_H: i32 = 1;

/// The width of each playback button.
pub const BTN_W: i32 = 36;

/// The height of every button.
pub const BTN_H: i32 = 26;

/// The width of the group of playback buttons.
pub const GROUP_W: i32 = 108;

/// The space beside the art and behind the text.
pub const SIDE_PAD: i32 = 16;

/// The diameter of a button group's round corners.
pub const CORNER: i32 = 6;

/// The width of the seek bar's track.
pub const SEEK_W: i32 = 360;

/// The height of the seek bar's track.
pub const SEEK_H: i32 = 3;

/// The space between the seek bar and the gear.
pub const SEEK_PAD_R: i32 = 24;

/// The width of the times.
pub const TIME_W: i32 = 82;

/// The space on either side of the times.
pub const TIME_GAP: i32 = 16;

/// The width of the shuffle and of the repeat button.
pub const SHR_W: i32 = 28;

/// The space between the two button groups.
pub const SHR_GAP: i32 = 8;

/// The space between the button groups and the text.
pub const TEXT_GAP: i32 = 20;

/// The width of the gear.
pub const GEAR_W: i32 = 32;

/// The space between the gear and the right edge.
pub const GEAR_PAD: i32 = 8;

/// A rectangle: its left and top edge lie inside, its right and bottom edge just outside.
#[derive(Clone, Copy, PartialEq, Eq, Structural, Debug)]
pub struct Rect {
    pub left: i32,
    pub top: i32,
    pub right: i32,
    pub bottom: i32,
}

/// What the pointer is over.
#[derive(Clone, Copy, PartialEq, Eq, Structural, Debug)]
pub enum Hover {
    Nothing,
    Prev,
    Play,
    Next,
    Shuffle,
    Repeat,
    Gear,
}

impl Default for Hover {
    fn default() -> (r: Hover)
        ensures
            r == Hover::Nothing,
    {
        Hover::Nothing
    }
}

impl Rect {
    /// The rectangle between four edges.
    pub open spec fn spanning(left: int, top: int, right: int, bottom: int) -> Rect {
        Rect { left: left as i32, top: top as i32, right: right as i32, bottom: bottom as i32 }
    }
}

/// An integer is a coordinate.
pub open spec fn fits(v: int) -> bool {
    i32::MIN <= v <= i32::MAX
}

/// The left edge of the playback buttons on a bar of height `h`.
pub open spec fn group_x(h: int) -> int {
    h + SIDE_PAD
}

/// The left edge of the shuffle button.
pub open spec fn shr_x(h: int) -> int {
    group_x(h) + GROUP_W + SHR_GAP
}

/// The left edge of the repeat button.
pub open spec fn rep_x(h: int) -> int {
    shr_x(h) + SHR_W
}

/// The left edge of the text.
pub open spec fn text_x(h: int) -> int {
    shr_x(h) + SHR_W * 2 + TEXT_GAP
}

/// The left edge of the gear on a bar of width `w`.
pub open spec fn gear_x(w: int) -> int {
    w - GEAR_PAD - GEAR_W
}

/// The left end of the seek bar's track.
pub open spec fn seek_x(w: int) -> int {
    gear_x(w) - SEEK_PAD_R - SEEK_W
}

/// The right edge of the times.
pub open spec fn time_right(w: int) -> int {
    seek_x(w) - TIME_GAP
}

/// The left edge of the times.
pub open spec fn time_left(w: int) -> int {
    time_right(w) - TIME_W
}

/// The edge that the text must not cross.
pub open spec fn text_max_x(w: int, has_seek: bool) -> int {
    if has_seek {
        time_left(w) - TIME_GAP
    } else {
        gear_x(w)
    }
}

/// The top edge of the buttons: they are centred below the accent line.
pub open spec fn btn_top(h: int) -> int {
    ACCENT_H + numbers::trunc_div(h - ACCENT_H - BTN_H, 2)
}

/// The middle of the seek bar.
pub open spec fn seek_middle(h: int) -> int {
    ACCENT_H + numbers::trunc_div(h - ACCENT_H, 2)
}

/// `x` lies in the `width` columns from `left` on.
pub open spec fn within(x: int, left: int, width: int) -> bool {
    left <= x < left + width
}

/// The button under `x`, where the groups begin at the given columns. Of two that overlap, the
/// one further left in the bar's order counts.
pub open spec fn button_at(x: int, group: int, shr: int, rep: int, gear: int) -> Hover {
    if within(x, group, BTN_W as int) {
        Hover::Prev
    } else if within(x, group + BTN_W, BTN_W as int) {
        Hover::Play
    } else if within(x, group + BTN_W * 2, BTN_W as int) {
        Hover::Next
    } else if within(x, shr, SHR_W as int) {
        Hover::Shuffle
    } else if within(x, rep, SHR_W as int) {
        Hover::Repeat
    } else if within(x, gear, GEAR_W as int) {
        Hover::Gear
    } else {
        Hover::Nothing
    }
}

/// The button under `x` on a bar of `w` by `h` pixels.
pub open spec fn hover_at(x: int, w: int, h: int) -> Hover {
    button_at(x, group_x(h), shr_x(h), rep_x(h), gear_x(w))
}

/// The columns that a button takes on a bar of `w` by `h` pixels.
pub open spec fn button_span(button: Hover, w: int, h: int) -> (int, int) {
    match button {
        Hover::Nothing => (0, 0),
        Hover::Prev => (group_x(h), BTN_W as int),
        Hover::Play => (group_x(h) + BTN_W, BTN_W as int),
        Hover::Next => (group_x(h) + BTN_W * 2, BTN_W as int),
        Hover::Shuffle => (shr_x(h), SHR_W as int),
        Hover::Repeat => (rep_x(h), SHR_W as int),
        Hover::Gear => (gear_x(w), GEAR_W as int),
    }
}

fn in_span(x: i64, left: i64, width: i32) -> (r: bool)
    requires
        i64::MIN + 0x1_0000_0000 <= left <= i64::MAX - 0x1_0000_0000,
    ensures
        r == within(x as int, left as int, width as int),
{
    left <= x && x < left + width as i64
}

/// Finds the button under `x`, where the groups begin at the given columns.
pub fn hit_btn(x: i32, group_x: i32, shr_x: i32, rep_x: i32, gear_x: i32) -> (r: Hover)
    ensures
        r == button_at(x as int, group_x as int, shr_x as int, rep_x as int, gear_x as int),
{
    find_button(x, group_x as i64, shr_x as i64, rep_x as i64, gear_x as i64)
}

fn find_button(x: i32, group_x: i64, shr_x: i64, rep_x: i64, gear_x: i64) -> (r: Hover)
    requires
        -0x1_0000_0000 <= group_x <= 0x1_0000_0000,
        -0x1_0000_0000 <= shr_x <= 0x1_0000_0000,
        -0x1_0000_0000 <= rep_x <= 0x1_0000_0000,
        -0x1_0000_0000 <= gear_x <= 0x1_0000_0000,
    ensures
        r == button_at(x as int, group_x as int, shr_x as int, rep_x as int, gear_x as int),
{
    let x: i64 = x as i64;
    if in_span(x, group_x, BTN_W) {
        Hover::Prev
    } else if in_span(x, group_x + BTN_W as i64, BTN_W) {
        Hover::Play
    } else if in_span(x, group_x + BTN_W as i64 * 2, BTN_W) {
        Hover::Next
    } else if in_span(x, shr_x, SHR_W) {
        Hover::Shuffle
    } else if in_span(x, rep_x, SHR_W) {
        Hover::Repeat
    } else if in_span(x, gear_x, GEAR_W) {
        Hover::Gear
    } else {
        Hover::Nothing
    }
}

/// Finds the button under `x` on a bar of `w` by `h` pixels.
pub fn hit_bar(x: i32, w: i32, h: i32) -> (r: Hover)
    ensures
        r == hover_at(x as int, w as int, h as int),
{
    let shr: i64 = shr_left(h);
    find_button(x, group_left(h), shr, shr + SHR_W as i64, gear_left(w))
}

/// Finds whether `x` lies on the seek bar's track of a bar of width `w`.
pub fn on_seek_bar(x: i32, w: i32) -> (r: bool)
    ensures
        r == within(x as int, seek_x(w as int), SEEK_W as int),
{
    in_span(x as i64, track_left(w), SEEK_W)
}

pub(crate) fn group_left(h: i32) -> (r: i64)
    ensures
        r == group_x(h as int),
{
    h as i64 + SIDE_PAD as i64
}

pub(crate) fn shr_left(h: i32) -> (r: i64)
    ensures
        r == shr_x(h as int),
{
    group_left(h) + GROUP_W as i64 + SHR_GAP as i64
}

pub(crate) fn text_left(h: i32) -> (r: i64)
    ensures
        r == text_x(h as int),
{
    shr_left(h) + SHR_W as i64 * 2 + TEXT_GAP as i64
}

pub(crate) fn gear_left(w: i32) -> (r: i64)
    ensures
        r == gear_x(w as int),
{
    w as i64 - GEAR_PAD as i64 - GEAR_W as i64
}

pub(crate) fn track_left(w: i32) -> (r: i64)
    ensures
        r == seek_x(w as int),
{
    gear_left(w) - SEEK_PAD_R as i64 - SEEK_W as i64
}

pub(crate) fn text_end(w: i32, has_seek: bool) -> (r: i64)
    ensures
        r == text_max_x(w as int, has_seek),
{
    if has_seek {
        track_left(w) - TIME_GAP as i64 - TIME_W as i64 - TIME_GAP as i64
    } else {
        gear_left(w)
    }
}

/// The pointer's offset along the seek bar's track of a bar of width `w`, kept on the track.
pub fn seek_offset(x: i32, w: i32) -> (r: i32)
    ensures
        r == clamped_offset(x - seek_x(w as int)),
        0 <= r <= SEEK_W,
{
    let d: i64 = x as i64 - track_left(w);
    if d < 0 {
        0
    } else if d > SEEK_W as i64 {
        SEEK_W
    } else {
        d as i32
    }
}

/// An offset, kept on the track.
pub open spec fn clamped_offset(d: int) -> int {
    if d < 0 {
        0
    } else if d > SEEK_W {
        SEEK_W as int
    } else {
        d
    }
}

/// What the pointer hits is where it is: a button is found only over its own columns.
pub proof fn a_hit_lies_on_the_button(x: int, w: int, h: int)
    ensures
        hover_at(x, w, h) != Hover::Nothing ==> within(
            x,
            button_span(hover_at(x, w, h), w, h).0,
            button_span(hover_at(x, w, h), w, h).1,
        ),
{
}

/// Every column of a button but the gear hits that button, and so does every column of the gear
/// that no other button takes.
pub proof fn a_button_is_hit_on_all_its_columns(button: Hover, x: int, w: int, h: int)
    requires
        button != Hover::Nothing,
        within(x, button_span(button, w, h).0, button_span(button, w, h).1),
        button == Hover::Gear ==> x >= rep_x(h) + SHR_W || x < group_x(h) || within(
            x,
            group_x(h) + GROUP_W,
            SHR_GAP as int,
        ),
    ensures
        hover_at(x, w, h) == button,
{
}

/// The buttons left of the text take disjoint columns in the order previous, play, next, shuffle,
/// repeat, and the text begins behind them all.
pub proof fn buttons_are_side_by_side(w: int, h: int)
    ensures
        ({
            let end = |b: Hover| button_span(b, w, h).0 + button_span(b, w, h).1;
            &&& h < button_span(Hover::Prev, w, h).0
            &&& end(Hover::Prev) == button_span(Hover::Play, w, h).0
            &&& end(Hover::Play) == button_span(Hover::Next, w, h).0
            &&& end(Hover::Next) < button_span(Hover::Shuffle, w, h).0
            &&& end(Hover::Shuffle) == button_span(Hover::Repeat, w, h).0
            &&& end(Hover::Repeat) < text_x(h)
        }),
{
}

/// The gear ends inside the bar; the seek bar ends left of the gear, the times end left of the
/// seek bar, and the text ends left of the times.
pub proof fn right_side_is_ordered(w: int)
    ensures
        gear_x(w) + GEAR_W < w,
        seek_x(w) + SEEK_W < gear_x(w),
        time_right(w) < seek_x(w),
        text_max_x(w, true) < time_left(w) < time_right(w),
        text_max_x(w, false) == gear_x(w),
{
}

/// On a bar that is high enough for its buttons they stand between the accent line and the
/// bottom edge.
pub proof fn buttons_stand_inside(h: int)
    requires
        h >= ACCENT_H + BTN_H,
    ensures
        ACCENT_H <= btn_top(h),
        btn_top(h) + BTN_H <= h,
{
}

/// Everything has its fixed place: on the left it moves with the bar's height, on the right with its
/// width.
pub proof fn everything_has_its_place(w: int, h: int)
    ensures
        group_x(h) == h + 16,
        shr_x(h) == h + 132,
        rep_x(h) == h + 160,
        text_x(h) == h + 208,
        gear_x(w) == w - 40,
        seek_x(w) == w - 424,
        time_right(w) == w - 440,
        time_left(w) == w - 522,
        text_max_x(w, true) == w - 538,
        text_max_x(w, false) == w - 40,
{
}

/// The buttons and the seek bar are centred below the accent line, but for half a pixel.
pub proof fn buttons_and_track_are_centred(h: int)
    ensures
        ({
            let (above, below) = (btn_top(h) - 1, h - (btn_top(h) + 26));
            -1 <= above - below <= 1
        }),
        -1 <= (seek_middle(h) - 1) - (h - seek_middle(h)) <= 1,
{
}

/// The pointer hits a button exactly on that button's columns, given for each from left to right.
pub proof fn the_pointer_hits_what_is_under_it(x: int, w: int, h: int)
    ensures
        h + 16 <= x < h + 52 <==> hover_at(x, w, h) == Hover::Prev,
        h + 52 <= x < h + 88 <==> hover_at(x, w, h) == Hover::Play,
        h + 88 <= x < h + 124 <==> hover_at(x, w, h) == Hover::Next,
        h + 132 <= x < h + 160 <==> hover_at(x, w, h) == Hover::Shuffle,
        h + 160 <= x < h + 188 <==> hover_at(x, w, h) == Hover::Repeat,
        hover_at(x, w, h) == Hover::Gear ==> w - 40 <= x < w - 8,
        w - 40 <= x < w - 8 && h + 188 <= x ==> hover_at(x, w, h) == Hover::Gear,
{
}

/// Wherever the groups begin, a column is that of a button exactly where it lies on it and on none
/// that comes before it.
pub proof fn buttons_are_found_where_they_begin(
    x: int,
    group: int,
    shr: int,
    rep: int,
    gear: int,
)
    ensures
        ({
            let b = button_at(x, group, shr, rep, gear);
            let left = group <= x < group + 108;
            &&& b == Hover::Prev <==> group <= x < group + 36
            &&& b == Hover::Play <==> group + 36 <= x < group + 72
            &&& b == Hover::Next <==> group + 72 <= x < group + 108
            &&& b == Hover::Shuffle <==> !left && shr <= x < shr + 28
            &&& b == Hover::Repeat <==> !left && !(shr <= x < shr + 28) && rep <= x < rep + 28
            &&& b == Hover::Gear <==> !left && !(shr <= x < shr + 28) && !(rep <= x < rep + 28)
                && gear <= x < gear + 32
        }),
{
}

/// On the track the offset is the pointer's distance from its left end; beyond its ends it stays at
/// them.
pub proof fn offsets_follow_the_pointer(d: int)
    ensures
        0 <= d <= 360 ==> clamped_offset(d) == d,
        d < 0 ==> clamped_offset(d) == 0,
        d > 360 ==> clamped_offset(d) == 360,
{
}

/// A rectangle has the edges that it was given, where they are coordinates.
pub proof fn rectangles_have_their_edges(left: int, top: int, right: int, bottom: int)
    requires
        fits(left),
        fits(top),
        fits(right),
        fits(bottom),
    ensures
        Rect::spanning(left, top, right, bottom).left == left,
        Rect::spanning(left, top, right, bottom).top == top,
        Rect::spanning(left, top, right, bottom).right == right,
        Rect::spanning(left, top, right, bottom).bottom == bottom,
{
}

} // verus!
