//! What the bar looks like: a list of drawing steps, which the window carries out in order.
use crate::layout;
use crate::layout::{
    Hover, Rect, ACCENT_H, BTN_H, BTN_W, CORNER, GEAR_W, GROUP_W, SEEK_H, SEEK_W, SHR_W, SIDE_PAD,
    TIME_GAP, TIME_W,
};
use crate::media;
use crate::media::{MediaInfo, MediaView, RepeatMode};
use crate::numbers;
use crate::seek;
use crate::text;
use crate::thumbnail;
use crate::window::{BarState, BarView};
use vstd::prelude::*;

verus! {

// Colours have blue in the third byte, green in the second and red in the lowest.

pub const C_BG: u32 = 0x1C_1C_1C;

pub const C_ART_PH: u32 = 0x28_28_28;

pub const C_BTN: u32 = 0x2D_2D_2D;

pub const C_BTN_HOV: u32 = 0x3D_3D_3D;

pub const C_BTN_BDR: u32 = 0x48_48_48;

pub const C_BTN_BDR_H: u32 = 0x68_68_68;

pub const C_ICON: u32 = 0xCC_CC_CC;

pub const C_ICON_OFF: u32 = 0x55_55_55;

pub const C_TITLE: u32 = 0xF2_F2_F2;

pub const C_ARTIST: u32 = 0x88_88_88;

pub const C_SEP: u32 = 0x55_55_55;

pub const C_ACCENT_FALLBACK: u32 = 0xD4_78_00;

// Icons are characters of the icon font.

pub const ICON_PREV: &'static str = "\u{E892}";

pub const ICON_PLAY: &'static str = "\u{E768}";

pub const ICON_PAUSE: &'static str = "\u{E769}";

pub const ICON_NEXT: &'static str = "\u{E893}";

pub const ICON_GEAR: &'static str = "\u{E713}";

pub const ICON_SHUFFLE: &'static str = "\u{E8B1}";

pub const ICON_REPEAT_ALL: &'static str = "\u{E8EE}";

pub const ICON_REPEAT_ONE: &'static str = "\u{E8ED}";

/// The space that a divider leaves above and below.
pub const DIVIDER_MARGIN: i32 = 4;

/// The space on either side of the dash between title and artist.
pub const SEP_GAP: i32 = 6;

/// The narrowest space in which the artist is shown.
pub const MIN_ARTIST_W: i32 = 20;

/// The radius of the seek bar's knob.
pub const KNOB_R: i32 = 5;

/// How much larger the knob is drawn before it is scaled down.
pub const KNOB_SCALE: i32 = 3;

/// The radius of the backdrop's blur.
pub const BLUR_RADIUS: usize = 12;

/// How strongly the backdrop is darkened.
pub const SHADE_ALPHA: u8 = 170;

/// Which font a text is set in.
#[derive(Clone, Copy, PartialEq, Eq, Structural, Debug)]
pub enum FontRole {
    Text,
    Icon,
}

/// Where a text stands between the left and the right edge of its rectangle.
#[derive(Clone, Copy, PartialEq, Eq, Structural, Debug)]
pub enum Align {
    Left,
    Center,
    Right,
}

/// A drawing step. Texts are UTF-16, of type `T`.
pub enum Op<T> {
    /// Fill a rectangle.
    Fill { rect: Rect, color: u32 },
    /// Draw only inside a rectangle with round corners from now on.
    Clip { rect: Rect, corner: i32 },
    /// Draw everywhere again.
    Unclip,
    /// Draw the outline of a rectangle with round corners.
    Border { rect: Rect, corner: i32, color: u32 },
    /// Draw a vertical line.
    Line { x: i32, top: i32, bottom: i32, color: u32 },
    /// Write a line of text, centred between the top and the bottom of its rectangle.
    Text { rect: Rect, text: T, color: u32, font: FontRole, align: Align, ellipsis: bool },
    /// Stretch rows of the large album art over the bar, and blur it.
    Backdrop { src_y: i32, src_h: i32, radius: usize },
    /// Darken the whole bar.
    Shade { alpha: u8 },
    /// Copy the small album art.
    Art { rect: Rect },
    /// Draw a disc of diameter `d`, scaled down from diameter `src_d`.
    Knob { x: i32, y: i32, d: i32, src_d: i32, color: u32 },
}

/// A drawing step, as mathematics sees it.
pub type OpView = Op<Seq<u16>>;

impl View for Op<Vec<u16>> {
    type V = Op<Seq<u16>>;

    open spec fn view(&self) -> Op<Seq<u16>> {
        match *self {
            Op::Fill { rect, color } => Op::Fill { rect, color },
            Op::Clip { rect, corner } => Op::Clip { rect, corner },
            Op::Unclip => Op::Unclip,
            Op::Border { rect, corner, color } => Op::Border { rect, corner, color },
            Op::Line { x, top, bottom, color } => Op::Line { x, top, bottom, color },
            Op::Text { rect, text, color, font, align, ellipsis } => Op::Text {
                rect,
                text: text@,
                color,
                font,
                align,
                ellipsis,
            },
            Op::Backdrop { src_y, src_h, radius } => Op::Backdrop { src_y, src_h, radius },
            Op::Shade { alpha } => Op::Shade { alpha },
            Op::Art { rect } => Op::Art { rect },
            Op::Knob { x, y, d, src_d, color } => Op::Knob { x, y, d, src_d, color },
        }
    }
}

/// Drawing steps, as mathematics sees them.
pub open spec fn steps(v: Seq<Op<Vec<u16>>>) -> Seq<OpView> {
    v.map_values(|o: Op<Vec<u16>>| o@)
}

/// The text of a step.
pub open spec fn caption(s: Seq<char>) -> Seq<u16> {
    text::utf16(s)
}

/// The accent colour: the system's, with its channels in the order of colours here, or a fallback
/// where the system gave none.
pub open spec fn accent_of(rgb: Option<(u8, u8, u8)>) -> int {
    match rgb {
        Some((r, g, b)) => 0x1_0000 * b + 0x100 * g + r,
        None => C_ACCENT_FALLBACK as int,
    }
}

/// Computes the accent colour from red, green and blue.
pub fn accent_color(rgb: Option<(u8, u8, u8)>) -> (r: u32)
    ensures
        r == accent_of(rgb),
{
    match rgb {
        Some((r, g, b)) => 0x1_0000 * b as u32 + 0x100 * g as u32 + r as u32,
        None => C_ACCENT_FALLBACK,
    }
}

/// An icon in the middle of a button.
pub open spec fn icon_step(icon: Seq<char>, left: int, top: int, width: int, color: u32) -> OpView {
    Op::Text {
        rect: Rect::spanning(left, top, left + width, top + BTN_H),
        text: caption(icon),
        color,
        font: FontRole::Icon,
        align: Align::Center,
        ellipsis: false,
    }
}

/// The ground of a group of buttons, with one of them lit where `lit` gives its left edge.
pub open spec fn ground_steps(
    left: int,
    top: int,
    width: int,
    ground: u32,
    lit: Option<int>,
    lit_width: int,
) -> Seq<OpView> {
    let light = match lit {
        Some(x) => seq![
            Op::Fill {
                rect: Rect::spanning(x, top, x + lit_width, top + BTN_H),
                color: C_BTN_HOV,
            },
        ],
        None => seq![],
    };
    seq![
        Op::Clip {
            rect: Rect::spanning(left, top, left + width + 1, top + BTN_H + 1),
            corner: CORNER,
        },
        Op::Fill { rect: Rect::spanning(left, top, left + width, top + BTN_H), color: ground },
    ] + light + seq![Op::Unclip]
}

/// The outline of a group of buttons.
pub open spec fn border_step(left: int, top: int, width: int, lit: bool) -> OpView {
    Op::Border {
        rect: Rect::spanning(left, top, left + width, top + BTN_H),
        corner: CORNER,
        color: if lit {
            C_BTN_BDR_H
        } else {
            C_BTN_BDR
        },
    }
}

/// The line between two buttons.
pub open spec fn divider_step(x: int, top: int) -> OpView {
    Op::Line {
        x: x as i32,
        top: (top + DIVIDER_MARGIN) as i32,
        bottom: (top + BTN_H - DIVIDER_MARGIN) as i32,
        color: C_BTN_BDR,
    }
}

/// The left edge of the playback button under the pointer.
pub open spec fn lit_playback(hover: Hover, left: int) -> Option<int> {
    match hover {
        Hover::Prev => Some(left),
        Hover::Play => Some(left + BTN_W),
        Hover::Next => Some(left + BTN_W * 2),
        _ => None,
    }
}

/// The left edge of the shuffle or repeat button under the pointer.
pub open spec fn lit_mode(hover: Hover, left: int) -> Option<int> {
    match hover {
        Hover::Shuffle => Some(left),
        Hover::Repeat => Some(left + SHR_W),
        _ => None,
    }
}

/// The group of playback buttons.
pub open spec fn btn_group_steps(top: int, left: int, hover: Hover, playing: bool) -> Seq<OpView> {
    let lit = lit_playback(hover, left);
    let play = if playing {
        ICON_PAUSE@
    } else {
        ICON_PLAY@
    };
    ground_steps(left, top, GROUP_W as int, C_BTN, lit, BTN_W as int) + seq![
        border_step(left, top, GROUP_W as int, lit is Some),
        divider_step(left + BTN_W, top),
        divider_step(left + BTN_W * 2, top),
        icon_step(ICON_PREV@, left, top, BTN_W as int, C_ICON),
        icon_step(play, left + BTN_W, top, BTN_W as int, C_ICON),
        icon_step(ICON_NEXT@, left + BTN_W * 2, top, BTN_W as int, C_ICON),
    ]
}

/// The state that the shuffle and repeat buttons show.
#[derive(Clone, Copy)]
pub struct ShrGroupState {
    pub hover: Hover,
    pub shuffle_active: bool,
    pub shuffle_enabled: bool,
    pub repeat_active: bool,
    pub repeat_enabled: bool,
    pub repeat_one: bool,
    pub accent: u32,
}

/// The colour of a mode's icon: dim where the mode cannot be set, accented where it is on.
pub open spec fn mode_color(enabled: bool, active: bool, accent: u32) -> u32 {
    if !enabled {
        C_ICON_OFF
    } else if active {
        accent
    } else {
        C_ICON
    }
}

/// The shuffle and repeat buttons.
pub open spec fn shr_group_steps(left: int, top: int, s: ShrGroupState) -> Seq<OpView> {
    let lit = lit_mode(s.hover, left);
    let repeat = if s.repeat_one {
        ICON_REPEAT_ONE@
    } else {
        ICON_REPEAT_ALL@
    };
    ground_steps(left, top, SHR_W * 2, C_BTN, lit, SHR_W as int) + seq![
        border_step(left, top, SHR_W * 2, lit is Some),
        divider_step(left + SHR_W, top),
        icon_step(
            ICON_SHUFFLE@,
            left,
            top,
            SHR_W as int,
            mode_color(s.shuffle_enabled, s.shuffle_active, s.accent),
        ),
        icon_step(
            repeat,
            left + SHR_W,
            top,
            SHR_W as int,
            mode_color(s.repeat_enabled, s.repeat_active, s.accent),
        ),
    ]
}

/// The gear.
pub open spec fn gear_steps(left: int, top: int, hovered: bool) -> Seq<OpView> {
    let ground = if hovered {
        C_BTN_HOV
    } else {
        C_BTN
    };
    ground_steps(left, top, GEAR_W as int, ground, None, 0) + seq![
        border_step(left, top, GEAR_W as int, hovered),
        icon_step(ICON_GEAR@, left, top, GEAR_W as int, C_ICON),
    ]
}

/// A button group of this width can be drawn here without leaving the range of coordinates.
pub open spec fn group_fits(left: int, top: int, width: int) -> bool {
    &&& layout::fits(left)
    &&& layout::fits(left + width + 1)
    &&& layout::fits(top)
    &&& layout::fits(top + BTN_H + 1)
}

fn put(out: &mut Vec<Op<Vec<u16>>>, op: Op<Vec<u16>>)
    ensures
        steps(final(out)@) == steps(old(out)@).push(op@),
{
    out.push(op);
    assert(steps(out@) =~= steps(old(out)@).push(op@));
}

proof fn lemma_chain(a: Seq<OpView>, b: Seq<OpView>, c: Seq<OpView>)
    ensures
        (a + b) + c == a + (b + c),
{
    assert((a + b) + c =~= a + (b + c));
}

proof fn lemma_four_behind(a: Seq<OpView>, b: Seq<OpView>)
    requires
        b.len() == 4,
    ensures
        a.push(b[0]).push(b[1]).push(b[2]).push(b[3]) == a + b,
{
    assert(a.push(b[0]).push(b[1]).push(b[2]).push(b[3]) =~= a + b);
}

fn push_ground(
    out: &mut Vec<Op<Vec<u16>>>,
    left: i32,
    top: i32,
    width: i32,
    ground: u32,
    lit: Option<i32>,
    lit_width: i32,
)
    requires
        0 <= width,
        0 <= lit_width,
        group_fits(left as int, top as int, width as int),
        lit is Some ==> layout::fits(lit->0 + lit_width),
    ensures
        steps(final(out)@) == steps(old(out)@) + ground_steps(
            left as int,
            top as int,
            width as int,
            ground,
            match lit {
                Some(x) => Some(x as int),
                None => None,
            },
            lit_width as int,
        ),
{
    let bottom: i32 = top + BTN_H;
    put(
        out,
        Op::Clip {
            rect: Rect { left, top, right: left + width + 1, bottom: bottom + 1 },
            corner: CORNER,
        },
    );
    put(
        out,
        Op::Fill { rect: Rect { left, top, right: left + width, bottom }, color: ground },
    );
    match lit {
        Some(x) => {
            put(
                out,
                Op::Fill {
                    rect: Rect { left: x, top, right: x + lit_width, bottom },
                    color: C_BTN_HOV,
                },
            );
        },
        None => {},
    }
    put(out, Op::Unclip);
    assert(steps(out@) =~= steps(old(out)@) + ground_steps(
        left as int,
        top as int,
        width as int,
        ground,
        match lit {
            Some(x) => Some(x as int),
            None => None,
        },
        lit_width as int,
    ));
}

fn make_border(left: i32, top: i32, width: i32, lit: bool) -> (r: Op<Vec<u16>>)
    requires
        0 <= width,
        group_fits(left as int, top as int, width as int),
    ensures
        r@ == border_step(left as int, top as int, width as int, lit),
{
    Op::Border {
        rect: Rect { left, top, right: left + width, bottom: top + BTN_H },
        corner: CORNER,
        color: if lit {
            C_BTN_BDR_H
        } else {
            C_BTN_BDR
        },
    }
}

fn make_divider(x: i32, top: i32) -> (r: Op<Vec<u16>>)
    requires
        layout::fits(top + BTN_H + 1),
    ensures
        r@ == divider_step(x as int, top as int),
{
    Op::Line {
        x,
        top: top + DIVIDER_MARGIN,
        bottom: top + BTN_H - DIVIDER_MARGIN,
        color: C_BTN_BDR,
    }
}

fn make_icon(icon: &str, left: i32, top: i32, width: i32, color: u32) -> (r: Op<Vec<u16>>)
    requires
        0 <= width,
        group_fits(left as int, top as int, width as int),
    ensures
        r@ == icon_step(icon@, left as int, top as int, width as int, color),
{
    Op::Text {
        rect: Rect { left, top, right: left + width, bottom: top + BTN_H },
        text: text::w16(icon),
        color,
        font: FontRole::Icon,
        align: Align::Center,
        ellipsis: false,
    }
}

/// Draws the group of playback buttons.
pub fn draw_btn_group(
    out: &mut Vec<Op<Vec<u16>>>,
    btn_top: i32,
    group_x: i32,
    hover: Hover,
    playing: bool,
)
    requires
        group_fits(group_x as int, btn_top as int, GROUP_W as int),
    ensures
        steps(final(out)@) == steps(old(out)@) + btn_group_steps(
            btn_top as int,
            group_x as int,
            hover,
            playing,
        ),
{
    let lit: Option<i32> = match hover {
        Hover::Prev => Some(group_x),
        Hover::Play => Some(group_x + BTN_W),
        Hover::Next => Some(group_x + BTN_W * 2),
        _ => None,
    };
    let play: &'static str = if playing {
        ICON_PAUSE
    } else {
        ICON_PLAY
    };
    push_ground(out, group_x, btn_top, GROUP_W, C_BTN, lit, BTN_W);
    put(out, make_border(group_x, btn_top, GROUP_W, lit.is_some()));
    put(out, make_divider(group_x + BTN_W, btn_top));
    put(out, make_divider(group_x + BTN_W * 2, btn_top));
    put(out, make_icon(ICON_PREV, group_x, btn_top, BTN_W, C_ICON));
    put(out, make_icon(play, group_x + BTN_W, btn_top, BTN_W, C_ICON));
    put(out, make_icon(ICON_NEXT, group_x + BTN_W * 2, btn_top, BTN_W, C_ICON));
    assert(steps(out@) =~= steps(old(out)@) + btn_group_steps(
        btn_top as int,
        group_x as int,
        hover,
        playing,
    ));
}

fn pick_mode_color(enabled: bool, active: bool, accent: u32) -> (r: u32)
    ensures
        r == mode_color(enabled, active, accent),
{
    if !enabled {
        C_ICON_OFF
    } else if active {
        accent
    } else {
        C_ICON
    }
}

/// Draws the shuffle and repeat buttons.
pub fn draw_shr_group(out: &mut Vec<Op<Vec<u16>>>, gx: i32, gy: i32, state: &ShrGroupState)
    requires
        group_fits(gx as int, gy as int, SHR_W * 2),
    ensures
        steps(final(out)@) == steps(old(out)@) + shr_group_steps(gx as int, gy as int, *state),
{
    let lit: Option<i32> = match state.hover {
        Hover::Shuffle => Some(gx),
        Hover::Repeat => Some(gx + SHR_W),
        _ => None,
    };
    let repeat: &'static str = if state.repeat_one {
        ICON_REPEAT_ONE
    } else {
        ICON_REPEAT_ALL
    };
    let shuffle_color: u32 = pick_mode_color(
        state.shuffle_enabled,
        state.shuffle_active,
        state.accent,
    );
    let repeat_color: u32 = pick_mode_color(
        state.repeat_enabled,
        state.repeat_active,
        state.accent,
    );
    push_ground(out, gx, gy, SHR_W * 2, C_BTN, lit, SHR_W);
    let ghost grounded = steps(out@);
    let ghost ground = ground_steps(
        gx as int,
        gy as int,
        SHR_W * 2,
        C_BTN,
        lit_mode(state.hover, gx as int),
        SHR_W as int,
    );
    assert(grounded == steps(old(out)@) + ground);
    put(out, make_border(gx, gy, SHR_W * 2, lit.is_some()));
    put(out, make_divider(gx + SHR_W, gy));
    put(out, make_icon(ICON_SHUFFLE, gx, gy, SHR_W, shuffle_color));
    put(out, make_icon(repeat, gx + SHR_W, gy, SHR_W, repeat_color));
    proof {
        let rest = seq![
            border_step(gx as int, gy as int, SHR_W * 2, lit is Some),
            divider_step(gx + SHR_W, gy as int),
            icon_step(ICON_SHUFFLE@, gx as int, gy as int, SHR_W as int, shuffle_color),
            icon_step(repeat@, gx + SHR_W, gy as int, SHR_W as int, repeat_color),
        ];
        lemma_four_behind(grounded, rest);
        lemma_chain(steps(old(out)@), ground, rest);
    }
}

/// Draws the gear.
pub fn draw_gear_btn(out: &mut Vec<Op<Vec<u16>>>, gx: i32, gy: i32, hovered: bool)
    requires
        group_fits(gx as int, gy as int, GEAR_W as int),
    ensures
        steps(final(out)@) == steps(old(out)@) + gear_steps(gx as int, gy as int, hovered),
{
    let ground: u32 = if hovered {
        C_BTN_HOV
    } else {
        C_BTN
    };
    push_ground(out, gx, gy, GEAR_W, ground, None, 0);
    put(out, make_border(gx, gy, GEAR_W, hovered));
    put(out, make_icon(ICON_GEAR, gx, gy, GEAR_W, C_ICON));
    assert(steps(out@) =~= steps(old(out)@) + gear_steps(gx as int, gy as int, hovered));
}

/// A line of text over the height of the bar.
pub open spec fn text_step(
    left: int,
    right: int,
    h: int,
    text: Seq<u16>,
    color: u32,
    align: Align,
    ellipsis: bool,
) -> OpView {
    Op::Text {
        rect: Rect::spanning(left, ACCENT_H as int, right, h),
        text,
        color,
        font: FontRole::Text,
        align,
        ellipsis,
    }
}

/// The space that the title gets: what it needs, but little more than half of all there is.
pub open spec fn title_space(avail: int, title_cx: int) -> int {
    let most = avail * 55 / 100;
    if title_cx < most {
        title_cx
    } else {
        most
    }
}

/// What plays, in words: the title, a dash and the artist, as far as they find room between `x`
/// and `max_x`. The title is `title_cx` wide and the dash `sep_cx`.
pub open spec fn media_text_steps(
    title: Seq<char>,
    artist: Seq<char>,
    x: int,
    max_x: int,
    h: int,
    title_cx: int,
    sep_cx: int,
) -> Seq<OpView> {
    let avail = max_x - x - SIDE_PAD;
    let space = title_space(avail, title_cx);
    let sep_x = x + space + SEP_GAP;
    let artist_x = sep_x + sep_cx + SEP_GAP;
    let end = x + avail;
    if avail <= 0 {
        seq![]
    } else if title.len() == 0 {
        seq![
            text_step(x, end, h, caption("No media playing"@), C_ARTIST, Align::Left, false),
        ]
    } else {
        seq![
            text_step(x, x + space, h, caption(title), C_TITLE, Align::Left, title_cx > space),
        ] + (if artist.len() == 0 || artist_x >= end {
            seq![]
        } else {
            seq![text_step(sep_x, sep_x + sep_cx, h, caption("-"@), C_SEP, Align::Left, false)] + (
            if end - artist_x <= MIN_ARTIST_W {
                seq![]
            } else {
                seq![text_step(artist_x, end, h, caption(artist), C_ARTIST, Align::Left, true)]
            })
        })
    }
}

fn make_text(
    left: i32,
    right: i32,
    h: i32,
    text: Vec<u16>,
    color: u32,
    align: Align,
    ellipsis: bool,
) -> (r: Op<Vec<u16>>)
    ensures
        r@ == text_step(left as int, right as int, h as int, text@, color, align, ellipsis),
{
    Op::Text {
        rect: Rect { left, top: ACCENT_H, right, bottom: h },
        text,
        color,
        font: FontRole::Text,
        align,
        ellipsis,
    }
}

/// Writes what plays, between `x` and `max_x`. `title_cx` and `sep_cx` are the widths, as the
/// system measures them, of the title and of a dash.
pub fn draw_media_text(
    out: &mut Vec<Op<Vec<u16>>>,
    title: &str,
    artist: &str,
    x: i32,
    max_x: i32,
    h: i32,
    title_cx: i32,
    sep_cx: i32,
)
    requires
        0 <= title_cx,
        0 <= sep_cx,
        layout::fits(max_x - x),
        layout::fits(max_x - x - SIDE_PAD),
    ensures
        steps(final(out)@) == steps(old(out)@) + media_text_steps(
            title@,
            artist@,
            x as int,
            max_x as int,
            h as int,
            title_cx as int,
            sep_cx as int,
        ),
{
    let avail: i32 = max_x - x - SIDE_PAD;
    let ghost goal = steps(out@) + media_text_steps(
        title@,
        artist@,
        x as int,
        max_x as int,
        h as int,
        title_cx as int,
        sep_cx as int,
    );
    if avail <= 0 {
        assert(steps(out@) =~= goal);
        return ;
    }
    let end: i32 = x + avail;
    if title.is_empty() {
        put(
            out,
            make_text(x, end, h, text::w16("No media playing"), C_ARTIST, Align::Left, false),
        );
        assert(steps(out@) =~= goal);
        return ;
    }
    let most: i32 = (avail as i64 * 55 / 100) as i32;
    let space: i32 = if title_cx < most {
        title_cx
    } else {
        most
    };
    put(
        out,
        make_text(x, x + space, h, text::w16(title), C_TITLE, Align::Left, title_cx > space),
    );
    let sep_x: i32 = x + space + SEP_GAP;
    let artist_x: i64 = sep_x as i64 + sep_cx as i64 + SEP_GAP as i64;
    if artist.is_empty() || artist_x >= end as i64 {
        assert(steps(out@) =~= goal);
        return ;
    }
    put(
        out,
        make_text(sep_x, sep_x + sep_cx, h, text::w16("-"), C_SEP, Align::Left, false),
    );
    if end as i64 - artist_x > MIN_ARTIST_W as i64 {
        put(
            out,
            make_text(artist_x as i32, end, h, text::w16(artist), C_ARTIST, Align::Left, true),
        );
    }
    assert(steps(out@) =~= goal);
}

/// The position and the width of the fill that the seek bar shows, where there is something to
/// seek in. While the user drags, the fill follows the pointer.
pub open spec fn seek_shown(s: BarView, elapsed: int) -> Option<(int, int)> {
    if s.info.duration <= 0 {
        None
    } else {
        let pos = media::position_now(s.tracker.effective_pos as int, elapsed, s.info.duration);
        let fill = match s.seeking {
            Some(offset) => seek::fill_of(seek::drag_fraction(offset as nat)) as int,
            None => saturated(seek::played_fill_of(pos, s.info.duration as nat)),
        };
        Some((pos, fill))
    }
}

/// The coordinate that is nearest to an integer.
pub open spec fn saturated(v: int) -> int {
    if v > i32::MAX {
        i32::MAX as int
    } else if v < i32::MIN {
        i32::MIN as int
    } else {
        v
    }
}

/// The times, the track, its fill and the knob.
pub open spec fn seek_steps(w: int, h: int, pos: int, dur: int, fill: int, accent: u32) -> Seq<
    OpView,
> {
    let left = layout::seek_x(w);
    let middle = layout::seek_middle(h);
    let top = middle - SEEK_H / 2;
    seq![
        text_step(
            layout::time_left(w),
            layout::time_right(w),
            h,
            caption(numbers::progress_text(pos, dur)),
            C_ARTIST,
            Align::Right,
            false,
        ),
        Op::Fill {
            rect: Rect::spanning(left, top, left + SEEK_W, top + SEEK_H),
            color: C_BTN_BDR,
        },
    ] + (if fill > 0 {
        seq![
            Op::Fill {
                rect: Rect::spanning(left, top, left + fill, top + SEEK_H),
                color: accent,
            },
        ]
    } else {
        seq![]
    }) + seq![
        Op::Knob {
            x: (left + fill - KNOB_R) as i32,
            y: (middle - KNOB_R) as i32,
            d: (KNOB_R * 2) as i32,
            src_d: (KNOB_R * 2 * KNOB_SCALE) as i32,
            color: C_TITLE,
        },
    ]
}

/// The ground that everything else is drawn on: the album art, blurred and darkened, with the art
/// itself at the left; or plain colours where there is no art.
pub open spec fn art_steps(w: int, h: int, has_art: bool) -> Seq<OpView> {
    let square = Rect::spanning(0, ACCENT_H as int, h, h);
    if has_art {
        let rows = thumbnail::crop_rows(w, h);
        seq![
            Op::Backdrop {
                src_y: ((thumbnail::BG_ART_SIZE - rows) / 2) as i32,
                src_h: rows as i32,
                radius: BLUR_RADIUS,
            },
            Op::Shade { alpha: SHADE_ALPHA },
            Op::Art { rect: square },
        ]
    } else {
        seq![
            Op::Fill { rect: Rect::spanning(0, 0, w, h), color: C_BG },
            Op::Fill { rect: square, color: C_ART_PH },
        ]
    }
}

/// The state that the shuffle and repeat buttons show for what plays.
pub open spec fn modes_shown(info: MediaView, hover: Hover, accent: u32) -> ShrGroupState {
    ShrGroupState {
        hover,
        shuffle_active: info.shuffle,
        shuffle_enabled: info.shuffle_enabled,
        repeat_active: info.repeat is Some && info.repeat->0 != RepeatMode::Off,
        repeat_enabled: info.repeat_enabled,
        repeat_one: info.repeat == Some(RepeatMode::Track),
        accent,
    }
}

/// What lies left of the text: the ground and the buttons.
pub open spec fn control_steps(s: BarView, w: int, h: int) -> Seq<OpView> {
    let top = layout::btn_top(h);
    art_steps(w, h, s.art is Some) + btn_group_steps(top, layout::group_x(h), s.hover, s.info.playing)
        + shr_group_steps(layout::shr_x(h), top, modes_shown(s.info, s.hover, s.accent))
}

/// Some steps, and behind them those of what lies right of the buttons: the text, the seek bar, the
/// gear, and the accent line on top of everything.
pub open spec fn with_rest(
    before: Seq<OpView>,
    s: BarView,
    w: int,
    h: int,
    title_cx: int,
    sep_cx: int,
    elapsed: int,
) -> Seq<OpView> {
    let shown = seek_shown(s, elapsed);
    before + media_text_steps(
        s.info.title,
        s.info.artist,
        layout::text_x(h),
        layout::text_max_x(w, shown is Some),
        h,
        title_cx,
        sep_cx,
    ) + (match shown {
        Some((pos, fill)) => seek_steps(w, h, pos, s.info.duration, fill, s.accent),
        None => seq![],
    }) + gear_steps(layout::gear_x(w), layout::btn_top(h), s.hover == Hover::Gear) + seq![
        Op::Fill { rect: Rect::spanning(0, 0, w, ACCENT_H as int), color: s.accent },
    ]
}

/// The whole bar, of `w` by `h` pixels.
pub open spec fn bar_steps(
    s: BarView,
    w: int,
    h: int,
    title_cx: int,
    sep_cx: int,
    elapsed: int,
) -> Seq<OpView> {
    with_rest(control_steps(s, w, h), s, w, h, title_cx, sep_cx, elapsed)
}

/// The bar can be drawn without leaving the range of coordinates.
pub open spec fn paintable(s: BarView, w: int, h: int, elapsed: int) -> bool {
    let shown = seek_shown(s, elapsed);
    let text_space = layout::text_max_x(w, shown is Some) - layout::text_x(h);
    &&& layout::fits(h - ACCENT_H - BTN_H)
    &&& layout::fits(layout::text_x(h))
    &&& layout::fits(layout::text_max_x(w, shown is Some))
    &&& layout::fits(text_space)
    &&& layout::fits(text_space - SIDE_PAD)
    &&& match shown {
        Some((pos, fill)) => {
            &&& s.tracker.effective_pos + elapsed >= i64::MIN
            &&& layout::fits(layout::seek_x(w) + fill)
            &&& layout::fits(layout::seek_x(w) + fill - KNOB_R)
        },
        None => true,
    }
}

fn fill_width(s: &BarState, pos: i64) -> (r: i32)
    requires
        s@.well_formed(),
        s.info.duration_100ns > 0,
    ensures
        r == (match s.seeking {
            Some(offset) => seek::fill_of(seek::drag_fraction(offset as nat)) as int,
            None => saturated(
                seek::played_fill_of(pos as int, s.info.duration_100ns as nat),
            ),
        }),
{
    match s.seeking {
        Some(offset) => seek::drag_fill(offset),
        None => seek::played_fill(pos, s.info.duration_100ns),
    }
}

fn coordinate(v: i64) -> (r: bool)
    ensures
        r == layout::fits(v as int),
{
    i32::MIN as i64 <= v && v <= i32::MAX as i64
}

/// Finds whether the bar can be drawn at this size. `nanos` is the time since the clock was
/// sampled.
pub fn can_paint(s: &BarState, w: i32, h: i32, nanos: u128) -> (r: bool)
    requires
        s@.well_formed(),
    ensures
        r == paintable(
            s@,
            w as int,
            h as int,
            media::elapsed_ticks(s.info.playing, nanos as int),
        ),
{
    let dur: i64 = s.info.duration_100ns;
    let has_seek: bool = dur > 0;
    let text_x: i64 = layout::text_left(h);
    let text_max: i64 = layout::text_end(w, has_seek);
    let space: i64 = text_max - text_x;
    if !(coordinate(h as i64 - ACCENT_H as i64 - BTN_H as i64) && coordinate(text_x) && coordinate(text_max) && coordinate(
        space,
    ) && coordinate(space - SIDE_PAD as i64)) {
        return false;
    }
    if !has_seek {
        return true;
    }
    if !media::position_fits(s.tracker.effective_pos, s.info.playing, nanos) {
        return false;
    }
    let pos: i64 = media::display_pos(s.tracker.effective_pos, s.info.playing, nanos, dur);
    let end: i64 = layout::track_left(w) + fill_width(s, pos) as i64;
    coordinate(end) && coordinate(end - KNOB_R as i64)
}

/// Draws the times, the track, its fill and the knob.
fn draw_seek_bar(
    out: &mut Vec<Op<Vec<u16>>>,
    w: i32,
    h: i32,
    pos: i64,
    dur: i64,
    fill: i32,
    accent: u32,
)
    requires
        layout::fits(h - ACCENT_H - BTN_H),
        layout::fits(layout::text_x(h as int)),
        layout::fits(layout::text_max_x(w as int, true)),
        layout::fits(layout::seek_x(w as int) + fill),
        layout::fits(layout::seek_x(w as int) + fill - KNOB_R),
    ensures
        steps(final(out)@) == steps(old(out)@) + seek_steps(
            w as int,
            h as int,
            pos as int,
            dur as int,
            fill as int,
            accent,
        ),
{
    let left: i32 = layout::track_left(w) as i32;
    let middle: i32 = ACCENT_H + (h - ACCENT_H) / 2;
    let top: i32 = middle - SEEK_H / 2;
    let times: String = numbers::fmt_progress(pos, dur);
    put(
        out,
        make_text(
            left - TIME_GAP - TIME_W,
            left - TIME_GAP,
            h,
            text::w16(times.as_str()),
            C_ARTIST,
            Align::Right,
            false,
        ),
    );
    put(
        out,
        Op::Fill {
            rect: Rect { left, top, right: left + SEEK_W, bottom: top + SEEK_H },
            color: C_BTN_BDR,
        },
    );
    if fill > 0 {
        put(
            out,
            Op::Fill {
                rect: Rect { left, top, right: left + fill, bottom: top + SEEK_H },
                color: accent,
            },
        );
    }
    put(
        out,
        Op::Knob {
            x: left + fill - KNOB_R,
            y: middle - KNOB_R,
            d: KNOB_R * 2,
            src_d: KNOB_R * 2 * KNOB_SCALE,
            color: C_TITLE,
        },
    );
    assert(steps(out@) =~= steps(old(out)@) + seek_steps(
        w as int,
        h as int,
        pos as int,
        dur as int,
        fill as int,
        accent,
    ));
}

fn draw_art(out: &mut Vec<Op<Vec<u16>>>, w: i32, h: i32, has_art: bool)
    ensures
        steps(final(out)@) == steps(old(out)@) + art_steps(w as int, h as int, has_art),
{
    let square: Rect = Rect { left: 0, top: ACCENT_H, right: h, bottom: h };
    if has_art {
        let (src_y, src_h): (i32, i32) = thumbnail::backdrop_crop(w, h);
        put(out, Op::Backdrop { src_y, src_h, radius: BLUR_RADIUS });
        put(out, Op::Shade { alpha: SHADE_ALPHA });
        put(out, Op::Art { rect: square });
    } else {
        put(
            out,
            Op::Fill { rect: Rect { left: 0, top: 0, right: w, bottom: h }, color: C_BG },
        );
        put(out, Op::Fill { rect: square, color: C_ART_PH });
    }
    assert(steps(out@) =~= steps(old(out)@) + art_steps(w as int, h as int, has_art));
}

proof fn lemma_nothing_before(none: Seq<OpView>, a: Seq<OpView>)
    requires
        none.len() == 0,
    ensures
        none + a == a,
{
    assert(none + a =~= a);
}

proof fn lemma_nothing_behind(a: Seq<OpView>)
    ensures
        a + seq![] == a,
{
    assert(a + seq![] =~= a);
}

proof fn lemma_one_behind(a: Seq<OpView>, x: OpView)
    ensures
        a.push(x) == a + seq![x],
{
    assert(a.push(x) =~= a + seq![x]);
}

spec fn are_controls(v: Seq<OpView>, s: BarView, w: int, h: int) -> bool {
    v == control_steps(s, w, h)
}

spec fn extends_to_bar(
    before: Seq<OpView>,
    v: Seq<OpView>,
    s: BarView,
    w: int,
    h: int,
    title_cx: int,
    sep_cx: int,
    elapsed: int,
) -> bool {
    v == with_rest(before, s, w, h, title_cx, sep_cx, elapsed)
}

/// Draws what lies left of the text: the ground and the buttons.
fn draw_controls(s: &BarState, w: i32, h: i32) -> (r: Vec<Op<Vec<u16>>>)
    requires
        layout::fits(h - ACCENT_H - BTN_H),
        layout::fits(layout::text_x(h as int)),
    ensures
        are_controls(steps(r@), s@, w as int, h as int),
{
    let info: &MediaInfo = &s.info;
    let top: i32 = ACCENT_H + (h - ACCENT_H - BTN_H) / 2;
    let modes: ShrGroupState = ShrGroupState {
        hover: s.hover,
        shuffle_active: info.shuffle,
        shuffle_enabled: info.shuffle_enabled,
        repeat_active: match info.repeat {
            Some(mode) => mode != RepeatMode::Off,
            None => false,
        },
        repeat_enabled: info.repeat_enabled,
        repeat_one: match info.repeat {
            Some(mode) => mode == RepeatMode::Track,
            None => false,
        },
        accent: s.accent,
    };
    let mut out: Vec<Op<Vec<u16>>> = Vec::new();
    proof {
        lemma_nothing_before(steps(out@), art_steps(w as int, h as int, s.art is Some));
    }
    draw_art(&mut out, w, h, s.art.is_some());
    draw_btn_group(&mut out, top, layout::group_left(h) as i32, s.hover, info.playing);
    draw_shr_group(&mut out, layout::shr_left(h) as i32, top, &modes);
    out
}

/// Draws what lies right of the buttons: the text, the seek bar and the gear.
fn draw_rest(
    out: &mut Vec<Op<Vec<u16>>>,
    s: &BarState,
    w: i32,
    h: i32,
    title_cx: i32,
    sep_cx: i32,
    nanos: u128,
)
    requires
        s@.well_formed(),
        0 <= title_cx,
        0 <= sep_cx,
        paintable(
            s@,
            w as int,
            h as int,
            media::elapsed_ticks(s.info.playing, nanos as int),
        ),
    ensures
        extends_to_bar(
            steps(old(out)@),
            steps(final(out)@),
            s@,
            w as int,
            h as int,
            title_cx as int,
            sep_cx as int,
            media::elapsed_ticks(s.info.playing, nanos as int),
        ),
{
    let info: &MediaInfo = &s.info;
    let dur: i64 = info.duration_100ns;
    let has_seek: bool = dur > 0;
    let top: i32 = ACCENT_H + (h - ACCENT_H - BTN_H) / 2;
    draw_media_text(
        out,
        info.title.as_str(),
        info.artist.as_str(),
        layout::text_left(h) as i32,
        layout::text_end(w, has_seek) as i32,
        h,
        title_cx,
        sep_cx,
    );
    if has_seek {
        let pos: i64 = media::display_pos(s.tracker.effective_pos, info.playing, nanos, dur);
        let fill: i32 = fill_width(s, pos);
        draw_seek_bar(out, w, h, pos, dur, fill, s.accent);
    } else {
        proof {
            lemma_nothing_behind(steps(out@));
        }
    }
    draw_gear_btn(out, layout::gear_left(w) as i32, top, s.hover == Hover::Gear);
    let line: Op<Vec<u16>> = Op::Fill {
        rect: Rect { left: 0, top: 0, right: w, bottom: ACCENT_H },
        color: s.accent,
    };
    proof {
        lemma_one_behind(steps(out@), line@);
    }
    put(out, line);
}

/// Draws the whole bar, of `w` by `h` pixels. `title_cx` and `sep_cx` are the widths of the title and
/// of a dash, and `nanos` is the time since the clock was sampled.
pub fn on_paint(
    s: &BarState,
    w: i32,
    h: i32,
    title_cx: i32,
    sep_cx: i32,
    nanos: u128,
) -> (r: Vec<Op<Vec<u16>>>)
    requires
        s@.well_formed(),
        0 <= title_cx,
        0 <= sep_cx,
        paintable(
            s@,
            w as int,
            h as int,
            media::elapsed_ticks(s.info.playing, nanos as int),
        ),
    ensures
        steps(r@) == bar_steps(
            s@,
            w as int,
            h as int,
            title_cx as int,
            sep_cx as int,
            media::elapsed_ticks(s.info.playing, nanos as int),
        ),
{
    let mut out: Vec<Op<Vec<u16>>> = draw_controls(s, w, h);
    draw_rest(&mut out, s, w, h, title_cx, sep_cx, nanos);
    out
}

/// The accent line lies on top of everything: it is drawn last, one pixel high along the whole top
/// edge, in the accent colour.
pub proof fn accent_line_is_on_top(
    s: BarView,
    w: int,
    h: int,
    title_cx: int,
    sep_cx: int,
    elapsed: int,
)
    ensures
        bar_steps(s, w, h, title_cx, sep_cx, elapsed).len() > 0,
        bar_steps(s, w, h, title_cx, sep_cx, elapsed).last() == (Op::<Seq<u16>>::Fill {
            rect: Rect::spanning(0, 0, w, 1),
            color: s.accent,
        }),
{
}

/// The button under the pointer, and no other, is lit, and its light covers the pointer's column.
pub proof fn light_follows_the_pointer(x: int, w: int, h: int)
    ensures
        ({
            let hover = layout::hover_at(x, w, h);
            let (left, width) = layout::button_span(hover, w, h);
            let playback = lit_playback(hover, layout::group_x(h));
            let mode = lit_mode(hover, layout::shr_x(h));
            &&& playback is Some ==> playback == Some(left) && width == BTN_W
            &&& mode is Some ==> mode == Some(left) && width == SHR_W
            &&& hover != Hover::Nothing ==> layout::within(x, left, width)
            &&& hover == Hover::Nothing ==> playback is None && mode is None
            &&& !(playback is Some && mode is Some)
            &&& hover == Hover::Gear ==> playback is None && mode is None
        }),
{
}

/// A step is a line of text between two columns.
pub open spec fn is_text_between(op: OpView, left: int, right: int) -> bool {
    op matches Op::Text { rect, .. } && left <= rect.left && rect.right <= right
}

/// The text keeps to its space, `SIDE_PAD` short of the edge that it must not cross, and its parts
/// stand side by side: each ends before the next begins.
pub proof fn text_keeps_to_its_space(
    title: Seq<char>,
    artist: Seq<char>,
    x: int,
    max_x: int,
    h: int,
    title_cx: int,
    sep_cx: int,
)
    requires
        0 <= title_cx,
        0 <= sep_cx,
        layout::fits(x),
        layout::fits(max_x),
    ensures
        ({
            let v = media_text_steps(title, artist, x, max_x, h, title_cx, sep_cx);
            &&& forall|i: int|
                0 <= i < v.len() ==> #[trigger] is_text_between(v[i], x, max_x - SIDE_PAD)
            &&& forall|i: int, j: int|
                0 <= i < j < v.len() ==> (#[trigger] v[i])->Text_rect.right <= (
                #[trigger] v[j])->Text_rect.left
        }),
{
    let v = media_text_steps(title, artist, x, max_x, h, title_cx, sep_cx);
    let avail = max_x - x - SIDE_PAD;
    if avail > 0 && title.len() > 0 {
        let space = title_space(avail, title_cx);
        assert(0 <= space <= avail);
        assert(v.len() <= 3);
    }
}

/// The title takes at most 55 percent of the space for the text, and is cut off with an ellipsis
/// exactly where it needs more than it gets.
pub proof fn long_titles_are_cut_off(
    title: Seq<char>,
    artist: Seq<char>,
    x: int,
    max_x: int,
    h: int,
    title_cx: int,
    sep_cx: int,
)
    requires
        title.len() > 0,
        0 <= title_cx,
        max_x - x - SIDE_PAD > 0,
        layout::fits(x),
        layout::fits(max_x),
    ensures
        ({
            let avail = max_x - x - SIDE_PAD;
            let first = media_text_steps(title, artist, x, max_x, h, title_cx, sep_cx)[0];
            let width = first->Text_rect.right - first->Text_rect.left;
            &&& first is Text
            &&& first->text == caption(title)
            &&& 100 * width <= 55 * avail
            &&& first->ellipsis <==> width < title_cx
            &&& !first->ellipsis ==> width == title_cx
        }),
{
    let avail = max_x - x - SIDE_PAD;
    let space = title_space(avail, title_cx);
    assert(0 <= space <= avail);
    assert(100 * space <= 55 * avail);
}

/// The fill stays on the track: while the user drags, and at every position from the start on.
pub proof fn fill_stays_on_the_track(s: BarView, elapsed: int)
    requires
        s.well_formed(),
        0 < s.info.duration <= i64::MAX,
        s.seeking is Some || s.tracker.effective_pos + elapsed >= 0,
    ensures
        seek_shown(s, elapsed) matches Some((pos, fill)) && 0 <= fill <= SEEK_W && pos
            <= s.info.duration,
{
    let dur = s.info.duration;
    let pos = media::position_now(s.tracker.effective_pos as int, elapsed, dur);
    match s.seeking {
        Some(offset) => {
            seek::drag_fill_stays_on_track(offset as nat);
        },
        None => {
            seek::played_fill_stays_on_track(pos as nat, dur as nat);
        },
    }
}

/// Every bar of ordinary size can be drawn, at every position from the start on.
pub proof fn ordinary_bars_can_be_drawn(s: BarView, w: int, h: int, elapsed: int)
    requires
        s.well_formed(),
        s.info.duration <= i64::MAX,
        0 <= s.tracker.effective_pos,
        0 <= elapsed,
        0 <= w <= 0x1000_0000,
        0 <= h <= 0x1000_0000,
    ensures
        paintable(s, w, h, elapsed),
{
    if s.info.duration > 0 {
        fill_stays_on_the_track(s, elapsed);
    }
}

/// Whether drawing is clipped after some steps, where it was not at first; nothing where a clip
/// begins inside another or ends without having begun.
pub open spec fn clipped_after(v: Seq<OpView>) -> Option<bool>
    decreases v.len(),
{
    if v.len() == 0 {
        Some(false)
    } else {
        match (clipped_after(v.drop_last()), v.last()) {
            (Some(false), Op::Clip { .. }) => Some(true),
            (_, Op::Clip { .. }) => None,
            (Some(true), Op::Unclip) => Some(false),
            (_, Op::Unclip) => None,
            (before, _) => before,
        }
    }
}

proof fn lemma_clips_chain(a: Seq<OpView>, b: Seq<OpView>)
    requires
        clipped_after(a) == Some(false),
    ensures
        clipped_after(a + b) == clipped_after(b),
    decreases b.len(),
{
    if b.len() == 0 {
        assert(a + b =~= a);
    } else {
        lemma_clips_chain(a, b.drop_last());
        assert((a + b).drop_last() =~= a + b.drop_last());
        assert((a + b).last() == b.last());
    }
}

proof fn lemma_no_clips(v: Seq<OpView>)
    requires
        forall|i: int| 0 <= i < v.len() ==> !(#[trigger] v[i] is Clip) && !(v[i] is Unclip),
    ensures
        clipped_after(v) == Some(false),
    decreases v.len(),
{
    if v.len() > 0 {
        lemma_no_clips(v.drop_last());
    }
}

proof fn lemma_ground_clips(
    left: int,
    top: int,
    width: int,
    ground: u32,
    lit: Option<int>,
    lit_width: int,
)
    ensures
        clipped_after(ground_steps(left, top, width, ground, lit, lit_width)) == Some(false),
{
    let v = ground_steps(left, top, width, ground, lit, lit_width);
    let first = v.take(1);
    assert(clipped_after(first.drop_last()) == Some(false));
    assert(clipped_after(first) == Some(true));
    if lit is Some {
        assert(v.drop_last().drop_last().drop_last() =~= first);
    } else {
        assert(v.drop_last().drop_last() =~= first);
    }
    reveal_with_fuel(clipped_after, 4);
}

/// A button group clips its ground and nothing else: behind it drawing is unclipped again. So it is
/// before and behind each part of the bar, and behind the whole.
pub proof fn clips_end_where_they_begin(
    s: BarView,
    w: int,
    h: int,
    title_cx: int,
    sep_cx: int,
    elapsed: int,
)
    ensures
        clipped_after(control_steps(s, w, h)) == Some(false),
        clipped_after(bar_steps(s, w, h, title_cx, sep_cx, elapsed)) == Some(false),
{
    let top = layout::btn_top(h);
    let modes = modes_shown(s.info, s.hover, s.accent);
    let shown = seek_shown(s, elapsed);
    let art = art_steps(w, h, s.art is Some);
    let buttons = btn_group_steps(top, layout::group_x(h), s.hover, s.info.playing);
    let pair = shr_group_steps(layout::shr_x(h), top, modes);
    let words = media_text_steps(
        s.info.title,
        s.info.artist,
        layout::text_x(h),
        layout::text_max_x(w, shown is Some),
        h,
        title_cx,
        sep_cx,
    );
    let slider = match shown {
        Some((pos, fill)) => seek_steps(w, h, pos, s.info.duration, fill, s.accent),
        None => seq![],
    };
    let gear = gear_steps(layout::gear_x(w), top, s.hover == Hover::Gear);
    let line = seq![
        Op::<Seq<u16>>::Fill {
            rect: Rect::spanning(0, 0, w, ACCENT_H as int),
            color: s.accent,
        },
    ];
    lemma_no_clips(art);
    lemma_group_clips(
        layout::group_x(h),
        top,
        GROUP_W as int,
        C_BTN,
        lit_playback(s.hover, layout::group_x(h)),
        BTN_W as int,
        buttons,
    );
    lemma_group_clips(
        layout::shr_x(h),
        top,
        SHR_W * 2,
        C_BTN,
        lit_mode(s.hover, layout::shr_x(h)),
        SHR_W as int,
        pair,
    );
    lemma_no_clips(words);
    lemma_no_clips(slider);
    lemma_group_clips(
        layout::gear_x(w),
        top,
        GEAR_W as int,
        if s.hover == Hover::Gear {
            C_BTN_HOV
        } else {
            C_BTN
        },
        None,
        0,
        gear,
    );
    lemma_no_clips(line);
    lemma_clips_chain(art, buttons);
    lemma_clips_chain(art + buttons, pair);
    let left = art + buttons + pair;
    lemma_clips_chain(left, words);
    lemma_clips_chain(left + words, slider);
    lemma_clips_chain(left + words + slider, gear);
    lemma_clips_chain(left + words + slider + gear, line);
}

proof fn lemma_group_clips(
    left: int,
    top: int,
    width: int,
    ground: u32,
    lit: Option<int>,
    lit_width: int,
    group: Seq<OpView>,
)
    requires
        ({
            let g = ground_steps(left, top, width, ground, lit, lit_width);
            &&& g.len() <= group.len()
            &&& group.take(g.len() as int) =~= g
            &&& forall|i: int|
                g.len() <= i < group.len() ==> !(#[trigger] group[i] is Clip)
                    && !(group[i] is Unclip)
        }),
    ensures
        clipped_after(group) == Some(false),
{
    let g = ground_steps(left, top, width, ground, lit, lit_width);
    let rest = group.skip(g.len() as int);
    lemma_ground_clips(left, top, width, ground, lit, lit_width);
    lemma_no_clips(rest);
    lemma_clips_chain(g, rest);
    assert(group =~= g + rest);
}

/// A list of steps is seen step by step, and each step as it is.
pub proof fn steps_are_seen_as_they_are(v: Seq<Op<Vec<u16>>>, i: int)
    requires
        0 <= i < v.len(),
    ensures
        steps(v).len() == v.len(),
        steps(v)[i] == v[i]@,
        v[i] matches Op::Text { rect, text, color, font, align, ellipsis } ==> {
            let t = v[i]@;
            &&& t is Text
            &&& t->Text_rect == rect
            &&& t->text == text@
            &&& t->Text_color == color
            &&& t->font == font
            &&& t->align == align
            &&& t->ellipsis == ellipsis
        },
        v[i] matches Op::Fill { rect, color } ==> v[i]@ == (Op::<Seq<u16>>::Fill { rect, color }),
        v[i] matches Op::Clip { rect, corner } ==> v[i]@ == (Op::<Seq<u16>>::Clip { rect, corner }),
        v[i] is Unclip ==> v[i]@ is Unclip,
        v[i] matches Op::Border { rect, corner, color } ==> v[i]@ == (Op::<Seq<u16>>::Border {
            rect,
            corner,
            color,
        }),
        v[i] matches Op::Line { x, top, bottom, color } ==> v[i]@ == (Op::<Seq<u16>>::Line {
            x,
            top,
            bottom,
            color,
        }),
        v[i] matches Op::Backdrop { src_y, src_h, radius } ==> v[i]@ == (Op::<Seq<u16>>::Backdrop {
            src_y,
            src_h,
            radius,
        }),
        v[i] matches Op::Shade { alpha } ==> v[i]@ == (Op::<Seq<u16>>::Shade { alpha }),
        v[i] matches Op::Art { rect } ==> v[i]@ == (Op::<Seq<u16>>::Art { rect }),
        v[i] matches Op::Knob { x, y, d, src_d, color } ==> v[i]@ == (Op::<Seq<u16>>::Knob {
            x,
            y,
            d,
            src_d,
            color,
        }),
{
}

/// A step shows an icon in the middle of a button.
pub open spec fn shows_icon(
    op: OpView,
    icon: Seq<char>,
    left: int,
    top: int,
    width: int,
    color: u32,
) -> bool {
    &&& op is Text
    &&& op->Text_rect == Rect::spanning(left, top, left + width, top + 26)
    &&& op->text == text::utf16(icon)
    &&& op->Text_color == color
    &&& op->font == FontRole::Icon
    &&& op->align == Align::Center
}

/// A step shows a text over the height of the bar.
pub open spec fn shows_text(
    op: OpView,
    s: Seq<char>,
    left: int,
    right: int,
    h: int,
    color: u32,
    align: Align,
) -> bool {
    &&& op is Text
    &&& op->Text_rect == Rect::spanning(left, 1, right, h)
    &&& op->text == text::utf16(s)
    &&& op->Text_color == color
    &&& op->font == FontRole::Text
    &&& op->align == align
}

/// A step fills a rectangle.
pub open spec fn fills(op: OpView, left: int, top: int, right: int, bottom: int, color: u32) -> bool {
    op == (Op::<Seq<u16>>::Fill { rect: Rect::spanning(left, top, right, bottom), color })
}

/// A step draws the outline of a rectangle with round corners.
pub open spec fn outlines(op: OpView, left: int, top: int, right: int, bottom: int, color: u32) -> bool {
    op == (Op::<Seq<u16>>::Border {
        rect: Rect::spanning(left, top, right, bottom),
        corner: 6,
        color,
    })
}

/// A step clips to a rectangle with round corners.
pub open spec fn clips(op: OpView, left: int, top: int, right: int, bottom: int) -> bool {
    op == (Op::<Seq<u16>>::Clip { rect: Rect::spanning(left, top, right, bottom), corner: 6 })
}

/// A step draws the line between two buttons.
pub open spec fn divides(op: OpView, x: int, top: int) -> bool {
    op == (Op::<Seq<u16>>::Line {
        x: x as i32,
        top: (top + 4) as i32,
        bottom: (top + 22) as i32,
        color: 0x48_48_48,
    })
}

/// The playback buttons show previous, play or pause, and next, side by side: pause while something
/// plays, play while nothing does. The button under the pointer is lit, and no other.
pub proof fn playback_buttons_show_their_icons(top: int, left: int, hover: Hover, playing: bool)
    ensures
        ({
            let v = btn_group_steps(top, left, hover, playing);
            let n = v.len() as int;
            let lit = hover == Hover::Prev || hover == Hover::Play || hover == Hover::Next;
            &&& lit ==> n == 10
            &&& !lit ==> n == 9
            &&& clips(v[0], left, top, left + 109, top + 27)
            &&& fills(v[1], left, top, left + 108, top + 26, 0x2D_2D_2D)
            &&& hover == Hover::Prev ==> fills(v[2], left, top, left + 36, top + 26, 0x3D_3D_3D)
            &&& hover == Hover::Play ==> fills(
                v[2],
                left + 36,
                top,
                left + 72,
                top + 26,
                0x3D_3D_3D,
            )
            &&& hover == Hover::Next ==> fills(
                v[2],
                left + 72,
                top,
                left + 108,
                top + 26,
                0x3D_3D_3D,
            )
            &&& v[n - 7] is Unclip
            &&& lit ==> outlines(v[n - 6], left, top, left + 108, top + 26, 0x68_68_68)
            &&& !lit ==> outlines(v[n - 6], left, top, left + 108, top + 26, 0x48_48_48)
            &&& divides(v[n - 5], left + 36, top)
            &&& divides(v[n - 4], left + 72, top)
            &&& shows_icon(v[n - 3], "\u{E892}"@, left, top, 36, 0xCC_CC_CC)
            &&& playing ==> shows_icon(v[n - 2], "\u{E769}"@, left + 36, top, 36, 0xCC_CC_CC)
            &&& !playing ==> shows_icon(v[n - 2], "\u{E768}"@, left + 36, top, 36, 0xCC_CC_CC)
            &&& shows_icon(v[n - 1], "\u{E893}"@, left + 72, top, 36, 0xCC_CC_CC)
        }),
{
}

/// The shuffle and the repeat button stand side by side. An icon is dim where its mode cannot be set,
/// accented where it is on, and plain otherwise; repeat shows whether it is for one track. The
/// button under the pointer is lit, and no other.
pub proof fn mode_buttons_show_their_modes(left: int, top: int, s: ShrGroupState)
    ensures
        ({
            let v = shr_group_steps(left, top, s);
            let n = v.len() as int;
            let lit = s.hover == Hover::Shuffle || s.hover == Hover::Repeat;
            let (sh, re) = (v[n - 2], v[n - 1]);
            let one = "\u{E8ED}"@;
            let all = "\u{E8EE}"@;
            &&& lit ==> n == 8
            &&& !lit ==> n == 7
            &&& clips(v[0], left, top, left + 57, top + 27)
            &&& fills(v[1], left, top, left + 56, top + 26, 0x2D_2D_2D)
            &&& s.hover == Hover::Shuffle ==> fills(
                v[2],
                left,
                top,
                left + 28,
                top + 26,
                0x3D_3D_3D,
            )
            &&& s.hover == Hover::Repeat ==> fills(
                v[2],
                left + 28,
                top,
                left + 56,
                top + 26,
                0x3D_3D_3D,
            )
            &&& v[n - 5] is Unclip
            &&& lit ==> outlines(v[n - 4], left, top, left + 56, top + 26, 0x68_68_68)
            &&& !lit ==> outlines(v[n - 4], left, top, left + 56, top + 26, 0x48_48_48)
            &&& divides(v[n - 3], left + 28, top)
            &&& shows_icon(sh, "\u{E8B1}"@, left, top, 28, sh->Text_color)
            &&& s.repeat_one ==> shows_icon(re, one, left + 28, top, 28, re->Text_color)
            &&& !s.repeat_one ==> shows_icon(re, all, left + 28, top, 28, re->Text_color)
            &&& !s.shuffle_enabled ==> sh->Text_color == 0x55_55_55
            &&& s.shuffle_enabled && s.shuffle_active ==> sh->Text_color == s.accent
            &&& s.shuffle_enabled && !s.shuffle_active ==> sh->Text_color == 0xCC_CC_CC
            &&& !s.repeat_enabled ==> re->Text_color == 0x55_55_55
            &&& s.repeat_enabled && s.repeat_active ==> re->Text_color == s.accent
            &&& s.repeat_enabled && !s.repeat_active ==> re->Text_color == 0xCC_CC_CC
        }),
{
}

/// The gear is lit while the pointer is on it.
pub proof fn the_gear_shows_its_icon(left: int, top: int, hovered: bool)
    ensures
        ({
            let v = gear_steps(left, top, hovered);
            &&& v.len() == 5
            &&& clips(v[0], left, top, left + 33, top + 27)
            &&& hovered ==> fills(v[1], left, top, left + 32, top + 26, 0x3D_3D_3D) && outlines(
                v[3],
                left,
                top,
                left + 32,
                top + 26,
                0x68_68_68,
            )
            &&& !hovered ==> fills(v[1], left, top, left + 32, top + 26, 0x2D_2D_2D) && outlines(
                v[3],
                left,
                top,
                left + 32,
                top + 26,
                0x48_48_48,
            )
            &&& v[2] is Unclip
            &&& shows_icon(v[4], "\u{E713}"@, left, top, 32, 0xCC_CC_CC)
        }),
{
}

/// The ground is the blurred and darkened art with the art itself on it where there is art, and two
/// plain colours where there is none.
pub proof fn the_ground_shows_the_art(w: int, h: int)
    ensures
        ({
            let v = art_steps(w, h, true);
            let rows = thumbnail::crop_rows(w, h);
            &&& v.len() == 3
            &&& v[0] is Backdrop
            &&& v[0]->src_h == rows as i32
            &&& v[0]->src_y == ((300 - rows) / 2) as i32
            &&& v[0]->radius == 12
            &&& v[1] is Shade && v[1]->alpha == 170
            &&& v[2] is Art && v[2]->Art_rect == Rect::spanning(0, 1, h, h)
        }),
        ({
            let v = art_steps(w, h, false);
            &&& v.len() == 2
            &&& fills(v[0], 0, 0, w, h, 0x1C_1C_1C)
            &&& fills(v[1], 0, 1, h, h, 0x28_28_28)
        }),
{
}

/// The text says what plays: the title first, then the artist behind a dash, each as far as it finds
/// room; that nothing plays is said exactly where there is no title.
pub proof fn the_text_says_what_plays(
    title: Seq<char>,
    artist: Seq<char>,
    x: int,
    max_x: int,
    h: int,
    title_cx: int,
    sep_cx: int,
)
    requires
        0 <= title_cx,
        0 <= sep_cx,
    ensures
        ({
            let v = media_text_steps(title, artist, x, max_x, h, title_cx, sep_cx);
            let avail = max_x - x - 16;
            let most = avail * 55 / 100;
            let space = if title_cx < most {
                title_cx
            } else {
                most
            };
            let dash = x + space + 6;
            let name = dash + sep_cx + 6;
            &&& avail <= 0 ==> v.len() == 0
            &&& avail > 0 && title.len() == 0 ==> v.len() == 1 && shows_text(
                v[0],
                "No media playing"@,
                x,
                x + avail,
                h,
                0x88_88_88,
                Align::Left,
            )
            &&& avail > 0 && title.len() > 0 ==> {
                &&& v.len() >= 1
                &&& shows_text(v[0], title, x, x + space, h, 0xF2_F2_F2, Align::Left)
                &&& v[0]->ellipsis <==> title_cx > space
                &&& artist.len() == 0 || name >= x + avail ==> v.len() == 1
                &&& artist.len() > 0 && name < x + avail ==> v.len() >= 2 && shows_text(
                    v[1],
                    "-"@,
                    dash,
                    dash + sep_cx,
                    h,
                    0x55_55_55,
                    Align::Left,
                )
                &&& artist.len() > 0 && name < x + avail <= name + 20 ==> v.len() == 2
                &&& artist.len() > 0 && name + 20 < x + avail ==> v.len() == 3 && shows_text(
                    v[2],
                    artist,
                    name,
                    x + avail,
                    h,
                    0x88_88_88,
                    Align::Left,
                ) && v[2]->ellipsis
            }
        }),
{
}

/// The seek bar shows the elapsed and the total time at the left, the track, as much of it in the
/// accent colour as the fill says, and the knob at the end of the fill.
pub proof fn the_seek_bar_shows_times_track_and_knob(
    w: int,
    h: int,
    pos: int,
    dur: int,
    fill: int,
    accent: u32,
)
    ensures
        ({
            let v = seek_steps(w, h, pos, dur, fill, accent);
            let n = v.len() as int;
            let middle = layout::seek_middle(h);
            let times = numbers::time_text(pos) + " / "@ + numbers::time_text(dur);
            &&& fill > 0 ==> n == 4
            &&& fill <= 0 ==> n == 3
            &&& shows_text(v[0], times, w - 522, w - 440, h, 0x88_88_88, Align::Right)
            &&& fills(v[1], w - 424, middle - 1, w - 64, middle + 2, 0x48_48_48)
            &&& fill > 0 ==> fills(v[2], w - 424, middle - 1, w - 424 + fill, middle + 2, accent)
            &&& v[n - 1] is Knob
            &&& v[n - 1]->Knob_x == (w - 424 + fill - 5) as i32
            &&& v[n - 1]->y == (middle - 5) as i32
            &&& v[n - 1]->d == 10 && v[n - 1]->src_d == 30
            &&& v[n - 1]->Knob_color == 0xF2_F2_F2
        }),
{
    reveal_strlit(" / ");
    assert(" / "@ =~= seq![' ', '/', ' ']);
}

/// The bar consists of these parts, one on top of the other: the ground, the playback buttons, the
/// mode buttons, the text, the seek bar where there is something to seek in, the gear, and the
/// accent line. Each shows what the state says, and stands at its place.
pub proof fn the_bar_consists_of_its_parts(
    s: BarView,
    w: int,
    h: int,
    title_cx: int,
    sep_cx: int,
    elapsed: int,
)
    ensures
        ({
            let i = s.info;
            let top = layout::btn_top(h);
            let limit = if i.duration > 0 {
                w - 538
            } else {
                w - 40
            };
            let modes = ShrGroupState {
                hover: s.hover,
                shuffle_active: i.shuffle,
                shuffle_enabled: i.shuffle_enabled,
                repeat_active: i.repeat is Some && i.repeat != Some(RepeatMode::Off),
                repeat_enabled: i.repeat_enabled,
                repeat_one: i.repeat == Some(RepeatMode::Track),
                accent: s.accent,
            };
            let pos = if s.tracker.effective_pos + elapsed < i.duration {
                s.tracker.effective_pos + elapsed
            } else {
                i.duration
            };
            let slider = if i.duration > 0 {
                seek_steps(w, h, pos, i.duration, shown_fill(s, pos), s.accent)
            } else {
                seq![]
            };
            bar_steps(s, w, h, title_cx, sep_cx, elapsed) == art_steps(w, h, s.art is Some)
                + btn_group_steps(top, h + 16, s.hover, i.playing) + shr_group_steps(
                h + 132,
                top,
                modes,
            ) + media_text_steps(i.title, i.artist, h + 208, limit, h, title_cx, sep_cx) + slider
                + gear_steps(w - 40, top, s.hover == Hover::Gear) + seq![
                (Op::Fill { rect: Rect::spanning(0, 0, w, 1), color: s.accent }),
            ]
        }),
{
}

/// The width of the fill at a position: where the pointer drags it, or as much as has been played.
pub open spec fn shown_fill(s: BarView, pos: int) -> int {
    match s.seeking {
        Some(offset) => seek::fill_of(seek::drag_fraction(offset as nat)) as int,
        None => saturated(seek::played_fill_of(pos, s.info.duration as nat)),
    }
}

/// No step of these draws a knob or a text that ends at the right.
spec fn no_slider(v: Seq<OpView>) -> bool {
    forall|i: int|
        0 <= i < v.len() ==> !(#[trigger] v[i] is Knob) && (v[i] is Text ==> v[i]->align
            != Align::Right)
}

proof fn lemma_no_slider_chain(a: Seq<OpView>, b: Seq<OpView>)
    requires
        no_slider(a),
        no_slider(b),
    ensures
        no_slider(a + b),
{
    assert forall|i: int| 0 <= i < (a + b).len() implies !(#[trigger] (a + b)[i] is Knob) && ((a
        + b)[i] is Text ==> (a + b)[i]->align != Align::Right) by {
        if i < a.len() {
            assert((a + b)[i] == a[i]);
        } else {
            assert((a + b)[i] == b[i - a.len()]);
        }
    }
}

proof fn lemma_before_the_slider(s: BarView, w: int, h: int, title_cx: int, sep_cx: int)
    ensures
        no_slider(control_steps(s, w, h)),
        no_slider(
            media_text_steps(
                s.info.title,
                s.info.artist,
                layout::text_x(h),
                layout::text_max_x(w, true),
                h,
                title_cx,
                sep_cx,
            ),
        ),
        no_slider(gear_steps(layout::gear_x(w), layout::btn_top(h), s.hover == Hover::Gear)),
{
    let top = layout::btn_top(h);
    let art = art_steps(w, h, s.art is Some);
    let buttons = btn_group_steps(top, layout::group_x(h), s.hover, s.info.playing);
    let pair = shr_group_steps(layout::shr_x(h), top, modes_shown(s.info, s.hover, s.accent));
    assert(no_slider(art));
    assert(no_slider(buttons));
    assert(no_slider(pair));
    lemma_no_slider_chain(art, buttons);
    lemma_no_slider_chain(art + buttons, pair);
}

/// A step shows times: a text that ends at the right.
pub open spec fn is_times(op: OpView) -> bool {
    op is Text && op->align == Align::Right
}

/// There is one text that ends at the right, and it is this one.
pub open spec fn only_times_are(v: Seq<OpView>, times: Seq<char>) -> bool {
    &&& exists|k: int| 0 <= k < v.len() && is_times(#[trigger] v[k])
    &&& forall|k: int|
        0 <= k < v.len() && is_times(#[trigger] v[k]) ==> v[k]->text == text::utf16(times)
}

/// There is one knob. It stands `at` pixels behind `left`, and where that is not at the very left,
/// a fill of this colour ends there.
pub open spec fn only_knob_is(v: Seq<OpView>, left: int, at: int, accent: u32) -> bool {
    &&& exists|k: int| 0 <= k < v.len() && #[trigger] v[k] is Knob
    &&& forall|k: int|
        0 <= k < v.len() && #[trigger] v[k] is Knob ==> {
            &&& v[k]->Knob_x + 5 == left + at
            &&& at > 0 ==> k > 0 && fills_from_to(v[k - 1], left, left + at, accent)
        }
}

/// A step fills a rectangle of this colour from one column to another.
pub open spec fn fills_from_to(op: OpView, left: int, right: int, color: u32) -> bool {
    op is Fill && op->Fill_rect.left == left && op->Fill_rect.right == right && op->Fill_color
        == color
}

/// The steps of a seek bar stand among others at a place, and nothing else draws a knob or a text
/// that ends at the right.
spec fn slider_at(v: Seq<OpView>, slider: Seq<OpView>, k: int) -> bool {
    &&& 0 <= k && k + slider.len() <= v.len()
    &&& forall|i: int| k <= i < k + slider.len() ==> #[trigger] v[i] == slider[i - k]
    &&& forall|i: int|
        0 <= i < v.len() && (i < k || i >= k + slider.len()) ==> !(#[trigger] v[i] is Knob)
            && !is_times(v[i])
}

proof fn lemma_slider_between(front: Seq<OpView>, slider: Seq<OpView>, back: Seq<OpView>)
    requires
        no_slider(front),
        no_slider(back),
    ensures
        slider_at(front + slider + back, slider, front.len() as int),
{
    let v = front + slider + back;
    let k = front.len() as int;
    assert forall|i: int| 0 <= i < v.len() && (i < k || i >= k + slider.len()) implies !(
    #[trigger] v[i] is Knob) && !is_times(v[i]) by {
        if i < k {
            assert(v[i] == front[i]);
        } else {
            assert(v[i] == back[i - k - slider.len()]);
        }
    }
}

proof fn lemma_times_of_slider(v: Seq<OpView>, slider: Seq<OpView>, k: int, times: Seq<char>)
    requires
        slider_at(v, slider, k),
        slider.len() >= 1,
        is_times(slider[0]),
        slider[0]->text == text::utf16(times),
        forall|i: int| 1 <= i < slider.len() ==> !(#[trigger] slider[i] is Text),
    ensures
        only_times_are(v, times),
{
    assert(is_times(v[k]));
    assert forall|i: int| 0 <= i < v.len() && is_times(#[trigger] v[i]) implies v[i]->text
        == text::utf16(times) by {
        assert(v[i] == slider[i - k]);
    }
}

proof fn lemma_knob_of_slider(
    v: Seq<OpView>,
    slider: Seq<OpView>,
    k: int,
    left: int,
    at: int,
    accent: u32,
)
    requires
        slider_at(v, slider, k),
        slider.len() >= 2,
        slider[slider.len() - 1] is Knob,
        slider[slider.len() - 1]->Knob_x + 5 == left + at,
        at > 0 ==> fills_from_to(slider[slider.len() - 2], left, left + at, accent),
        forall|i: int| 0 <= i < slider.len() - 1 ==> !(#[trigger] slider[i] is Knob),
    ensures
        only_knob_is(v, left, at, accent),
{
    let last = k + slider.len() - 1;
    assert(v[last] is Knob);
    assert forall|i: int| 0 <= i < v.len() && #[trigger] v[i] is Knob implies {
        &&& v[i]->Knob_x + 5 == left + at
        &&& at > 0 ==> i > 0 && fills_from_to(v[i - 1], left, left + at, accent)
    } by {
        assert(v[i] == slider[i - k]);
        assert(v[last - 1] == slider[slider.len() - 2]);
    }
}

/// Where the seek bar stands among the steps of the bar.
proof fn lemma_slider_place(
    s: BarView,
    w: int,
    h: int,
    title_cx: int,
    sep_cx: int,
    elapsed: int,
) -> (k: int)
    requires
        s.info.duration > 0,
    ensures
        ({
            let (pos, fill) = seek_shown(s, elapsed)->0;
            slider_at(
                bar_steps(s, w, h, title_cx, sep_cx, elapsed),
                seek_steps(w, h, pos, s.info.duration, fill, s.accent),
                k,
            )
        }),
{
    let (pos, fill) = seek_shown(s, elapsed)->0;
    let slider = seek_steps(w, h, pos, s.info.duration, fill, s.accent);
    let words = media_text_steps(
        s.info.title,
        s.info.artist,
        layout::text_x(h),
        layout::text_max_x(w, true),
        h,
        title_cx,
        sep_cx,
    );
    let gear = gear_steps(layout::gear_x(w), layout::btn_top(h), s.hover == Hover::Gear);
    let line = seq![
        Op::<Seq<u16>>::Fill {
            rect: Rect::spanning(0, 0, w, ACCENT_H as int),
            color: s.accent,
        },
    ];
    let front = control_steps(s, w, h) + words;
    lemma_before_the_slider(s, w, h, title_cx, sep_cx);
    lemma_no_slider_chain(control_steps(s, w, h), words);
    lemma_no_slider_chain(gear, line);
    lemma_slider_between(front, slider, gear + line);
    lemma_chain(front + slider, gear, line);
    front.len() as int
}

/// The times that are painted are those of the position, playing or paused: of the place that the
/// bar counts from and the time that has passed since, none while it is paused, but no later than
/// the end. Every text that ends at the right shows them, and there is one.
pub proof fn painted_times_are_those_of_the_position(
    s: BarView,
    w: int,
    h: int,
    title_cx: int,
    sep_cx: int,
    nanos: int,
)
    requires
        s.info.duration > 0,
        0 <= nanos < 0x8000_0000_0000_0000,
    ensures
        ({
            let elapsed = media::elapsed_ticks(s.info.playing, nanos);
            let v = bar_steps(s, w, h, title_cx, sep_cx, elapsed);
            let passed = if s.info.playing {
                nanos / 100
            } else {
                0
            };
            let now = s.tracker.effective_pos + passed;
            let pos = if now < s.info.duration {
                now
            } else {
                s.info.duration
            };
            only_times_are(
                v,
                numbers::time_text(pos) + " / "@ + numbers::time_text(s.info.duration),
            )
        }),
{
    let elapsed = media::elapsed_ticks(s.info.playing, nanos);
    let (pos, fill) = seek_shown(s, elapsed)->0;
    let slider = seek_steps(w, h, pos, s.info.duration, fill, s.accent);
    let k = lemma_slider_place(s, w, h, title_cx, sep_cx, elapsed);
    the_seek_bar_shows_times_track_and_knob(w, h, pos, s.info.duration, fill, s.accent);
    lemma_times_of_slider(
        bar_steps(s, w, h, title_cx, sep_cx, elapsed),
        slider,
        k,
        numbers::time_text(pos) + " / "@ + numbers::time_text(s.info.duration),
    );
}

/// The knob stands at the share of the track that has been played, playing or paused, within a
/// pixel: at 360 times the position divided by the length. While the user drags it stands under the
/// pointer instead. There is one knob; and where the fill is not empty, it ends where the knob
/// stands.
pub proof fn the_knob_stands_at_the_position(
    s: BarView,
    w: int,
    h: int,
    title_cx: int,
    sep_cx: int,
    nanos: int,
) -> (at: int)
    requires
        s.well_formed(),
        0 < s.info.duration <= i64::MAX,
        0 <= s.tracker.effective_pos,
        0 <= nanos < 0x8000_0000_0000_0000,
        0 <= w <= i32::MAX,
    ensures
        ({
            let elapsed = media::elapsed_ticks(s.info.playing, nanos);
            let v = bar_steps(s, w, h, title_cx, sep_cx, elapsed);
            let dur = s.info.duration;
            let passed = if s.info.playing {
                nanos / 100
            } else {
                0
            };
            let now = s.tracker.effective_pos + passed;
            let pos = if now < dur {
                now
            } else {
                dur
            };
            &&& only_knob_is(v, w - 424, at, s.accent)
            &&& 0 <= at <= 360
            &&& s.seeking is None ==> at * dur < 360 * pos + dur && 360 * pos < (at + 2) * dur
            &&& s.seeking matches Some(offset) ==> offset - 1 <= at <= offset
        }),
{
    let elapsed = media::elapsed_ticks(s.info.playing, nanos);
    let (pos, fill) = seek_shown(s, elapsed)->0;
    let slider = seek_steps(w, h, pos, s.info.duration, fill, s.accent);
    let k = lemma_slider_place(s, w, h, title_cx, sep_cx, elapsed);
    fill_stays_on_the_track(s, elapsed);
    match s.seeking {
        Some(offset) => {
            seek::knob_stays_under_the_pointer(offset as nat);
        },
        None => {
            seek::fill_shows_the_played_share(pos as nat, s.info.duration as nat);
        },
    }
    the_seek_bar_shows_times_track_and_knob(w, h, pos, s.info.duration, fill, s.accent);
    lemma_knob_of_slider(
        bar_steps(s, w, h, title_cx, sep_cx, elapsed),
        slider,
        k,
        w - 424,
        fill,
        s.accent,
    );
    fill
}

/// Nothing of a seek bar is painted where there is nothing to seek in: no times and no knob.
pub proof fn nothing_to_seek_in_paints_no_seek_bar(
    s: BarView,
    w: int,
    h: int,
    title_cx: int,
    sep_cx: int,
    elapsed: int,
    k: int,
)
    requires
        s.info.duration <= 0,
        0 <= k < bar_steps(s, w, h, title_cx, sep_cx, elapsed).len(),
    ensures
        ({
            let op = bar_steps(s, w, h, title_cx, sep_cx, elapsed)[k];
            !(op is Knob) && !is_times(op)
        }),
{
    let words = media_text_steps(
        s.info.title,
        s.info.artist,
        layout::text_x(h),
        layout::text_max_x(w, false),
        h,
        title_cx,
        sep_cx,
    );
    let gear = gear_steps(layout::gear_x(w), layout::btn_top(h), s.hover == Hover::Gear);
    let line = seq![
        Op::<Seq<u16>>::Fill {
            rect: Rect::spanning(0, 0, w, ACCENT_H as int),
            color: s.accent,
        },
    ];
    let controls = control_steps(s, w, h);
    lemma_before_the_slider(s, w, h, title_cx, sep_cx);
    assert(no_slider(words));
    lemma_no_slider_chain(controls, words);
    lemma_no_slider_chain(controls + words, gear);
    lemma_no_slider_chain(controls + words + gear, line);
    assert(controls + words + Seq::<OpView>::empty() =~= controls + words);
}

/// Pausing changes the icon of the play button and nothing else: with the same position to show, the
/// steps of a bar that plays and of one that is paused differ in that one step.
pub proof fn pausing_changes_only_the_icon(
    s: BarView,
    playing: bool,
    w: int,
    h: int,
    title_cx: int,
    sep_cx: int,
    elapsed: int,
) -> (k: int)
    ensures
        ({
            let t = BarView { info: MediaView { playing, ..s.info }, ..s };
            let a = bar_steps(s, w, h, title_cx, sep_cx, elapsed);
            let b = bar_steps(t, w, h, title_cx, sep_cx, elapsed);
            &&& a.len() == b.len()
            &&& 0 <= k < a.len()
            &&& forall|i: int| 0 <= i < a.len() && i != k ==> #[trigger] a[i] == b[i]
            &&& a[k] is Text && b[k] is Text && a[k]->font == FontRole::Icon && a[k]->Text_rect
                == b[k]->Text_rect
        }),
{
    let t = BarView { info: MediaView { playing, ..s.info }, ..s };
    let art = art_steps(w, h, s.art is Some);
    let top = layout::btn_top(h);
    let mine = btn_group_steps(top, layout::group_x(h), s.hover, s.info.playing);
    let other = btn_group_steps(top, layout::group_x(h), s.hover, playing);
    let j = mine.len() - 2;
    let k = art.len() + j;
    assert(mine.len() == other.len());
    assert forall|i: int| 0 <= i < mine.len() && i != j implies #[trigger] mine[i] == other[i] by {}
    let pair = shr_group_steps(layout::shr_x(h), top, modes_shown(s.info, s.hover, s.accent));
    assert(control_steps(s, w, h) == art + mine + pair);
    assert(control_steps(t, w, h) == art + other + pair);
    let (a, b) = (
        bar_steps(s, w, h, title_cx, sep_cx, elapsed),
        bar_steps(t, w, h, title_cx, sep_cx, elapsed),
    );
    let rest = with_rest(Seq::empty(), s, w, h, title_cx, sep_cx, elapsed);
    lemma_rest_is_behind(control_steps(s, w, h), s, w, h, title_cx, sep_cx, elapsed);
    lemma_rest_is_behind(control_steps(t, w, h), t, w, h, title_cx, sep_cx, elapsed);
    assert(with_rest(Seq::empty(), t, w, h, title_cx, sep_cx, elapsed) == rest);
    assert forall|i: int| 0 <= i < a.len() && i != k implies #[trigger] a[i] == b[i] by {
        let n = (art + mine + pair).len();
        if i < art.len() {
            assert((art + mine + pair + rest)[i] == art[i]);
            assert((art + other + pair + rest)[i] == art[i]);
        } else if i < art.len() + mine.len() {
            assert((art + mine + pair + rest)[i] == mine[i - art.len()]);
            assert((art + other + pair + rest)[i] == other[i - art.len()]);
        } else if i < n {
            assert((art + mine + pair + rest)[i] == pair[i - art.len() - mine.len()]);
            assert((art + other + pair + rest)[i] == pair[i - art.len() - mine.len()]);
        } else {
            assert((art + mine + pair + rest)[i] == rest[i - n]);
            assert((art + other + pair + rest)[i] == rest[i - n]);
        }
    }
    assert((art + mine + pair + rest)[k] == mine[j]);
    assert((art + other + pair + rest)[k] == other[j]);
    k
}

proof fn lemma_rest_is_behind(
    before: Seq<OpView>,
    s: BarView,
    w: int,
    h: int,
    title_cx: int,
    sep_cx: int,
    elapsed: int,
)
    ensures
        with_rest(before, s, w, h, title_cx, sep_cx, elapsed) == before + with_rest(
            Seq::empty(),
            s,
            w,
            h,
            title_cx,
            sep_cx,
            elapsed,
        ),
{
    let shown = seek_shown(s, elapsed);
    let words = media_text_steps(
        s.info.title,
        s.info.artist,
        layout::text_x(h),
        layout::text_max_x(w, shown is Some),
        h,
        title_cx,
        sep_cx,
    );
    let slider = match shown {
        Some((pos, fill)) => seek_steps(w, h, pos, s.info.duration, fill, s.accent),
        None => seq![],
    };
    let gear = gear_steps(layout::gear_x(w), layout::btn_top(h), s.hover == Hover::Gear);
    let line = seq![
        Op::<Seq<u16>>::Fill {
            rect: Rect::spanning(0, 0, w, ACCENT_H as int),
            color: s.accent,
        },
    ];
    let empty = Seq::<OpView>::empty();
    assert(empty + words =~= words);
    lemma_chain(before, words, slider);
    lemma_chain(before, words + slider, gear);
    lemma_chain(before, words + slider + gear, line);
}

/// The accent colour is the system's, its channels from the highest byte down blue, green and red.
pub proof fn the_accent_is_the_systems(r: u8, g: u8, b: u8)
    ensures
        accent_of(Some((r, g, b))) % 256 == r,
        (accent_of(Some((r, g, b))) / 256) % 256 == g,
        accent_of(Some((r, g, b))) / 65536 == b,
        accent_of(None) == 0xD4_78_00,
{
}

/// A coordinate beyond the range is the nearest one in it.
pub proof fn coordinates_are_kept_in_range(v: int)
    ensures
        layout::fits(v) ==> saturated(v) == v,
        v > i32::MAX ==> saturated(v) == i32::MAX,
        v < i32::MIN ==> saturated(v) == i32::MIN,
{
}

} // verus!
