//! The settings window: its place, its controls, and what it does on each message.
use crate::numbers;
use crate::settings::Settings;
use crate::text;
use vstd::prelude::*;

verus! {

pub const WM_CREATE: u32 = 0x0001;

pub const WM_DESTROY: u32 = 0x0002;

pub const WM_CLOSE: u32 = 0x0010;

pub const WM_COMMAND: u32 = 0x0111;

/// The number of the OK button.
pub const IDOK: i32 = 1;

/// The number of the cancel button.
pub const IDCANCEL: i32 = 2;

pub const IDC_BARH_EDIT: i32 = 101;

pub const IDC_FONT_COMBO: i32 = 102;

pub const IDC_FONTSIZE_EDIT: i32 = 103;

/// The width of the window.
pub const WINDOW_W: i32 = 376;

/// The height of the window.
pub const WINDOW_H: i32 = 204;

/// The style by which the tab key reaches a control.
pub const TABSTOP: u32 = 0x1_0000;

/// The extended style of a sunken edge.
pub const CLIENT_EDGE: u32 = 0x200;

/// The style of a combo box that offers a list and nothing else.
pub const DROP_DOWN_LIST: u32 = 3;

/// The style of the button that the enter key presses.
pub const DEFAULT_BUTTON: u32 = 1;

/// The right edge of the controls.
pub const RIGHT_EDGE: i32 = 336;

/// A control of the window.
#[derive(Clone, Copy)]
pub struct Control {
    pub ex: u32,
    pub class: &'static str,
    pub text: &'static str,
    pub style: u32,
    pub x: i32,
    pub y: i32,
    pub w: i32,
    pub h: i32,
    pub id: i32,
}

/// A control, as mathematics sees it.
pub struct ControlView {
    pub ex: u32,
    pub class: Seq<char>,
    pub text: Seq<char>,
    pub style: u32,
    pub x: int,
    pub y: int,
    pub w: int,
    pub h: int,
    pub id: int,
}

impl View for Control {
    type V = ControlView;

    open spec fn view(&self) -> ControlView {
        ControlView {
            ex: self.ex,
            class: self.class@,
            text: self.text@,
            style: self.style,
            x: self.x as int,
            y: self.y as int,
            w: self.w as int,
            h: self.h as int,
            id: self.id as int,
        }
    }
}

/// A line of text.
pub open spec fn label(text: Seq<char>, x: int, y: int, w: int) -> ControlView {
    ControlView { ex: 0, class: "STATIC"@, text, style: 0, x, y, w, h: 22, id: 0 }
}

/// A field for a number.
pub open spec fn field(x: int, y: int, id: int) -> ControlView {
    ControlView {
        ex: CLIENT_EDGE,
        class: "EDIT"@,
        text: ""@,
        style: TABSTOP,
        x,
        y,
        w: 60,
        h: 22,
        id,
    }
}

/// A button.
pub open spec fn button(text: Seq<char>, style: u32, x: int, id: int) -> ControlView {
    ControlView { ex: 0, class: "BUTTON"@, text, style, x, y: 129, w: 72, h: 26, id }
}

/// The controls, in the order in which they are created: the labels; the fields of the bar's height
/// and the font's size; the list of fonts; and the buttons.
pub open spec fn all_controls() -> Seq<ControlView> {
    seq![
        label("バーの高さ"@, 20, 22, 112),
        label("px"@, 208, 22, 28),
        label("フォント"@, 20, 58, 112),
        label("フォントサイズ"@, 20, 94, 112),
        label("pt"@, 208, 94, 28),
        field(140, 20, IDC_BARH_EDIT as int),
        field(140, 92, IDC_FONTSIZE_EDIT as int),
        ControlView {
            ex: 0,
            class: "COMBOBOX"@,
            text: ""@,
            style: 0x1_0003,
            x: 140,
            y: 55,
            w: 196,
            h: 200,
            id: IDC_FONT_COMBO as int,
        },
        button("OK"@, 0x1_0001, 264, IDOK as int),
        button("キャンセル"@, TABSTOP, 184, IDCANCEL as int),
    ]
}

fn make_label(text: &'static str, x: i32, y: i32, w: i32) -> (r: Control)
    ensures
        r@ == label(text@, x as int, y as int, w as int),
{
    Control { ex: 0, class: "STATIC", text, style: 0, x, y, w, h: 22, id: 0 }
}

fn make_field(x: i32, y: i32, id: i32) -> (r: Control)
    ensures
        r@ == field(x as int, y as int, id as int),
{
    Control { ex: CLIENT_EDGE, class: "EDIT", text: "", style: TABSTOP, x, y, w: 60, h: 22, id }
}

fn make_button(text: &'static str, style: u32, x: i32, id: i32) -> (r: Control)
    ensures
        r@ == button(text@, style, x as int, id as int),
{
    Control { ex: 0, class: "BUTTON", text, style, x, y: 129, w: 72, h: 26, id }
}

/// Lists the controls of the settings window.
pub fn dialog_controls() -> (r: Vec<Control>)
    ensures
        r@.map_values(|c: Control| c@) == all_controls(),
{
    let cx: i32 = 140;
    let cw: i32 = RIGHT_EDGE - cx;
    let bw: i32 = 72;
    let mut out: Vec<Control> = Vec::new();
    out.push(make_label("バーの高さ", 20, 22, 112));
    out.push(make_label("px", cx + 68, 22, 28));
    out.push(make_label("フォント", 20, 58, 112));
    out.push(make_label("フォントサイズ", 20, 94, 112));
    out.push(make_label("pt", cx + 68, 94, 28));
    out.push(make_field(cx, 20, IDC_BARH_EDIT));
    out.push(make_field(cx, 92, IDC_FONTSIZE_EDIT));
    out.push(
        Control {
            ex: 0,
            class: "COMBOBOX",
            text: "",
            style: DROP_DOWN_LIST + TABSTOP,
            x: cx,
            y: 55,
            w: cw,
            h: 200,
            id: IDC_FONT_COMBO,
        },
    );
    out.push(make_button("OK", TABSTOP + DEFAULT_BUTTON, RIGHT_EDGE - bw, IDOK));
    out.push(make_button("キャンセル", TABSTOP, RIGHT_EDGE - bw * 2 - 8, IDCANCEL));
    assert(out@.map_values(|c: Control| c@) =~= all_controls());
    out
}

/// What the fields show when the window opens, as zero-terminated UTF-16: the bar's height and the
/// font's size.
pub fn initial_texts(s: &Settings) -> (r: (Vec<u16>, Vec<u16>))
    ensures
        r.0@ == text::utf16(numbers::signed_decimal(s@.bar_h)).push(0),
        r.1@ == text::utf16(numbers::signed_decimal(s@.font_size)).push(0),
{
    let height: String = numbers::to_decimal(s.bar_h);
    let size: String = numbers::to_decimal(s.font_size);
    (text::w16z(height.as_str()), text::w16z(size.as_str()))
}

/// The window's place on a screen of `sw` by `sh` pixels: in the middle.
pub fn window_position(sw: i32, sh: i32) -> (r: (i32, i32))
    requires
        i32::MIN + WINDOW_W <= sw,
        i32::MIN + WINDOW_H <= sh,
    ensures
        r.0 == numbers::trunc_div(sw - WINDOW_W, 2),
        r.1 == numbers::trunc_div(sh - WINDOW_H, 2),
{
    ((sw - WINDOW_W) / 2, (sh - WINDOW_H) / 2)
}

/// What asking for the settings window does.
#[derive(Clone, Copy, PartialEq, Eq, Structural, Debug)]
pub enum OpenStep {
    /// Bring the open window to the front.
    BringToFront,
    /// Create the window.
    Create,
}

/// The step that asking for the window takes.
pub open spec fn open_step(open: bool) -> OpenStep {
    if open {
        OpenStep::BringToFront
    } else {
        OpenStep::Create
    }
}

/// Decides what asking for the window does, by whether it is open.
pub fn open_settings(open: bool) -> (r: OpenStep)
    ensures
        r == open_step(open),
{
    if open {
        OpenStep::BringToFront
    } else {
        OpenStep::Create
    }
}

/// What the settings window does.
#[derive(Clone, Copy, PartialEq, Eq, Structural, Debug)]
pub enum DialogAction {
    /// Create the controls and fill them.
    Fill,
    /// Read the controls, store and apply the settings, and close the window.
    Confirm,
    /// Close the window.
    Close,
    /// Forget the window.
    Forget,
    Nothing,
    /// Leave the message to the system.
    Default,
}

/// The action on a message. A command carries the number of its control in the low 16 bits of its
/// parameter; before the window has its context, commands are left to the system.
pub open spec fn dialog_action(msg: u32, wp: int, has_context: bool) -> DialogAction {
    if msg == WM_CREATE {
        DialogAction::Fill
    } else if msg == WM_COMMAND {
        if !has_context {
            DialogAction::Default
        } else if wp % 0x1_0000 == IDOK {
            DialogAction::Confirm
        } else if wp % 0x1_0000 == IDCANCEL {
            DialogAction::Close
        } else {
            DialogAction::Nothing
        }
    } else if msg == WM_CLOSE {
        DialogAction::Close
    } else if msg == WM_DESTROY {
        DialogAction::Forget
    } else {
        DialogAction::Default
    }
}

/// Finds the action on a message.
pub fn read_dialog_message(msg: u32, wp: u64, has_context: bool) -> (r: DialogAction)
    ensures
        r == dialog_action(msg, wp as int, has_context),
{
    if msg == WM_CREATE {
        DialogAction::Fill
    } else if msg == WM_COMMAND {
        let id: u64 = wp % 0x1_0000;
        if !has_context {
            DialogAction::Default
        } else if id == 1 {
            DialogAction::Confirm
        } else if id == 2 {
            DialogAction::Close
        } else {
            DialogAction::Nothing
        }
    } else if msg == WM_CLOSE {
        DialogAction::Close
    } else if msg == WM_DESTROY {
        DialogAction::Forget
    } else {
        DialogAction::Default
    }
}

/// The rows that a control takes; an open list of fonts lies above the others, so the combo box
/// counts with its closed height.
pub open spec fn closed_height(c: ControlView) -> int {
    if c.id == IDC_FONT_COMBO {
        22
    } else {
        c.h
    }
}

/// No two controls overlap, and none reaches beyond the right edge of the controls.
pub proof fn controls_stand_apart(i: int, j: int)
    requires
        0 <= i < j < all_controls().len(),
    ensures
        ({
            let (a, b) = (all_controls()[i], all_controls()[j]);
            &&& a.x + a.w <= b.x || b.x + b.w <= a.x || a.y + closed_height(a) <= b.y || b.y
                + closed_height(b) <= a.y
            &&& 0 < a.x && a.x + a.w <= RIGHT_EDGE
            &&& 0 < b.x && b.x + b.w <= RIGHT_EDGE
        }),
{
}

/// Each control that the window reads has a number of its own.
pub proof fn control_numbers_differ(i: int, j: int)
    requires
        0 <= i < j < all_controls().len(),
        all_controls()[i].id != 0,
    ensures
        all_controls()[i].id != all_controls()[j].id,
{
}

/// Something that happens to the settings window.
pub enum WindowEvent {
    /// It is asked for; creating it, where that is the step, succeeds or not.
    Asked { created: bool },
    /// A window that is open is destroyed.
    Destroyed,
}

/// The number of settings windows after an event. Whether one is open is whether there are any.
pub open spec fn windows_after(count: int, event: WindowEvent) -> int {
    match event {
        WindowEvent::Asked { created } => match open_step(count > 0) {
            OpenStep::Create => if created {
                count + 1
            } else {
                count
            },
            OpenStep::BringToFront => count,
        },
        WindowEvent::Destroyed => if count > 0 {
            count - 1
        } else {
            count
        },
    }
}

/// Whether a settings window is open after an event.
pub open spec fn open_after(open: bool, event: WindowEvent) -> bool {
    match event {
        WindowEvent::Asked { created } => open || created,
        WindowEvent::Destroyed => false,
    }
}

/// The number of settings windows after events, one after the other, where there was none at first.
pub open spec fn windows_open(events: Seq<WindowEvent>) -> int
    decreases events.len(),
{
    if events.len() == 0 {
        0
    } else {
        windows_after(windows_open(events.drop_last()), events.last())
    }
}

/// At most one settings window is ever open. The next event opens or closes it as [`open_after`]
/// says.
pub proof fn one_settings_window_at_most(events: Seq<WindowEvent>, next: WindowEvent)
    ensures
        0 <= windows_open(events) <= 1,
        windows_after(windows_open(events), next) == 1 <==> open_after(
            windows_open(events) == 1,
            next,
        ),
    decreases events.len(),
{
    if events.len() > 0 {
        one_settings_window_at_most(events.drop_last(), events.last());
    }
}

/// Each control is seen as it is.
pub proof fn controls_are_seen_as_they_are(c: Control)
    ensures
        c@.ex == c.ex,
        c@.class == c.class@,
        c@.text == c.text@,
        c@.style == c.style,
        c@.x == c.x,
        c@.y == c.y,
        c@.w == c.w,
        c@.h == c.h,
        c@.id == c.id,
{
}

/// Pressing OK confirms, pressing cancel or closing the window closes it, whatever else the system
/// says of the press; no other command does anything.
pub proof fn buttons_of_the_window_do_what_they_say(high: int, id: int)
    requires
        0 <= id < 0x1_0000,
    ensures
        ({
            let wp = high * 0x1_0000 + id;
            &&& dialog_action(0x0111, wp, true) == DialogAction::Confirm <==> id == 1
            &&& dialog_action(0x0111, wp, true) == DialogAction::Close <==> id == 2
            &&& id != 1 && id != 2 ==> dialog_action(0x0111, wp, true) == DialogAction::Nothing
            &&& dialog_action(0x0111, wp, false) == DialogAction::Default
        }),
        forall|wp: int, context: bool|
            #![trigger dialog_action(0x0010, wp, context)]
            dialog_action(0x0010, wp, context) == DialogAction::Close,
        forall|wp: int, context: bool|
            #![trigger dialog_action(0x0001, wp, context)]
            dialog_action(0x0001, wp, context) == DialogAction::Fill,
        forall|wp: int, context: bool|
            #![trigger dialog_action(0x0002, wp, context)]
            dialog_action(0x0002, wp, context) == DialogAction::Forget,
        forall|msg: u32, wp: int, context: bool|
            msg != 1 && msg != 2 && msg != 0x10 && msg != 0x111 ==> #[trigger] dialog_action(
                msg,
                wp,
                context,
            ) == DialogAction::Default,
{
}

/// A control stands at a place, with a size.
pub open spec fn stands(c: ControlView, x: int, y: int, w: int, h: int) -> bool {
    c.x == x && c.y == y && c.w == w && c.h == h
}

/// The window holds five labels, two fields for numbers, the list of fonts and two buttons, each in
/// its place. What is typed, chosen or pressed is known by its number, and can be reached with the
/// tab key; a label has none. OK is the default button.
pub proof fn the_window_holds_its_controls()
    ensures
        ({
            let v = all_controls();
            &&& v.len() == 10
            &&& stands(v[0], 20, 22, 112, 22) && v[0].text == "バーの高さ"@
            &&& stands(v[1], 208, 22, 28, 22) && v[1].text == "px"@
            &&& stands(v[2], 20, 58, 112, 22) && v[2].text == "フォント"@
            &&& stands(v[3], 20, 94, 112, 22) && v[3].text == "フォントサイズ"@
            &&& stands(v[4], 208, 94, 28, 22) && v[4].text == "pt"@
            &&& stands(v[5], 140, 20, 60, 22) && v[5].id == 101
            &&& stands(v[6], 140, 92, 60, 22) && v[6].id == 103
            &&& stands(v[7], 140, 55, 196, 200) && v[7].id == 102
            &&& stands(v[8], 264, 129, 72, 26) && v[8].text == "OK"@ && v[8].id == 1
            &&& stands(v[9], 184, 129, 72, 26) && v[9].text == "キャンセル"@ && v[9].id == 2
            &&& v[7].class == "COMBOBOX"@ && v[7].text == ""@ && v[7].ex == 0
            &&& v[7].style == 0x1_0003 && v[8].style == 0x1_0001 && v[9].style == 0x1_0000
        }),
        forall|i: int|
            #![trigger all_controls()[i]]
            0 <= i < 5 ==> {
                let c = all_controls()[i];
                c.class == "STATIC"@ && c.style == 0 && c.ex == 0 && c.id == 0
            },
        forall|i: int|
            #![trigger all_controls()[i]]
            5 <= i < 7 ==> {
                let c = all_controls()[i];
                c.class == "EDIT"@ && c.style == 0x1_0000 && c.ex == 0x200 && c.text == ""@
            },
        forall|i: int|
            #![trigger all_controls()[i]]
            8 <= i < 10 ==> {
                let c = all_controls()[i];
                c.class == "BUTTON"@ && c.ex == 0
            },
{
}

} // verus!
