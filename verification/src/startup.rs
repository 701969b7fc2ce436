//! Starting with the system, and the icon in the notification area.
use crate::settings;
use crate::settings::RegValue;
use crate::text;
use vstd::prelude::*;

verus! {

/// The units of the icon's tip, the terminating zero among them.
pub const TIP_UNITS: usize = 128;

/// A path in quotation marks, as a command line.
pub open spec fn quoted(path: Seq<char>) -> Seq<char> {
    seq!['"'] + path + seq!['"']
}

/// The registry value that makes the system start the program at `exe`.
pub fn startup_value(exe: &str) -> (r: RegValue)
    ensures
        r@ == (settings::REG_SZ as int, settings::string_bytes(quoted(exe@))),
{
    let mut line: String = String::new();
    line.push('"');
    line.append(exe);
    line.push('"');
    assert(line@ =~= quoted(exe@));
    settings::string_value(line.as_str())
}

/// What the bar does about starting with the system.
#[derive(Clone, Copy, PartialEq, Eq, Structural, Debug)]
pub enum StartupChange {
    Register,
    Unregister,
    Keep,
}

/// The change at launch: the first launch, which finds no stored settings, registers the bar; later
/// ones leave the user's choice alone.
pub open spec fn launch_change(settings_stored: bool) -> StartupChange {
    if settings_stored {
        StartupChange::Keep
    } else {
        StartupChange::Register
    }
}

/// The change when the user toggles starting with the system.
pub open spec fn toggle_change(registered: bool) -> StartupChange {
    if registered {
        StartupChange::Unregister
    } else {
        StartupChange::Register
    }
}

/// Decides what changes at launch.
pub fn at_launch(settings_stored: bool) -> (r: StartupChange)
    ensures
        r == launch_change(settings_stored),
{
    if settings_stored {
        StartupChange::Keep
    } else {
        StartupChange::Register
    }
}

/// Decides what changes when the user toggles starting with the system.
pub fn toggled(registered: bool) -> (r: StartupChange)
    ensures
        r == toggle_change(registered),
{
    if registered {
        StartupChange::Unregister
    } else {
        StartupChange::Register
    }
}

/// A text in a field of fixed size: as much of it as leaves room for a zero, then zeros.
pub open spec fn tip_field(s: Seq<char>) -> Seq<u16> {
    let u = text::utf16(s);
    Seq::new(
        TIP_UNITS as nat,
        |i: int|
            if i < u.len() && i < TIP_UNITS - 1 {
                u[i]
            } else {
                0
            },
    )
}

/// Fills the field of the icon's tip.
pub fn tray_tip(s: &str) -> (r: [u16; 128])
    ensures
        r@ == tip_field(s@),
{
    let u: Vec<u16> = text::w16(s);
    let mut tip: [u16; 128] = [0; 128];
    let mut i: usize = 0;
    while i < u.len() && i < TIP_UNITS - 1
        invariant
            i <= u@.len(),
            i <= TIP_UNITS - 1,
            u@ == text::utf16(s@),
            tip@.len() == 128,
            forall|k: int|
                0 <= k < 128 ==> #[trigger] tip@[k] == if k < i {
                    u@[k]
                } else {
                    0
                },
        decreases u@.len() - i,
    {
        tip[i] = u[i];
        i = i + 1;
    }
    assert(tip@ =~= tip_field(s@));
    tip
}

/// Whether the bar is registered after a change.
pub open spec fn registered_after(change: StartupChange, before: bool) -> bool {
    match change {
        StartupChange::Register => true,
        StartupChange::Unregister => false,
        StartupChange::Keep => before,
    }
}

/// Running the bar once registers it.
pub proof fn first_launch_registers(before: bool)
    ensures
        registered_after(launch_change(false), before),
{
}

/// Later launches leave the user's choice alone.
pub proof fn later_launches_keep_the_choice(before: bool)
    ensures
        registered_after(launch_change(true), before) == before,
{
}

/// Toggling changes whether the bar is registered, and toggling twice restores it.
pub proof fn toggling_twice_restores(before: bool)
    ensures
        registered_after(toggle_change(before), before) == !before,
        registered_after(toggle_change(!before), !before) == before,
{
}

/// The command line is the whole path between quotation marks.
pub proof fn the_whole_path_is_quoted(path: Seq<char>)
    ensures
        quoted(path).len() == path.len() + 2,
        quoted(path).first() == '"',
        quoted(path).last() == '"',
        quoted(path).subrange(1, path.len() + 1int) == path,
{
    assert(quoted(path).subrange(1, path.len() + 1int) =~= path);
}

/// The tip shows as much of its text as the field has room for, and always ends with a zero.
pub proof fn the_tip_shows_its_text(s: Seq<char>, i: int)
    requires
        0 <= i < 128,
    ensures
        tip_field(s).len() == 128,
        i < 127 && i < text::utf16(s).len() ==> tip_field(s)[i] == text::utf16(s)[i],
        i >= text::utf16(s).len() ==> tip_field(s)[i] == 0,
        tip_field(s)[127] == 0,
{
}

} // verus!
