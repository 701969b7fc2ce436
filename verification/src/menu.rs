//! The context menu: what it shows, and what choosing an entry does.
use crate::monitors;
use crate::monitors::MonitorInfo;
use crate::numbers;
use crate::settings::{Settings, SettingsView};
use crate::text;
use vstd::prelude::*;

verus! {

/// The number of the entry that toggles starting with the system.
pub const ID_STARTUP: usize = 1;

/// The number of the entry that ends the bar.
pub const ID_EXIT: usize = 2;

/// The number of the entry that opens the settings window.
pub const ID_SETTINGS: usize = 3;

/// The number of the entry of the first display; the others follow.
pub const ID_DISPLAY: usize = 100;

/// An entry that can be chosen. Its label is zero-terminated UTF-16.
pub struct MenuEntry {
    pub id: usize,
    pub label: Vec<u16>,
    pub checked: bool,
}

/// A line of the menu.
pub enum MenuItem {
    Entry(MenuEntry),
    Displays { label: Vec<u16>, entries: Vec<MenuEntry> },
    Separator,
}

/// An entry, as mathematics sees it.
pub struct EntryView {
    pub id: int,
    pub label: Seq<u16>,
    pub checked: bool,
}

/// A line of the menu, as mathematics sees it.
pub enum ItemView {
    Entry(EntryView),
    Displays { label: Seq<u16>, entries: Seq<EntryView> },
    Separator,
}

impl View for MenuEntry {
    type V = EntryView;

    open spec fn view(&self) -> EntryView {
        EntryView { id: self.id as int, label: self.label@, checked: self.checked }
    }
}

impl View for MenuItem {
    type V = ItemView;

    open spec fn view(&self) -> ItemView {
        match *self {
            MenuItem::Entry(e) => ItemView::Entry(e@),
            MenuItem::Displays { label, entries } => ItemView::Displays {
                label: label@,
                entries: entries@.map_values(|e: MenuEntry| e@),
            },
            MenuItem::Separator => ItemView::Separator,
        }
    }
}

/// A label as the system wants it.
pub open spec fn label_of(s: Seq<char>) -> Seq<u16> {
    text::utf16(s).push(0)
}

/// The entry with a number, a label and a check mark.
pub open spec fn entry(id: int, label: Seq<char>, checked: bool) -> EntryView {
    EntryView { id, label: label_of(label), checked }
}

/// The label of display number `n`, counted from one.
pub open spec fn display_label(n: nat, primary: bool) -> Seq<char> {
    if primary {
        "ディスプレイ "@ + numbers::decimal(n) + " (プライマリ)"@
    } else {
        "ディスプレイ "@ + numbers::decimal(n)
    }
}

/// The entries of the displays; the one that the bar is on has a check mark.
pub open spec fn display_entries(list: Seq<MonitorInfo>, idx: int) -> Seq<EntryView> {
    Seq::new(
        list.len(),
        |i: int|
            entry(
                ID_DISPLAY + i,
                display_label((i + 1) as nat, list[i].primary),
                i == monitors::effective(idx, list.len() as int),
            ),
    )
}

/// The menu. It offers a choice of displays where there is more than one.
pub open spec fn menu_items(registered: bool, list: Seq<MonitorInfo>, idx: int) -> Seq<ItemView> {
    let displays = if list.len() > 1 {
        seq![
            ItemView::Displays {
                label: label_of("表示画面 (&D)"@),
                entries: display_entries(list, idx),
            },
        ]
    } else {
        seq![]
    };
    seq![ItemView::Entry(entry(ID_SETTINGS as int, "設定 (&P)"@, false))] + displays + seq![
        ItemView::Separator,
        ItemView::Entry(entry(ID_STARTUP as int, "スタートアップ時に起動 (&S)"@, registered)),
        ItemView::Separator,
        ItemView::Entry(entry(ID_EXIT as int, "終了 (&X)"@, false)),
    ]
}

fn make_entry(id: usize, label: &str, checked: bool) -> (r: MenuEntry)
    ensures
        r@ == entry(id as int, label@, checked),
{
    MenuEntry { id, label: text::w16z(label), checked }
}

fn make_display_entries(list: &Vec<MonitorInfo>, idx: u32) -> (r: Vec<MenuEntry>)
    requires
        ID_DISPLAY + list@.len() <= usize::MAX,
    ensures
        r@.map_values(|e: MenuEntry| e@) == display_entries(list@, idx as int),
{
    let current: usize = monitors::effective_index(idx, list.len());
    let mut out: Vec<MenuEntry> = Vec::new();
    let mut i: usize = 0;
    while i < list.len()
        invariant
            i <= list@.len(),
            out@.len() == i,
            ID_DISPLAY + list@.len() <= usize::MAX,
            current == monitors::effective(idx as int, list@.len() as int),
            out@.map_values(|e: MenuEntry| e@) == display_entries(list@, idx as int).take(i as int),
        decreases list@.len() - i,
    {
        let mut label: String = "ディスプレイ ".to_string();
        numbers::push_decimal(&mut label, (i + 1) as u64);
        if list[i].primary {
            label.append(" (プライマリ)");
        }
        assert(label@ =~= display_label((i + 1) as nat, list@[i as int].primary));
        let ghost before = out@;
        out.push(make_entry(ID_DISPLAY + i, label.as_str(), i == current));
        proof {
            let (now, all) = (
                out@.map_values(|e: MenuEntry| e@),
                display_entries(list@, idx as int),
            );
            assert forall|k: int| 0 <= k < i + 1 implies now[k] == all.take(i + 1)[k] by {
                if k < i {
                    assert(now[k] == before.map_values(|e: MenuEntry| e@)[k]);
                    assert(all.take(i as int)[k] == all[k]);
                }
            }
            assert(now =~= all.take(i + 1));
        }
        i = i + 1;
    }
    assert(display_entries(list@, idx as int).take(i as int) =~= display_entries(
        list@,
        idx as int,
    ));
    out
}

/// Builds the menu. `registered` says whether the bar starts with the system, `idx` is the display
/// in the settings.
pub fn context_menu(registered: bool, list: &Vec<MonitorInfo>, idx: u32) -> (r: Vec<MenuItem>)
    requires
        ID_DISPLAY + list@.len() <= usize::MAX,
    ensures
        r@.map_values(|i: MenuItem| i@) == menu_items(registered, list@, idx as int),
{
    let mut out: Vec<MenuItem> = Vec::new();
    out.push(MenuItem::Entry(make_entry(ID_SETTINGS, "設定 (&P)", false)));
    if list.len() > 1 {
        out.push(
            MenuItem::Displays {
                label: text::w16z("表示画面 (&D)"),
                entries: make_display_entries(list, idx),
            },
        );
    }
    out.push(MenuItem::Separator);
    out.push(
        MenuItem::Entry(make_entry(ID_STARTUP, "スタートアップ時に起動 (&S)", registered)),
    );
    out.push(MenuItem::Separator);
    out.push(MenuItem::Entry(make_entry(ID_EXIT, "終了 (&X)", false)));
    assert(out@.map_values(|i: MenuItem| i@) =~= menu_items(registered, list@, idx as int));
    out
}

/// What was chosen from the menu.
#[derive(Clone, Copy, PartialEq, Eq, Structural, Debug)]
pub enum MenuChoice {
    /// The display with this index.
    Display(u32),
    ToggleStartup,
    Exit,
    Settings,
    Nothing,
}

/// The choice that a number stands for, where the menu offers `count` displays.
pub open spec fn choice_of(cmd: int, count: int) -> MenuChoice {
    if ID_DISPLAY <= cmd < ID_DISPLAY + count {
        MenuChoice::Display((cmd - ID_DISPLAY) as u32)
    } else if cmd == ID_STARTUP {
        MenuChoice::ToggleStartup
    } else if cmd == ID_EXIT {
        MenuChoice::Exit
    } else if cmd == ID_SETTINGS {
        MenuChoice::Settings
    } else {
        MenuChoice::Nothing
    }
}

/// Reads what was chosen: the number that the menu returned, zero where nothing was chosen.
pub fn read_choice(cmd: i32, count: usize) -> (r: MenuChoice)
    ensures
        r == choice_of(cmd as int, count as int),
{
    if cmd >= 100 && ((cmd - 100) as u64) < count as u64 {
        MenuChoice::Display((cmd - 100) as u32)
    } else if cmd == 1 {
        MenuChoice::ToggleStartup
    } else if cmd == 2 {
        MenuChoice::Exit
    } else if cmd == 3 {
        MenuChoice::Settings
    } else {
        MenuChoice::Nothing
    }
}

/// Puts the bar on another display.
pub fn select_display(s: &mut Settings, idx: u32)
    ensures
        final(s)@ == (SettingsView { monitor_idx: idx as int, ..old(s)@ }),
{
    s.monitor_idx = idx;
}

/// Choosing a display's entry chooses that display, and the menu then shows its check mark there
/// and nowhere else.
pub proof fn display_entries_choose_their_display(list: Seq<MonitorInfo>, idx: int, i: int)
    requires
        0 <= i < list.len() <= u32::MAX,
    ensures
        choice_of(display_entries(list, idx)[i].id, list.len() as int) == MenuChoice::Display(
            i as u32,
        ),
        forall|k: int|
            0 <= k < list.len() ==> (#[trigger] display_entries(list, i)[k].checked <==> k == i),
{
}

/// The entries outside the list of displays mean what they say, whatever displays there are.
pub proof fn fixed_entries_mean_what_they_say(count: int)
    requires
        0 <= count,
    ensures
        choice_of(ID_STARTUP as int, count) == MenuChoice::ToggleStartup,
        choice_of(ID_EXIT as int, count) == MenuChoice::Exit,
        choice_of(ID_SETTINGS as int, count) == MenuChoice::Settings,
        choice_of(0, count) == MenuChoice::Nothing,
{
}

/// Where the menu offers displays, exactly one of them has a check mark.
pub proof fn one_display_is_checked(list: Seq<MonitorInfo>, idx: int)
    requires
        0 < list.len(),
        0 <= idx,
    ensures
        0 <= monitors::effective(idx, list.len() as int) < list.len(),
        forall|k: int|
            0 <= k < list.len() ==> (#[trigger] display_entries(list, idx)[k].checked <==> k
                == monitors::effective(idx, list.len() as int)),
{
}

/// Every line of the menu is seen as it is.
pub proof fn lines_are_seen_as_they_are(e: MenuEntry, label: Vec<u16>, entries: Vec<MenuEntry>, i: int)
    requires
        0 <= i < entries@.len(),
    ensures
        e@.id == e.id,
        e@.label == e.label@,
        e@.checked == e.checked,
        MenuItem::Entry(e)@ == ItemView::Entry(e@),
        MenuItem::Separator@ is Separator,
        ({
            let shown = (MenuItem::Displays { label, entries })@;
            &&& shown is Displays
            &&& shown->Displays_label == label@
            &&& shown->entries.len() == entries@.len()
            &&& shown->entries[i] == entries@[i]@
        }),
{
}

/// The menu, for any displays: the settings come first, the exit last, the startup entry before it,
/// with a check mark exactly while the bar starts with the system. The displays are offered exactly
/// where there is more than one, and no entry but these has a number of its own.
pub proof fn the_menu_offers_what_it_should(registered: bool, list: Seq<MonitorInfo>, idx: int)
    ensures
        ({
            let v = menu_items(registered, list, idx);
            let n = v.len() as int;
            let label = |s: Seq<char>| text::utf16(s).push(0);
            let shows = |item: ItemView, id: int, s: Seq<char>, checked: bool|
                item is Entry && item->Entry_0.id == id && item->Entry_0.label == label(s)
                    && item->Entry_0.checked == checked;
            &&& list.len() > 1 ==> v.len() == 6
            &&& list.len() <= 1 ==> v.len() == 5
            &&& shows(v[0], 3, "設定 (&P)"@, false)
            &&& shows(v[n - 1], 2, "終了 (&X)"@, false)
            &&& shows(v[n - 3], 1, "スタートアップ時に起動 (&S)"@, registered)
            &&& v[n - 2] == ItemView::Separator && v[n - 4] == ItemView::Separator
            &&& list.len() > 1 ==> v[1] is Displays && v[1]->Displays_label == label(
                "表示画面 (&D)"@,
            ) && v[1]->entries.len() == list.len()
        }),
{
}

/// Display number `i`, of any number of displays, is offered under its number counted from one, and
/// the primary one says so; the one that the bar is on has the check mark.
pub proof fn displays_are_offered_by_their_number(
    registered: bool,
    list: Seq<MonitorInfo>,
    idx: int,
    i: int,
)
    requires
        1 < list.len(),
        0 <= i < list.len(),
        0 <= idx,
    ensures
        ({
            let e = menu_items(registered, list, idx)[1]->entries[i];
            let name = "ディスプレイ "@ + numbers::decimal((i + 1) as nat);
            &&& e.id == 100 + i
            &&& list[i].primary ==> e.label == text::utf16(name + " (プライマリ)"@).push(0)
            &&& !list[i].primary ==> e.label == text::utf16(name).push(0)
            &&& e.checked <==> i == idx || (idx >= list.len() && i == list.len() - 1)
        }),
{
}

/// A number means nothing but what the menu offers under it.
pub proof fn choices_mean_nothing_else(cmd: int, count: int)
    requires
        0 <= count <= u32::MAX,
    ensures
        choice_of(cmd, count) matches MenuChoice::Display(i) ==> cmd == 100 + i && i < count,
        100 <= cmd < 100 + count ==> choice_of(cmd, count) is Display,
        choice_of(cmd, count) == MenuChoice::ToggleStartup <==> cmd == 1,
        choice_of(cmd, count) == MenuChoice::Exit <==> cmd == 2,
        choice_of(cmd, count) == MenuChoice::Settings <==> cmd == 3,
{
}

} // verus!
