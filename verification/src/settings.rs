//! The user's settings, as they are kept in the registry and edited in the settings window.
use crate::numbers;
use crate::text;
use vstd::prelude::*;

verus! {

/// In pixels.
pub const DEFAULT_BAR_H: i32 = 40;

/// In points.
pub const DEFAULT_FONT_SIZE: i32 = 13;

pub const DEFAULT_FONT_FACE: &'static str = "Segoe UI Variable Text";

/// The lowest bar that the settings allow.
pub const MIN_BAR_H: i32 = 40;

/// The highest bar that the settings allow.
pub const MAX_BAR_H: i32 = 100;

/// The smallest font size, in points; there is no largest.
pub const MIN_FONT_SIZE: i32 = 1;

/// The registry's type of a zero-terminated UTF-16 string.
pub const REG_SZ: u32 = 1;

/// The registry's type of a 32-bit number.
pub const REG_DWORD: u32 = 4;

/// The most UTF-16 units, the terminating zero among them, that a stored font face may have.
pub const FACE_UNITS: usize = 256;

/// A value as the registry holds it: its type and its bytes.
pub struct RegValue {
    pub kind: u32,
    pub data: Vec<u8>,
}

/// A value with the name that it is stored under.
pub struct RegEntry {
    pub name: &'static str,
    pub value: RegValue,
}

/// The settings' values as they were found in the registry; a value that is not there is absent.
pub struct StoredSettings {
    pub bar_h: Option<RegValue>,
    pub font_size: Option<RegValue>,
    pub font_face: Option<RegValue>,
    pub monitor_idx: Option<RegValue>,
}

/// The user's settings.
pub struct Settings {
    pub bar_h: i32,
    pub font_face: String,
    pub font_size: i32,
    pub monitor_idx: u32,
}

/// Settings as mathematics sees them.
pub struct SettingsView {
    pub bar_h: int,
    pub font_face: Seq<char>,
    pub font_size: int,
    pub monitor_idx: int,
}

impl View for Settings {
    type V = SettingsView;

    open spec fn view(&self) -> SettingsView {
        SettingsView {
            bar_h: self.bar_h as int,
            font_face: self.font_face@,
            font_size: self.font_size as int,
            monitor_idx: self.monitor_idx as int,
        }
    }
}

impl View for RegValue {
    type V = (int, Seq<u8>);

    open spec fn view(&self) -> (int, Seq<u8>) {
        (self.kind as int, self.data@)
    }
}

impl SettingsView {
    /// Settings within their ranges.
    pub open spec fn valid(self) -> bool {
        &&& MIN_BAR_H <= self.bar_h <= MAX_BAR_H
        &&& MIN_FONT_SIZE <= self.font_size <= i32::MAX
        &&& 0 <= self.monitor_idx <= u32::MAX
    }
}

/// The settings of a bar that was never configured.
pub open spec fn default_settings() -> SettingsView {
    SettingsView {
        bar_h: DEFAULT_BAR_H as int,
        font_face: DEFAULT_FONT_FACE@,
        font_size: DEFAULT_FONT_SIZE as int,
        monitor_idx: 0,
    }
}

impl Default for Settings {
    fn default() -> (r: Settings)
        ensures
            r@ == default_settings(),
    {
        Settings {
            bar_h: DEFAULT_BAR_H,
            font_face: DEFAULT_FONT_FACE.to_string(),
            font_size: DEFAULT_FONT_SIZE,
            monitor_idx: 0,
        }
    }
}

/// `v`, moved into `lo..=hi`.
pub open spec fn clamped(v: int, lo: int, hi: int) -> int {
    if v < lo {
        lo
    } else if v > hi {
        hi
    } else {
        v
    }
}

fn clamp(v: i32, lo: i32, hi: i32) -> (r: i32)
    requires
        lo <= hi,
    ensures
        r == clamped(v as int, lo as int, hi as int),
{
    if v < lo {
        lo
    } else if v > hi {
        hi
    } else {
        v
    }
}

/// Byte `i` of a value; a value that ends early goes on with zeros.
pub open spec fn byte_or_zero(data: Seq<u8>, i: int) -> int {
    if i < data.len() {
        data[i] as int
    } else {
        0
    }
}

/// The number in four little-endian bytes.
pub open spec fn dword(data: Seq<u8>) -> int {
    byte_or_zero(data, 0) + 0x100 * byte_or_zero(data, 1) + 0x1_0000 * byte_or_zero(data, 2)
        + 0x100_0000 * byte_or_zero(data, 3)
}

/// The number that a value holds, if it is one: a value of the right type that is no longer than
/// a number is.
pub open spec fn stored_number(v: Option<(int, Seq<u8>)>) -> Option<int> {
    match v {
        Some((kind, data)) => if kind == REG_DWORD && data.len() <= 4 {
            Some(dword(data))
        } else {
            None
        },
        None => None,
    }
}

/// A 32-bit number with its top bit read as a sign.
pub open spec fn as_signed(v: int) -> int {
    if v < 0x8000_0000 {
        v
    } else {
        v - 0x1_0000_0000
    }
}

/// A 32-bit number with its sign written as its top bit.
pub open spec fn as_unsigned(v: int) -> int {
    if v < 0 {
        v + 0x1_0000_0000
    } else {
        v
    }
}

/// The UTF-16 unit at `i` in little-endian bytes.
pub open spec fn unit_at(data: Seq<u8>, i: int) -> u16 {
    (data[2 * i] + 0x100 * data[2 * i + 1]) as u16
}

/// The whole UTF-16 units in little-endian bytes.
pub open spec fn units_of(data: Seq<u8>) -> Seq<u16> {
    Seq::new(data.len() / 2, |i: int| unit_at(data, i))
}

/// What stands before the first zero.
pub open spec fn until_zero(u: Seq<u16>) -> Seq<u16>
    decreases u.len(),
{
    if u.len() == 0 || u[0] == 0 {
        seq![]
    } else {
        seq![u[0]] + until_zero(u.skip(1))
    }
}

/// The font face that a value holds, if it holds one: a string that fits and is not empty.
pub open spec fn stored_face(v: Option<(int, Seq<u8>)>) -> Option<Seq<char>> {
    match v {
        Some((kind, data)) => if kind == REG_SZ && data.len() <= 2 * FACE_UNITS && until_zero(
            units_of(data),
        ).len() > 0 {
            Some(text::lossy(until_zero(units_of(data))))
        } else {
            None
        },
        None => None,
    }
}

/// `v`, or `d` where there is none.
pub open spec fn or_else<T>(v: Option<T>, d: T) -> T {
    match v {
        Some(x) => x,
        None => d,
    }
}

/// A value as it is seen in contracts.
pub open spec fn value_view(v: Option<RegValue>) -> Option<(int, Seq<u8>)> {
    match v {
        Some(x) => Some(x@),
        None => None,
    }
}

/// The settings that stored values stand for: each value that is missing or of the wrong form is
/// replaced by its default, each number is moved into its range.
pub open spec fn loaded(
    bar_h: Option<(int, Seq<u8>)>,
    font_size: Option<(int, Seq<u8>)>,
    font_face: Option<(int, Seq<u8>)>,
    monitor_idx: Option<(int, Seq<u8>)>,
) -> SettingsView {
    SettingsView {
        bar_h: match stored_number(bar_h) {
            Some(v) => clamped(as_signed(v), MIN_BAR_H as int, MAX_BAR_H as int),
            None => DEFAULT_BAR_H as int,
        },
        font_face: or_else(stored_face(font_face), DEFAULT_FONT_FACE@),
        font_size: match stored_number(font_size) {
            Some(v) => clamped(as_signed(v), MIN_FONT_SIZE as int, i32::MAX as int),
            None => DEFAULT_FONT_SIZE as int,
        },
        monitor_idx: or_else(stored_number(monitor_idx), 0),
    }
}

fn byte_at(data: &Vec<u8>, i: usize) -> (r: u32)
    ensures
        r == byte_or_zero(data@, i as int),
{
    if i < data.len() {
        data[i] as u32
    } else {
        0
    }
}

fn read_number(v: &Option<RegValue>) -> (r: Option<u32>)
    ensures
        r is Some == stored_number(value_view(*v)) is Some,
        r is Some ==> r->0 == stored_number(value_view(*v))->0,
{
    match v {
        Some(x) => {
            if x.kind == REG_DWORD && x.data.len() <= 4 {
                Some(
                    byte_at(&x.data, 0) + 0x100 * byte_at(&x.data, 1) + 0x1_0000 * byte_at(
                        &x.data,
                        2,
                    ) + 0x100_0000 * byte_at(&x.data, 3),
                )
            } else {
                None
            }
        },
        None => None,
    }
}

fn to_signed(v: u32) -> (r: i32)
    ensures
        r == as_signed(v as int),
{
    if v < 0x8000_0000 {
        v as i32
    } else {
        (v as i64 - 0x1_0000_0000) as i32
    }
}

/// The units of a string value up to its first zero.
fn read_units(data: &Vec<u8>) -> (r: Vec<u16>)
    ensures
        r@ == until_zero(units_of(data@)),
{
    let len: usize = data.len();
    let n: usize = len / 2;
    let mut out: Vec<u16> = Vec::new();
    let mut i: usize = 0;
    let ghost u = units_of(data@);
    assert(u.skip(0) =~= u);
    assert(out@ + until_zero(u) =~= until_zero(u));
    while i < n
        invariant
            i <= n == len / 2,
            len == data@.len(),
            u == units_of(data@),
            until_zero(u) == out@ + until_zero(u.skip(i as int)),
        decreases n - i,
    {
        let c: u16 = (data[2 * i] as u32 + 0x100 * data[2 * i + 1] as u32) as u16;
        assert(c == u[i as int]);
        assert(u.skip(i as int)[0] == c);
        if c == 0 {
            assert(out@ + until_zero(u.skip(i as int)) =~= out@);
            return out;
        }
        let ghost before = out@;
        out.push(c);
        proof {
            assert(u.skip(i as int).skip(1) =~= u.skip(i + 1));
            assert(before + until_zero(u.skip(i as int)) =~= out@ + until_zero(u.skip(i + 1)));
        }
        i = i + 1;
    }
    assert(out@ + until_zero(u.skip(i as int)) =~= out@);
    out
}

fn read_face(v: &Option<RegValue>) -> (r: Option<String>)
    ensures
        r is Some == stored_face(value_view(*v)) is Some,
        r is Some ==> r->0@ == stored_face(value_view(*v))->0,
{
    match v {
        Some(x) => {
            if x.kind == REG_SZ && x.data.len() <= 2 * FACE_UNITS {
                let units: Vec<u16> = read_units(&x.data);
                if units.len() > 0 {
                    Some(text::from_utf16_lossy(&units))
                } else {
                    None
                }
            } else {
                None
            }
        },
        None => None,
    }
}

/// Makes settings of what was found in the registry.
pub fn load_settings(stored: &StoredSettings) -> (r: Settings)
    ensures
        r@ == loaded(
            value_view(stored.bar_h),
            value_view(stored.font_size),
            value_view(stored.font_face),
            value_view(stored.monitor_idx),
        ),
        r@.valid(),
{
    let mut s: Settings = Settings::default();
    match read_number(&stored.bar_h) {
        Some(v) => {
            s.bar_h = clamp(to_signed(v), MIN_BAR_H, MAX_BAR_H);
        },
        None => {},
    }
    match read_number(&stored.font_size) {
        Some(v) => {
            s.font_size = clamp(to_signed(v), MIN_FONT_SIZE, i32::MAX);
        },
        None => {},
    }
    match read_face(&stored.font_face) {
        Some(face) => {
            s.font_face = face;
        },
        None => {},
    }
    match read_number(&stored.monitor_idx) {
        Some(v) => {
            s.monitor_idx = v;
        },
        None => {},
    }
    s
}

/// A number in four little-endian bytes.
pub open spec fn dword_bytes(v: int) -> Seq<u8> {
    seq![
        (v % 0x100) as u8,
        ((v / 0x100) % 0x100) as u8,
        ((v / 0x1_0000) % 0x100) as u8,
        ((v / 0x100_0000) % 0x100) as u8,
    ]
}

/// UTF-16 units in little-endian bytes.
pub open spec fn unit_bytes(u: Seq<u16>) -> Seq<u8> {
    Seq::new(
        2 * u.len(),
        |i: int|
            if i % 2 == 0 {
                (u[i / 2] % 0x100) as u8
            } else {
                (u[i / 2] / 0x100) as u8
            },
    )
}

/// A text as the registry stores it: UTF-16 with a terminating zero.
pub open spec fn string_bytes(s: Seq<char>) -> Seq<u8> {
    unit_bytes(text::utf16(s).push(0))
}

fn number_value(v: u32) -> (r: RegValue)
    ensures
        r@ == (REG_DWORD as int, dword_bytes(v as int)),
{
    let data: Vec<u8> = vec![
        (v % 0x100) as u8,
        ((v / 0x100) % 0x100) as u8,
        ((v / 0x1_0000) % 0x100) as u8,
        ((v / 0x100_0000) % 0x100) as u8,
    ];
    assert(data@ =~= dword_bytes(v as int));
    RegValue { kind: REG_DWORD, data }
}

/// A text as a registry value.
pub fn string_value(s: &str) -> (r: RegValue)
    ensures
        r@ == (REG_SZ as int, string_bytes(s@)),
{
    let units: Vec<u16> = text::w16z(s);
    let mut data: Vec<u8> = Vec::new();
    let mut i: usize = 0;
    while i < units.len()
        invariant
            i <= units@.len(),
            data@ == unit_bytes(units@.take(i as int)),
        decreases units@.len() - i,
    {
        data.push((units[i] % 0x100) as u8);
        data.push((units[i] / 0x100) as u8);
        assert(data@ =~= unit_bytes(units@.take(i + 1)));
        i = i + 1;
    }
    assert(units@.take(i as int) =~= units@);
    RegValue { kind: REG_SZ, data }
}

fn to_unsigned(v: i32) -> (r: u32)
    ensures
        r == as_unsigned(v as int),
{
    if v < 0 {
        (v as i64 + 0x1_0000_0000) as u32
    } else {
        v as u32
    }
}

/// The name and the value of an entry.
pub open spec fn entry_view(e: RegEntry) -> (Seq<char>, (int, Seq<u8>)) {
    (e.name@, e.value@)
}

/// The values that settings are stored as, with their names.
pub open spec fn saved(s: SettingsView) -> Seq<(Seq<char>, (int, Seq<u8>))> {
    seq![
        ("BarH"@, (REG_DWORD as int, dword_bytes(as_unsigned(s.bar_h)))),
        ("FontSize"@, (REG_DWORD as int, dword_bytes(as_unsigned(s.font_size)))),
        ("FontFace"@, (REG_SZ as int, string_bytes(s.font_face))),
        ("MonitorIdx"@, (REG_DWORD as int, dword_bytes(s.monitor_idx))),
    ]
}

/// The values to write to the registry, in the order in which they are written.
pub fn save_settings(s: &Settings) -> (r: Vec<RegEntry>)
    ensures
        r@.map_values(|e: RegEntry| entry_view(e)) == saved(s@),
{
    let mut out: Vec<RegEntry> = Vec::new();
    out.push(RegEntry { name: "BarH", value: number_value(to_unsigned(s.bar_h)) });
    out.push(RegEntry { name: "FontSize", value: number_value(to_unsigned(s.font_size)) });
    out.push(RegEntry { name: "FontFace", value: string_value(s.font_face.as_str()) });
    out.push(RegEntry { name: "MonitorIdx", value: number_value(s.monitor_idx) });
    assert(out@.map_values(|e: RegEntry| entry_view(e)) =~= saved(s@));
    out
}

proof fn lemma_dword_reads_back(v: int)
    requires
        0 <= v <= u32::MAX,
    ensures
        dword(dword_bytes(v)) == v,
        dword_bytes(v).len() == 4,
{
    let b = dword_bytes(v);
    assert(v == v % 0x100 + 0x100 * ((v / 0x100) % 0x100) + 0x1_0000 * ((v / 0x1_0000) % 0x100)
        + 0x100_0000 * ((v / 0x100_0000) % 0x100));
}

proof fn lemma_units_read_back(u: Seq<u16>)
    ensures
        units_of(unit_bytes(u)) == u,
{
    let data = unit_bytes(u);
    assert forall|i: int| 0 <= i < u.len() implies units_of(data)[i] == u[i] by {
        assert(data[2 * i] == (u[i] % 0x100) as u8);
        assert(data[2 * i + 1] == (u[i] / 0x100) as u8);
        lemma_unit_reads_back(u[i]);
    }
    assert(units_of(data) =~= u);
}

proof fn lemma_unit_reads_back(u: u16)
    ensures
        ((u % 0x100) as u8 + 0x100 * (u / 0x100) as u8) as u16 == u,
{
}

proof fn lemma_until_zero(u: Seq<u16>)
    requires
        forall|i: int| 0 <= i < u.len() ==> #[trigger] u[i] != 0,
    ensures
        until_zero(u.push(0)) == u,
    decreases u.len(),
{
    let t = u.push(0);
    if u.len() > 0 {
        assert(t[0] == u[0]);
        assert(t.skip(1) =~= u.skip(1).push(0));
        lemma_until_zero(u.skip(1));
        assert(until_zero(t) =~= u);
    } else {
        assert(until_zero(t) =~= u);
    }
}

proof fn lemma_no_zero_units(s: Seq<char>)
    requires
        forall|i: int| 0 <= i < s.len() ==> #[trigger] s[i] != '\0',
    ensures
        forall|i: int| 0 <= i < text::utf16(s).len() ==> #[trigger] text::utf16(s)[i] != 0,
        s.len() > 0 ==> text::utf16(s).len() > 0,
    decreases s.len(),
{
    if s.len() > 0 {
        lemma_no_zero_units(s.drop_last());
        assert(s.last() != '\0');
        lemma_nonzero_char(s.last());
        let head = text::utf16(s.drop_last());
        let u = text::utf16(s);
        assert forall|i: int| 0 <= i < u.len() implies #[trigger] u[i] != 0 by {
            if i < head.len() {
                assert(u[i] == head[i]);
            } else {
                assert(u[i] == text::units(s.last())[i - head.len()]);
            }
        }
    }
}

proof fn lemma_nonzero_char(c: char)
    requires
        c != '\0',
    ensures
        text::units(c).len() > 0,
        forall|i: int| 0 <= i < text::units(c).len() ==> #[trigger] text::units(c)[i] != 0,
{
}

/// A font face that the registry can give back: not empty, without a zero inside, and short
/// enough for the reader.
pub open spec fn storable_face(s: Seq<char>) -> bool {
    &&& s.len() > 0
    &&& forall|i: int| 0 <= i < s.len() ==> #[trigger] s[i] != '\0'
    &&& text::utf16(s).len() < FACE_UNITS
}

/// Settings that were saved are loaded again unchanged.
pub proof fn saved_settings_load_again(s: SettingsView)
    requires
        s.valid(),
        storable_face(s.font_face),
    ensures
        loaded(
            Some(saved(s)[0].1),
            Some(saved(s)[1].1),
            Some(saved(s)[2].1),
            Some(saved(s)[3].1),
        ) == s,
{
    let u = text::utf16(s.font_face);
    lemma_dword_reads_back(s.bar_h);
    lemma_dword_reads_back(s.font_size);
    lemma_dword_reads_back(s.monitor_idx);
    lemma_no_zero_units(s.font_face);
    lemma_units_read_back(u.push(0));
    lemma_until_zero(u);
    text::decoding_undoes_encoding(s.font_face);
}

/// Each value is stored under a name of its own.
pub proof fn stored_names_differ(s: SettingsView, i: int, j: int)
    requires
        0 <= i < j < 4,
    ensures
        saved(s)[i].0 != saved(s)[j].0,
{
    reveal_strlit("BarH");
    reveal_strlit("FontSize");
    reveal_strlit("FontFace");
    reveal_strlit("MonitorIdx");
    assert("FontSize"@[4] == 'S');
    assert("FontFace"@[4] == 'F');
    assert(saved(s)[0].0.len() == 4);
    assert(saved(s)[1].0.len() == 8);
    assert(saved(s)[2].0.len() == 8);
    assert(saved(s)[3].0.len() == 10);
}

/// The settings after the user has entered a height, a face and a size; what is missing is replaced
/// by its default, each number is moved into its range.
pub open spec fn edited(
    before: SettingsView,
    bar_h: Option<int>,
    face: Option<Seq<char>>,
    size: Option<int>,
) -> SettingsView {
    SettingsView {
        bar_h: clamped(or_else(bar_h, DEFAULT_BAR_H as int), MIN_BAR_H as int, MAX_BAR_H as int),
        font_face: or_else(face, DEFAULT_FONT_FACE@),
        font_size: clamped(
            or_else(size, DEFAULT_FONT_SIZE as int),
            MIN_FONT_SIZE as int,
            i32::MAX as int,
        ),
        monitor_idx: before.monitor_idx,
    }
}

/// The face that a selection stands for; an empty one stands for none.
pub open spec fn selected_face(face: Option<Seq<u16>>) -> Option<Seq<char>> {
    match face {
        Some(u) => if u.len() > 0 {
            Some(text::lossy(u))
        } else {
            None
        },
        None => None,
    }
}

/// The code units of a selection.
pub open spec fn selection_view(face: Option<Vec<u16>>) -> Option<Seq<u16>> {
    match face {
        Some(u) => Some(u@),
        None => None,
    }
}

/// Takes over what the user entered in the settings window: the two text fields, and the font
/// that is selected, if one is. The display stays.
pub fn edit_settings(s: &mut Settings, bar_h: &[u16], face: &Option<Vec<u16>>, size: &[u16])
    ensures
        final(s)@ == edited(
            old(s)@,
            numbers::typed_number(text::lossy(bar_h@)),
            selected_face(selection_view(*face)),
            numbers::typed_number(text::lossy(size@)),
        ),
        final(s)@.valid(),
{
    let height: i32 = match numbers::parse_typed(bar_h) {
        Some(v) => v,
        None => DEFAULT_BAR_H,
    };
    s.bar_h = clamp(height, MIN_BAR_H, MAX_BAR_H);
    s.font_face = match face {
        Some(u) => if u.len() > 0 {
            text::from_utf16_lossy(u)
        } else {
            DEFAULT_FONT_FACE.to_string()
        },
        None => DEFAULT_FONT_FACE.to_string(),
    };
    let points: i32 = match numbers::parse_typed(size) {
        Some(v) => v,
        None => DEFAULT_FONT_SIZE,
    };
    s.font_size = clamp(points, MIN_FONT_SIZE, i32::MAX);
}

/// Confirming the settings window without a change leaves valid settings as they are.
pub proof fn confirming_changes_nothing(s: SettingsView)
    requires
        s.valid(),
        s.font_face.len() > 0,
    ensures
        edited(
            s,
            numbers::typed_number(
                text::lossy(text::utf16(numbers::signed_decimal(s.bar_h))),
            ),
            selected_face(Some(text::utf16(s.font_face))),
            numbers::typed_number(
                text::lossy(text::utf16(numbers::signed_decimal(s.font_size))),
            ),
        ) == s,
{
    text::decoding_undoes_encoding(numbers::signed_decimal(s.bar_h));
    text::decoding_undoes_encoding(numbers::signed_decimal(s.font_size));
    text::decoding_undoes_encoding(s.font_face);
    numbers::shown_number_reads_back(s.bar_h);
    numbers::shown_number_reads_back(s.font_size);
    if text::utf16(s.font_face).len() == 0 {
        assert(text::lossy(text::utf16(s.font_face)).len() == 0);
    }
}

/// Every field of the settings is seen as it is, and so is a registry value.
pub proof fn settings_are_seen_as_they_are(s: Settings, v: RegValue, e: RegEntry)
    ensures
        s@.bar_h == s.bar_h,
        s@.font_face == s.font_face@,
        s@.font_size == s.font_size,
        s@.monitor_idx == s.monitor_idx,
        v@ == (v.kind as int, v.data@),
        value_view(Some(v)) == Some((v.kind as int, v.data@)),
        value_view(None) is None,
        entry_view(e) == (e.name@, (e.value.kind as int, e.value.data@)),
{
}

/// What the user types takes effect: whatever the settings were before, and whatever font is
/// selected, a height and a size within their ranges are the height and the size afterwards.
pub proof fn typed_numbers_take_effect(
    before: SettingsView,
    bar_h: Option<int>,
    face: Option<Seq<char>>,
    size: Option<int>,
    n: int,
)
    ensures
        40 <= n <= 100 ==> edited(before, Some(n), face, size).bar_h == n,
        1 <= n <= i32::MAX ==> edited(before, bar_h, face, Some(n)).font_size == n,
{
}

/// What is typed as digits, with white space around it or without, takes effect: whatever the
/// settings were before, and whatever font is selected.
pub proof fn typed_digits_take_effect(
    before: SettingsView,
    face: Option<Seq<char>>,
    height: int,
    size: int,
    pad: Seq<char>,
)
    requires
        40 <= height <= 100,
        1 <= size <= i32::MAX,
        forall|i: int| 0 <= i < pad.len() ==> numbers::is_space(#[trigger] pad[i]),
    ensures
        ({
            let typed = |n: int| text::utf16(pad + numbers::signed_decimal(n) + pad);
            let after = edited(
                before,
                numbers::typed_number(text::lossy(typed(height))),
                face,
                numbers::typed_number(text::lossy(typed(size))),
            );
            after.bar_h == height && after.font_size == size
        }),
{
    lemma_typed_digits(height, pad);
    lemma_typed_digits(size, pad);
}

proof fn lemma_typed_digits(n: int, pad: Seq<char>)
    requires
        0 <= n <= i32::MAX,
        forall|i: int| 0 <= i < pad.len() ==> numbers::is_space(#[trigger] pad[i]),
    ensures
        numbers::typed_number(
            text::lossy(text::utf16(pad + numbers::signed_decimal(n) + pad)),
        ) == Some(n),
{
    let s = numbers::signed_decimal(n);
    text::decoding_undoes_encoding(pad + s + pad);
    numbers::shown_number_ends_in_digits(n);
    numbers::white_space_does_not_matter(pad, s, pad);
    numbers::shown_number_reads_back(n);
}

/// A number beyond its range becomes the nearest one in it, and where no number was typed the
/// default takes its place; before and font do not matter.
pub proof fn typed_numbers_are_kept_in_range(
    before: SettingsView,
    bar_h: Option<int>,
    face: Option<Seq<char>>,
    size: Option<int>,
    n: int,
)
    ensures
        n < 40 ==> edited(before, Some(n), face, size).bar_h == 40,
        n > 100 ==> edited(before, Some(n), face, size).bar_h == 100,
        n < 1 ==> edited(before, bar_h, face, Some(n)).font_size == 1,
        edited(before, None, face, size).bar_h == 40,
        edited(before, bar_h, face, None).font_size == 13,
{
}

/// The selected font is the font afterwards, the default font where none is selected; and the
/// display stays the one that it was.
pub proof fn the_selected_font_takes_effect(
    before: SettingsView,
    bar_h: Option<int>,
    face: Option<Seq<char>>,
    size: Option<int>,
)
    ensures
        face is Some ==> edited(before, bar_h, face, size).font_face == face->0,
        face is None ==> edited(before, bar_h, face, size).font_face == DEFAULT_FONT_FACE@,
        edited(before, bar_h, face, size).monitor_idx == before.monitor_idx,
        forall|name: Seq<char>|
            name.len() > 0 ==> selected_face(Some(#[trigger] text::utf16(name))) == Some(name),
        selected_face(None) is None,
        selected_face(Some(seq![])) is None,
{
    assert forall|name: Seq<char>| name.len() > 0 implies selected_face(
        Some(#[trigger] text::utf16(name)),
    ) == Some(name) by {
        text::decoding_undoes_encoding(name);
        text::encoding_at_most_doubles(name);
    }
}

/// Each stored value is loaded by itself: what the others are does not matter.
pub proof fn each_value_is_loaded_by_itself(
    h: Option<(int, Seq<u8>)>,
    s: Option<(int, Seq<u8>)>,
    f: Option<(int, Seq<u8>)>,
    m: Option<(int, Seq<u8>)>,
    h2: Option<(int, Seq<u8>)>,
    s2: Option<(int, Seq<u8>)>,
    f2: Option<(int, Seq<u8>)>,
    m2: Option<(int, Seq<u8>)>,
)
    ensures
        loaded(h, s, f, m).bar_h == loaded(h, s2, f2, m2).bar_h,
        loaded(h, s, f, m).font_size == loaded(h2, s, f2, m2).font_size,
        loaded(h, s, f, m).font_face == loaded(h2, s2, f, m2).font_face,
        loaded(h, s, f, m).monitor_idx == loaded(h2, s2, f2, m).monitor_idx,
{
}

/// A stored number of four bytes is loaded as the number that its bytes say, lowest first: moved
/// into the range of the height or the size, as it is for the display.
pub proof fn stored_numbers_are_loaded(
    data: Seq<u8>,
    h: Option<(int, Seq<u8>)>,
    s: Option<(int, Seq<u8>)>,
    f: Option<(int, Seq<u8>)>,
    m: Option<(int, Seq<u8>)>,
)
    requires
        data.len() == 4,
    ensures
        ({
            let v = data[0] + 256 * data[1] + 65536 * data[2] + 16777216 * data[3];
            let number = Some((4int, data));
            &&& 40 <= v <= 100 ==> loaded(number, s, f, m).bar_h == v
            &&& v < 40 ==> loaded(number, s, f, m).bar_h == 40
            &&& 100 < v < 0x8000_0000 ==> loaded(number, s, f, m).bar_h == 100
            &&& v >= 0x8000_0000 ==> loaded(number, s, f, m).bar_h == 40
            &&& 1 <= v < 0x8000_0000 ==> loaded(h, number, f, m).font_size == v
            &&& v == 0 || v >= 0x8000_0000 ==> loaded(h, number, f, m).font_size == 1
            &&& loaded(h, s, f, number).monitor_idx == v
        }),
{
}

/// A stored number of fewer than four bytes goes on with zeros.
pub proof fn short_numbers_go_on_with_zeros(
    data: Seq<u8>,
    s: Option<(int, Seq<u8>)>,
    f: Option<(int, Seq<u8>)>,
    m: Option<(int, Seq<u8>)>,
)
    requires
        data.len() < 4,
    ensures
        loaded(Some((4int, data)), s, f, m).bar_h == loaded(
            Some((4int, data.push(0))),
            s,
            f,
            m,
        ).bar_h,
        loaded(m, Some((4int, data)), f, s).font_size == loaded(
            m,
            Some((4int, data.push(0))),
            f,
            s,
        ).font_size,
        loaded(m, s, f, Some((4int, data))).monitor_idx == loaded(
            m,
            s,
            f,
            Some((4int, data.push(0))),
        ).monitor_idx,
{
}

/// A value that is missing, of another type or too long is replaced by its default.
pub proof fn unfit_values_are_replaced(
    v: Option<(int, Seq<u8>)>,
    h: Option<(int, Seq<u8>)>,
    s: Option<(int, Seq<u8>)>,
    f: Option<(int, Seq<u8>)>,
    m: Option<(int, Seq<u8>)>,
)
    ensures
        (match v {
            Some((kind, data)) => kind != 4 || data.len() > 4,
            None => true,
        }) ==> {
            &&& loaded(v, s, f, m).bar_h == 40
            &&& loaded(h, v, f, m).font_size == 13
            &&& loaded(h, s, f, v).monitor_idx == 0
        },
        (match v {
            Some((kind, data)) => kind != 1 || data.len() > 512 || data.len() < 2,
            None => true,
        }) ==> loaded(h, s, v, m).font_face == DEFAULT_FONT_FACE@,
{
}

/// A stored face is loaded: any text that is not empty and holds no zero, stored with a zero behind
/// it in no more than 512 bytes.
pub proof fn stored_faces_are_loaded(
    face: Seq<char>,
    h: Option<(int, Seq<u8>)>,
    s: Option<(int, Seq<u8>)>,
    m: Option<(int, Seq<u8>)>,
)
    requires
        face.len() > 0,
        forall|i: int| 0 <= i < face.len() ==> #[trigger] face[i] != '\0',
        text::utf16(face).len() <= 255,
    ensures
        loaded(h, s, Some((1int, string_bytes(face))), m).font_face == face,
{
    let u = text::utf16(face);
    lemma_no_zero_units(face);
    lemma_units_read_back(u.push(0));
    lemma_until_zero(u);
    text::decoding_undoes_encoding(face);
}

/// A text is stored unit by unit, the lower byte first, and ends with two zero bytes.
pub proof fn texts_are_stored_lower_byte_first(s: Seq<char>, i: int)
    requires
        0 <= i < text::utf16(s).len(),
    ensures
        ({
            let (b, u) = (string_bytes(s), text::utf16(s));
            &&& b.len() == 2 * u.len() + 2
            &&& b[2 * i] + 256 * b[2 * i + 1] == u[i]
            &&& b[b.len() - 2] == 0 && b[b.len() - 1] == 0
        }),
{
    let u = text::utf16(s).push(0);
    assert(u[i] == text::utf16(s)[i]);
    assert((2 * i) / 2 == i && (2 * i + 1) / 2 == i);
    lemma_unit_reads_back(u[i]);
}

/// The settings are stored under their names as they are: each number as four bytes, the lowest
/// first, and the face as a text.
pub proof fn settings_are_stored_as_they_are(s: SettingsView)
    requires
        0 <= s.bar_h <= i32::MAX,
        0 <= s.font_size <= i32::MAX,
        0 <= s.monitor_idx <= u32::MAX,
    ensures
        ({
            let (height, size, face, display) = (saved(s)[0], saved(s)[1], saved(s)[2], saved(s)[3]);
            let says = |v: (int, Seq<u8>), n: int|
                {
                    let (kind, d) = v;
                    kind == 4 && d.len() == 4 && d[0] + 256 * d[1] + 65536 * d[2] + 16777216 * d[3]
                        == n
                };
            &&& saved(s).len() == 4
            &&& height.0 == "BarH"@ && says(height.1, s.bar_h)
            &&& size.0 == "FontSize"@ && says(size.1, s.font_size)
            &&& face == ("FontFace"@, (1int, string_bytes(s.font_face)))
            &&& display.0 == "MonitorIdx"@ && says(display.1, s.monitor_idx)
        }),
{
    lemma_dword_reads_back(s.bar_h);
    lemma_dword_reads_back(s.font_size);
    lemma_dword_reads_back(s.monitor_idx);
}

/// What was selected is seen as it is.
pub proof fn selections_are_seen_as_they_are(face: Vec<u16>)
    ensures
        selection_view(Some(face)) == Some(face@),
        selection_view(None) is None,
{
}

/// A bar that was never configured is 40 pixels high, stands on the first display and is lettered in
/// the system's text font at 13 points.
pub proof fn a_new_bar_is_plain()
    ensures
        ({
            let s = default_settings();
            &&& s.bar_h == 40 && s.font_size == 13 && s.monitor_idx == 0
            &&& s.font_face == "Segoe UI Variable Text"@
        }),
{
}

/// Settings are valid exactly where the bar is from 40 to 100 pixels high, the font has a size, and
/// the place of the display is a number that can be stored.
pub proof fn valid_settings_are_in_range(s: SettingsView)
    ensures
        s.valid() <==> {
            &&& 39 < s.bar_h && s.bar_h < 101
            &&& 0 < s.font_size && s.font_size < 0x8000_0000
            &&& 0 <= s.monitor_idx && s.monitor_idx < 0x1_0000_0000
        },
{
}

/// A number keeps its sign when it is stored: the stored number differs from it by a whole turn at
/// most, and reading it gives the number back.
pub proof fn signs_are_stored(v: i32, u: u32)
    ensures
        0 <= as_unsigned(v as int) < 0x1_0000_0000,
        (as_unsigned(v as int) - v) % 0x1_0000_0000 == 0,
        as_signed(as_unsigned(v as int)) == v,
        i32::MIN <= as_signed(u as int) <= i32::MAX,
        (u - as_signed(u as int)) % 0x1_0000_0000 == 0,
        as_unsigned(as_signed(u as int)) == u,
{
}

} // verus!
