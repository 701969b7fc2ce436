//! The fonts: those that the settings window offers, and those that the bar is drawn with.
use crate::numbers;
use crate::settings;
use crate::settings::{Settings, SettingsView};
use crate::text;
use vstd::prelude::*;

verus! {

/// The units that the system gives a face name.
pub const FACE_NAME_UNITS: usize = 32;

/// The name in a face-name field: what stands before the first zero, or the whole field.
pub open spec fn name_units(field: Seq<u16>) -> Seq<u16> {
    crate::settings::until_zero(field)
}

/// The face that a face-name field offers: none for the vertical variants, whose names begin with
/// an at sign, and none for an empty name.
pub open spec fn offered_face(field: Seq<u16>) -> Option<Seq<char>> {
    if field[0] == '@' as u16 || name_units(field).len() == 0 {
        None
    } else {
        Some(text::lossy(name_units(field)))
    }
}

/// Reads the face that a face-name field offers.
pub fn face_name(field: &[u16; 32]) -> (r: Option<String>)
    ensures
        r is Some == offered_face(field@) is Some,
        r is Some ==> r->0@ == offered_face(field@)->0,
{
    if field[0] == 0x40 {
        return None;
    }
    let mut name: Vec<u16> = Vec::new();
    let mut i: usize = 0;
    let ghost u = field@;
    assert(u.skip(0) =~= u);
    assert(name@ + name_units(u) =~= name_units(u));
    while i < FACE_NAME_UNITS && field[i] != 0
        invariant
            i <= FACE_NAME_UNITS,
            u == field@,
            u.len() == 32,
            name_units(u) == name@ + name_units(u.skip(i as int)),
        decreases FACE_NAME_UNITS - i,
    {
        let ghost before = name@;
        name.push(field[i]);
        proof {
            assert(u.skip(i as int).skip(1) =~= u.skip(i + 1));
            assert(u.skip(i as int)[0] == u[i as int]);
            assert(before + name_units(u.skip(i as int)) =~= name@ + name_units(u.skip(i + 1)));
        }
        i = i + 1;
    }
    proof {
        if i < FACE_NAME_UNITS {
            assert(u.skip(i as int)[0] == 0);
        }
        assert(name@ + name_units(u.skip(i as int)) =~= name@);
    }
    if name.len() == 0 {
        None
    } else {
        Some(text::from_utf16_lossy(&name))
    }
}

/// Dictionary order by code points; a text comes before its extensions.
pub open spec fn text_less(a: Seq<char>, b: Seq<char>) -> bool
    decreases a.len(),
{
    if b.len() == 0 {
        false
    } else if a.len() == 0 {
        true
    } else if a[0] != b[0] {
        (a[0] as u32) < (b[0] as u32)
    } else {
        text_less(a.skip(1), b.skip(1))
    }
}

/// The texts stand in dictionary order, none of them twice.
pub open spec fn strictly_ordered(s: Seq<Seq<char>>) -> bool {
    forall|i: int, j: int|
        #![trigger s[i], s[j]]
        0 <= i < j < s.len() ==> text_less(s[i], s[j])
}

/// The same texts occur in both.
pub open spec fn same_texts(a: Seq<Seq<char>>, b: Seq<Seq<char>>) -> bool {
    forall|t: Seq<char>| #[trigger] a.contains(t) <==> b.contains(t)
}

/// The contents of strings.
pub open spec fn contents(v: Seq<String>) -> Seq<Seq<char>> {
    v.map_values(|s: String| s@)
}

proof fn lemma_char_eq(a: char, b: char)
    ensures
        a as u32 == b as u32 <==> a == b,
{
}

/// Of two texts the first is less, or the second is less, or they are equal; never two of these.
proof fn lemma_trichotomy(a: Seq<char>, b: Seq<char>)
    ensures
        text_less(a, b) ==> !text_less(b, a) && a != b,
        !text_less(a, b) && !text_less(b, a) ==> a == b,
    decreases a.len(),
{
    if a.len() > 0 && b.len() > 0 {
        lemma_char_eq(a[0], b[0]);
        lemma_trichotomy(a.skip(1), b.skip(1));
        if a[0] == b[0] && a.skip(1) == b.skip(1) {
            assert(a =~= seq![a[0]] + a.skip(1));
            assert(b =~= seq![b[0]] + b.skip(1));
        }
    } else if a.len() == 0 && b.len() == 0 {
        assert(a =~= b);
    }
}

proof fn lemma_transitive(a: Seq<char>, b: Seq<char>, c: Seq<char>)
    requires
        text_less(a, b),
        text_less(b, c),
    ensures
        text_less(a, c),
    decreases a.len(),
{
    if a.len() > 0 && b.len() > 0 && c.len() > 0 {
        lemma_char_eq(a[0], b[0]);
        lemma_char_eq(b[0], c[0]);
        lemma_char_eq(a[0], c[0]);
        if a[0] == b[0] && b[0] == c[0] {
            lemma_transitive(a.skip(1), b.skip(1), c.skip(1));
        }
    }
}

/// The characters of a string.
fn chars_of(s: &str) -> (r: Vec<char>)
    ensures
        r@ == s@,
{
    let mut out: Vec<char> = Vec::new();
    for c in iter: s.chars()
        invariant
            iter.seq() == s@,
            out@ == s@.take(iter.index()),
    {
        let ghost i = iter.index();
        out.push(c);
        assert(out@ =~= s@.take(i + 1));
    }
    assert(s@.take(s@.len() as int) =~= s@);
    out
}

/// How a text stands to another one.
#[derive(Clone, Copy, PartialEq, Eq, Structural)]
enum Standing {
    Before,
    Same,
    After,
}

fn standing(a: &str, b: &str) -> (r: Standing)
    ensures
        r == Standing::Before <==> text_less(a@, b@),
        r == Standing::Same <==> a@ == b@,
        r == Standing::After <==> text_less(b@, a@),
{
    let (p, q): (Vec<char>, Vec<char>) = (chars_of(a), chars_of(b));
    let mut i: usize = 0;
    proof {
        lemma_trichotomy(a@, b@);
        lemma_trichotomy(b@, a@);
        assert(p@.skip(0) =~= p@);
        assert(q@.skip(0) =~= q@);
    }
    while i < p.len() && i < q.len() && p[i] == q[i]
        invariant
            i <= p@.len(),
            i <= q@.len(),
            text_less(p@, q@) == text_less(p@.skip(i as int), q@.skip(i as int)),
            text_less(q@, p@) == text_less(q@.skip(i as int), p@.skip(i as int)),
        decreases p@.len() - i,
    {
        assert(p@.skip(i as int).skip(1) =~= p@.skip(i + 1));
        assert(q@.skip(i as int).skip(1) =~= q@.skip(i + 1));
        i = i + 1;
    }
    if i < q.len() {
        if i < p.len() {
            proof {
                lemma_char_eq(p@[i as int], q@[i as int]);
            }
            if (p[i] as u32) < (q[i] as u32) {
                Standing::Before
            } else {
                Standing::After
            }
        } else {
            Standing::Before
        }
    } else if i < p.len() {
        Standing::After
    } else {
        Standing::Same
    }
}

proof fn lemma_insert(v: Seq<Seq<char>>, t: Seq<char>, k: int)
    requires
        strictly_ordered(v),
        0 <= k <= v.len(),
        k > 0 ==> text_less(v[k - 1], t),
        k < v.len() ==> text_less(t, v[k]),
    ensures
        strictly_ordered(v.insert(k, t)),
{
    let w = v.insert(k, t);
    assert forall|i: int, j: int|
        #![trigger w[i], w[j]]
        0 <= i < j < w.len() implies text_less(w[i], w[j]) by {
        if j == k {
            assert(w[i] == v[i]);
            if i < k - 1 {
                assert(text_less(v[i], v[k - 1]));
                lemma_transitive(v[i], v[k - 1], t);
            }
        } else if i == k {
            assert(w[j] == v[j - 1]);
            if j > k + 1 {
                assert(text_less(v[k], v[j - 1]));
                lemma_transitive(t, v[k], v[j - 1]);
            }
        } else {
            let p = if i < k {
                i
            } else {
                i - 1
            };
            let q = if j < k {
                j
            } else {
                j - 1
            };
            assert(w[i] == v[p] && w[j] == v[q]);
        }
    }
}

/// Puts a face into an ordered list, unless it is there already.
fn insert_face(list: &mut Vec<String>, face: String)
    requires
        strictly_ordered(contents(old(list)@)),
    ensures
        strictly_ordered(contents(final(list)@)),
        forall|t: Seq<char>| #[trigger]
            contents(final(list)@).contains(t) <==> contents(old(list)@).contains(t) || t == face@,
{
    let mut k: usize = list.len();
    let ghost v = contents(list@);
    while k > 0
        invariant
            k <= list@.len(),
            v == contents(list@),
            *list == *old(list),
            strictly_ordered(v),
            k < v.len() ==> text_less(face@, v[k as int]),
        decreases k,
    {
        assert(v[k - 1] == list@[k - 1]@);
        match standing(list[k - 1].as_str(), face.as_str()) {
            Standing::Before => {
                let ghost t = face@;
                proof {
                    lemma_insert(v, t, k as int);
                    lemma_contains_insert(v, t, k as int);
                }
                list.insert(k, face);
                assert(contents(list@) =~= v.insert(k as int, t));
                return;
            },
            Standing::Same => {
                assert(v.contains(face@));
                return;
            },
            Standing::After => {},
        }
        k = k - 1;
    }
    let ghost t = face@;
    proof {
        lemma_insert(v, t, 0);
        lemma_contains_insert(v, t, 0);
    }
    list.insert(0, face);
    assert(contents(list@) =~= v.insert(0, t));
}

proof fn lemma_contains_insert(v: Seq<Seq<char>>, t: Seq<char>, k: int)
    requires
        0 <= k <= v.len(),
    ensures
        forall|x: Seq<char>| #[trigger] v.insert(k, t).contains(x) <==> v.contains(x) || x == t,
{
    let w = v.insert(k, t);
    assert forall|x: Seq<char>| #[trigger] w.contains(x) <==> v.contains(x) || x == t by {
        if w.contains(x) {
            let i = choose|i: int| 0 <= i < w.len() && w[i] == x;
            if i < k {
                assert(v[i] == x);
            } else if i > k {
                assert(v[i - 1] == x);
            }
        }
        if v.contains(x) {
            let i = choose|i: int| 0 <= i < v.len() && v[i] == x;
            if i < k {
                assert(w[i] == x);
            } else {
                assert(w[i + 1] == x);
            }
        }
        assert(w[k] == t);
    }
}

/// Orders faces and drops those that occur again.
pub fn sort_faces(list: &Vec<String>) -> (r: Vec<String>)
    ensures
        strictly_ordered(contents(r@)),
        same_texts(contents(r@), contents(list@)),
{
    let mut out: Vec<String> = Vec::new();
    let mut i: usize = 0;
    assert(contents(list@.take(0)) =~= seq![]);
    assert(contents(out@) =~= seq![]);
    while i < list.len()
        invariant
            i <= list@.len(),
            strictly_ordered(contents(out@)),
            same_texts(contents(out@), contents(list@.take(i as int))),
        decreases list@.len() - i,
    {
        let ghost (before, head, next) = (
            contents(out@),
            contents(list@.take(i as int)),
            contents(list@.take(i + 1)),
        );
        insert_face(&mut out, list[i].clone());
        proof {
            let t = list@[i as int]@;
            assert(next =~= head.insert(i as int, t));
            lemma_contains_insert(head, t, i as int);
            assert forall|x: Seq<char>| #[trigger] contents(out@).contains(x) <==> next.contains(
                x,
            ) by {
                assert(before.contains(x) <==> head.contains(x));
            }
        }
        i = i + 1;
    }
    assert(list@.take(i as int) =~= list@);
    out
}

/// Ordering has one result: two ordered lists of the same faces are equal.
pub proof fn ordered_faces_are_unique(a: Seq<Seq<char>>, b: Seq<Seq<char>>)
    requires
        strictly_ordered(a),
        strictly_ordered(b),
        same_texts(a, b),
    ensures
        a == b,
    decreases a.len(),
{
    if a.len() == 0 {
        if b.len() > 0 {
            assert(b.contains(b[0]));
            assert(a.contains(b[0]));
        }
    } else if b.len() == 0 {
        assert(a.contains(a[0]));
        assert(b.contains(a[0]));
    } else {
        let (x, y) = (a.last(), b.last());
        let (n, m) = (a.len() - 1, b.len() - 1);
        assert(a[n] == x && b[m] == y);
        assert(a.contains(x) && b.contains(y));
        assert(b.contains(x) && a.contains(y));
        let i = choose|i: int| 0 <= i < b.len() && b[i] == x;
        let j = choose|j: int| 0 <= j < a.len() && a[j] == y;
        if x != y {
            assert(text_less(b[i], b[m]));
            assert(text_less(a[j], a[n]));
            lemma_trichotomy(x, y);
        }
        let (p, q) = (a.drop_last(), b.drop_last());
        assert forall|t: Seq<char>| #[trigger] p.contains(t) <==> q.contains(t) by {
            lemma_without_last(a, t);
            lemma_without_last(b, t);
            assert(a.contains(t) <==> b.contains(t));
        }
        assert forall|k: int, l: int|
            #![trigger p[k], p[l]]
            0 <= k < l < p.len() implies text_less(p[k], p[l]) by {
            assert(text_less(a[k], a[l]));
        }
        assert forall|k: int, l: int|
            #![trigger q[k], q[l]]
            0 <= k < l < q.len() implies text_less(q[k], q[l]) by {
            assert(text_less(b[k], b[l]));
        }
        ordered_faces_are_unique(p, q);
        assert(a =~= p.push(x));
        assert(b =~= q.push(y));
    }
    assert(a =~= b);
}

/// All but the last of an ordered list are the texts that are not the last.
proof fn lemma_without_last(a: Seq<Seq<char>>, t: Seq<char>)
    requires
        a.len() > 0,
        strictly_ordered(a),
    ensures
        a.drop_last().contains(t) <==> a.contains(t) && t != a.last(),
{
    let p = a.drop_last();
    let n = a.len() - 1;
    if p.contains(t) {
        let i = choose|i: int| 0 <= i < p.len() && p[i] == t;
        assert(a[i] == t);
        assert(text_less(a[i], a[n]));
        lemma_trichotomy(a[i], a[n]);
    }
    if a.contains(t) && t != a.last() {
        let i = choose|i: int| 0 <= i < a.len() && a[i] == t;
        assert(p[i] == t);
    }
}

/// The face of the icons.
pub const ICON_FACE: &'static str = "Segoe MDL2 Assets";

/// The size of the icons, in pixels.
pub const ICON_SIZE: i32 = 14;

/// Points per inch.
pub const POINTS_PER_INCH: i32 = 72;

/// A font to be created: its face, zero-terminated, and its height. A negative height is that of the
/// characters, without the leading between two lines.
pub struct FontSpec {
    pub face: Vec<u16>,
    pub height: i32,
}

impl View for FontSpec {
    type V = (Seq<u16>, int);

    open spec fn view(&self) -> (Seq<u16>, int) {
        (self.face@, self.height as int)
    }
}

/// The font of a face and a size in pixels.
pub open spec fn font_of(face: Seq<char>, px: int) -> (Seq<u16>, int) {
    (text::utf16(face).push(0), -px)
}

fn make_font(face: &str, px: i32) -> (r: FontSpec)
    requires
        px > i32::MIN,
    ensures
        r@ == font_of(face@, px as int),
{
    FontSpec { face: text::w16z(face), height: -px }
}

/// A size in points as a size in pixels, on a display of `dpi` pixels per inch: the nearest whole
/// number of pixels that a coordinate can hold.
pub open spec fn pixels_of(points: int, dpi: int) -> int {
    let px = (points * dpi + POINTS_PER_INCH / 2) / POINTS_PER_INCH as int;
    if px > i32::MAX {
        i32::MAX as int
    } else {
        px
    }
}

fn to_pixels(points: i32, dpi: u32) -> (r: i32)
    requires
        0 <= points,
    ensures
        r == pixels_of(points as int, dpi as int),
        0 <= r,
{
    assert(0 <= points * dpi <= 0x7FFF_FFFF * 0xFFFF_FFFF) by (nonlinear_arith)
        requires
            0 <= points <= 0x7FFF_FFFF,
            0 <= dpi <= 0xFFFF_FFFF,
    ;
    let px: u64 = (points as u64 * dpi as u64 + 36) / 72;
    if px > i32::MAX as u64 {
        i32::MAX
    } else {
        px as i32
    }
}

/// The fonts that the bar is drawn with on a display of `dpi` pixels per inch: the one that the
/// settings name, with its size in points, and the one of the icons.
pub fn bar_fonts(s: &Settings, dpi: u32) -> (r: (FontSpec, FontSpec))
    requires
        1 <= s@.font_size,
    ensures
        r.0@ == font_of(s@.font_face, pixels_of(s@.font_size, dpi as int)),
        r.1@ == font_of(ICON_FACE@, ICON_SIZE as int),
{
    let px: i32 = to_pixels(s.font_size, dpi);
    (make_font(s.font_face.as_str(), px), make_font(ICON_FACE, ICON_SIZE))
}

/// A larger size gives no smaller font, and at 72 pixels per inch a point is a pixel.
pub proof fn fonts_grow_with_their_size(small: int, large: int, dpi: int)
    requires
        0 <= small <= large <= i32::MAX,
        0 <= dpi,
    ensures
        0 <= pixels_of(small, dpi) <= pixels_of(large, dpi),
        pixels_of(small, POINTS_PER_INCH as int) == small,
{
    assert(0 <= small * dpi <= large * dpi) by (nonlinear_arith)
        requires
            0 <= small <= large,
            0 <= dpi,
    ;
}

proof fn lemma_name_units(field: Seq<u16>)
    ensures
        name_units(field).len() <= field.len(),
        forall|i: int| 0 <= i < name_units(field).len() ==> #[trigger] name_units(field)[i] != 0,
    decreases field.len(),
{
    if field.len() > 0 && field[0] != 0 {
        let rest = field.skip(1);
        lemma_name_units(rest);
        assert forall|i: int| 0 <= i < name_units(field).len() implies #[trigger] name_units(
            field,
        )[i] != 0 by {
            if i > 0 {
                assert(name_units(field)[i] == name_units(rest)[i - 1]);
            }
        }
    }
}

/// Every face that the settings window offers can be stored.
pub proof fn offered_faces_are_storable(field: Seq<u16>)
    requires
        field.len() == FACE_NAME_UNITS,
        offered_face(field) is Some,
    ensures
        settings::storable_face(offered_face(field)->0),
{
    lemma_name_units(field);
    text::decoded_text_fits(name_units(field));
}

/// The default face can be stored.
pub proof fn default_face_is_storable()
    ensures
        settings::storable_face(settings::DEFAULT_FONT_FACE@),
{
    let s = settings::DEFAULT_FONT_FACE@;
    reveal_strlit("Segoe UI Variable Text");
    text::encoding_at_most_doubles(s);
    assert(s =~= seq![
        'S', 'e', 'g', 'o', 'e', ' ', 'U', 'I', ' ', 'V', 'a', 'r', 'i', 'a', 'b', 'l', 'e', ' ',
        'T', 'e', 'x', 't',
    ]);
}

/// The face of the selection in the settings window: that of the offered face in `field`, or none.
pub open spec fn selection_of(field: Option<Seq<u16>>) -> Option<Seq<u16>> {
    match field {
        Some(f) => Some(text::utf16(offered_face(f)->0)),
        None => None,
    }
}

/// Whatever the user confirms in the settings window is persistent: with anything typed into its
/// fields, and with any offered face or none selected, the settings that come out are valid, and
/// saved they load again unchanged.
pub proof fn confirmed_settings_load_again(
    before: SettingsView,
    bar_h: Seq<u16>,
    field: Option<Seq<u16>>,
    size: Seq<u16>,
)
    requires
        0 <= before.monitor_idx <= u32::MAX,
        field is Some ==> field->0.len() == FACE_NAME_UNITS && offered_face(field->0) is Some,
    ensures
        ({
            let s = settings::edited(
                before,
                numbers::typed_number(text::lossy(bar_h)),
                settings::selected_face(selection_of(field)),
                numbers::typed_number(text::lossy(size)),
            );
            let v = settings::saved(s);
            &&& s.valid()
            &&& settings::storable_face(s.font_face)
            &&& field is Some ==> s.font_face == offered_face(field->0)->0
            &&& settings::loaded(Some(v[0].1), Some(v[1].1), Some(v[2].1), Some(v[3].1)) == s
        }),
{
    let s = settings::edited(
        before,
        numbers::typed_number(text::lossy(bar_h)),
        settings::selected_face(selection_of(field)),
        numbers::typed_number(text::lossy(size)),
    );
    match field {
        Some(f) => {
            let face = offered_face(f)->0;
            offered_faces_are_storable(f);
            text::encoding_at_most_doubles(face);
            text::decoding_undoes_encoding(face);
        },
        None => {
            default_face_is_storable();
        },
    }
    settings::saved_settings_load_again(s);
}

/// A name that does not begin with an at sign is offered as it is: whatever stands behind the zero
/// that ends it, and also where it fills the field.
pub proof fn names_are_offered_as_they_are(name: Seq<char>, behind: Seq<u16>)
    requires
        name.len() > 0,
        name[0] != '@',
        forall|i: int| 0 <= i < name.len() ==> #[trigger] name[i] != '\0',
    ensures
        offered_face(text::utf16(name).push(0) + behind) == Some(name),
        offered_face(text::utf16(name)) == Some(name),
{
    let u = text::utf16(name);
    lemma_no_zero_in_units(name);
    lemma_first_unit(name);
    lemma_until_zero_stops(u, behind);
    lemma_until_zero_all(u);
    text::decoding_undoes_encoding(name);
    text::encoding_at_most_doubles(name);
}

proof fn lemma_first_unit(name: Seq<char>)
    requires
        name.len() > 0,
        name[0] != '@',
    ensures
        text::utf16(name).len() > 0,
        text::utf16(name)[0] != '@' as u16,
    decreases name.len(),
{
    let first = name.take(1);
    let rest = name.skip(1);
    assert(name =~= first + rest);
    assert(first =~= seq![name[0]]);
    text::texts_are_encoded_character_by_character(first, rest, name[0]);
    lemma_unit_of(name[0]);
    assert(text::utf16(name)[0] == text::units(name[0])[0]);
}

proof fn lemma_unit_of(c: char)
    ensures
        text::units(c).len() > 0,
        c != '@' ==> text::units(c)[0] != '@' as u16,
        c != '\0' ==> forall|i: int|
            0 <= i < text::units(c).len() ==> #[trigger] text::units(c)[i] != 0,
{
}

proof fn lemma_no_zero_in_units(s: Seq<char>)
    requires
        forall|i: int| 0 <= i < s.len() ==> #[trigger] s[i] != '\0',
    ensures
        forall|i: int| 0 <= i < text::utf16(s).len() ==> #[trigger] text::utf16(s)[i] != 0,
    decreases s.len(),
{
    if s.len() > 0 {
        lemma_no_zero_in_units(s.drop_last());
        assert(s.last() != '\0');
        lemma_unit_of(s.last());
        let (head, u) = (text::utf16(s.drop_last()), text::utf16(s));
        assert forall|i: int| 0 <= i < u.len() implies #[trigger] u[i] != 0 by {
            if i < head.len() {
                assert(u[i] == head[i]);
            } else {
                assert(u[i] == text::units(s.last())[i - head.len()]);
            }
        }
    }
}

proof fn lemma_until_zero_stops(u: Seq<u16>, behind: Seq<u16>)
    requires
        forall|i: int| 0 <= i < u.len() ==> #[trigger] u[i] != 0,
    ensures
        name_units(u.push(0) + behind) == u,
    decreases u.len(),
{
    let t = u.push(0) + behind;
    if u.len() > 0 {
        assert(t[0] == u[0]);
        assert(t.skip(1) =~= u.skip(1).push(0) + behind);
        lemma_until_zero_stops(u.skip(1), behind);
        assert(name_units(t) =~= u);
    } else {
        assert(t[0] == 0);
        assert(name_units(t) =~= u);
    }
}

proof fn lemma_until_zero_all(u: Seq<u16>)
    requires
        forall|i: int| 0 <= i < u.len() ==> #[trigger] u[i] != 0,
    ensures
        name_units(u) == u,
    decreases u.len(),
{
    if u.len() > 0 {
        assert(u[0] != 0);
        lemma_until_zero_all(u.skip(1));
        assert(name_units(u) =~= u);
    } else {
        assert(name_units(u) =~= u);
    }
}

/// Names that begin with an at sign, and empty names, are not offered.
pub proof fn vertical_variants_are_not_offered(field: Seq<u16>)
    requires
        field.len() > 0,
        field[0] == 0x40 || field[0] == 0,
    ensures
        offered_face(field) is None,
{
}

/// A text comes before another one exactly where the two agree up to some place, and there it either
/// ends or has the lower code point.
pub proof fn dictionary_order_goes_by_code_points(a: Seq<char>, b: Seq<char>)
    ensures
        text_less(a, b) <==> exists|k: int| #[trigger] agrees_before_less(a, b, k),
    decreases a.len(),
{
    if a.len() > 0 && b.len() > 0 && a[0] == b[0] {
        let (p, q) = (a.skip(1), b.skip(1));
        dictionary_order_goes_by_code_points(p, q);
        if text_less(p, q) {
            let k = choose|k: int| #[trigger] agrees_before_less(p, q, k);
            assert(agrees_before_less(a, b, k + 1)) by {
                assert forall|i: int| 0 <= i < k + 1 implies #[trigger] a[i] == b[i] by {
                    if i > 0 {
                        assert(p[i - 1] == q[i - 1]);
                    }
                }
                assert(k < p.len() ==> p[k] == a[k + 1]);
                assert(q[k] == b[k + 1]);
            }
        }
        if exists|k: int| #[trigger] agrees_before_less(a, b, k) {
            let k = choose|k: int| #[trigger] agrees_before_less(a, b, k);
            assert(k > 0);
            assert(agrees_before_less(p, q, k - 1)) by {
                assert forall|i: int| 0 <= i < k - 1 implies #[trigger] p[i] == q[i] by {
                    assert(a[i + 1] == b[i + 1]);
                }
                assert(k < a.len() ==> p[k - 1] == a[k]);
                assert(q[k - 1] == b[k]);
            }
        }
    } else if b.len() > 0 {
        if text_less(a, b) {
            assert(agrees_before_less(a, b, 0));
        }
        if exists|k: int| #[trigger] agrees_before_less(a, b, k) {
            let k = choose|k: int| #[trigger] agrees_before_less(a, b, k);
            if a.len() > 0 && k > 0 {
                assert(a[0] == b[0]);
            }
        }
    }
}

/// The texts agree before place `k`, and there the first one ends or has the lower code point.
pub open spec fn agrees_before_less(a: Seq<char>, b: Seq<char>, k: int) -> bool {
    &&& 0 <= k < b.len()
    &&& k <= a.len()
    &&& forall|i: int| 0 <= i < k ==> #[trigger] a[i] == b[i]
    &&& k == a.len() || (a[k] as u32) < (b[k] as u32)
}

/// Fonts are as high as their size says: the nearest whole pixel to the size in points, and the face
/// is the one that was asked for.
pub proof fn fonts_have_their_size(face: Seq<char>, points: int, dpi: int)
    requires
        0 <= points,
        0 <= dpi,
        points * dpi <= 72 * 0x4000_0000,
    ensures
        -36 <= 72 * pixels_of(points, dpi) - points * dpi <= 36,
        font_of(face, points).0 == text::utf16(face).push(0),
        font_of(face, points).1 + points == 0,
{
    assert(0 <= points * dpi) by (nonlinear_arith)
        requires
            0 <= points,
            0 <= dpi,
    ;
}

/// Fonts are seen as they are, and so are lists of texts.
pub proof fn fonts_are_seen_as_they_are(f: FontSpec, v: Seq<String>, i: int)
    requires
        0 <= i < v.len(),
    ensures
        f@ == (f.face@, f.height as int),
        contents(v).len() == v.len(),
        contents(v)[i] == v[i]@,
{
}

} // verus!
