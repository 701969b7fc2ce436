//! Text as the window system wants it: UTF-16.
use vstd::prelude::*;

verus! {

/// `String::push` appends one character to the end of the string.
pub assume_specification[ String::push ](s: &mut String, c: char)
    ensures
        final(s)@ == old(s)@.push(c),
;

/// `char::from_u32` gives the character with the code point `i`, and nothing where `i` is a
/// surrogate or lies beyond the last code point.
pub assume_specification[ char::from_u32 ](i: u32) -> (r: Option<char>)
    ensures
        r == (if i < 0xD800 || 0xE000 <= i <= 0x10FFFF {
            Some(i as char)
        } else {
            None
        }),
;

/// The character that stands for code units that encode none.
pub const REPLACEMENT: char = '\u{FFFD}';

/// The code units of one character: itself, or a surrogate pair.
pub open spec fn units(c: char) -> Seq<u16> {
    let p = c as u32;
    if p < 0x10000 {
        seq![p as u16]
    } else {
        seq![
            (0xD800 + (p - 0x10000) / 0x400) as u16,
            (0xDC00 + (p - 0x10000) % 0x400) as u16,
        ]
    }
}

/// A text in UTF-16.
pub open spec fn utf16(s: Seq<char>) -> Seq<u16>
    decreases s.len(),
{
    if s.len() == 0 {
        seq![]
    } else {
        utf16(s.drop_last()) + units(s.last())
    }
}

pub open spec fn is_high_surrogate(u: u16) -> bool {
    0xD800 <= u < 0xDC00
}

pub open spec fn is_low_surrogate(u: u16) -> bool {
    0xDC00 <= u < 0xE000
}

/// The character that a surrogate pair encodes.
pub open spec fn paired(hi: u16, lo: u16) -> char {
    (0x10000 + (hi - 0xD800) * 0x400 + (lo - 0xDC00)) as char
}

/// The text that code units encode, with a replacement for each surrogate that stands alone.
pub open spec fn lossy(u: Seq<u16>) -> Seq<char>
    decreases u.len(),
{
    if u.len() == 0 {
        seq![]
    } else if is_high_surrogate(u[0]) && u.len() > 1 && is_low_surrogate(u[1]) {
        seq![paired(u[0], u[1])] + lossy(u.skip(2))
    } else if is_high_surrogate(u[0]) || is_low_surrogate(u[0]) {
        seq![REPLACEMENT] + lossy(u.skip(1))
    } else {
        seq![u[0] as char] + lossy(u.skip(1))
    }
}

/// Encodes a text in UTF-16.
pub fn w16(s: &str) -> (r: Vec<u16>)
    ensures
        r@ == utf16(s@),
{
    let mut out: Vec<u16> = Vec::new();
    for c in iter: s.chars()
        invariant
            iter.seq() == s@,
            out@ == utf16(s@.take(iter.index())),
    {
        let ghost i = iter.index();
        proof {
            assert(s@.take(i + 1).drop_last() =~= s@.take(i));
        }
        let p: u32 = c as u32;
        if p < 0x10000 {
            out.push(p as u16);
        } else {
            out.push((0xD800 + (p - 0x10000) / 0x400) as u16);
            out.push((0xDC00 + (p - 0x10000) % 0x400) as u16);
        }
        assert(out@ =~= utf16(s@.take(i + 1)));
    }
    assert(s@.take(s@.len() as int) =~= s@);
    out
}

/// Encodes a text in UTF-16 and ends it with a zero, as system calls expect it.
pub fn w16z(s: &str) -> (r: Vec<u16>)
    ensures
        r@ == utf16(s@).push(0),
{
    let mut out: Vec<u16> = w16(s);
    out.push(0);
    out
}

/// Decodes UTF-16 into characters.
pub fn decode(u: &[u16]) -> (r: Vec<char>)
    ensures
        r@ == lossy(u@),
{
    let mut out: Vec<char> = Vec::new();
    let mut i: usize = 0;
    assert(u@.skip(0) =~= u@);
    while i < u.len()
        invariant
            i <= u@.len(),
            lossy(u@) == out@ + lossy(u@.skip(i as int)),
        decreases u@.len() - i,
    {
        let a: u16 = u[i];
        let ghost rest = u@.skip(i as int);
        let ghost before = out@;
        if 0xD800 <= a && a < 0xDC00 && i + 1 < u.len() && 0xDC00 <= u[i + 1] && u[i + 1] < 0xE000 {
            let b: u16 = u[i + 1];
            let p: u32 = 0x10000 + (a as u32 - 0xD800) * 0x400 + (b as u32 - 0xDC00);
            match char::from_u32(p) {
                Some(c) => out.push(c),
                None => {},
            }
            proof {
                assert(rest.skip(2) =~= u@.skip(i + 2));
                assert(out@ + lossy(u@.skip(i + 2)) =~= before + lossy(rest));
            }
            i = i + 2;
        } else {
            match char::from_u32(a as u32) {
                Some(c) => out.push(c),
                None => out.push(REPLACEMENT),
            }
            proof {
                assert(rest.skip(1) =~= u@.skip(i + 1));
                assert(out@ + lossy(u@.skip(i + 1)) =~= before + lossy(rest));
            }
            i = i + 1;
        }
    }
    assert(out@ + lossy(u@.skip(i as int)) =~= out@);
    out
}

/// Decodes UTF-16 into a string.
pub fn from_utf16_lossy(u: &[u16]) -> (r: String)
    ensures
        r@ == lossy(u@),
{
    let chars: Vec<char> = decode(u);
    let mut out: String = String::new();
    let mut i: usize = 0;
    while i < chars.len()
        invariant
            i <= chars@.len(),
            out@ == chars@.take(i as int),
        decreases chars@.len() - i,
    {
        out.push(chars[i]);
        assert(out@ =~= chars@.take(i + 1));
        i = i + 1;
    }
    assert(chars@.take(i as int) =~= chars@);
    out
}

proof fn lemma_utf16_front(s: Seq<char>)
    requires
        s.len() > 0,
    ensures
        utf16(s) == units(s[0]) + utf16(s.drop_first()),
    decreases s.len(),
{
    if s.len() == 1 {
        assert(s.drop_last() =~= seq![]);
        assert(s.drop_first() =~= seq![]);
        assert(utf16(s) =~= units(s[0]) + utf16(s.drop_first()));
    } else {
        lemma_utf16_front(s.drop_last());
        assert(s.drop_last().drop_first() =~= s.drop_first().drop_last());
        assert(utf16(s) =~= units(s[0]) + utf16(s.drop_first()));
    }
}

/// The code units of a character decode to it.
proof fn lemma_units_decode(c: char)
    ensures
        units(c).len() == 1 ==> units(c)[0] as char == c && !is_high_surrogate(units(c)[0])
            && !is_low_surrogate(units(c)[0]),
        units(c).len() == 2 ==> is_high_surrogate(units(c)[0]) && is_low_surrogate(units(c)[1])
            && paired(units(c)[0], units(c)[1]) == c,
        units(c).len() == 1 || units(c).len() == 2,
{
}

/// Decoding gives back every text that was encoded.
pub proof fn decoding_undoes_encoding(s: Seq<char>)
    ensures
        lossy(utf16(s)) == s,
    decreases s.len(),
{
    if s.len() > 0 {
        let rest = s.drop_first();
        lemma_utf16_front(s);
        decoding_undoes_encoding(rest);
        let u = utf16(s);
        lemma_units_decode(s[0]);
        if units(s[0]).len() == 1 {
            assert(u.skip(1) =~= utf16(rest));
        } else {
            assert(u.skip(2) =~= utf16(rest));
        }
        assert(lossy(u) =~= s);
    } else {
        assert(lossy(utf16(s)) =~= s);
    }
}

proof fn lemma_front(c: char, rest: Seq<char>)
    ensures
        utf16(seq![c] + rest) == units(c) + utf16(rest),
{
    let s = seq![c] + rest;
    lemma_utf16_front(s);
    assert(s.drop_first() =~= rest);
}

/// A character that a unit or a pair of units decodes to.
proof fn lemma_decoded_char(a: u16, b: u16)
    ensures
        is_high_surrogate(a) && is_low_surrogate(b) ==> paired(a, b) != '\0',
        !is_high_surrogate(a) && !is_low_surrogate(a) ==> units(a as char).len() == 1 && (a != 0
            ==> a as char != '\0'),
        units(REPLACEMENT).len() == 1,
{
}

proof fn lemma_at_most_two_units(c: char)
    ensures
        1 <= units(c).len() <= 2,
{
}

/// A text takes at most two code units per character.
pub proof fn encoding_at_most_doubles(s: Seq<char>)
    ensures
        s.len() <= utf16(s).len() <= 2 * s.len(),
    decreases s.len(),
{
    if s.len() > 0 {
        encoding_at_most_doubles(s.drop_last());
        lemma_at_most_two_units(s.last());
    }
}

/// A text that was decoded takes no more code units than it was decoded from; it is empty only if
/// they were none, and holds a zero only if they did.
pub proof fn decoded_text_fits(u: Seq<u16>)
    ensures
        utf16(lossy(u)).len() <= u.len(),
        u.len() > 0 ==> lossy(u).len() > 0,
        (forall|i: int| 0 <= i < u.len() ==> #[trigger] u[i] != 0) ==> (forall|i: int|
            0 <= i < lossy(u).len() ==> #[trigger] lossy(u)[i] != '\0'),
    decreases u.len(),
{
    if u.len() > 0 {
        let (a, b) = (u[0], u[1]);
        let pair = is_high_surrogate(a) && u.len() > 1 && is_low_surrogate(b);
        let (c, rest) = if pair {
            (paired(a, b), u.skip(2))
        } else if is_high_surrogate(a) || is_low_surrogate(a) {
            (REPLACEMENT, u.skip(1))
        } else {
            (a as char, u.skip(1))
        };
        decoded_text_fits(rest);
        lemma_front(c, lossy(rest));
        lemma_decoded_char(a, b);
        lemma_at_most_two_units(c);
        assert(lossy(u) == seq![c] + lossy(rest));
        if forall|i: int| 0 <= i < u.len() ==> #[trigger] u[i] != 0 {
            assert forall|i: int| 0 <= i < rest.len() implies #[trigger] rest[i] != 0 by {
                assert(rest[i] == u[i + (u.len() - rest.len())]);
            }
            assert forall|i: int| 0 <= i < lossy(u).len() implies #[trigger] lossy(u)[i]
                != '\0' by {
                if i > 0 {
                    assert(lossy(u)[i] == lossy(rest)[i - 1]);
                }
            }
        }
    }
}

/// A character below the supplementary ones is its own code unit; another one is a surrogate pair,
/// whose ten bits each make up its code point.
pub proof fn characters_have_their_code_units(c: char)
    ensures
        (c as u32) < 0x10000 ==> units(c).len() == 1 && units(c)[0] == c as u32,
        (c as u32) >= 0x10000 ==> {
            &&& units(c).len() == 2
            &&& 0xD800 <= units(c)[0] < 0xDC00
            &&& 0xDC00 <= units(c)[1] < 0xE000
            &&& 0x10000 + (units(c)[0] - 0xD800) * 0x400 + (units(c)[1] - 0xDC00) == c as u32
        },
{
}

/// A text is encoded character by character: the code units of two texts one behind the other are
/// those of the first and then those of the second, and those of one character are its own.
pub proof fn texts_are_encoded_character_by_character(a: Seq<char>, b: Seq<char>, c: char)
    ensures
        utf16(a + b) == utf16(a) + utf16(b),
        utf16(seq![c]) == units(c),
        utf16(seq![]) == Seq::<u16>::empty(),
    decreases b.len(),
{
    let one = seq![c];
    assert(utf16(Seq::<char>::empty()) =~= Seq::<u16>::empty());
    assert(one.drop_last() =~= Seq::<char>::empty());
    assert(one.last() == c);
    assert(utf16(one) =~= units(c));
    if b.len() == 0 {
        assert(a + b =~= a);
        assert(utf16(a) + utf16(b) =~= utf16(a));
    } else {
        texts_are_encoded_character_by_character(a, b.drop_last(), c);
        assert((a + b).drop_last() =~= a + b.drop_last());
        assert(utf16(a + b) =~= utf16(a) + utf16(b));
    }
}

/// Code units that are no surrogates decode one by one to the characters that they are.
pub proof fn plain_units_decode_one_by_one(u: Seq<u16>)
    requires
        forall|i: int| 0 <= i < u.len() ==> !(0xD800 <= #[trigger] u[i] < 0xE000),
    ensures
        lossy(u).len() == u.len(),
        forall|i: int| 0 <= i < u.len() ==> #[trigger] lossy(u)[i] == u[i] as char,
    decreases u.len(),
{
    if u.len() > 0 {
        let rest = u.skip(1);
        assert(!(0xD800 <= u[0] < 0xE000));
        assert forall|i: int| 0 <= i < rest.len() implies !(0xD800 <= #[trigger] rest[i]
            < 0xE000) by {
            assert(rest[i] == u[i + 1]);
        }
        plain_units_decode_one_by_one(rest);
        assert(lossy(u) == seq![u[0] as char] + lossy(rest));
        assert forall|i: int| 0 <= i < u.len() implies #[trigger] lossy(u)[i] == u[i] as char by {
            if i > 0 {
                assert(lossy(u)[i] == lossy(rest)[i - 1]);
                assert(rest[i - 1] == u[i]);
            }
        }
    }
}

/// A surrogate that stands alone is replaced, whatever follows it; a pair decodes to one character,
/// and what follows decodes by itself.
pub proof fn lone_surrogates_are_replaced(u: Seq<u16>)
    requires
        u.len() > 0,
    ensures
        0xD800 <= u[0] < 0xDC00 && (u.len() == 1 || !(0xDC00 <= u[1] < 0xE000)) ==> lossy(u)
            == seq!['\u{FFFD}'] + lossy(u.skip(1)),
        0xDC00 <= u[0] < 0xE000 ==> lossy(u) == seq!['\u{FFFD}'] + lossy(u.skip(1)),
        0xD800 <= u[0] < 0xDC00 && u.len() > 1 && 0xDC00 <= u[1] < 0xE000 ==> lossy(u) == seq![
            (0x10000 + (u[0] - 0xD800) * 0x400 + (u[1] - 0xDC00)) as char,
        ] + lossy(u.skip(2)),
        !(0xD800 <= u[0] < 0xE000) ==> lossy(u) == seq![u[0] as char] + lossy(u.skip(1)),
{
}

} // verus!
