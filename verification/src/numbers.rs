//! Numbers as text: in decimal, as playing times, and as users type them.
use crate::text;
use vstd::arithmetic::div_mod::*;
use vstd::prelude::*;

verus! {

/// Ticks of 100 nanoseconds per second.
pub const TICKS_PER_SECOND: i64 = 10_000_000;

/// Division that cuts off the fraction, as machine integers divide.
pub open spec fn trunc_div(a: int, b: int) -> int {
    if a >= 0 {
        a / b
    } else {
        -((-a) / b)
    }
}

/// The character of a decimal digit.
pub open spec fn digit(d: int) -> char {
    (0x30 + d) as char
}

/// A number in decimal, without leading zeros.
pub open spec fn decimal(n: nat) -> Seq<char>
    decreases n,
{
    if n < 10 {
        seq![digit(n as int)]
    } else {
        decimal(n / 10).push(digit((n % 10) as int))
    }
}

/// An integer in decimal, with a minus sign where it is negative.
pub open spec fn signed_decimal(n: int) -> Seq<char> {
    if n < 0 {
        seq!['-'] + decimal((-n) as nat)
    } else {
        decimal(n as nat)
    }
}

/// A number in decimal, filled up to two digits with a zero.
pub open spec fn two_digits(n: nat) -> Seq<char> {
    if n < 10 {
        seq!['0'] + decimal(n)
    } else {
        decimal(n)
    }
}

/// Appends a number in decimal.
pub fn push_decimal(out: &mut String, n: u64)
    ensures
        final(out)@ == old(out)@ + decimal(n as nat),
    decreases n,
{
    if n >= 10 {
        push_decimal(out, n / 10);
    }
    match char::from_u32(0x30 + (n % 10) as u32) {
        Some(c) => out.push(c),
        None => {},
    }
    assert(out@ =~= old(out)@ + decimal(n as nat));
}

/// A number in decimal.
pub fn to_decimal(n: i32) -> (r: String)
    ensures
        r@ == signed_decimal(n as int),
{
    let mut out: String = String::new();
    if n < 0 {
        out.push('-');
        push_decimal(&mut out, (-(n as i64)) as u64);
    } else {
        push_decimal(&mut out, n as u64);
    }
    assert(out@ =~= signed_decimal(n as int));
    out
}

/// The whole seconds of a time in ticks. The cast to an unsigned number makes a negative count
/// wrap around.
pub open spec fn whole_seconds(t_100ns: int) -> nat {
    let s = trunc_div(t_100ns, TICKS_PER_SECOND as int);
    if s >= 0 {
        s as nat
    } else {
        (s + 0x1_0000_0000_0000_0000) as nat
    }
}

/// A time in minutes and seconds.
pub open spec fn time_text(t_100ns: int) -> Seq<char> {
    let s = whole_seconds(t_100ns);
    decimal(s / 60) + seq![':'] + two_digits(s % 60)
}

/// Formats a time in ticks as minutes and seconds.
pub fn fmt_time(t_100ns: i64) -> (r: String)
    ensures
        r@ == time_text(t_100ns as int),
{
    let q: i64 = t_100ns / TICKS_PER_SECOND;
    let s: u64 = if q >= 0 {
        q as u64
    } else {
        (q as i128 + 0x1_0000_0000_0000_0000) as u64
    };
    let mut out: String = String::new();
    push_decimal(&mut out, s / 60);
    out.push(':');
    if s % 60 < 10 {
        out.push('0');
    }
    push_decimal(&mut out, s % 60);
    assert(out@ =~= time_text(t_100ns as int));
    out
}

/// The elapsed and the total time, as the bar shows them.
pub open spec fn progress_text(pos: int, dur: int) -> Seq<char> {
    time_text(pos) + seq![' ', '/', ' '] + time_text(dur)
}

/// Formats the elapsed and the total time.
pub fn fmt_progress(pos: i64, dur: i64) -> (r: String)
    ensures
        r@ == progress_text(pos as int, dur as int),
{
    let mut out: String = fmt_time(pos);
    out.push(' ');
    out.push('/');
    out.push(' ');
    let total: String = fmt_time(dur);
    out.append(total.as_str());
    assert(out@ =~= progress_text(pos as int, dur as int));
    out
}

/// White space, as Unicode defines it.
pub open spec fn is_space(c: char) -> bool {
    let p = c as u32;
    ||| 0x09 <= p <= 0x0D
    ||| p == 0x20
    ||| p == 0x85
    ||| p == 0xA0
    ||| p == 0x1680
    ||| 0x2000 <= p <= 0x200A
    ||| p == 0x2028
    ||| p == 0x2029
    ||| p == 0x202F
    ||| p == 0x205F
    ||| p == 0x3000
}

/// A text without the white space at its start.
pub open spec fn trim_start(s: Seq<char>) -> Seq<char>
    decreases s.len(),
{
    if s.len() > 0 && is_space(s[0]) {
        trim_start(s.skip(1))
    } else {
        s
    }
}

/// A text without the white space at its end.
pub open spec fn trim_end(s: Seq<char>) -> Seq<char>
    decreases s.len(),
{
    if s.len() > 0 && is_space(s.last()) {
        trim_end(s.drop_last())
    } else {
        s
    }
}

pub open spec fn is_digit(c: char) -> bool {
    0x30 <= c as u32 <= 0x39
}

pub open spec fn all_digits(s: Seq<char>) -> bool {
    forall|i: int| 0 <= i < s.len() ==> is_digit(#[trigger] s[i])
}

/// The number that a row of digits stands for.
pub open spec fn digits_value(s: Seq<char>) -> nat
    decreases s.len(),
{
    if s.len() == 0 {
        0
    } else {
        digits_value(s.drop_last()) * 10 + (s.last() as u32 - 0x30) as nat
    }
}

/// The integer that a text stands for: an optional sign, then digits. Nothing where the text is
/// of another form, or where a 32-bit integer cannot hold the number.
pub open spec fn parsed(s: Seq<char>) -> Option<int> {
    let signed = s.len() > 0 && (s[0] == '-' || s[0] == '+');
    let digits = if signed {
        s.skip(1)
    } else {
        s
    };
    let n = if signed && s[0] == '-' {
        -(digits_value(digits) as int)
    } else {
        digits_value(digits) as int
    };
    if digits.len() > 0 && all_digits(digits) && i32::MIN <= n <= i32::MAX {
        Some(n)
    } else {
        None
    }
}

/// The integer in what a user typed, with white space around it allowed.
pub open spec fn typed_number(s: Seq<char>) -> Option<int> {
    parsed(trim_end(trim_start(s)))
}

fn is_space_char(c: char) -> (r: bool)
    ensures
        r == is_space(c),
{
    let p: u32 = c as u32;
    (0x09 <= p && p <= 0x0D) || p == 0x20 || p == 0x85 || p == 0xA0 || p == 0x1680 || (0x2000 <= p
        && p <= 0x200A) || p == 0x2028 || p == 0x2029 || p == 0x202F || p == 0x205F || p == 0x3000
}

/// Reads an integer from characters.
fn parse_chars(s: &Vec<char>, lo: usize, hi: usize) -> (r: Option<i32>)
    requires
        lo <= hi <= s@.len(),
    ensures
        r is Some == parsed(s@.subrange(lo as int, hi as int)) is Some,
        r is Some ==> r->0 == parsed(s@.subrange(lo as int, hi as int))->0,
{
    let ghost t = s@.subrange(lo as int, hi as int);
    let signed: bool = lo < hi && (s[lo] == '-' || s[lo] == '+');
    let negative: bool = lo < hi && s[lo] == '-';
    let from: usize = if signed {
        lo + 1
    } else {
        lo
    };
    let ghost digits = if signed {
        t.skip(1)
    } else {
        t
    };
    proof {
        assert(digits =~= s@.subrange(from as int, hi as int));
    }
    if from == hi {
        return None;
    }
    let mut v: i64 = 0;
    let mut i: usize = from;
    while i < hi
        invariant
            lo <= from <= i <= hi <= s@.len(),
            digits == s@.subrange(from as int, hi as int),
            t == s@.subrange(lo as int, hi as int),
            digits.len() > 0,
            signed == (t.len() > 0 && (t[0] == '-' || t[0] == '+')),
            negative == (t.len() > 0 && t[0] == '-'),
            digits == (if signed {
                t.skip(1)
            } else {
                t
            }),
            0 <= v <= 0x8000_0000,
            all_digits(digits.take(i - from)),
            v == digits_value(digits.take(i - from)),
        decreases hi - i,
    {
        let p: u32 = s[i] as u32;
        let ghost k = i - from;
        proof {
            assert(digits[k] == s@[i as int]);
            assert(digits.take(k + 1).drop_last() =~= digits.take(k));
        }
        if p < 0x30 || p > 0x39 {
            return None;
        }
        proof {
            assert forall|j: int| 0 <= j < k + 1 implies is_digit(
                #[trigger] digits.take(k + 1)[j],
            ) by {
                if j < k {
                    assert(digits.take(k)[j] == digits.take(k + 1)[j]);
                }
            }
        }
        v = v * 10 + (p - 0x30) as i64;
        if v > 0x8000_0000 {
            proof {
                lemma_value_grows(digits, k + 1);
            }
            return None;
        }
        i = i + 1;
    }
    assert(digits.take(hi - from) =~= digits);
    if negative {
        Some((-v) as i32)
    } else if v > 0x7FFF_FFFF {
        None
    } else {
        Some(v as i32)
    }
}

proof fn lemma_value_grows(s: Seq<char>, k: int)
    requires
        0 <= k <= s.len(),
    ensures
        digits_value(s.take(k)) <= digits_value(s),
    decreases s.len() - k,
{
    if k < s.len() {
        lemma_value_grows(s, k + 1);
        assert(s.take(k + 1).drop_last() =~= s.take(k));
    } else {
        assert(s.take(k) =~= s);
    }
}

/// Reads the integer that a user typed into a text field.
pub fn parse_typed(u: &[u16]) -> (r: Option<i32>)
    ensures
        r is Some == typed_number(text::lossy(u@)) is Some,
        r is Some ==> r->0 == typed_number(text::lossy(u@))->0,
{
    let s: Vec<char> = text::decode(u);
    let mut lo: usize = 0;
    assert(s@.skip(0) =~= s@);
    while lo < s.len() && is_space_char(s[lo])
        invariant
            lo <= s@.len(),
            trim_start(s@) == trim_start(s@.skip(lo as int)),
        decreases s@.len() - lo,
    {
        assert(s@.skip(lo as int).skip(1) =~= s@.skip(lo + 1));
        lo = lo + 1;
    }
    let mut hi: usize = s.len();
    let ghost body = s@.skip(lo as int);
    proof {
        assert(trim_start(body) == body);
        assert(s@.subrange(lo as int, hi as int) =~= body);
    }
    while hi > lo && is_space_char(s[hi - 1])
        invariant
            lo <= hi <= s@.len(),
            trim_end(body) == trim_end(s@.subrange(lo as int, hi as int)),
        decreases hi,
    {
        assert(s@.subrange(lo as int, hi as int).drop_last() =~= s@.subrange(lo as int, hi - 1));
        hi = hi - 1;
    }
    assert(trim_end(s@.subrange(lo as int, hi as int)) == s@.subrange(lo as int, hi as int));
    parse_chars(&s, lo, hi)
}

proof fn lemma_decimal_reads_back(n: nat)
    ensures
        decimal(n).len() > 0,
        all_digits(decimal(n)),
        digits_value(decimal(n)) == n,
    decreases n,
{
    if n < 10 {
        let s = decimal(n);
        assert(s.drop_last() =~= seq![]);
        lemma_digit(n as int);
        assert(digits_value(s.drop_last()) == 0);
    } else {
        lemma_decimal_reads_back(n / 10);
        let s = decimal(n);
        assert(s.drop_last() =~= decimal(n / 10));
        lemma_digit((n % 10) as int);
    }
}

proof fn lemma_digit(d: int)
    requires
        0 <= d < 10,
    ensures
        is_digit(digit(d)),
        digit(d) as u32 == 0x30 + d,
        !is_space(digit(d)),
        digit(d) != '-',
        digit(d) != '+',
{
}

/// A text field that shows a number reads back as that number.
pub proof fn shown_number_reads_back(n: int)
    requires
        i32::MIN <= n <= i32::MAX,
    ensures
        typed_number(signed_decimal(n)) == Some(n),
{
    let s = signed_decimal(n);
    let m: nat = if n < 0 {
        (-n) as nat
    } else {
        n as nat
    };
    lemma_decimal_reads_back(m);
    assert(is_digit(decimal(m)[0]));
    assert(is_digit(decimal(m).last()));
    assert(s.last() == decimal(m).last());
    if n < 0 {
        assert(s.skip(1) =~= decimal(m));
    }
    assert(!is_space(s[0]));
    assert(!is_space(s.last()));
    assert(trim_start(s) == s);
    assert(trim_end(s) == s);
}

/// A time that is not negative shows its whole minutes, and seconds below sixty.
pub proof fn time_shows_minutes_and_seconds(t_100ns: int)
    requires
        0 <= t_100ns,
    ensures
        ({
            let s = t_100ns / TICKS_PER_SECOND as int;
            time_text(t_100ns) == decimal((s / 60) as nat) + seq![':'] + two_digits((s % 60) as nat)
                && two_digits((s % 60) as nat).len() == 2
        }),
{
    let s = t_100ns / TICKS_PER_SECOND as int;
    lemma_div_pos_is_pos(t_100ns, TICKS_PER_SECOND as int);
    let r = (s % 60) as nat;
    if r >= 10 {
        assert(decimal(r / 10).len() == 1);
    }
}

/// White space around what a user typed does not matter.
pub proof fn white_space_does_not_matter(before: Seq<char>, s: Seq<char>, behind: Seq<char>)
    requires
        forall|i: int| 0 <= i < before.len() ==> is_space(#[trigger] before[i]),
        forall|i: int| 0 <= i < behind.len() ==> is_space(#[trigger] behind[i]),
        s.len() > 0,
        !is_space(s[0]),
        !is_space(s.last()),
    ensures
        typed_number(before + s + behind) == parsed(s),
        typed_number(s) == parsed(s),
{
    lemma_trim_start(before, s + behind);
    assert(before + s + behind =~= before + (s + behind));
    lemma_trim_end(s, behind);
    lemma_trim_end(s, seq![]);
    assert(s + seq![] =~= s);
}

proof fn lemma_trim_start(before: Seq<char>, s: Seq<char>)
    requires
        forall|i: int| 0 <= i < before.len() ==> is_space(#[trigger] before[i]),
        s.len() > 0,
        !is_space(s[0]),
    ensures
        trim_start(before + s) == s,
    decreases before.len(),
{
    let t = before + s;
    if before.len() > 0 {
        assert(t[0] == before[0]);
        assert(t.skip(1) =~= before.skip(1) + s);
        lemma_trim_start(before.skip(1), s);
    } else {
        assert(t =~= s);
    }
}

proof fn lemma_trim_end(s: Seq<char>, behind: Seq<char>)
    requires
        forall|i: int| 0 <= i < behind.len() ==> is_space(#[trigger] behind[i]),
        s.len() > 0,
        !is_space(s.last()),
    ensures
        trim_end(s + behind) == s,
    decreases behind.len(),
{
    let t = s + behind;
    if behind.len() > 0 {
        assert(t.last() == behind.last());
        assert(t.drop_last() =~= s + behind.drop_last());
        lemma_trim_end(s, behind.drop_last());
    } else {
        assert(t =~= s);
    }
}

/// Only numbers are read: a text that is read consists of decimal digits behind at most one sign,
/// and what is read fits a 32-bit integer.
pub proof fn only_numbers_are_read(s: Seq<char>)
    requires
        parsed(s) is Some,
    ensures
        s.len() > 0,
        0x30 <= s[0] as u32 <= 0x39 || ((s[0] == '-' || s[0] == '+') && s.len() > 1),
        forall|i: int| 1 <= i < s.len() ==> 0x30 <= #[trigger] s[i] as u32 <= 0x39,
        i32::MIN <= parsed(s)->0 <= i32::MAX,
        s[0] == '-' <==> parsed(s)->0 < 0 || (s[0] == '-' && parsed(s)->0 == 0),
{
    let signed = s[0] == '-' || s[0] == '+';
    assert forall|i: int| 1 <= i < s.len() implies 0x30 <= #[trigger] s[i] as u32 <= 0x39 by {
        if signed {
            assert(is_digit(s.skip(1)[i - 1]));
        } else {
            assert(is_digit(s[i]));
        }
    }
    if !signed {
        assert(is_digit(s[0]));
    } else {
        assert(s.skip(1).len() > 0);
    }
}

/// A plus sign changes nothing, a minus sign turns the number over.
pub proof fn signs_are_read(digits: Seq<char>)
    requires
        digits.len() > 0,
        forall|i: int| 0 <= i < digits.len() ==> 0x30 <= #[trigger] digits[i] as u32 <= 0x39,
        parsed(digits) is Some,
    ensures
        parsed(seq!['+'] + digits) == parsed(digits),
        parsed(seq!['-'] + digits) == Some(-parsed(digits)->0),
{
    assert(is_digit(digits[0]));
    assert((seq!['+'] + digits).skip(1) =~= digits);
    assert((seq!['-'] + digits).skip(1) =~= digits);
}

/// A time reads as clocks do: whole minutes, a colon, and the seconds of the last minute in two
/// digits, each for all times that are not negative.
pub proof fn times_read_as_clocks_do(t_100ns: int)
    requires
        0 <= t_100ns,
    ensures
        ({
            let v = time_text(t_100ns);
            let s = t_100ns / 10_000_000;
            &&& v.len() >= 4
            &&& v.take(v.len() - 3) == decimal((s / 60) as nat)
            &&& v[v.len() - 3] == ':'
            &&& v[v.len() - 2] == (0x30 + (s % 60) / 10) as char
            &&& v[v.len() - 1] == (0x30 + (s % 60) % 10) as char
        }),
{
    let v = time_text(t_100ns);
    let s = t_100ns / 10_000_000;
    let (m, r) = ((s / 60) as nat, (s % 60) as nat);
    time_shows_minutes_and_seconds(t_100ns);
    lemma_decimal_reads_back(m);
    assert(v =~= decimal(m) + seq![':'] + two_digits(r));
    assert(v.take(v.len() - 3) =~= decimal(m));
    if r >= 10 {
        assert(decimal(r / 10) =~= seq![digit((r / 10) as int)]);
        assert(two_digits(r) =~= seq![digit((r / 10) as int), digit((r % 10) as int)]);
    } else {
        assert(two_digits(r) =~= seq!['0', digit(r as int)]);
    }
}

/// Decimal digits say the number: its last digit stands last, what is left of the number before it,
/// and a number below ten is its digit.
pub proof fn digits_say_the_number(n: nat)
    ensures
        decimal(n).len() > 0,
        decimal(n).last() == (0x30 + n % 10) as char,
        n < 10 ==> decimal(n).len() == 1,
        n >= 10 ==> decimal(n).drop_last() == decimal(n / 10),
        n > 0 ==> signed_decimal(-(n as int)) == seq!['-'] + signed_decimal(n as int),
{
    if n >= 10 {
        assert(decimal(n).drop_last() =~= decimal(n / 10));
    }
}

/// The progress is the elapsed time, a slash between spaces, and the total time.
pub proof fn progress_reads_elapsed_then_total(pos: int, dur: int)
    ensures
        ({
            let (v, a, b) = (progress_text(pos, dur), time_text(pos), time_text(dur));
            &&& v.len() == a.len() + 3 + b.len()
            &&& v.take(a.len() as int) == a
            &&& v.subrange(a.len() as int, a.len() + 3int) == seq![' ', '/', ' ']
            &&& v.skip(a.len() + 3int) == b
        }),
{
    let (v, a, b) = (progress_text(pos, dur), time_text(pos), time_text(dur));
    assert(v.take(a.len() as int) =~= a);
    assert(v.subrange(a.len() as int, a.len() + 3int) =~= seq![' ', '/', ' ']);
    assert(v.skip(a.len() + 3int) =~= b);
}

/// A shown number begins and ends with something that is no white space.
pub proof fn shown_number_ends_in_digits(n: int)
    ensures
        signed_decimal(n).len() > 0,
        !is_space(signed_decimal(n)[0]),
        !is_space(signed_decimal(n).last()),
{
    let m: nat = if n < 0 {
        (-n) as nat
    } else {
        n as nat
    };
    lemma_decimal_reads_back(m);
    assert(is_digit(decimal(m)[0]));
    assert(is_digit(decimal(m).last()));
    assert(signed_decimal(n).last() == decimal(m).last());
}

/// White space is what Unicode calls so: the blank, the controls from tab to carriage return, and the
/// separators, but no letter, no digit and no sign.
pub proof fn white_space_is_what_unicode_calls_so(c: char)
    ensures
        ({
            let p = c as u32;
            let controls = 9 <= p && p <= 13;
            let quads = 8192 <= p && p <= 8202;
            let lines = p == 8232 || p == 8233;
            let single = p == 32 || p == 133 || p == 160 || p == 5760 || p == 8239 || p == 8287 || p
                == 12288;
            is_space(c) <==> controls || quads || lines || single
        }),
{
}

/// A time less than a second before the start reads as the start. An earlier one reads as a count of
/// seconds that has wrapped around at 2^64.
pub proof fn times_before_the_start_wrap_around(t_100ns: int)
    requires
        i64::MIN <= t_100ns < 0,
    ensures
        t_100ns > -10_000_000 ==> time_text(t_100ns) == time_text(0),
        t_100ns <= -10_000_000 ==> time_text(t_100ns) == time_text(
            (0x1_0000_0000_0000_0000 - (-t_100ns) / 10_000_000) * 10_000_000,
        ),
{
}

} // verus!
