//! The seek bar: how far its track is filled, and where a drag along it leads.
//!
//! While the user drags, the seek position is the pointer's offset along the track, in pixels from
//! its left end. As a fraction of the track it is that offset divided by the track's width, in
//! double precision; the fill and the seek target are products of that fraction.
use crate::binary64;
use crate::binary64::{Double, Value};
use crate::layout::SEEK_W;
use vstd::arithmetic::div_mod::*;
use vstd::arithmetic::mul::*;
use vstd::prelude::*;

verus! {

/// The fraction of the track that lies left of an offset.
pub open spec fn drag_fraction(offset: nat) -> Value {
    binary64::quotient(binary64::of_nat(offset), binary64::of_nat(SEEK_W as nat))
}

/// The fraction of a track of length `dur` that has been played at `pos`.
pub open spec fn played_fraction(pos: nat, dur: nat) -> Value {
    binary64::quotient(binary64::of_nat(pos), binary64::of_nat(dur))
}

/// The pixels of the track that a fraction fills.
pub open spec fn fill_of(fraction: Value) -> nat {
    binary64::product(binary64::of_nat(SEEK_W as nat), fraction).floor()
}

/// The playback position that a drag to `offset` stands for, in a track of length `dur`.
pub open spec fn target_of(dur: nat, offset: nat) -> nat {
    binary64::product(binary64::of_nat(dur), drag_fraction(offset)).floor()
}

/// The fill for a position before the start is as long, to the left.
pub open spec fn played_fill_of(pos: int, dur: nat) -> int {
    if pos >= 0 {
        fill_of(played_fraction(pos as nat, dur)) as int
    } else {
        -(fill_of(played_fraction((-pos) as nat, dur)) as int)
    }
}

/// The quotient of two integers in double precision.
fn ratio(n: u64, d: u64) -> (r: Double)
    requires
        d > 0,
    ensures
        r@ == binary64::quotient(binary64::of_nat(n as nat), binary64::of_nat(d as nat)),
        r@.sig != 0 ==> 900 <= r@.exp <= 1100,
{
    Double::from_u64(n).quotient(Double::from_u64(d))
}

/// The position to seek to when a drag ends at `offset`, in a track of length `dur`.
pub fn seek_target(dur: i64, offset: i32) -> (r: i64)
    requires
        dur > 0,
        0 <= offset <= SEEK_W,
    ensures
        target_of(dur as nat, offset as nat) <= i64::MAX ==> r == target_of(
            dur as nat,
            offset as nat,
        ),
        target_of(dur as nat, offset as nat) > i64::MAX ==> r == i64::MAX,
{
    let t: u64 = Double::from_u64(dur as u64).product(ratio(offset as u64, SEEK_W as u64)).truncate();
    if t > i64::MAX as u64 {
        i64::MAX
    } else {
        t as i64
    }
}

/// The width of the fill while the user drags at `offset`.
pub fn drag_fill(offset: i32) -> (r: i32)
    requires
        0 <= offset <= SEEK_W,
    ensures
        r == fill_of(drag_fraction(offset as nat)),
        0 <= r <= SEEK_W,
{
    proof {
        drag_fill_stays_on_track(offset as nat);
    }
    let fraction: Double = ratio(offset as u64, SEEK_W as u64);
    Double::from_u64(SEEK_W as u64).product(fraction).truncate() as i32
}

/// The width of the fill at position `pos` in a track of length `dur`. A position before the
/// start gives a negative width.
pub fn played_fill(pos: i64, dur: i64) -> (r: i32)
    requires
        dur > 0,
    ensures
        i32::MIN <= played_fill_of(pos as int, dur as nat) <= i32::MAX ==> r == played_fill_of(
            pos as int,
            dur as nat,
        ),
        played_fill_of(pos as int, dur as nat) > i32::MAX ==> r == i32::MAX,
        played_fill_of(pos as int, dur as nat) < i32::MIN ==> r == i32::MIN,
{
    let size: u64 = if pos >= 0 {
        pos as u64
    } else {
        (-(pos as i128)) as u64
    };
    let fraction: Double = ratio(size, dur as u64);
    let t: u64 = Double::from_u64(SEEK_W as u64).product(fraction).truncate();
    if pos >= 0 {
        if t > i32::MAX as u64 {
            i32::MAX
        } else {
            t as i32
        }
    } else if t > i32::MAX as u64 {
        i32::MIN
    } else {
        -(t as i32)
    }
}

proof fn lemma_fraction(n: nat, d: nat)
    requires
        0 < d,
        n <= d <= u64::MAX,
    ensures
        played_fraction(n, d).quanta() <= binary64::one().quanta(),
        played_fraction(n, d).normal(),
        played_fraction(n, d).quanta() == 0 <==> n == 0,
        n > 0 ==> played_fraction(n, d).quanta() >= binary64::SIG_MIN,
{
    let (a, b) = (binary64::of_nat(n), binary64::of_nat(d));
    binary64::one_is_unit();
    binary64::of_nat_keeps_order(n, d);
    binary64::of_nat_keeps_order(d, d);
    binary64::quotient_of_equals(b);
    if n == 0 {
        binary64::of_nat_exact(0);
        lemma_mul_by_zero_is_zero(binary64::unit() as int);
        lemma_mul_by_zero_is_zero(vstd::arithmetic::power2::pow2(0) as int);
    } else {
        binary64::of_nat_keeps_order(d, 0x1_0000_0000_0000_0000);
        lemma_wide_bound();
        assert(binary64::SIG_MIN * b.quanta() <= a.quanta() * binary64::unit())
            by (nonlinear_arith)
            requires
                b.quanta() <= 0x1_0000_0000_0000_0000 * binary64::unit(),
                a.quanta() >= binary64::unit(),
                binary64::unit() >= 0x1_0000_0000_0000_0000 * 0x1_0000_0000_0000_0000,
        ;
        binary64::rounding_is_normal(a.quanta() * binary64::unit(), b.quanta());
        binary64::quotient_keeps_order(a, b, b);
    }
}

/// 2^64 is a double.
proof fn lemma_wide_bound()
    ensures
        binary64::of_nat(0x1_0000_0000_0000_0000).quanta() == 0x1_0000_0000_0000_0000
            * binary64::unit(),
{
    vstd::arithmetic::power2::lemma2_to64();
    let v = Value { sig: binary64::SIG_MIN as nat, exp: 1086 };
    vstd::arithmetic::power2::lemma_pow2_adds(12, 1074);
    assert(v.quanta() == 0x1_0000_0000_0000_0000 * binary64::unit()) by (nonlinear_arith)
        requires
            v.quanta() == binary64::SIG_MIN * vstd::arithmetic::power2::pow2(1086),
            vstd::arithmetic::power2::pow2(1086) == 0x1000 * binary64::unit(),
    ;
    binary64::rounding_keeps_doubles(v, 1);
}

/// A double times a fraction of at most one stays at most itself.
proof fn lemma_part(whole: nat, f: Value)
    requires
        0 < whole <= u64::MAX,
        f.normal(),
        f.quanta() <= binary64::one().quanta(),
        f.quanta() == 0 || f.quanta() >= binary64::SIG_MIN,
    ensures
        binary64::product(binary64::of_nat(whole), f).quanta() <= binary64::of_nat(whole).quanta(),
{
    let a = binary64::of_nat(whole);
    binary64::of_nat_keeps_order(whole, whole);
    lemma_scaled_enough(a.quanta(), f.quanta());
    binary64::product_keeps_order(a, f, binary64::one());
    binary64::product_with_one(a);
}

proof fn lemma_scaled_enough(a: nat, f: nat)
    requires
        a >= binary64::unit(),
        f == 0 || f >= binary64::SIG_MIN,
    ensures
        a * f == 0 || binary64::SIG_MIN * binary64::unit() <= a * f,
{
    if f == 0 {
        lemma_mul_by_zero_is_zero(a as int);
    } else {
        assert(binary64::SIG_MIN * binary64::unit() <= a * f) by (nonlinear_arith)
            requires
                a >= binary64::unit(),
                f >= binary64::SIG_MIN,
        ;
    }
}

/// While the user drags, the fill never leaves the track.
pub proof fn drag_fill_stays_on_track(offset: nat)
    requires
        offset <= SEEK_W,
    ensures
        fill_of(drag_fraction(offset)) <= SEEK_W,
{
    played_fill_stays_on_track(offset, SEEK_W as nat);
}

/// Between the start and the end of what plays, the fill lies on the track.
pub proof fn played_fill_stays_on_track(pos: nat, dur: nat)
    requires
        0 < dur <= i64::MAX,
        pos <= dur,
    ensures
        0 <= played_fill_of(pos as int, dur) <= SEEK_W,
{
    let f = played_fraction(pos, dur);
    lemma_fraction(pos, dur);
    lemma_part(SEEK_W as nat, f);
    binary64::one_is_unit();
    binary64::of_nat_exact(SEEK_W as nat);
    lemma_mul_is_distributive_add_other_way(binary64::unit() as int, SEEK_W as int, 1);
    binary64::floor_bounds(
        binary64::product(binary64::of_nat(SEEK_W as nat), f),
        SEEK_W as nat,
    );
}

/// At the start the track is empty, at the end it is full.
pub proof fn played_fill_at_the_ends(dur: nat)
    requires
        0 < dur <= i64::MAX,
    ensures
        played_fill_of(0, dur) == 0,
        played_fill_of(dur as int, dur) == SEEK_W,
{
    let a = binary64::of_nat(SEEK_W as nat);
    binary64::one_is_unit();
    binary64::of_nat_exact(SEEK_W as nat);
    binary64::of_nat_keeps_order(SEEK_W as nat, SEEK_W as nat);
    binary64::of_nat_keeps_order(dur, dur);
    binary64::quotient_of_equals(binary64::of_nat(dur));
    binary64::product_with_one(a);
    lemma_mul_is_distributive_add_other_way(binary64::unit() as int, SEEK_W as int, 1);
    binary64::floor_bounds(a, SEEK_W as nat);
    lemma_fraction(0, dur);
    lemma_zero_part(SEEK_W as nat, played_fraction(0, dur));
}

proof fn lemma_zero_part(whole: nat, f: Value)
    requires
        f.quanta() == 0,
    ensures
        binary64::product(binary64::of_nat(whole), f).floor() == 0,
{
    let p = binary64::product(binary64::of_nat(whole), f);
    binary64::one_is_unit();
    lemma_mul_by_zero_is_zero(binary64::of_nat(whole).quanta() as int);
    lemma_mul_by_zero_is_zero(vstd::arithmetic::power2::pow2(0) as int);
    binary64::floor_bounds(p, 0);
}

/// A drag short of the right end leads to a position inside what plays. So does a drag to the right
/// end, for every length that its double does not exceed: among them all lengths below 2^53.
pub proof fn target_stays_inside(dur: nat, offset: nat)
    requires
        0 < dur <= i64::MAX,
        offset <= SEEK_W,
        offset < SEEK_W || binary64::of_nat(dur).quanta() <= dur * binary64::unit(),
    ensures
        0 <= target_of(dur, offset) <= dur,
{
    let f = drag_fraction(offset);
    let p = binary64::product(binary64::of_nat(dur), f);
    lemma_fraction(offset, SEEK_W as nat);
    if offset == 0 {
        lemma_zero_part(dur, f);
    } else {
        if offset < SEEK_W {
            lemma_short_of_the_end(dur, offset);
        } else {
            lemma_part(dur, f);
        }
        binary64::one_is_unit();
        lemma_mul_is_distributive_add_other_way(binary64::unit() as int, dur as int, 1);
        binary64::floor_bounds(p, dur);
    }
}

/// Short of the right end, rounding three times does not make up for the missing pixel.
proof fn lemma_short_of_the_end(dur: nat, offset: nat)
    requires
        0 < dur <= i64::MAX,
        0 < offset < SEEK_W,
    ensures
        binary64::product(binary64::of_nat(dur), drag_fraction(offset)).quanta() <= dur
            * binary64::unit(),
{
    let u = binary64::unit() as int;
    let p = binary64::product(binary64::of_nat(dur), drag_fraction(offset)).quanta() as int;
    let (e, n, d) = (binary64::SIG_END as int, offset as int, dur as int);
    binary64::one_is_unit();
    lemma_target_bounds(dur, offset);
    assert(p <= d * u) by (nonlinear_arith)
        requires
            e == 0x20_0000_0000_0000,
            360 * (e * e * e) * p <= ((e + 1) * (e + 1) * (e + 1)) * (d * n * u),
            0 < n <= 359,
            0 < d,
            0 < u,
    {
        let (big, cube) = (e * e * e, (e + 1) * (e + 1) * (e + 1));
        assert(359 * cube <= 360 * big);
        lemma_mul_inequality(n, 359, d * u);
        assert(d * n * u == n * (d * u)) by (nonlinear_arith);
        lemma_mul_inequality(d * n * u, 359 * (d * u), cube);
        assert(cube * (359 * (d * u)) == (359 * cube) * (d * u)) by (nonlinear_arith);
        lemma_mul_strictly_positive(d, u);
        lemma_mul_inequality(359 * cube, 360 * big, d * u);
        if p > d * u {
            lemma_mul_strict_inequality(d * u, p, 360 * big);
        }
    }
}

/// Dragging to the right never seeks to an earlier position.
pub proof fn target_follows_the_pointer(dur: nat, left: nat, right: nat)
    requires
        0 < dur <= i64::MAX,
        left <= right <= SEEK_W,
    ensures
        target_of(dur, left) <= target_of(dur, right),
{
    let a = binary64::of_nat(dur);
    let (w, l, r) = (
        binary64::of_nat(SEEK_W as nat),
        binary64::of_nat(left),
        binary64::of_nat(right),
    );
    binary64::one_is_unit();
    binary64::of_nat_keeps_order(dur, dur);
    binary64::of_nat_keeps_order(left, right);
    binary64::of_nat_exact(SEEK_W as nat);
    binary64::of_nat_exact(left);
    lemma_fraction(left, SEEK_W as nat);
    lemma_fraction(right, SEEK_W as nat);
    if left > 0 {
        assert(binary64::SIG_MIN * w.quanta() <= l.quanta() * binary64::unit())
            by (nonlinear_arith)
            requires
                w.quanta() == 360 * binary64::unit(),
                l.quanta() >= binary64::unit(),
                binary64::unit() >= 0x1_0000_0000_0000_0000 * 0x1_0000_0000_0000_0000,
        ;
    }
    binary64::quotient_keeps_order(l, w, r);
    lemma_scaled_enough(a.quanta(), drag_fraction(left).quanta());
    binary64::product_keeps_order(a, drag_fraction(left), drag_fraction(right));
    binary64::floor_keeps_order(
        binary64::product(a, drag_fraction(left)),
        binary64::product(a, drag_fraction(right)),
    );
}

/// The left end of the track is the start of what plays. The right end is its end, as near as a
/// double comes: exactly, for all lengths below 2^53.
pub proof fn target_at_the_ends(dur: nat)
    requires
        0 < dur <= i64::MAX,
    ensures
        target_of(dur, 0) == 0,
        target_of(dur, SEEK_W as nat) == binary64::of_nat(dur).floor(),
        dur < binary64::SIG_END ==> target_of(dur, SEEK_W as nat) == dur,
{
    let a = binary64::of_nat(dur);
    binary64::one_is_unit();
    binary64::of_nat_keeps_order(dur, dur);
    binary64::of_nat_keeps_order(SEEK_W as nat, SEEK_W as nat);
    binary64::quotient_of_equals(binary64::of_nat(SEEK_W as nat));
    binary64::product_with_one(a);
    if dur < binary64::SIG_END {
        binary64::of_nat_exact(dur);
        lemma_mul_is_distributive_add_other_way(binary64::unit() as int, dur as int, 1);
        binary64::floor_bounds(a, dur);
    }
    lemma_fraction(0, SEEK_W as nat);
    lemma_zero_part(dur, drag_fraction(0));
}

proof fn lemma_target_bounds(dur: nat, offset: nat)
    requires
        0 < dur <= i64::MAX,
        0 < offset <= SEEK_W,
    ensures
        ({
            let (e, u) = (binary64::SIG_END as int, binary64::unit() as int);
            let p = binary64::product(binary64::of_nat(dur), drag_fraction(offset)).quanta() as int;
            &&& 360 * (e * e * e) * p <= ((e + 1) * (e + 1) * (e + 1)) * (dur * offset * u)
            &&& ((e - 1) * (e - 1) * (e - 1)) * (dur * offset * u) <= 360 * (e * e * e) * p
        }),
{
    binary64::share_error_bound(dur, offset, SEEK_W as nat);
}

/// A drag leads to the share of what plays that lies left of the pointer: to the tick before, but
/// for an error of one part in 2^51.
pub proof fn target_is_the_pointers_share(dur: nat, offset: nat)
    requires
        0 < dur <= i64::MAX,
        offset <= SEEK_W,
    ensures
        0x8_0000_0000_0000 * (SEEK_W * target_of(dur, offset)) <= 0x8_0000_0000_0001 * (dur
            * offset),
        0x7_FFFF_FFFF_FFFF * (dur * offset) < 0x8_0000_0000_0000 * (SEEK_W * (target_of(
            dur,
            offset,
        ) + 1)),
{
    let (e, u) = (binary64::SIG_END as int, binary64::unit() as int);
    let p = binary64::product(binary64::of_nat(dur), drag_fraction(offset)).quanta() as int;
    let (t, s) = (target_of(dur, offset) as int, (dur * offset) as int);
    binary64::one_is_unit();
    if offset == 0 {
        lemma_fraction(0, SEEK_W as nat);
        lemma_zero_part(dur, drag_fraction(0));
        lemma_mul_by_zero_is_zero(dur as int);
    } else {
        lemma_target_bounds(dur, offset);
        lemma_fundamental_div_mod(p, u);
        lemma_mod_bound(p, u);
        lemma_mul_strictly_positive(dur as int, offset as int);
        let (big, hi, lo) = (
            360 * (e * e * e),
            (e + 1) * (e + 1) * (e + 1),
            (e - 1) * (e - 1) * (e - 1),
        );
        assert(t * u <= p < (t + 1) * u) by (nonlinear_arith)
            requires
                p == u * t + p % u,
                0 <= p % u < u,
        ;
        assert(0 < big) by (nonlinear_arith)
            requires
                big == 360 * (e * e * e),
                e == 0x20_0000_0000_0000,
        ;
        assert((big * t) * u <= (hi * s) * u && (lo * s) * u < (big * (t + 1)) * u)
            by (nonlinear_arith)
            requires
                0 < big,
                t * u <= p < (t + 1) * u,
                big * p <= hi * (s * u),
                lo * (s * u) <= big * p,
        ;
        lemma_mul_inequality_converse(big * t, hi * s, u);
        lemma_mul_strict_inequality_converse(lo * s, big * (t + 1), u);
        let c = e * e * e;
        assert(0x8_0000_0000_0000 * hi <= 0x8_0000_0000_0001 * c && 0x7_FFFF_FFFF_FFFF * c
            <= 0x8_0000_0000_0000 * lo && 0 < c) by (nonlinear_arith)
            requires
                e == 0x20_0000_0000_0000,
                c == e * e * e,
                hi == (e + 1) * (e + 1) * (e + 1),
                lo == (e - 1) * (e - 1) * (e - 1),
        ;
        assert(c * (0x8_0000_0000_0000 * (360 * t)) <= c * (0x8_0000_0000_0001 * s))
            by (nonlinear_arith)
            requires
                big == 360 * c,
                big * t <= hi * s,
                0x8_0000_0000_0000 * hi <= 0x8_0000_0000_0001 * c,
                0 < s,
        ;
        assert(c * (0x7_FFFF_FFFF_FFFF * s) < c * (0x8_0000_0000_0000 * (360 * (t + 1))))
            by (nonlinear_arith)
            requires
                big == 360 * c,
                lo * s < big * (t + 1),
                0x7_FFFF_FFFF_FFFF * c <= 0x8_0000_0000_0000 * lo,
                0 < s,
        ;
        lemma_mul_is_commutative(c, 0x8_0000_0000_0000 * (360 * t));
        lemma_mul_is_commutative(c, 0x8_0000_0000_0001 * s);
        lemma_mul_is_commutative(c, 0x7_FFFF_FFFF_FFFF * s);
        lemma_mul_is_commutative(c, 0x8_0000_0000_0000 * (360 * (t + 1)));
        lemma_mul_inequality_converse(
            0x8_0000_0000_0000 * (360 * t),
            0x8_0000_0000_0001 * s,
            c,
        );
        lemma_mul_strict_inequality_converse(
            0x7_FFFF_FFFF_FFFF * s,
            0x8_0000_0000_0000 * (360 * (t + 1)),
            c,
        );
    }
}

proof fn lemma_fill_bounds(pos: nat, dur: nat)
    requires
        0 < pos <= dur <= i64::MAX,
    ensures
        ({
            let (e, u) = (binary64::SIG_END as int, binary64::unit() as int);
            let p = binary64::product(
                binary64::of_nat(SEEK_W as nat),
                played_fraction(pos, dur),
            ).quanta() as int;
            &&& (e * e * (e - 1)) * (dur * p) <= ((e + 1) * (e + 1) * (e + 1)) * (360 * pos * u)
            &&& ((e - 1) * (e - 1) * (e - 1)) * (360 * pos * u) <= (e * e * (e + 1)) * (dur * p)
        }),
{
    let u = binary64::unit() as int;
    let (a, b) = (binary64::of_nat(pos).quanta() as int, binary64::of_nat(dur).quanta() as int);
    let f = played_fraction(pos, dur).quanta() as int;
    let w = binary64::of_nat(SEEK_W as nat).quanta() as int;
    let p = binary64::product(
        binary64::of_nat(SEEK_W as nat),
        played_fraction(pos, dur),
    ).quanta() as int;
    let e = binary64::SIG_END as int;
    let (hi, lo) = (e + 1, e - 1);
    binary64::one_is_unit();
    binary64::of_nat_exact(SEEK_W as nat);
    binary64::of_nat_keeps_order(pos, dur);
    binary64::of_nat_keeps_order(dur, dur);
    binary64::of_nat_keeps_order(dur, 0x1_0000_0000_0000_0000);
    lemma_wide_bound();
    lemma_fraction(pos, dur);
    assert(binary64::SIG_MIN * 1 <= pos * u && binary64::SIG_MIN * 1 <= dur * u
        && binary64::SIG_MIN * b <= a * u && w >= u) by (nonlinear_arith)
        requires
            pos >= 1,
            dur >= 1,
            w == 360 * u,
            b <= 0x1_0000_0000_0000_0000 * u,
            a >= u,
            u >= 0x1_0000_0000_0000_0000 * 0x1_0000_0000_0000_0000,
    ;
    binary64::rounding_error_bound((pos * u) as nat, 1);
    binary64::rounding_error_bound((dur * u) as nat, 1);
    binary64::rounding_error_bound((a * u) as nat, b as nat);
    lemma_scaled_enough(w as nat, f as nat);
    lemma_mul_strictly_positive(w, f);
    binary64::rounding_error_bound((w * f) as nat, u as nat);
    let (x, y) = (pos * u, dur * u);
    assert(e * a <= hi * x && lo * x <= e * a && e * b <= hi * y && lo * y <= e * b)
        by (nonlinear_arith)
        requires
            e * (a * 1) <= e * x + x,
            e * x <= e * (a * 1) + x,
            e * (b * 1) <= e * y + y,
            e * y <= e * (b * 1) + y,
            hi == e + 1,
            lo == e - 1,
    ;
    let (fb, au) = (f * b, a * u);
    assert(e * fb <= hi * au && lo * au <= e * fb) by (nonlinear_arith)
        requires
            e * fb <= e * au + au,
            e * au <= e * fb + au,
            hi == e + 1,
            lo == e - 1,
    ;
    assert((e * p) * u <= (hi * (360 * f)) * u && (lo * (360 * f)) * u <= (e * p) * u)
        by (nonlinear_arith)
        requires
            e * (p * u) <= e * (w * f) + w * f,
            e * (w * f) <= e * (p * u) + w * f,
            w == 360 * u,
            hi == e + 1,
            lo == e - 1,
    ;
    lemma_mul_inequality_converse(e * p, hi * (360 * f), u);
    lemma_mul_inequality_converse(lo * (360 * f), e * p, u);
    // The quotient against the exact length.
    let df = dur * f;
    assert((lo * df) * u <= (hi * a) * u && (lo * a) * u <= (hi * df) * u) by (nonlinear_arith)
        requires
            lo * y <= e * b <= hi * y,
            e * fb <= hi * au,
            lo * au <= e * fb,
            fb == f * b,
            au == a * u,
            y == dur * u,
            df == dur * f,
            0 <= f,
    {
        lemma_mul_inequality(lo * y, e * b, f);
        lemma_mul_inequality(e * b, hi * y, f);
        assert((e * b) * f == e * fb) by (nonlinear_arith)
            requires
                fb == f * b,
        ;
        assert((lo * y) * f == (lo * df) * u && (hi * y) * f == (hi * df) * u)
            by (nonlinear_arith)
            requires
                y == dur * u,
                df == dur * f,
        ;
        assert(hi * au == (hi * a) * u && lo * au == (lo * a) * u) by (nonlinear_arith)
            requires
                au == a * u,
        ;
    }
    lemma_mul_inequality_converse(lo * df, hi * a, u);
    lemma_mul_inequality_converse(lo * a, hi * df, u);
    // Both against the exact position.
    assert(e * (lo * df) <= (hi * hi) * x && (lo * lo) * x <= e * (hi * df)) by (nonlinear_arith)
        requires
            lo * df <= hi * a,
            lo * a <= hi * df,
            e * a <= hi * x,
            lo * x <= e * a,
            0 < e,
            0 < lo,
            0 < hi,
    {
        lemma_mul_inequality(lo * df, hi * a, e);
        lemma_mul_inequality(lo * a, hi * df, e);
        lemma_mul_inequality(e * a, hi * x, hi);
        lemma_mul_inequality(lo * x, e * a, lo);
        assert((hi * a) * e == (e * a) * hi && (lo * a) * e == (e * a) * lo) by (nonlinear_arith);
        assert((hi * x) * hi == (hi * hi) * x && (lo * x) * lo == (lo * lo) * x)
            by (nonlinear_arith);
        assert((lo * df) * e == e * (lo * df) && (hi * df) * e == e * (hi * df))
            by (nonlinear_arith);
    }
    let dp = dur * p;
    let s = 360 * pos * u;
    lemma_mul_is_associative(360, pos as int, u);
    assert(e * dp <= hi * (360 * df) && lo * (360 * df) <= e * dp) by (nonlinear_arith)
        requires
            e * p <= hi * (360 * f),
            lo * (360 * f) <= e * p,
            dp == dur * p,
            df == dur * f,
            0 < dur,
    {
        lemma_mul_inequality(e * p, hi * (360 * f), dur as int);
        lemma_mul_inequality(lo * (360 * f), e * p, dur as int);
        assert((e * p) * dur == e * dp && (hi * (360 * f)) * dur == hi * (360 * df) && (lo * (360
            * f)) * dur == lo * (360 * df)) by (nonlinear_arith)
            requires
                dp == dur * p,
                df == dur * f,
        ;
    }
    assert((e * e * lo) * dp <= (hi * hi * hi) * s && (lo * lo * lo) * s <= (e * e * hi) * dp)
        by (nonlinear_arith)
        requires
            e * dp <= hi * (360 * df),
            lo * (360 * df) <= e * dp,
            e * (lo * df) <= (hi * hi) * x,
            (lo * lo) * x <= e * (hi * df),
            s == 360 * x,
            0 < e,
            0 < lo,
            0 < hi,
    {
        let (el, eh) = (e * lo, e * hi);
        lemma_mul_strictly_positive(e, lo);
        lemma_mul_strictly_positive(e, hi);
        lemma_mul_inequality(e * dp, hi * (360 * df), el);
        lemma_mul_inequality(lo * (360 * df), e * dp, eh);
        lemma_mul_inequality(e * (lo * df), (hi * hi) * x, 360 * hi);
        lemma_mul_inequality((lo * lo) * x, e * (hi * df), 360 * lo);
        assert((e * dp) * el == (e * e * lo) * dp && (e * dp) * eh == (e * e * hi) * dp)
            by (nonlinear_arith)
            requires
                el == e * lo,
                eh == e * hi,
        ;
        assert((hi * (360 * df)) * el == (e * (lo * df)) * (360 * hi)) by (nonlinear_arith)
            requires
                el == e * lo,
        ;
        assert((lo * (360 * df)) * eh == (e * (hi * df)) * (360 * lo)) by (nonlinear_arith)
            requires
                eh == e * hi,
        ;
        assert(((hi * hi) * x) * (360 * hi) == (hi * hi * hi) * s) by (nonlinear_arith)
            requires
                s == 360 * x,
        ;
        assert(((lo * lo) * x) * (360 * lo) == (lo * lo * lo) * s) by (nonlinear_arith)
            requires
                s == 360 * x,
        ;
    }
}

/// The fill shows the share of the track that has been played, within a pixel.
pub proof fn fill_shows_the_played_share(pos: nat, dur: nat)
    requires
        0 < dur <= i64::MAX,
        pos <= dur,
    ensures
        played_fill_of(pos as int, dur) * dur < SEEK_W * pos + dur,
        SEEK_W * pos < (played_fill_of(pos as int, dur) + 2) * dur,
{
    let (e, u) = (binary64::SIG_END as int, binary64::unit() as int);
    let p = binary64::product(
        binary64::of_nat(SEEK_W as nat),
        played_fraction(pos, dur),
    ).quanta() as int;
    let fill = played_fill_of(pos as int, dur);
    if pos == 0 {
        played_fill_at_the_ends(dur);
    } else {
        binary64::one_is_unit();
        lemma_fill_bounds(pos, dur);
        lemma_fundamental_div_mod(p, u);
        lemma_mod_bound(p, u);
        let (d, s) = (dur as int, 360 * pos as int);
        let (under, over) = (e * e * (e - 1), e * e * (e + 1));
        let (hi, lo) = ((e + 1) * (e + 1) * (e + 1), (e - 1) * (e - 1) * (e - 1));
        assert(fill * u <= p < (fill + 1) * u) by (nonlinear_arith)
            requires
                p == u * fill + p % u,
                0 <= p % u < u,
        ;
        assert(0 < under < over) by (nonlinear_arith)
            requires
                e == 0x20_0000_0000_0000,
                under == e * e * (e - 1),
                over == e * e * (e + 1),
        ;
        assert((under * (d * fill)) * u <= (hi * s) * u && (lo * s) * u < (over * (d * (fill + 1)))
            * u) by (nonlinear_arith)
            requires
                fill * u <= p < (fill + 1) * u,
                under * (d * p) <= hi * (s * u),
                lo * (s * u) <= over * (d * p),
                0 < under < over,
                0 < d,
        {
            lemma_mul_inequality(fill * u, p, d);
            lemma_mul_strict_inequality(p, (fill + 1) * u, d);
            lemma_mul_inequality((fill * u) * d, p * d, under);
            lemma_mul_strict_inequality(p * d, ((fill + 1) * u) * d, over);
            assert(((fill * u) * d) * under == (under * (d * fill)) * u && (p * d) * under == under
                * (d * p) && (p * d) * over == over * (d * p) && (((fill + 1) * u) * d) * over == (
            over * (d * (fill + 1))) * u) by (nonlinear_arith);
            assert(hi * (s * u) == (hi * s) * u && lo * (s * u) == (lo * s) * u)
                by (nonlinear_arith);
        }
        lemma_mul_inequality_converse(under * (d * fill), hi * s, u);
        lemma_mul_strict_inequality_converse(lo * s, over * (d * (fill + 1)), u);
        // The roundings cost less than a pixel.
        let (up, down) = (hi - under, over - lo);
        assert(0 <= up && 0 <= down && 360 * up < under && 360 * down < over) by (nonlinear_arith)
            requires
                e == 0x20_0000_0000_0000,
                under == e * e * (e - 1),
                over == e * e * (e + 1),
                hi == (e + 1) * (e + 1) * (e + 1),
                lo == (e - 1) * (e - 1) * (e - 1),
                up == hi - under,
                down == over - lo,
        ;
        assert(up * s < under * d && down * s < over * d) by (nonlinear_arith)
            requires
                0 <= up,
                0 <= down,
                360 * up < under,
                360 * down < over,
                s == 360 * pos,
                0 < pos <= d,
        ;
        let fd = fill * d;
        assert(under * fd < under * (s + d)) by (nonlinear_arith)
            requires
                under * (d * fill) <= hi * s,
                up == hi - under,
                up * s < under * d,
                fd == fill * d,
        ;
        assert(over * s < over * ((fill + 2) * d)) by (nonlinear_arith)
            requires
                lo * s < over * (d * (fill + 1)),
                down == over - lo,
                down * s < over * d,
        ;
        lemma_mul_is_commutative(under, fd);
        lemma_mul_is_commutative(under, s + d);
        lemma_mul_is_commutative(over, s);
        lemma_mul_is_commutative(over, (fill + 2) * d);
        lemma_mul_strict_inequality_converse(fd, s + d, under);
        lemma_mul_strict_inequality_converse(s, (fill + 2) * d, over);
    }
}

/// While the user drags, the knob stays under the pointer: the fill ends there, or a pixel to the
/// left.
pub proof fn knob_stays_under_the_pointer(offset: nat)
    requires
        offset <= SEEK_W,
    ensures
        offset - 1 <= fill_of(drag_fraction(offset)) <= offset,
{
    fill_shows_the_played_share(offset, SEEK_W as nat);
}

} // verus!
