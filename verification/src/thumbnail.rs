//! Album art: how a picture is fitted into its square, copied there, and cropped for the backdrop.
use crate::binary64;
use crate::binary64::{Double, Value};
use crate::blur;
use vstd::arithmetic::div_mod::*;
use vstd::arithmetic::mul::*;
use vstd::prelude::*;

verus! {

/// The side of the square that the backdrop is cut from.
pub const BG_ART_SIZE: i32 = 300;

/// Where a scaled picture stands in its square.
#[derive(Clone, Copy)]
pub struct Placement {
    pub dst_w: i32,
    pub dst_h: i32,
    pub x_off: i32,
    pub y_off: i32,
}

/// The factor that brings the longer side of a picture to `size`.
pub open spec fn scale_of(size: nat, longer: nat) -> Value {
    binary64::quotient(binary64::of_nat(size), binary64::of_nat(longer))
}

/// A side of a picture after scaling its longer side to `size`; no side vanishes.
pub open spec fn fitted(size: nat, side: nat, longer: nat) -> nat {
    let scaled = if longer == 0 {
        0
    } else {
        binary64::product(binary64::of_nat(side), scale_of(size, longer)).floor()
    };
    if scaled < 1 {
        1
    } else {
        scaled
    }
}

/// The longer of two sides.
pub open spec fn longer_side(w: nat, h: nat) -> nat {
    if w >= h {
        w
    } else {
        h
    }
}

proof fn lemma_scale(size: nat, longer: nat)
    requires
        0 < size <= i32::MAX,
        0 < longer <= u32::MAX,
    ensures
        binary64::of_nat(size).quanta() == size * binary64::unit(),
        binary64::of_nat(longer).quanta() == longer * binary64::unit(),
        binary64::of_nat(longer).quanta() > 0,
        binary64::SIG_MIN * binary64::of_nat(longer).quanta() <= binary64::of_nat(size).quanta()
            * binary64::unit(),
        scale_of(size, longer).normal(),
        scale_of(size, longer).quanta() >= binary64::SIG_MIN,
{
    let u = binary64::unit();
    binary64::one_is_unit();
    binary64::of_nat_exact(size);
    binary64::of_nat_exact(longer);
    assert(binary64::SIG_MIN * (longer * u) <= (size * u) * u) by (nonlinear_arith)
        requires
            1 <= size,
            longer <= u32::MAX,
            u >= 0x1_0000_0000_0000_0000 * 0x1_0000_0000_0000_0000,
    ;
    lemma_mul_inequality(1, longer as int, u as int);
    binary64::rounding_is_normal((size * u) * u, longer * u);
}

/// A fitted side is at least one pixel and never longer than the square's side.
pub proof fn fit_stays_inside(size: nat, side: nat, longer: nat)
    requires
        0 < size <= i32::MAX,
        side <= longer <= u32::MAX,
    ensures
        1 <= fitted(size, side, longer) <= size,
{
    if longer > 0 {
        let u = binary64::unit();
        let q = scale_of(size, longer);
        let (a, l) = (binary64::of_nat(side), binary64::of_nat(longer));
        let exact = binary64::product(l, q);
        binary64::one_is_unit();
        lemma_scale(size, longer);
        binary64::of_nat_keeps_order(side, longer);
        binary64::product_commutes(a, q);
        binary64::product_commutes(l, q);
        if side == 0 {
            binary64::of_nat_exact(0);
            lemma_mul_by_zero_is_zero(u as int);
            lemma_mul_by_zero_is_zero(q.quanta() as int);
        } else {
            assert(binary64::SIG_MIN * u <= q.quanta() * a.quanta()) by (nonlinear_arith)
                requires
                    q.quanta() >= binary64::SIG_MIN,
                    a.quanta() >= u,
            ;
        }
        binary64::product_keeps_order(q, a, l);
        binary64::floor_keeps_order(binary64::product(a, q), exact);
        lemma_longest_fits(size, longer);
    }
}

/// The longer side, scaled, is at most the square's side.
proof fn lemma_longest_fits(size: nat, longer: nat)
    requires
        0 < size <= i32::MAX,
        0 < longer <= u32::MAX,
    ensures
        binary64::product(binary64::of_nat(longer), scale_of(size, longer)).floor() <= size,
{
    let u = binary64::unit();
    let q = scale_of(size, longer);
    let l = binary64::of_nat(longer);
    binary64::one_is_unit();
    lemma_scale(size, longer);
    let n = (size * u) * u;
    binary64::rounding_error_bound(n, longer * u);
    // The exact product is below size + 1/2, which is a double.
    let v = binary64::of_nat(2 * size + 1);
    binary64::of_nat_exact(2 * size + 1);
    binary64::of_nat_keeps_order(longer, longer);
    binary64::of_nat_keeps_order(2 * size + 1, 2 * size + 1);
    lemma_exponent_positive(v);
    let half = Value { sig: v.sig, exp: (v.exp - 1) as nat };
    binary64::half_is_a_double(v);
    let p = l.quanta() * q.quanta();
    assert(binary64::SIG_END * p <= binary64::SIG_END * n + n) by (nonlinear_arith)
        requires
            binary64::SIG_END * (q.quanta() * (longer * u)) <= binary64::SIG_END * n + n,
            p == l.quanta() * q.quanta(),
            l.quanta() == longer * u,
    ;
    assert(2 * n <= binary64::SIG_END * (u * u)) by (nonlinear_arith)
        requires
            n == (size * u) * u,
            size <= i32::MAX,
    ;
    assert(p * u <= (half.quanta() * u) * u) by (nonlinear_arith)
        requires
            binary64::SIG_END * p <= binary64::SIG_END * n + n,
            2 * n <= binary64::SIG_END * (u * u),
            n == (size * u) * u,
            2 * half.quanta() == (2 * size + 1) * u,
            u > 0,
    ;
    assert(binary64::SIG_MIN * u <= p) by (nonlinear_arith)
        requires
            q.quanta() >= binary64::SIG_MIN,
            l.quanta() >= u,
            p == l.quanta() * q.quanta(),
    ;
    binary64::rounding_keeps_order(p, u, half.quanta() * u, u);
    binary64::rounding_keeps_doubles(half, u);
    assert(half.quanta() < (size + 1) * u) by (nonlinear_arith)
        requires
            2 * half.quanta() == (2 * size + 1) * u,
            u > 0,
    ;
    binary64::floor_bounds(binary64::product(l, q), size);
}

/// A double of at least one has a positive biased exponent.
proof fn lemma_exponent_positive(v: Value)
    requires
        v.normal(),
        v.quanta() >= binary64::unit(),
    ensures
        v.exp > 0,
{
    binary64::one_is_unit();
    vstd::arithmetic::power2::lemma2_to64();
    if v.exp == 0 {
        assert(v.quanta() == v.sig * 1);
    }
}

/// Scaling by the longer side is scaling by the smaller of the two factors that would bring one
/// side each to `size`.
pub proof fn scale_is_the_smaller(size: nat, side: nat, longer: nat)
    requires
        0 < size <= i32::MAX,
        0 < side <= longer <= u32::MAX,
    ensures
        scale_of(size, longer).quanta() <= scale_of(size, side).quanta(),
{
    let u = binary64::unit();
    let n = (size * u) * u;
    lemma_scale(size, longer);
    lemma_scale(size, side);
    lemma_mul_inequality(side as int, longer as int, u as int);
    lemma_mul_inequality((side * u) as int, (longer * u) as int, n as int);
    lemma_mul_is_commutative((side * u) as int, n as int);
    lemma_mul_is_commutative((longer * u) as int, n as int);
    binary64::rounding_keeps_order(n, longer * u, n, side * u);
}

/// A side of a picture after scaling.
fn fit_side(size: i32, side: u32, longer: u32) -> (r: i32)
    requires
        0 < size,
        side <= longer,
    ensures
        r == fitted(size as nat, side as nat, longer as nat),
        1 <= r <= size,
{
    proof {
        fit_stays_inside(size as nat, side as nat, longer as nat);
    }
    if longer == 0 {
        return 1;
    }
    let scale: Double = Double::from_u64(size as u64).quotient(Double::from_u64(longer as u64));
    let scaled: u64 = Double::from_u64(side as u64).product(scale).truncate();
    if scaled < 1 {
        1
    } else {
        scaled as i32
    }
}

/// Fits a picture of `orig_w` by `orig_h` pixels into a square of side `size`, keeping its
/// proportions, and centres it there.
pub fn fit_thumbnail(orig_w: u32, orig_h: u32, size: i32) -> (r: Placement)
    requires
        0 < size,
    ensures
        r.dst_w == fitted(size as nat, orig_w as nat, longer_side(orig_w as nat, orig_h as nat)),
        r.dst_h == fitted(size as nat, orig_h as nat, longer_side(orig_w as nat, orig_h as nat)),
        r.x_off == (size - r.dst_w) / 2,
        r.y_off == (size - r.dst_h) / 2,
        r.inside(size as int),
{
    let longer: u32 = if orig_w >= orig_h {
        orig_w
    } else {
        orig_h
    };
    let dst_w: i32 = fit_side(size, orig_w, longer);
    let dst_h: i32 = fit_side(size, orig_h, longer);
    Placement { dst_w, dst_h, x_off: (size - dst_w) / 2, y_off: (size - dst_h) / 2 }
}

impl Placement {
    /// The picture stands inside a square of side `size`.
    pub open spec fn inside(self, size: int) -> bool {
        &&& 1 <= self.dst_w
        &&& 1 <= self.dst_h
        &&& 0 <= self.x_off
        &&& 0 <= self.y_off
        &&& self.x_off + self.dst_w <= size
        &&& self.y_off + self.dst_h <= size
    }

    /// The pixel at `(x, y)` of the square belongs to the picture.
    pub open spec fn covers(self, x: int, y: int) -> bool {
        self.x_off <= x < self.x_off + self.dst_w && self.y_off <= y < self.y_off + self.dst_h
    }
}

/// The byte of the picture that comes to stand at byte `i` of the square.
pub open spec fn picture_byte(at: Placement, size: int, i: int) -> int {
    ((blur::row(i, size) - at.y_off) * at.dst_w + (blur::column(i, size) - at.x_off)) * 4 + i % 4
}

/// A square buffer after the picture has been copied to its place; all else is as before.
pub open spec fn placed(img: Seq<u8>, before: Seq<u8>, at: Placement, size: int) -> Seq<u8> {
    Seq::new(
        before.len(),
        |i: int|
            if i < size * size * 4 && at.covers(blur::column(i, size), blur::row(i, size)) {
                img[picture_byte(at, size, i)]
            } else {
                before[i]
            },
    )
}

/// The first `y` rows of the picture and `k` bytes of the next have been copied.
spec fn copied(at: Placement, size: int, y: int, k: int, i: int) -> bool {
    i < size * size * 4 && at.covers(blur::column(i, size), blur::row(i, size)) && (blur::row(i, size) < at.y_off + y
        || (blur::row(i, size) == at.y_off + y && (blur::column(i, size) - at.x_off) * 4 + i % 4 < k))
}

spec fn rows_copied(
    img: Seq<u8>,
    before: Seq<u8>,
    now: Seq<u8>,
    at: Placement,
    size: int,
    y: int,
    k: int,
) -> bool {
    forall|i: int|
        0 <= i < now.len() ==> #[trigger] now[i] == if copied(at, size, y, k, i) {
            img[picture_byte(at, size, i)]
        } else {
            before[i]
        }
}

proof fn lemma_copy_step(
    img: Seq<u8>,
    before: Seq<u8>,
    now: Seq<u8>,
    at: Placement,
    size: int,
    y: int,
    k: int,
)
    requires
        at.inside(size),
        0 <= y < at.dst_h,
        0 <= k < at.dst_w * 4,
        size * size * 4 <= now.len(),
        rows_copied(img, before, now, at, size, y, k),
    ensures
        ({
            let d = (at.y_off + y) * (size * 4) + at.x_off * 4 + k;
            let s = y * (at.dst_w * 4) + k;
            &&& 0 <= (at.y_off + y) * (size * 4)
            &&& 0 <= y * (at.dst_w * 4)
            &&& 0 <= d < size * size * 4
            &&& 0 <= s < at.dst_w * at.dst_h * 4
            &&& rows_copied(img, before, now.update(d, img[s]), at, size, y, k + 1)
        }),
{
    let (x, c) = (k / 4, k % 4);
    let d = (at.y_off + y) * (size * 4) + at.x_off * 4 + k;
    let s = y * (at.dst_w * 4) + k;
    blur::byte_of_pixel(at.x_off + x, at.y_off + y, c, size, size);
    blur::byte_of_pixel(x, y, c, at.dst_w as int, at.dst_h as int);
    lemma_mul_is_associative(at.y_off + y, size, 4);
    lemma_mul_is_associative(y, at.dst_w as int, 4);
    lemma_mul_nonnegative(at.y_off + y, size * 4);
    lemma_mul_nonnegative(y, at.dst_w * 4);
    assert(d == ((at.y_off + y) * size + (at.x_off + x)) * 4 + c);
    assert(picture_byte(at, size, d) == s);
    let next = now.update(d, img[s]);
    assert forall|i: int| 0 <= i < next.len() implies #[trigger] next[i] == (if copied(
        at,
        size,
        y,
        k + 1,
        i,
    ) {
        img[picture_byte(at, size, i)]
    } else {
        before[i]
    }) by {
        assert(now[i] == now[i]);
        if i < size * size * 4 && i != d && blur::row(i, size) == at.y_off + y {
            blur::pixel_of_byte(i, size, size);
            assert(i == ((at.y_off + y) * size + blur::column(i, size)) * 4 + i % 4);
        }
    }
}

/// Copies a picture, row by row, to its place in a square of side `size`.
pub fn place_picture(img: &[u8], dst: &mut [u8], at: Placement, size: i32)
    requires
        at.inside(size as int),
        at.dst_w * at.dst_h * 4 <= img@.len(),
        size * size * 4 <= old(dst)@.len(),
    ensures
        final(dst)@ == placed(img@, old(dst)@, at, size as int),
{
    let (img_len, dst_len): (usize, usize) = (img.len(), dst.len());
    let ghost before = dst@;
    let ghost n = size as int;
    proof {
        lemma_row_fits(size as int, img_len as int, dst_len as int, at);
    }
    let stride: usize = size as usize * 4;
    let img_stride: usize = at.dst_w as usize * 4;
    let rows: usize = at.dst_h as usize;
    let (x_off, y_off): (usize, usize) = (at.x_off as usize, at.y_off as usize);
    let mut y: usize = 0;
    while y < rows
        invariant
            y <= rows,
            rows == at.dst_h,
            x_off == at.x_off,
            y_off == at.y_off,
            n == size,
            at.inside(n),
            stride == n * 4,
            img_stride == at.dst_w * 4,
            img_len == img@.len(),
            dst_len == dst@.len(),
            before.len() == dst@.len(),
            at.dst_w * at.dst_h * 4 <= img_len,
            n * n * 4 <= dst_len,
            rows_copied(img@, before, dst@, at, n, y as int, 0),
        decreases rows - y,
    {
        let mut k: usize = 0;
        while k < img_stride
            invariant
                k <= img_stride,
                y < rows,
                rows == at.dst_h,
                x_off == at.x_off,
                y_off == at.y_off,
                n == size,
                at.inside(n),
                stride == n * 4,
                img_stride == at.dst_w * 4,
                img_len == img@.len(),
                dst_len == dst@.len(),
                before.len() == dst@.len(),
                at.dst_w * at.dst_h * 4 <= img_len,
                n * n * 4 <= dst_len,
                rows_copied(img@, before, dst@, at, n, y as int, k as int),
            decreases img_stride - k,
        {
            proof {
                lemma_copy_step(img@, before, dst@, at, n, y as int, k as int);
            }
            dst[(y_off + y) * stride + x_off * 4 + k] = img[y * img_stride + k];
            k = k + 1;
        }
        proof {
            assert forall|i: int| 0 <= i < dst@.len() implies #[trigger] dst@[i] == (if copied(
                at,
                n,
                y as int + 1,
                0,
                i,
            ) {
                img@[picture_byte(at, n, i)]
            } else {
                before[i]
            }) by {}
        }
        y = y + 1;
    }
    proof {
        assert forall|i: int| 0 <= i < dst@.len() implies dst@[i] == placed(
            img@,
            before,
            at,
            n,
        )[i] by {}
        assert(dst@ =~= placed(img@, before, at, n));
    }
}

proof fn lemma_row_fits(size: int, img_len: int, dst_len: int, at: Placement)
    requires
        at.inside(size),
        at.dst_w * at.dst_h * 4 <= img_len,
        size * size * 4 <= dst_len,
    ensures
        size * 4 <= dst_len,
        at.dst_w * 4 <= img_len,
{
    assert(size * 4 <= size * size * 4) by (nonlinear_arith)
        requires
            size >= 1,
    ;
    assert(at.dst_w * 4 <= at.dst_w * at.dst_h * 4) by (nonlinear_arith)
        requires
            at.dst_w >= 1,
            at.dst_h >= 1,
    ;
}

/// A picture that fills its square replaces every byte; in any case all bytes outside the
/// picture stay.
pub proof fn picture_stays_in_its_place(
    img: Seq<u8>,
    before: Seq<u8>,
    at: Placement,
    size: int,
    i: int,
)
    requires
        at.inside(size),
        0 <= i < before.len(),
        size * size * 4 <= before.len(),
    ensures
        i >= size * size * 4 || !at.covers(blur::column(i, size), blur::row(i, size)) ==> placed(
            img,
            before,
            at,
            size,
        )[i] == before[i],
        i < size * size * 4 && at.dst_w == size && at.dst_h == size ==> placed(
            img,
            before,
            at,
            size,
        )[i] == img[i],
{
    if i < size * size * 4 && at.dst_w == size && at.dst_h == size {
        blur::pixel_of_byte(i, size, size);
    }
}

/// The rows of the backdrop square that show through a `w` by `h` bar: as many as keep the bar's
/// proportions, rounded up, but at least one and at most all.
pub open spec fn crop_rows(w: int, h: int) -> int {
    let exact = if w == 0 {
        if h > 0 {
            BG_ART_SIZE as int
        } else {
            0
        }
    } else if w > 0 {
        (BG_ART_SIZE * h + w - 1) / w
    } else {
        (BG_ART_SIZE * -h + -w - 1) / -w
    };
    if exact < 1 {
        1
    } else if exact > BG_ART_SIZE {
        BG_ART_SIZE as int
    } else {
        exact
    }
}

/// The band of the backdrop square that is stretched over the bar: its first row and its height.
pub fn backdrop_crop(w: i32, h: i32) -> (r: (i32, i32))
    ensures
        r.1 == crop_rows(w as int, h as int),
        r.0 == (BG_ART_SIZE - r.1) / 2,
        0 <= r.0,
        1 <= r.1,
        r.0 + r.1 <= BG_ART_SIZE,
{
    let (dw, dh): (i64, i64) = if w >= 0 {
        (w as i64, h as i64)
    } else {
        (-(w as i64), -(h as i64))
    };
    let exact: i64 = if dh <= 0 {
        0
    } else if dw == 0 {
        300
    } else {
        (300 * dh + dw - 1) / dw
    };
    proof {
        if dh <= 0 && dw > 0 {
            lemma_div_is_ordered(300 * dh + dw - 1, dw - 1, dw as int);
            lemma_basic_div(dw - 1, dw as int);
        }
    }
    let rows: i32 = if exact < 1 {
        1
    } else if exact > 300 {
        300
    } else {
        exact as i32
    };
    ((BG_ART_SIZE - rows) / 2, rows)
}

/// A picture keeps its proportions: each side is scaled as the longer one is, within a pixel.
pub proof fn picture_keeps_its_proportions(size: nat, side: nat, longer: nat)
    requires
        0 < size <= i32::MAX,
        side <= longer <= u32::MAX,
        0 < longer,
    ensures
        (fitted(size, side, longer) - 1) * longer <= side * size,
        side * size < (fitted(size, side, longer) + 2) * longer,
{
    let (e, u) = (binary64::SIG_END as int, binary64::unit() as int);
    let v = binary64::product(binary64::of_nat(side), scale_of(size, longer));
    let (p, t) = (v.quanta() as int, v.floor() as int);
    let (d, s) = (longer as int, (side * size) as int);
    binary64::one_is_unit();
    lemma_mul_by_zero_is_zero(size as int);
    lemma_mul_by_zero_is_zero(d);
    if side == 0 {
        binary64::of_nat_exact(0);
        lemma_mul_by_zero_is_zero(u);
        lemma_mul_by_zero_is_zero(scale_of(size, longer).quanta() as int);
        lemma_mul_by_zero_is_zero(vstd::arithmetic::power2::pow2(0) as int);
        binary64::floor_bounds(v, 0);
    } else {
        binary64::share_error_bound(side, size, longer);
        lemma_fundamental_div_mod(p, u);
        lemma_mod_bound(p, u);
        let (c, hi, lo) = (
            e * e * e,
            (e + 1) * (e + 1) * (e + 1),
            (e - 1) * (e - 1) * (e - 1),
        );
        assert(t * u <= p < (t + 1) * u) by (nonlinear_arith)
            requires
                p == u * t + p % u,
                0 <= p % u < u,
        ;
        assert(0 < c && 0 < d * c) by (nonlinear_arith)
            requires
                c == e * e * e,
                e == 0x20_0000_0000_0000,
                0 < d,
        ;
        assert((d * c * t) * u <= (hi * s) * u && (lo * s) * u < (d * c * (t + 1)) * u)
            by (nonlinear_arith)
            requires
                0 < d * c,
                t * u <= p < (t + 1) * u,
                d * c * p <= hi * (s * u),
                lo * (s * u) <= d * c * p,
        ;
        lemma_mul_inequality_converse(d * c * t, hi * s, u);
        lemma_mul_strict_inequality_converse(lo * s, d * c * (t + 1), u);
        // The roundings cost less than a pixel.
        assert(0 <= s <= d * size) by (nonlinear_arith)
            requires
                s == side * size,
                side <= d,
        ;
        let (up, down) = (hi - c, c - lo);
        assert(0 <= up && 0 <= down && 0x8000_0000 * up < c && 0x8000_0000 * down < c)
            by (nonlinear_arith)
            requires
                e == 0x20_0000_0000_0000,
                c == e * e * e,
                hi == (e + 1) * (e + 1) * (e + 1),
                lo == (e - 1) * (e - 1) * (e - 1),
                up == hi - c,
                down == c - lo,
        ;
        assert(up * s < c * d && down * s < c * d) by (nonlinear_arith)
            requires
                0 <= up,
                0 <= down,
                0x8000_0000 * up < c,
                0x8000_0000 * down < c,
                0 <= s <= d * size,
                size <= 0x8000_0000,
                0 < d,
        {
            lemma_mul_inequality(size as int, 0x8000_0000, d);
            lemma_mul_inequality(s, 0x8000_0000 * d, up);
            lemma_mul_inequality(s, 0x8000_0000 * d, down);
            lemma_mul_strict_inequality(0x8000_0000 * up, c, d);
            lemma_mul_strict_inequality(0x8000_0000 * down, c, d);
            assert((0x8000_0000 * d) * up == (0x8000_0000 * up) * d && (0x8000_0000 * d) * down == (
            0x8000_0000 * down) * d && s * up == up * s && s * down == down * s && d * size == size
                * d) by (nonlinear_arith);
        }
        let td = t * d;
        assert(td * c < (s + d) * c && s * c < ((t + 2) * d) * c) by (nonlinear_arith)
            requires
                d * c * t <= hi * s,
                lo * s < d * c * (t + 1),
                up == hi - c,
                down == c - lo,
                up * s < c * d,
                down * s < c * d,
                td == t * d,
        ;
        lemma_mul_strict_inequality_converse(td, s + d, c);
        lemma_mul_strict_inequality_converse(s, (t + 2) * d, c);
        lemma_mul_is_distributive_sub_other_way(d, t, 1);
        if t < 1 {
            assert((t + 2) * d <= 3 * d) by (nonlinear_arith)
                requires
                    t < 1,
                    0 < d,
            ;
        }
    }
}

/// The handles of a title's decoded art: as small as the bar is high, and large for the backdrop.
#[derive(Clone, Copy, PartialEq, Eq, Structural, Debug)]
pub struct Bitmaps {
    pub small: isize,
    pub large: isize,
}

/// Decoded art, and the title that it belongs to.
pub struct CachedArt {
    pub key: String,
    pub bitmaps: Bitmaps,
}

/// Decoded art, as mathematics sees it.
pub struct ArtView {
    pub key: Seq<char>,
    pub bitmaps: Bitmaps,
}

impl View for CachedArt {
    type V = ArtView;

    open spec fn view(&self) -> ArtView {
        ArtView { key: self.key@, bitmaps: self.bitmaps }
    }
}

/// The art at hand, if there is any.
pub open spec fn art_view(art: Option<CachedArt>) -> Option<ArtView> {
    match art {
        Some(a) => Some(a@),
        None => None,
    }
}

/// The sides of the squares that a picture is decoded into.
#[derive(Clone, Copy, PartialEq, Eq, Structural, Debug)]
pub struct ArtSizes {
    pub small: i32,
    pub large: i32,
}

/// What has to happen before a bar of some height is drawn.
#[derive(Clone, Copy, PartialEq, Eq, Structural, Debug)]
pub struct ArtPlan {
    /// The bitmaps of another title, which are deleted.
    pub delete: Option<Bitmaps>,
    /// The sizes that the picture is decoded at.
    pub decode: Option<ArtSizes>,
}

/// The art at hand is not that of `title`.
pub open spec fn art_is_stale(art: Option<ArtView>, title: Seq<char>) -> bool {
    art is None || art->0.key != title
}

/// The plan for a bar of height `h`. The art of a title is kept as long as that title plays.
/// Otherwise it is deleted, and a new one is decoded where there is a title and a picture.
pub open spec fn art_plan_of(
    art: Option<ArtView>,
    title: Seq<char>,
    has_picture: bool,
    h: i32,
) -> ArtPlan {
    ArtPlan {
        delete: if art is Some && art->0.key != title {
            Some(art->0.bitmaps)
        } else {
            None
        },
        decode: if art_is_stale(art, title) && title.len() > 0 && has_picture {
            Some(ArtSizes { small: h, large: BG_ART_SIZE })
        } else {
            None
        },
    }
}

/// The art that is left of the art at hand once stale art has been thrown away.
pub open spec fn art_left(art: Option<ArtView>, title: Seq<char>) -> Option<ArtView> {
    if art_is_stale(art, title) {
        None
    } else {
        art
    }
}

/// The art at hand after a picture has been decoded. It takes both bitmaps to make new art, and it
/// replaces none.
pub open spec fn art_after_decoding(
    art: Option<ArtView>,
    title: Seq<char>,
    small: Option<isize>,
    large: Option<isize>,
) -> Option<ArtView> {
    if art is None && title.len() > 0 && small is Some && large is Some {
        Some(ArtView { key: title, bitmaps: Bitmaps { small: small->0, large: large->0 } })
    } else {
        art
    }
}

/// Plans what happens to the art at hand before a bar of height `h` is drawn.
pub fn plan_art(art: &Option<CachedArt>, title: &String, has_picture: bool, h: i32) -> (r: ArtPlan)
    ensures
        r == art_plan_of(art_view(*art), title@, has_picture, h),
{
    let decode: Option<ArtSizes> = if has_picture && !title.as_str().is_empty() {
        Some(ArtSizes { small: h, large: BG_ART_SIZE })
    } else {
        None
    };
    match art {
        Some(a) => if a.key == *title {
            ArtPlan { delete: None, decode: None }
        } else {
            ArtPlan { delete: Some(a.bitmaps), decode }
        },
        None => ArtPlan { delete: None, decode },
    }
}

/// Every pixel of the picture comes to stand at its place in the square, wherever the margins are:
/// byte `c` of the picture's pixel at `(x, y)` is byte `c` of the square's pixel at
/// `(x_off + x, y_off + y)`.
pub proof fn every_pixel_is_copied(
    img: Seq<u8>,
    before: Seq<u8>,
    at: Placement,
    size: int,
    x: int,
    y: int,
    c: int,
)
    requires
        1 <= at.dst_w,
        1 <= at.dst_h,
        0 <= at.x_off,
        0 <= at.y_off,
        at.x_off + at.dst_w <= size,
        at.y_off + at.dst_h <= size,
        size * size * 4 <= before.len(),
        0 <= x < at.dst_w,
        0 <= y < at.dst_h,
        0 <= c < 4,
    ensures
        placed(img, before, at, size)[((at.y_off + y) * size + at.x_off + x) * 4 + c] == img[(y
            * at.dst_w + x) * 4 + c],
{
    blur::byte_of_pixel(at.x_off + x, at.y_off + y, c, size, size);
}

/// Outside the picture nothing changes: neither the margins left, right, above and below it, nor
/// what lies behind the square.
pub proof fn margins_stay(
    img: Seq<u8>,
    before: Seq<u8>,
    at: Placement,
    size: int,
    x: int,
    y: int,
    c: int,
)
    requires
        size * size * 4 <= before.len(),
        0 <= x < size,
        0 <= y < size,
        0 <= c < 4,
        x < at.x_off || x >= at.x_off + at.dst_w || y < at.y_off || y >= at.y_off + at.dst_h,
    ensures
        placed(img, before, at, size).len() == before.len(),
        placed(img, before, at, size)[(y * size + x) * 4 + c] == before[(y * size + x) * 4 + c],
        forall|i: int|
            size * size * 4 <= i < before.len() ==> #[trigger] placed(img, before, at, size)[i]
                == before[i],
{
    blur::byte_of_pixel(x, y, c, size, size);
}

/// The longer side is one of the two sides, and no side is longer.
pub proof fn longer_side_is_a_side(w: nat, h: nat)
    ensures
        longer_side(w, h) == w || longer_side(w, h) == h,
        w <= longer_side(w, h),
        h <= longer_side(w, h),
{
}

/// The side that is longer fills the square, but for a pixel.
pub proof fn longer_side_fills_the_square(size: nat, longer: nat)
    requires
        0 < size <= i32::MAX,
        0 < longer <= u32::MAX,
    ensures
        size - 1 <= fitted(size, longer, longer) <= size,
{
    let f = fitted(size, longer, longer) as int;
    let (n, l) = (size as int, longer as int);
    picture_keeps_its_proportions(size, longer, longer);
    fit_stays_inside(size, longer, longer);
    assert(n < f + 2) by (nonlinear_arith)
        requires
            l * n < (f + 2) * l,
            0 < l,
    ;
}

/// The band of the backdrop is as high as the bar's proportions ask, rounded up to a whole row; a
/// bar that is higher than wide shows the whole square, and at least one row is always shown.
pub proof fn backdrop_has_the_bars_proportions(w: int, h: int)
    requires
        0 < w,
        0 < h,
    ensures
        1 <= crop_rows(w, h) <= 300,
        h <= w ==> (crop_rows(w, h) - 1) * w < 300 * h <= crop_rows(w, h) * w,
        h >= w ==> crop_rows(w, h) == 300,
{
    let r = (300 * h + w - 1) / w;
    lemma_fundamental_div_mod(300 * h + w - 1, w);
    lemma_mod_bound(300 * h + w - 1, w);
    lemma_mul_is_commutative(w, r);
    lemma_mul_is_distributive_sub_other_way(w, r, 1);
    lemma_mul_is_distributive_add_other_way(w, r, 1);
    assert(r >= 1) by (nonlinear_arith)
        requires
            300 * h + w - 1 < (r + 1) * w,
            0 < w,
            0 < h,
    ;
    if h <= w {
        assert(r <= 300) by (nonlinear_arith)
            requires
                r * w <= 300 * h + w - 1,
                h <= w,
                0 < w,
        ;
    }
    if h >= w {
        assert(r >= 300) by (nonlinear_arith)
            requires
                300 * h <= r * w,
                h >= w,
                0 < w,
        ;
    }
}

/// A bar without a width shows the whole backdrop, or a single row of it where it has no height
/// either.
pub proof fn bars_without_a_width_show_all(h: int)
    ensures
        h > 0 ==> crop_rows(0, h) == 300,
        h <= 0 ==> crop_rows(0, h) == 1,
{
}

/// Art is kept exactly as long as its title plays. Art of another title is deleted, and no other. New
/// art is decoded exactly where none of the title is at hand and there are a title and a picture:
/// once as high as the bar, and once for the backdrop.
pub proof fn art_is_kept_while_its_title_plays(
    art: Option<ArtView>,
    title: Seq<char>,
    has_picture: bool,
    h: i32,
)
    ensures
        ({
            let plan = art_plan_of(art, title, has_picture, h);
            let other = art is Some && art->0.key != title;
            let same = art is Some && art->0.key == title;
            &&& other ==> plan.delete == Some(art->0.bitmaps) && art_left(art, title) is None
            &&& !other ==> plan.delete is None
            &&& same ==> plan.decode is None && art_left(art, title) == art
            &&& art is None ==> art_left(art, title) is None
            &&& !same ==> (plan.decode is Some <==> title.len() > 0 && has_picture)
            &&& plan.decode is Some ==> plan.decode->0.small == h && plan.decode->0.large == 300
        }),
{
}

/// New art takes both bitmaps, a title, and that there is no art yet; it belongs to that title.
/// Otherwise the art at hand stays.
pub proof fn both_bitmaps_make_new_art(
    art: Option<ArtView>,
    title: Seq<char>,
    small: Option<isize>,
    large: Option<isize>,
)
    ensures
        ({
            let after = art_after_decoding(art, title, small, large);
            let new = art is None && title.len() > 0 && small is Some && large is Some;
            &&& !new ==> after == art
            &&& new ==> {
                &&& after is Some
                &&& after->0.key == title
                &&& after->0.bitmaps.small == small->0
                &&& after->0.bitmaps.large == large->0
            }
        }),
{
}

/// The band of the backdrop depends on the bar's proportions alone: a width and a height that are
/// both turned over show the same. A bar with a width but no height shows a single row.
pub proof fn the_backdrop_goes_by_proportions(w: int, h: int)
    requires
        0 < w,
    ensures
        crop_rows(-w, -h) == crop_rows(w, h),
        h <= 0 ==> crop_rows(w, h) == 1,
{
    if h <= 0 {
        let r = (300 * h + w - 1) / w;
        lemma_fundamental_div_mod(300 * h + w - 1, w);
        lemma_mod_bound(300 * h + w - 1, w);
        assert(r < 1) by (nonlinear_arith)
            requires
                w * r <= 300 * h + w - 1,
                h <= 0,
                0 < w,
        ;
    }
}

} // verus!
