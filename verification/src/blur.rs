//! The separable box blur behind the bar, on a top-down buffer of 4-byte BGRA pixels.
//!
//! A pass replaces each colour byte by the mean of the window of `2 * r + 1` pixels around it along
//! a row or a column; beyond its ends the line goes on with its end pixels. Alpha stays. The
//! window slides: each step adds the pixel that enters and takes away the one that leaves.
use vstd::arithmetic::div_mod::*;
use vstd::arithmetic::mul::*;
use vstd::prelude::*;

verus! {

/// Bytes per pixel.
pub const PIXEL: usize = 4;

/// The pixel of a line of `n` that stands at `i`, which may lie beyond the line's ends.
pub open spec fn clamped(i: int, n: int) -> int {
    if i < 0 {
        0
    } else if i >= n {
        n - 1
    } else {
        i
    }
}

/// The sum of the bytes of a line at `lo..hi`. The line's bytes stand at `start`,
/// `start + stride` and so on, `n` of them.
pub open spec fn line_sum(s: Seq<u8>, start: int, stride: int, n: int, lo: int, hi: int) -> int
    decreases hi - lo,
{
    if hi <= lo {
        0
    } else {
        line_sum(s, start, stride, n, lo, hi - 1) + s[start + clamped(hi - 1, n) * stride]
    }
}

/// The mean of the window of radius `r` around `x` on a line.
pub open spec fn line_mean(s: Seq<u8>, start: int, stride: int, n: int, r: int, x: int) -> int {
    line_sum(s, start, stride, n, x - r, x + r + 1) / (2 * r + 1)
}

proof fn lemma_sum_slides(s: Seq<u8>, start: int, stride: int, n: int, lo: int, hi: int)
    requires
        lo < hi,
    ensures
        line_sum(s, start, stride, n, lo, hi) == s[start + clamped(lo, n) * stride] + line_sum(
            s,
            start,
            stride,
            n,
            lo + 1,
            hi,
        ),
    decreases hi - lo,
{
    if lo + 1 < hi {
        lemma_sum_slides(s, start, stride, n, lo, hi - 1);
    } else {
        assert(line_sum(s, start, stride, n, lo, hi - 1) == 0);
    }
}

proof fn lemma_sum_bounds(s: Seq<u8>, start: int, stride: int, n: int, lo: int, hi: int)
    requires
        lo <= hi,
    ensures
        0 <= line_sum(s, start, stride, n, lo, hi) <= 255 * (hi - lo),
    decreases hi - lo,
{
    if lo < hi {
        lemma_sum_bounds(s, start, stride, n, lo, hi - 1);
    }
}

proof fn lemma_mean_is_byte(s: Seq<u8>, start: int, stride: int, n: int, r: int, x: int)
    requires
        r >= 0,
    ensures
        0 <= line_mean(s, start, stride, n, r, x) <= 255,
{
    let sum = line_sum(s, start, stride, n, x - r, x + r + 1);
    lemma_sum_bounds(s, start, stride, n, x - r, x + r + 1);
    lemma_div_is_ordered(sum, 255 * (2 * r + 1), 2 * r + 1);
    lemma_div_by_multiple(255, 2 * r + 1);
    lemma_div_pos_is_pos(sum, 2 * r + 1);
}

/// The bytes of a line lie inside the buffer.
pub open spec fn line_inside(len: int, start: int, stride: int, n: int) -> bool {
    0 < n && 0 <= start && 0 < stride && start + (n - 1) * stride < len
}

proof fn lemma_line_index(len: int, start: int, stride: int, n: int, i: int)
    requires
        line_inside(len, start, stride, n),
        0 <= i < n,
    ensures
        0 <= i * stride <= (n - 1) * stride,
        0 <= start + i * stride < len,
{
    assert(0 <= i * stride <= (n - 1) * stride) by (nonlinear_arith)
        requires
            0 <= i <= n - 1,
            0 < stride,
    ;
}

/// Blurs one byte of each pixel along a line.
fn blur_line(src: &[u8], dst: &mut [u8], start: usize, stride: usize, n: usize, r: usize)
    requires
        line_inside(src@.len() as int, start as int, stride as int, n as int),
        line_inside(old(dst)@.len() as int, start as int, stride as int, n as int),
        2 * r + 1 <= u32::MAX,
    ensures
        final(dst)@.len() == old(dst)@.len(),
        forall|i: int|
            #![trigger final(dst)@[i]]
            0 <= i < final(dst)@.len() && !on_line(
                i,
                start as int,
                stride as int,
                n as int,
            ) ==> final(dst)@[i] == old(dst)@[i],
        forall|x: int|
            0 <= x < n ==> #[trigger] final(dst)@[start + x * stride] == line_mean(
                src@,
                start as int,
                stride as int,
                n as int,
                r as int,
                x,
            ),
{
    let cnt: u64 = 2 * (r as u64) + 1;
    let len: usize = src.len();
    let mut sum: u64 = 0;
    let mut i: usize = 0;
    let ghost (s, st, sd, m) = (src@, start as int, stride as int, n as int);
    while i < 2 * r + 1
        invariant
            i <= 2 * r + 1 <= u32::MAX,
            s == src@,
            s.len() == len,
            st == start,
            sd == stride,
            m == n,
            line_inside(s.len() as int, st, sd, m),
            sum == line_sum(s, st, sd, m, -(r as int), i - r),
            sum <= 255 * i,
        decreases 2 * r + 1 - i,
    {
        let at: usize = if i < r {
            0
        } else if i - r > n - 1 {
            n - 1
        } else {
            i - r
        };
        proof {
            lemma_line_index(s.len() as int, st, sd, m, at as int);
            assert(at == clamped(i - r, m));
        }
        sum = sum + src[start + at * stride] as u64;
        i = i + 1;
    }
    let mut x: usize = 0;
    while x < n
        invariant
            x <= n,
            cnt == 2 * r + 1 <= u32::MAX,
            s == src@,
            s.len() == len,
            st == start,
            sd == stride,
            m == n,
            dst@.len() == old(dst)@.len(),
            line_inside(s.len() as int, st, sd, m),
            line_inside(dst@.len() as int, st, sd, m),
            sum == line_sum(s, st, sd, m, x - r, x + r + 1),
            forall|i: int|
                #![trigger dst@[i]]
                0 <= i < dst@.len() && !on_line(i, st, sd, m) ==> dst@[i] == old(dst)@[i],
            forall|k: int| 0 <= k < x ==> #[trigger] dst@[st + k * sd] == line_mean(s, st, sd, m, r as int, k),
        decreases n - x,
    {
        let enter: usize = if r >= n - 1 - x {
            n - 1
        } else {
            x + r + 1
        };
        let leave: usize = if x < r {
            0
        } else {
            x - r
        };
        let ghost before = dst@;
        proof {
            lemma_line_index(s.len() as int, st, sd, m, x as int);
            lemma_line_index(s.len() as int, st, sd, m, enter as int);
            lemma_line_index(s.len() as int, st, sd, m, leave as int);
            lemma_line_index(dst@.len() as int, st, sd, m, x as int);
            lemma_mean_is_byte(s, st, sd, m, r as int, x as int);
            lemma_sum_bounds(s, st, sd, m, x - r, x + r + 1);
            lemma_sum_slides(s, st, sd, m, x - r, x + r + 2);
            assert(enter == clamped(x + r + 1, m));
            assert(leave == clamped(x - r, m));
            lemma_sum_bounds(s, st, sd, m, x - r + 1, x + r + 1);
            lemma_sum_slides(s, st, sd, m, x - r, x + r + 1);
        }
        dst[start + x * stride] = (sum / cnt) as u8;
        proof {
            assert(on_line(st + x * sd, st, sd, m));
            assert forall|k: int| 0 <= k < x + 1 implies #[trigger] dst@[st + k * sd] == line_mean(
                s,
                st,
                sd,
                m,
                r as int,
                k,
            ) by {
                if k < x {
                    lemma_line_index(dst@.len() as int, st, sd, m, k);
                    assert(k * sd < x * sd) by (nonlinear_arith)
                        requires
                            k < x,
                            0 < sd,
                    ;
                    assert(before[st + k * sd] == line_mean(s, st, sd, m, r as int, k));
                }
            }
        }
        sum = sum + src[start + enter * stride] as u64 - src[start + leave * stride] as u64;
        x = x + 1;
    }
}

/// `i` is the index of one of the line's bytes.
pub open spec fn on_line(i: int, start: int, stride: int, n: int) -> bool {
    exists|x: int| 0 <= x < n && i == #[trigger] (start + x * stride)
}

/// The column of the pixel that byte `i` belongs to.
pub open spec fn column(i: int, w: int) -> int {
    (i / 4) % w
}

/// The row of the pixel that byte `i` belongs to.
pub open spec fn row(i: int, w: int) -> int {
    (i / 4) / w
}

/// Byte `i` after a pass along the rows.
pub open spec fn blur_h_at(s: Seq<u8>, w: int, r: int, i: int) -> u8 {
    if i % 4 == 3 {
        s[i]
    } else {
        line_mean(s, row(i, w) * w * 4 + i % 4, 4, w, r, column(i, w)) as u8
    }
}

/// Byte `i` after a pass along the columns.
pub open spec fn blur_v_at(s: Seq<u8>, w: int, h: int, r: int, i: int) -> u8 {
    if i % 4 == 3 {
        s[i]
    } else {
        line_mean(s, column(i, w) * 4 + i % 4, w * 4, h, r, row(i, w)) as u8
    }
}

/// A buffer after a pass along the rows of a `w` by `h` image; what lies behind the image stays.
pub open spec fn blurred_h(s: Seq<u8>, behind: Seq<u8>, w: int, h: int, r: int) -> Seq<u8> {
    Seq::new(
        behind.len(),
        |i: int|
            if i < w * h * 4 {
                blur_h_at(s, w, r, i)
            } else {
                behind[i]
            },
    )
}

/// A buffer after a pass along the columns of a `w` by `h` image; what lies behind the image
/// stays.
pub open spec fn blurred_v(s: Seq<u8>, behind: Seq<u8>, w: int, h: int, r: int) -> Seq<u8> {
    Seq::new(
        behind.len(),
        |i: int|
            if i < w * h * 4 {
                blur_v_at(s, w, h, r, i)
            } else {
                behind[i]
            },
    )
}

/// Every byte of an image is one of the four bytes of one of its pixels.
pub proof fn pixel_of_byte(i: int, w: int, h: int)
    requires
        0 <= i < w * h * 4,
        0 < w,
    ensures
        0 <= column(i, w) < w,
        0 <= row(i, w) < h,
        i == (row(i, w) * w + column(i, w)) * 4 + i % 4,
{
    let p = i / 4;
    assert(p < w * h);
    lemma_fundamental_div_mod(p, w);
    lemma_mod_bound(p, w);
    lemma_div_pos_is_pos(p, w);
    lemma_mul_is_commutative(w, p / w);
    if p / w >= h {
        lemma_mul_inequality(h, p / w, w);
        lemma_mul_is_commutative(h, w);
    }
}

/// The bytes of the pixel at `(x, y)`.
pub proof fn byte_of_pixel(x: int, y: int, c: int, w: int, h: int)
    requires
        0 <= x < w,
        0 <= y < h,
        0 <= c < 4,
    ensures
        ({
            let i = (y * w + x) * 4 + c;
            0 <= i < w * h * 4 && i % 4 == c && column(i, w) == x && row(i, w) == y
        }),
{
    let p = y * w + x;
    lemma_fundamental_div_mod_converse(p, w, y, x);
    assert(0 <= y * w && y * w + w <= w * h) by (nonlinear_arith)
        requires
            0 <= y < h,
            0 < w,
    ;
}

/// Copies the alpha bytes of the first `count` pixels.
fn copy_alpha(src: &[u8], dst: &mut [u8], count: usize)
    requires
        count * 4 <= src@.len(),
        count * 4 <= old(dst)@.len(),
    ensures
        final(dst)@.len() == old(dst)@.len(),
        forall|i: int|
            0 <= i < final(dst)@.len() ==> #[trigger] final(dst)@[i] == if i < count * 4 && i % 4
                == 3 {
                src@[i]
            } else {
                old(dst)@[i]
            },
{
    let len: usize = src.len();
    let mut p: usize = 0;
    while p < count
        invariant
            p <= count,
            len == src@.len(),
            count * 4 <= len,
            count * 4 <= dst@.len(),
            dst@.len() == old(dst)@.len(),
            forall|i: int|
                0 <= i < dst@.len() ==> #[trigger] dst@[i] == if i < p * 4 && i % 4 == 3 {
                    src@[i]
                } else {
                    old(dst)@[i]
                },
        decreases count - p,
    {
        dst[p * 4 + 3] = src[p * 4 + 3];
        p = p + 1;
    }
}

/// Blurs a `w` by `h` image along its rows, from `src` to `dst`.
pub fn box_blur_h(src: &[u8], dst: &mut [u8], w: usize, h: usize, r: usize)
    requires
        w * h * 4 <= src@.len(),
        w * h * 4 <= old(dst)@.len(),
        h > 0 ==> w > 0,
        2 * r + 1 <= u32::MAX,
    ensures
        final(dst)@ == blurred_h(src@, old(dst)@, w as int, h as int, r as int),
{
    if h == 0 {
        proof {
            assert(w * h * 4 == 0) by (nonlinear_arith)
                requires
                    h == 0,
            ;
        }
        assert(dst@ =~= blurred_h(src@, old(dst)@, w as int, h as int, r as int));
        return;
    }
    let len: usize = src.len();
    let ghost (s, before) = (src@, dst@);
    let ghost (iw, ih, ir) = (w as int, h as int, r as int);
    let mut y: usize = 0;
    while y < h
        invariant
            y <= h,
            len == src@.len(),
            s == src@,
            iw == w,
            ih == h,
            ir == r,
            0 < w,
            w * h * 4 <= len,
            w * h * 4 <= dst@.len(),
            2 * r + 1 <= u32::MAX,
            before.len() == dst@.len(),
            rows_done(s, before, dst@, iw, ih, ir, y as int, 0),
        decreases h - y,
    {
        let mut c: usize = 0;
        while c < 3
            invariant
                c <= 3,
                y < h,
                len == src@.len(),
                s == src@,
                iw == w,
                ih == h,
                ir == r,
                0 < w,
                w * h * 4 <= len,
                w * h * 4 <= dst@.len(),
                2 * r + 1 <= u32::MAX,
                    before.len() == dst@.len(),
                rows_done(s, before, dst@, iw, ih, ir, y as int, c as int),
            decreases 3 - c,
        {
            proof {
                byte_of_pixel(0, y as int, c as int, iw, ih);
                byte_of_pixel(iw - 1, y as int, c as int, iw, ih);
                assert(y * w * 4 <= w * h * 4) by (nonlinear_arith)
                    requires
                        y < h,
                        w > 0,
                ;
                assert(0 <= y * w) by (nonlinear_arith);
            }
            let ghost previous = dst@;
            blur_line(src, dst, y * w * 4 + c, 4, w, r);
            proof {
                lemma_row_step(s, before, previous, dst@, iw, ih, ir, y as int, c as int);
            }
            c = c + 1;
        }
        proof {
            lemma_rows_next(s, before, dst@, iw, ih, ir, y as int);
        }
        y = y + 1;
    }
    let ghost coloured = dst@;
    proof {
        lemma_mul_is_commutative(iw, ih);
        assert(0 <= iw * ih) by (nonlinear_arith)
            requires
                iw >= 0,
                ih >= 0,
        ;
    }
    copy_alpha(src, dst, w * h);
    proof {
        assert forall|i: int| 0 <= i < dst@.len() implies dst@[i] == blurred_h(
            s,
            before,
            iw,
            ih,
            ir,
        )[i] by {
            if i < iw * ih * 4 {
                pixel_of_byte(i, iw, ih);
                assert(coloured[i] == coloured[i]);
            }
        }
        assert(dst@ =~= blurred_h(s, before, iw, ih, ir));
    }
}

/// The rows above `y` hold blurred colours, and so do the first `c` colours of row `y`; all else
/// is as before.
spec fn rows_done(
    s: Seq<u8>,
    before: Seq<u8>,
    now: Seq<u8>,
    w: int,
    h: int,
    r: int,
    y: int,
    c: int,
) -> bool {
    forall|i: int|
        0 <= i < now.len() ==> #[trigger] now[i] == if i < w * h * 4 && i % 4 < 3 && (row(i, w) < y
            || (row(i, w) == y && i % 4 < c)) {
            blur_h_at(s, w, r, i)
        } else {
            before[i]
        }
}

proof fn lemma_row_step(
    s: Seq<u8>,
    before: Seq<u8>,
    previous: Seq<u8>,
    now: Seq<u8>,
    w: int,
    h: int,
    r: int,
    y: int,
    c: int,
)
    requires
        0 < w,
        0 <= y < h,
        0 <= c < 3,
        0 <= r,
        w * h * 4 <= now.len(),
        previous.len() == now.len(),
        rows_done(s, before, previous, w, h, r, y, c),
        forall|i: int|
            #![trigger now[i]]
            0 <= i < now.len() && !on_line(i, y * w * 4 + c, 4, w) ==> now[i] == previous[i],
        forall|x: int|
            0 <= x < w ==> #[trigger] now[y * w * 4 + c + x * 4] == line_mean(
                s,
                y * w * 4 + c,
                4,
                w,
                r,
                x,
            ),
    ensures
        rows_done(s, before, now, w, h, r, y, c + 1),
{
    assert forall|i: int| 0 <= i < now.len() implies #[trigger] now[i] == (if i < w * h * 4 && i % 4
        < 3 && (row(i, w) < y || (row(i, w) == y && i % 4 < c + 1)) {
        blur_h_at(s, w, r, i)
    } else {
        before[i]
    }) by {
        assert(previous[i] == previous[i]);
        if on_line(i, y * w * 4 + c, 4, w) {
            let x = choose|x: int| 0 <= x < w && i == #[trigger] (y * w * 4 + c + x * 4);
            byte_of_pixel(x, y, c, w, h);
            lemma_mean_is_byte(s, y * w * 4 + c, 4, w, r, x);
        } else if i < w * h * 4 && i % 4 == c && row(i, w) == y {
            pixel_of_byte(i, w, h);
            let x = column(i, w);
            assert(i == y * w * 4 + c + x * 4);
        }
    }
}

proof fn lemma_rows_next(
    s: Seq<u8>,
    before: Seq<u8>,
    now: Seq<u8>,
    w: int,
    h: int,
    r: int,
    y: int,
)
    requires
        rows_done(s, before, now, w, h, r, y, 3),
    ensures
        rows_done(s, before, now, w, h, r, y + 1, 0),
{
    assert forall|i: int| 0 <= i < now.len() implies #[trigger] now[i] == (if i < w * h * 4 && i % 4
        < 3 && (row(i, w) < y + 1 || (row(i, w) == y + 1 && i % 4 < 0)) {
        blur_h_at(s, w, r, i)
    } else {
        before[i]
    }) by {}
}

/// Blurs a `w` by `h` image along its columns, from `src` to `dst`.
pub fn box_blur_v(src: &[u8], dst: &mut [u8], w: usize, h: usize, r: usize)
    requires
        w * h * 4 <= src@.len(),
        w * h * 4 <= old(dst)@.len(),
        w > 0 ==> h > 0,
        2 * r + 1 <= u32::MAX,
    ensures
        final(dst)@ == blurred_v(src@, old(dst)@, w as int, h as int, r as int),
{
    if w == 0 {
        proof {
            assert(w * h * 4 == 0) by (nonlinear_arith)
                requires
                    w == 0,
            ;
        }
        assert(dst@ =~= blurred_v(src@, old(dst)@, w as int, h as int, r as int));
        return;
    }
    let len: usize = src.len();
    let ghost (s, before) = (src@, dst@);
    let ghost (iw, ih, ir) = (w as int, h as int, r as int);
    let mut x: usize = 0;
    while x < w
        invariant
            x <= w,
            0 < h,
            len == src@.len(),
            s == src@,
            iw == w,
            ih == h,
            ir == r,
            0 < w,
            w * h * 4 <= len,
            w * h * 4 <= dst@.len(),
            2 * r + 1 <= u32::MAX,
            before.len() == dst@.len(),
            columns_done(s, before, dst@, iw, ih, ir, x as int, 0),
        decreases w - x,
    {
        let mut c: usize = 0;
        while c < 3
            invariant
                c <= 3,
                x < w,
                0 < h,
                len == src@.len(),
                s == src@,
                iw == w,
                ih == h,
                ir == r,
                0 < w,
                w * h * 4 <= len,
                w * h * 4 <= dst@.len(),
                2 * r + 1 <= u32::MAX,
                    before.len() == dst@.len(),
                columns_done(s, before, dst@, iw, ih, ir, x as int, c as int),
            decreases 3 - c,
        {
            proof {
                byte_of_pixel(x as int, 0, c as int, iw, ih);
                byte_of_pixel(x as int, ih - 1, c as int, iw, ih);
                lemma_column_inside(x as int, iw, ih);
            }
            let ghost previous = dst@;
            blur_line(src, dst, x * 4 + c, w * 4, h, r);
            proof {
                lemma_column_step(s, before, previous, dst@, iw, ih, ir, x as int, c as int);
            }
            c = c + 1;
        }
        proof {
            lemma_columns_next(s, before, dst@, iw, ih, ir, x as int);
        }
        x = x + 1;
    }
    let ghost coloured = dst@;
    proof {
        lemma_mul_is_commutative(iw, ih);
        assert(0 <= iw * ih) by (nonlinear_arith)
            requires
                iw >= 0,
                ih >= 0,
        ;
    }
    copy_alpha(src, dst, w * h);
    proof {
        assert forall|i: int| 0 <= i < dst@.len() implies dst@[i] == blurred_v(
            s,
            before,
            iw,
            ih,
            ir,
        )[i] by {
            if i < iw * ih * 4 {
                pixel_of_byte(i, iw, ih);
                assert(coloured[i] == coloured[i]);
            }
        }
        assert(dst@ =~= blurred_v(s, before, iw, ih, ir));
    }
}

proof fn lemma_column_inside(x: int, w: int, h: int)
    requires
        0 <= x < w,
        0 < h,
    ensures
        w * 4 <= w * h * 4,
        x * 4 + 3 + (h - 1) * (w * 4) < w * h * 4,
{
    assert(w * 4 + (h - 1) * (w * 4) == w * h * 4) by (nonlinear_arith);
    assert((h - 1) * (w * 4) >= 0) by (nonlinear_arith)
        requires
            h >= 1,
            w > 0,
    ;
}

/// The columns left of `x` hold blurred colours, and so do the first `c` colours of column `x`;
/// all else is as before.
spec fn columns_done(
    s: Seq<u8>,
    before: Seq<u8>,
    now: Seq<u8>,
    w: int,
    h: int,
    r: int,
    x: int,
    c: int,
) -> bool {
    forall|i: int|
        0 <= i < now.len() ==> #[trigger] now[i] == if i < w * h * 4 && i % 4 < 3 && (column(i, w) < x
            || (column(i, w) == x && i % 4 < c)) {
            blur_v_at(s, w, h, r, i)
        } else {
            before[i]
        }
}

proof fn lemma_column_step(
    s: Seq<u8>,
    before: Seq<u8>,
    previous: Seq<u8>,
    now: Seq<u8>,
    w: int,
    h: int,
    r: int,
    x: int,
    c: int,
)
    requires
        0 < w,
        0 <= x < w,
        0 < h,
        0 <= c < 3,
        0 <= r,
        w * h * 4 <= now.len(),
        previous.len() == now.len(),
        columns_done(s, before, previous, w, h, r, x, c),
        forall|i: int|
            #![trigger now[i]]
            0 <= i < now.len() && !on_line(i, x * 4 + c, w * 4, h) ==> now[i] == previous[i],
        forall|y: int|
            0 <= y < h ==> #[trigger] now[x * 4 + c + y * (w * 4)] == line_mean(
                s,
                x * 4 + c,
                w * 4,
                h,
                r,
                y,
            ),
    ensures
        columns_done(s, before, now, w, h, r, x, c + 1),
{
    assert forall|i: int| 0 <= i < now.len() implies #[trigger] now[i] == (if i < w * h * 4 && i % 4
        < 3 && (column(i, w) < x || (column(i, w) == x && i % 4 < c + 1)) {
        blur_v_at(s, w, h, r, i)
    } else {
        before[i]
    }) by {
        assert(previous[i] == previous[i]);
        if on_line(i, x * 4 + c, w * 4, h) {
            let y = choose|y: int| 0 <= y < h && i == #[trigger] (x * 4 + c + y * (w * 4));
            byte_of_pixel(x, y, c, w, h);
            lemma_mul_is_associative(y, w, 4);
            lemma_mean_is_byte(s, x * 4 + c, w * 4, h, r, y);
        } else if i < w * h * 4 && i % 4 == c && column(i, w) == x {
            pixel_of_byte(i, w, h);
            let y = row(i, w);
            lemma_mul_is_associative(y, w, 4);
            assert(i == x * 4 + c + y * (w * 4));
        }
    }
}

proof fn lemma_columns_next(
    s: Seq<u8>,
    before: Seq<u8>,
    now: Seq<u8>,
    w: int,
    h: int,
    r: int,
    x: int,
)
    requires
        columns_done(s, before, now, w, h, r, x, 3),
    ensures
        columns_done(s, before, now, w, h, r, x + 1, 0),
{
    assert forall|i: int| 0 <= i < now.len() implies #[trigger] now[i] == (if i < w * h * 4 && i % 4
        < 3 && (column(i, w) < x + 1 || (column(i, w) == x + 1 && i % 4 < 0)) {
        blur_v_at(s, w, h, r, i)
    } else {
        before[i]
    }) by {}
}


/// One round of the blur: along the rows, then along the columns.
pub open spec fn blur_round(s: Seq<u8>, w: int, h: int, r: int) -> Seq<u8> {
    blurred_v(blurred_h(s, s, w, h, r), s, w, h, r)
}

proof fn lemma_sum_reads_line(
    s: Seq<u8>,
    t: Seq<u8>,
    start: int,
    stride: int,
    n: int,
    lo: int,
    hi: int,
)
    requires
        0 < n,
        forall|x: int| 0 <= x < n ==> #[trigger] s[start + x * stride] == t[start + x * stride],
    ensures
        line_sum(s, start, stride, n, lo, hi) == line_sum(t, start, stride, n, lo, hi),
    decreases hi - lo,
{
    if lo < hi {
        lemma_sum_reads_line(s, t, start, stride, n, lo, hi - 1);
        let x = clamped(hi - 1, n);
        assert(s[start + x * stride] == t[start + x * stride]);
    }
}

/// A pass along the columns reads the image alone.
proof fn lemma_blur_v_reads_image(s: Seq<u8>, t: Seq<u8>, w: int, h: int, r: int, i: int)
    requires
        0 < w,
        0 <= i < w * h * 4,
        forall|k: int| 0 <= k < w * h * 4 ==> #[trigger] s[k] == t[k],
    ensures
        blur_v_at(s, w, h, r, i) == blur_v_at(t, w, h, r, i),
{
    pixel_of_byte(i, w, h);
    let (x, y, c) = (column(i, w), row(i, w), i % 4);
    assert forall|k: int| 0 <= k < h implies #[trigger] s[x * 4 + c + k * (w * 4)] == t[x * 4 + c
        + k * (w * 4)] by {
        byte_of_pixel(x, k, c, w, h);
        lemma_mul_is_associative(k, w, 4);
        assert(s[(k * w + x) * 4 + c] == t[(k * w + x) * 4 + c]);
    }
    lemma_sum_reads_line(s, t, x * 4 + c, w * 4, h, y - r, y + r + 1);
}

/// Blurs a `w` by `h` image: two rounds of a pass along the rows and one along the columns.
pub fn apply_blur(pixels: &mut [u8], w: usize, h: usize, radius: usize)
    requires
        w * h * 4 <= old(pixels)@.len(),
        w == 0 <==> h == 0,
        2 * radius + 1 <= u32::MAX,
    ensures
        final(pixels)@ == blur_round(
            blur_round(old(pixels)@, w as int, h as int, radius as int),
            w as int,
            h as int,
            radius as int,
        ),
{
    let mut tmp: Vec<u8> = vec![0u8; pixels.len()];
    let ghost (iw, ih, ir) = (w as int, h as int, radius as int);
    let ghost p0 = pixels@;
    let ghost t0 = tmp@;
    box_blur_h(pixels, &mut tmp, w, h, radius);
    box_blur_v(&tmp, pixels, w, h, radius);
    proof {
        lemma_round(p0, t0, iw, ih, ir);
    }
    let ghost p1 = pixels@;
    let ghost t1 = tmp@;
    box_blur_h(pixels, &mut tmp, w, h, radius);
    box_blur_v(&tmp, pixels, w, h, radius);
    proof {
        lemma_round(p1, t1, iw, ih, ir);
    }
}

proof fn lemma_round(p: Seq<u8>, t: Seq<u8>, w: int, h: int, r: int)
    requires
        0 <= w,
        w == 0 <==> h == 0,
        w * h * 4 <= p.len(),
        t.len() == p.len(),
    ensures
        blurred_v(blurred_h(p, t, w, h, r), p, w, h, r) == blur_round(p, w, h, r),
{
    let (a, b) = (blurred_h(p, t, w, h, r), blurred_h(p, p, w, h, r));
    assert forall|i: int| 0 <= i < p.len() implies blurred_v(a, p, w, h, r)[i] == blur_round(
        p,
        w,
        h,
        r,
    )[i] by {
        if i < w * h * 4 {
            assert(0 < w) by {
                if w == 0 {
                    assert(w * h * 4 == 0);
                }
            }
            lemma_blur_v_reads_image(a, b, w, h, r, i);
        }
    }
    assert(blurred_v(a, p, w, h, r) =~= blur_round(p, w, h, r));
}

/// Blurring keeps the alpha bytes of the image and every byte behind it.
pub proof fn blur_keeps_alpha(s: Seq<u8>, w: int, h: int, r: int, i: int)
    requires
        w * h * 4 <= s.len(),
        0 <= i < s.len(),
        i % 4 == 3 || i >= w * h * 4,
    ensures
        blur_round(s, w, h, r).len() == s.len(),
        blur_round(s, w, h, r)[i] == s[i],
{
}

/// Every byte of colour `c` in the image lies between `lo` and `hi`.
pub open spec fn channel_within(s: Seq<u8>, w: int, h: int, c: int, lo: int, hi: int) -> bool {
    forall|i: int| 0 <= i < w * h * 4 && i % 4 == c ==> lo <= #[trigger] s[i] <= hi
}

proof fn lemma_mean_between(
    s: Seq<u8>,
    start: int,
    stride: int,
    n: int,
    r: int,
    x: int,
    lo: int,
    hi: int,
)
    requires
        0 < n,
        0 <= r,
        forall|k: int| 0 <= k < n ==> lo <= #[trigger] s[start + k * stride] <= hi,
    ensures
        lo <= line_mean(s, start, stride, n, r, x) <= hi,
{
    let cnt = 2 * r + 1;
    let sum = line_sum(s, start, stride, n, x - r, x + r + 1);
    lemma_sum_between(s, start, stride, n, x - r, x + r + 1, lo, hi);
    lemma_div_is_ordered(lo * cnt, sum, cnt);
    lemma_div_is_ordered(sum, hi * cnt, cnt);
    lemma_mul_is_commutative(lo, cnt);
    lemma_mul_is_commutative(hi, cnt);
    lemma_div_multiples_vanish(lo, cnt);
    lemma_div_multiples_vanish(hi, cnt);
}

proof fn lemma_sum_between(
    s: Seq<u8>,
    start: int,
    stride: int,
    n: int,
    a: int,
    b: int,
    lo: int,
    hi: int,
)
    requires
        0 < n,
        a <= b,
        forall|k: int| 0 <= k < n ==> lo <= #[trigger] s[start + k * stride] <= hi,
    ensures
        lo * (b - a) <= line_sum(s, start, stride, n, a, b) <= hi * (b - a),
    decreases b - a,
{
    if a < b {
        lemma_sum_between(s, start, stride, n, a, b - 1, lo, hi);
        let k = clamped(b - 1, n);
        assert(lo <= s[start + k * stride] <= hi);
        lemma_mul_is_distributive_add(lo, b - 1 - a, 1);
        lemma_mul_is_distributive_add(hi, b - 1 - a, 1);
    } else {
        lemma_mul_by_zero_is_zero(lo);
        lemma_mul_by_zero_is_zero(hi);
    }
}

/// Blurring invents no colour: where every byte of a colour lies between two bounds, it still
/// does afterwards.
pub proof fn blur_stays_within(s: Seq<u8>, w: int, h: int, r: int, c: int, lo: int, hi: int)
    requires
        0 < w,
        0 < h,
        0 <= r,
        0 <= c < 3,
        w * h * 4 <= s.len(),
        channel_within(s, w, h, c, lo, hi),
    ensures
        channel_within(blur_round(s, w, h, r), w, h, c, lo, hi),
{
    let t = blurred_h(s, s, w, h, r);
    assert forall|i: int| 0 <= i < w * h * 4 && i % 4 == c implies lo <= #[trigger] t[i] <= hi by {
        pixel_of_byte(i, w, h);
        let (x, y) = (column(i, w), row(i, w));
        let start = y * w * 4 + c;
        assert forall|k: int| 0 <= k < w implies lo <= #[trigger] s[start + k * 4] <= hi by {
            byte_of_pixel(k, y, c, w, h);
            assert(start + k * 4 == (y * w + k) * 4 + c);
        }
        lemma_mean_between(s, start, 4, w, r, x, lo, hi);
        lemma_mean_is_byte(s, start, 4, w, r, x);
    }
    let u = blurred_v(t, s, w, h, r);
    assert forall|i: int| 0 <= i < w * h * 4 && i % 4 == c implies lo <= #[trigger] u[i] <= hi by {
        pixel_of_byte(i, w, h);
        let (x, y) = (column(i, w), row(i, w));
        let start = x * 4 + c;
        assert forall|k: int| 0 <= k < h implies lo <= #[trigger] t[start + k * (w * 4)] <= hi by {
            byte_of_pixel(x, k, c, w, h);
            lemma_mul_is_associative(k, w, 4);
            assert(start + k * (w * 4) == (k * w + x) * 4 + c);
        }
        lemma_mean_between(t, start, w * 4, h, r, y, lo, hi);
        lemma_mean_is_byte(t, start, w * 4, h, r, y);
    }
}

/// A plane of one colour keeps its colour.
pub proof fn blur_keeps_flat_colour(s: Seq<u8>, w: int, h: int, r: int, c: int, v: u8, i: int)
    requires
        0 < w,
        0 < h,
        0 <= r,
        0 <= c < 3,
        w * h * 4 <= s.len(),
        channel_within(s, w, h, c, v as int, v as int),
        0 <= i < w * h * 4,
        i % 4 == c,
    ensures
        blur_round(s, w, h, r)[i] == v,
{
    blur_stays_within(s, w, h, r, c, v as int, v as int);
    assert(blur_round(s, w, h, r)[i] == blur_round(s, w, h, r)[i]);
}

/// A blur of radius zero changes nothing.
pub proof fn blur_of_radius_zero(s: Seq<u8>, w: int, h: int)
    requires
        0 <= w,
        0 <= h,
        w * h * 4 <= s.len(),
    ensures
        blur_round(s, w, h, 0) == s,
{
    let t = blurred_h(s, s, w, h, 0);
    assert forall|i: int| 0 <= i < s.len() implies t[i] == s[i] by {
        if i < w * h * 4 && i % 4 != 3 {
            lemma_positive_width(i, w, h);
            pixel_of_byte(i, w, h);
            lemma_single_mean(s, row(i, w) * w * 4 + i % 4, 4, w, column(i, w));
        }
    }
    assert(t =~= s);
    let u = blurred_v(t, s, w, h, 0);
    assert forall|i: int| 0 <= i < s.len() implies u[i] == s[i] by {
        if i < w * h * 4 && i % 4 != 3 {
            lemma_positive_width(i, w, h);
            pixel_of_byte(i, w, h);
            lemma_mul_is_associative(row(i, w), w, 4);
            lemma_single_mean(s, column(i, w) * 4 + i % 4, w * 4, h, row(i, w));
        }
    }
    assert(u =~= s);
}

proof fn lemma_positive_width(i: int, w: int, h: int)
    requires
        0 <= i < w * h * 4,
        0 <= w,
    ensures
        0 < w,
{
    if w == 0 {
        lemma_mul_by_zero_is_zero(h);
    }
}

proof fn lemma_single_mean(s: Seq<u8>, start: int, stride: int, n: int, x: int)
    requires
        0 <= x < n,
    ensures
        line_mean(s, start, stride, n, 0, x) == s[start + x * stride],
{
    assert(line_sum(s, start, stride, n, x, x) == 0);
    assert(line_sum(s, start, stride, n, x, x + 1) == s[start + x * stride]);
    lemma_div_basics(line_sum(s, start, stride, n, x, x + 1));
    assert(line_mean(s, start, stride, n, 0, x) == line_sum(s, start, stride, n, x - 0, x + 0 + 1)
        / 1);
}

/// The sum of integers.
pub open spec fn total(v: Seq<int>) -> int
    decreases v.len(),
{
    if v.len() == 0 {
        0
    } else {
        total(v.drop_last()) + v.last()
    }
}

/// The place on a line of `n` that is nearest to `i`.
pub open spec fn nearest_place(i: int, n: int) -> int {
    if i < 0 {
        0
    } else if i >= n {
        n - 1
    } else {
        i
    }
}

proof fn lemma_sum_is_total(s: Seq<u8>, start: int, stride: int, n: int, lo: int, k: nat)
    ensures
        line_sum(s, start, stride, n, lo, lo + k) == total(
            Seq::new(k, |j: int| s[start + nearest_place(lo + j, n) * stride] as int),
        ),
    decreases k,
{
    let v = Seq::new(k, |j: int| s[start + nearest_place(lo + j, n) * stride] as int);
    if k > 0 {
        let k1 = (k - 1) as nat;
        lemma_sum_is_total(s, start, stride, n, lo, k1);
        assert(v.drop_last() =~= Seq::new(
            k1,
            |j: int| s[start + nearest_place(lo + j, n) * stride] as int,
        ));
    }
}

proof fn lemma_mean_bounds(sum: int, r: int)
    requires
        0 <= r,
    ensures
        (sum / (2 * r + 1)) * (2 * r + 1) <= sum < (sum / (2 * r + 1) + 1) * (2 * r + 1),
{
    let d = 2 * r + 1;
    lemma_fundamental_div_mod(sum, d);
    lemma_mod_bound(sum, d);
    lemma_mul_is_commutative(d, sum / d);
    lemma_mul_is_distributive_add_other_way(d, sum / d, 1);
}

/// A pass along the rows replaces each colour byte by the mean, rounded down, of the window of
/// `2 * r + 1` pixels of its row around it; beyond the ends of the row its end pixels count.
pub proof fn rows_are_averaged(
    s: Seq<u8>,
    behind: Seq<u8>,
    w: int,
    h: int,
    r: int,
    x: int,
    y: int,
    c: int,
)
    requires
        0 <= x < w,
        0 <= y < h,
        0 <= c < 3,
        0 <= r,
        w * h * 4 <= behind.len(),
    ensures
        ({
            let m = blurred_h(s, behind, w, h, r)[(y * w + x) * 4 + c] as int;
            let window = Seq::new(
                (2 * r + 1) as nat,
                |k: int| s[(y * w + nearest_place(x - r + k, w)) * 4 + c] as int,
            );
            m * (2 * r + 1) <= total(window) < (m + 1) * (2 * r + 1)
        }),
{
    let i = (y * w + x) * 4 + c;
    let start = y * w * 4 + c;
    let n = (2 * r + 1) as nat;
    byte_of_pixel(x, y, c, w, h);
    lemma_mean_is_byte(s, start, 4, w, r, x);
    lemma_sum_is_total(s, start, 4, w, x - r, n);
    lemma_mean_bounds(line_sum(s, start, 4, w, x - r, x + r + 1), r);
    assert(Seq::new(n, |k: int| s[(y * w + nearest_place(x - r + k, w)) * 4 + c] as int) =~= Seq::new(
        n,
        |j: int| s[start + nearest_place(x - r + j, w) * 4] as int,
    ));
}

/// A pass along the columns does the same for the column of each pixel.
pub proof fn columns_are_averaged(
    s: Seq<u8>,
    behind: Seq<u8>,
    w: int,
    h: int,
    r: int,
    x: int,
    y: int,
    c: int,
)
    requires
        0 <= x < w,
        0 <= y < h,
        0 <= c < 3,
        0 <= r,
        w * h * 4 <= behind.len(),
    ensures
        ({
            let m = blurred_v(s, behind, w, h, r)[(y * w + x) * 4 + c] as int;
            let window = Seq::new(
                (2 * r + 1) as nat,
                |k: int| s[(nearest_place(y - r + k, h) * w + x) * 4 + c] as int,
            );
            m * (2 * r + 1) <= total(window) < (m + 1) * (2 * r + 1)
        }),
{
    let i = (y * w + x) * 4 + c;
    let start = x * 4 + c;
    let n = (2 * r + 1) as nat;
    byte_of_pixel(x, y, c, w, h);
    lemma_mean_is_byte(s, start, w * 4, h, r, y);
    lemma_sum_is_total(s, start, w * 4, h, y - r, n);
    lemma_mean_bounds(line_sum(s, start, w * 4, h, y - r, y + r + 1), r);
    let a = Seq::new(n, |k: int| s[(nearest_place(y - r + k, h) * w + x) * 4 + c] as int);
    let b = Seq::new(n, |j: int| s[start + nearest_place(y - r + j, h) * (w * 4)] as int);
    assert forall|k: int| 0 <= k < n implies a[k] == b[k] by {
        let p = nearest_place(y - r + k, h);
        assert((p * w + x) * 4 + c == start + p * (w * 4)) by (nonlinear_arith)
            requires
                start == x * 4 + c,
        ;
    }
    assert(a =~= b);
}

/// A pass leaves the alpha of each pixel, and all that lies behind the image, as they are.
pub proof fn passes_leave_alpha_alone(
    s: Seq<u8>,
    behind: Seq<u8>,
    w: int,
    h: int,
    r: int,
    x: int,
    y: int,
)
    requires
        0 <= x < w,
        0 <= y < h,
        w * h * 4 <= behind.len(),
    ensures
        blurred_h(s, behind, w, h, r)[(y * w + x) * 4 + 3] == s[(y * w + x) * 4 + 3],
        blurred_v(s, behind, w, h, r)[(y * w + x) * 4 + 3] == s[(y * w + x) * 4 + 3],
        blurred_h(s, behind, w, h, r).len() == behind.len(),
        blurred_v(s, behind, w, h, r).len() == behind.len(),
        forall|i: int|
            w * h * 4 <= i < behind.len() ==> #[trigger] blurred_h(s, behind, w, h, r)[i]
                == behind[i],
        forall|i: int|
            w * h * 4 <= i < behind.len() ==> #[trigger] blurred_v(s, behind, w, h, r)[i]
                == behind[i],
{
    byte_of_pixel(x, y, 3, w, h);
}

/// A round averages along the rows and then, of what came out, along the columns.
pub proof fn a_round_averages_rows_then_columns(
    s: Seq<u8>,
    w: int,
    h: int,
    r: int,
    x: int,
    y: int,
    c: int,
)
    requires
        0 <= x < w,
        0 <= y < h,
        0 <= c < 3,
        0 <= r,
        w * h * 4 <= s.len(),
    ensures
        ({
            let m = blur_round(s, w, h, r)[(y * w + x) * 4 + c] as int;
            let window = Seq::new(
                (2 * r + 1) as nat,
                |k: int|
                    blurred_h(s, s, w, h, r)[(nearest_place(y - r + k, h) * w + x) * 4 + c] as int,
            );
            m * (2 * r + 1) <= total(window) < (m + 1) * (2 * r + 1)
        }),
{
    columns_are_averaged(blurred_h(s, s, w, h, r), s, w, h, r, x, y, c);
}

} // verus!
