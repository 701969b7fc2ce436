//! The displays, their order, and the strip at the bottom of one of them that the bar takes.
use crate::layout::Rect;
use vstd::prelude::*;

verus! {

/// A display: where it lies, and whether it is the primary one.
#[derive(Clone, Copy, PartialEq, Eq, Structural, Debug)]
pub struct MonitorInfo {
    pub rect: Rect,
    pub primary: bool,
}

/// Describes a display by its rectangle and the flags that the system gives it; the lowest flag
/// marks the primary display.
pub fn monitor_info(rect: Rect, flags: u32) -> (r: MonitorInfo)
    ensures
        r.rect == rect,
        r.primary <==> flags % 2 == 1,
{
    MonitorInfo { rect, primary: flags % 2 == 1 }
}

/// One display comes before another: it lies further left, or equally far left and further up.
pub open spec fn precedes(a: Rect, b: Rect) -> bool {
    a.left < b.left || (a.left == b.left && a.top < b.top)
}

/// `out` is `list` in another order: `out[i]` is `list[from[i]]`, and no place is used twice.
pub open spec fn is_reordering(list: Seq<MonitorInfo>, out: Seq<MonitorInfo>, from: Seq<int>) -> bool {
    &&& out.len() == list.len()
    &&& from.len() == list.len()
    &&& forall|i: int| 0 <= i < from.len() ==> 0 <= #[trigger] from[i] < list.len()
    &&& forall|i: int| 0 <= i < from.len() ==> #[trigger] out[i] == list[from[i]]
    &&& forall|i: int, j: int| 0 <= i < j < from.len() ==> #[trigger] from[i] != #[trigger] from[j]
}

/// The displays stand from left to right and from top to bottom; those at the same corner keep the
/// order in which they came.
pub open spec fn is_ordered(out: Seq<MonitorInfo>, from: Seq<int>) -> bool {
    forall|i: int, j: int|
        #![trigger out[i], out[j]]
        0 <= i < j < out.len() ==> precedes(out[i].rect, out[j].rect) || (!precedes(
            out[j].rect,
            out[i].rect,
        ) && from[i] < from[j])
}

fn comes_before(a: &Rect, b: &Rect) -> (r: bool)
    ensures
        r == precedes(*a, *b),
{
    a.left < b.left || (a.left == b.left && a.top < b.top)
}

proof fn lemma_insert(
    list: Seq<MonitorInfo>,
    out: Seq<MonitorInfo>,
    from: Seq<int>,
    n: int,
    k: int,
)
    requires
        0 <= n < list.len(),
        0 <= k <= out.len(),
        is_reordering(list.take(n), out, from),
        is_ordered(out, from),
        forall|i: int| k <= i < out.len() ==> precedes(list[n].rect, #[trigger] out[i].rect),
        k > 0 ==> !precedes(list[n].rect, out[k - 1].rect),
    ensures
        is_reordering(list.take(n + 1), out.insert(k, list[n]), from.insert(k, n)),
        is_ordered(out.insert(k, list[n]), from.insert(k, n)),
{
    let m = list[n];
    let (o, f) = (out.insert(k, m), from.insert(k, n));
    let (a, b) = (list.take(n), list.take(n + 1));
    assert forall|i: int| 0 <= i < f.len() implies 0 <= #[trigger] f[i] < b.len() by {
        if i < k {
            assert(f[i] == from[i]);
        } else if i > k {
            assert(f[i] == from[i - 1]);
        }
    }
    assert forall|i: int| 0 <= i < f.len() implies #[trigger] o[i] == b[f[i]] by {
        if i < k {
            assert(o[i] == out[i] && f[i] == from[i]);
            assert(out[i] == a[from[i]]);
        } else if i > k {
            assert(o[i] == out[i - 1] && f[i] == from[i - 1]);
            assert(out[i - 1] == a[from[i - 1]]);
        }
    }
    assert forall|i: int, j: int| 0 <= i < j < f.len() implies #[trigger] f[i]
        != #[trigger] f[j] by {
        let (p, q) = (if i < k {
            i
        } else {
            i - 1
        }, if j < k {
            j
        } else {
            j - 1
        });
        if i != k {
            assert(f[i] == from[p]);
            assert(from[p] < n);
        }
        if j != k {
            assert(f[j] == from[q]);
            assert(from[q] < n);
        }
    }
    assert forall|i: int, j: int|
        #![trigger o[i], o[j]]
        0 <= i < j < o.len() implies precedes(o[i].rect, o[j].rect) || (!precedes(
        o[j].rect,
        o[i].rect,
    ) && f[i] < f[j]) by {
        if j == k {
            assert(o[i] == out[i] && f[i] == from[i]);
            assert(from[i] < n);
            if i < k - 1 {
                assert(o[k - 1] == out[k - 1]);
                assert(precedes(out[i].rect, out[k - 1].rect) || !precedes(
                    out[k - 1].rect,
                    out[i].rect,
                ));
            }
        } else if i == k {
            assert(o[j] == out[j - 1]);
        } else {
            let p = if i < k {
                i
            } else {
                i - 1
            };
            let q = if j < k {
                j
            } else {
                j - 1
            };
            assert(o[i] == out[p] && o[j] == out[q]);
            assert(f[i] == from[p] && f[j] == from[q]);
        }
    }
}

/// Orders the displays from left to right and from top to bottom.
pub fn sort_monitors(list: &Vec<MonitorInfo>) -> (r: Vec<MonitorInfo>)
    ensures
        exists|from: Seq<int>| #[trigger] is_reordering(list@, r@, from) && is_ordered(r@, from),
{
    let mut out: Vec<MonitorInfo> = Vec::new();
    let mut n: usize = 0;
    let ghost mut from: Seq<int> = seq![];
    while n < list.len()
        invariant
            n <= list@.len(),
            is_reordering(list@.take(n as int), out@, from),
            is_ordered(out@, from),
        decreases list@.len() - n,
    {
        let m: MonitorInfo = list[n];
        let mut k: usize = out.len();
        while k > 0 && comes_before(&m.rect, &out[k - 1].rect)
            invariant
                k <= out@.len(),
                forall|i: int| k <= i < out@.len() ==> precedes(m.rect, #[trigger] out@[i].rect),
            decreases k,
        {
            k = k - 1;
        }
        proof {
            lemma_insert(list@, out@, from, n as int, k as int);
            from = from.insert(k as int, n as int);
        }
        out.insert(k, m);
        n = n + 1;
    }
    assert(list@.take(n as int) =~= list@);
    out
}

/// The display that an index stands for among `count`: one beyond the last stands for the last.
pub open spec fn effective(idx: int, count: int) -> int {
    if count == 0 {
        0
    } else if idx >= count {
        count - 1
    } else {
        idx
    }
}

/// Finds the display that a stored index stands for among `count`.
pub fn effective_index(idx: u32, count: usize) -> (r: usize)
    ensures
        r == effective(idx as int, count as int),
{
    if count == 0 {
        0
    } else if idx as u64 >= count as u64 {
        count - 1
    } else {
        idx as usize
    }
}

/// The rectangle of the chosen display; without any display, the whole screen.
pub open spec fn chosen_rect(list: Seq<MonitorInfo>, idx: int, screen_w: i32, screen_h: i32) -> Rect {
    if list.len() == 0 {
        Rect { left: 0, top: 0, right: screen_w, bottom: screen_h }
    } else {
        list[effective(idx, list.len() as int)].rect
    }
}

/// Finds the rectangle of the chosen display.
pub fn monitor_rect(list: &Vec<MonitorInfo>, idx: u32, screen_w: i32, screen_h: i32) -> (r: Rect)
    ensures
        r == chosen_rect(list@, idx as int, screen_w, screen_h),
{
    if list.len() == 0 {
        Rect { left: 0, top: 0, right: screen_w, bottom: screen_h }
    } else {
        let i: usize = effective_index(idx, list.len());
        list[i].rect
    }
}

/// The strip of height `bar_h` along the bottom of a display.
pub open spec fn strip(mon: Rect, bar_h: int) -> Rect {
    Rect { top: (mon.bottom - bar_h) as i32, ..mon }
}

/// Computes the strip of height `bar_h` along the bottom of a rectangle. The bar asks for this
/// strip of its display; and when the system has moved the strip, the bar takes the strip of its
/// height at the bottom of what it was given.
pub fn docked_rect(mon: Rect, bar_h: i32) -> (r: Rect)
    requires
        i32::MIN <= mon.bottom - bar_h <= i32::MAX,
    ensures
        r == strip(mon, bar_h as int),
{
    Rect { left: mon.left, top: mon.bottom - bar_h, right: mon.right, bottom: mon.bottom }
}

/// A window's position and size.
#[derive(Clone, Copy, PartialEq, Eq, Structural, Debug)]
pub struct Placing {
    pub x: i32,
    pub y: i32,
    pub width: i32,
    pub height: i32,
}

/// Computes a window's position and size from its rectangle.
pub fn window_placing(rc: Rect) -> (r: Placing)
    requires
        i32::MIN <= rc.right - rc.left <= i32::MAX,
        i32::MIN <= rc.bottom - rc.top <= i32::MAX,
    ensures
        r.x == rc.left,
        r.y == rc.top,
        r.width == rc.right - rc.left,
        r.height == rc.bottom - rc.top,
{
    Placing { x: rc.left, y: rc.top, width: rc.right - rc.left, height: rc.bottom - rc.top }
}

/// The bar's strip spans the whole width of its display, ends at its bottom edge, is exactly as
/// high as the settings say, and stays on the display where the display is high enough.
pub proof fn strip_lies_at_the_bottom(mon: Rect, bar_h: int)
    requires
        i32::MIN <= mon.bottom - bar_h <= i32::MAX,
    ensures
        strip(mon, bar_h).left == mon.left,
        strip(mon, bar_h).right == mon.right,
        strip(mon, bar_h).bottom == mon.bottom,
        strip(mon, bar_h).bottom - strip(mon, bar_h).top == bar_h,
        bar_h <= mon.bottom - mon.top ==> strip(mon, bar_h).top >= mon.top,
{
}

/// Sorting has one result: two orders of the same displays that are both sorted are equal.
pub proof fn sorting_is_unique(
    list: Seq<MonitorInfo>,
    a: Seq<MonitorInfo>,
    fa: Seq<int>,
    b: Seq<MonitorInfo>,
    fb: Seq<int>,
)
    requires
        is_reordering(list, a, fa),
        is_ordered(a, fa),
        is_reordering(list, b, fb),
        is_ordered(b, fb),
    ensures
        a == b,
{
    lemma_same_places(list, a, fa, b, fb, list.len() as int);
    assert forall|i: int| 0 <= i < a.len() implies a[i] == b[i] by {
        assert(fa[i] == fb[i]);
    }
    assert(a =~= b);
}

/// Two sorted orders take the same display at each of the first `n` places.
proof fn lemma_same_places(
    list: Seq<MonitorInfo>,
    a: Seq<MonitorInfo>,
    fa: Seq<int>,
    b: Seq<MonitorInfo>,
    fb: Seq<int>,
    n: int,
)
    requires
        is_reordering(list, a, fa),
        is_ordered(a, fa),
        is_reordering(list, b, fb),
        is_ordered(b, fb),
        0 <= n <= list.len(),
    ensures
        forall|i: int| 0 <= i < n ==> #[trigger] fa[i] == fb[i],
    decreases n,
{
    if n > 0 {
        let k = n - 1;
        lemma_same_places(list, a, fa, b, fb, k);
        if fa[k] != fb[k] {
            let p = lemma_place_of(list, b, fb, fa[k]);
            let q = lemma_place_of(list, a, fa, fb[k]);
            assert(p > k) by {
                if p < k {
                    assert(fa[p] == fb[p]);
                }
            }
            assert(q > k) by {
                if q < k {
                    assert(fa[q] == fb[q]);
                }
            }
            assert(b[p] == list[fb[p]] && a[k] == list[fa[k]]);
            assert(a[q] == list[fa[q]] && b[k] == list[fb[k]]);
            assert(b[p] == a[k] && a[q] == b[k]);
        }
    }
}

/// Every place of the list is used by a reordering.
proof fn lemma_place_of(list: Seq<MonitorInfo>, out: Seq<MonitorInfo>, from: Seq<int>, v: int) -> (i: int)
    requires
        is_reordering(list, out, from),
        0 <= v < list.len(),
    ensures
        0 <= i < from.len(),
        from[i] == v,
{
    let s = from.to_set();
    let all = vstd::set_lib::set_int_range(0, list.len() as int);
    from.unique_seq_to_set();
    vstd::set_lib::lemma_int_range(0, list.len() as int);
    assert(s.subset_of(all)) by {
        assert forall|x: int| s.contains(x) implies all.contains(x) by {
            let i = choose|i: int| 0 <= i < from.len() && from[i] == x;
            assert(0 <= from[i] < list.len());
        }
    }
    vstd::set_lib::lemma_subset_equality(s, all);
    assert(all.contains(v));
    assert(s.contains(v));
    choose|i: int| 0 <= i < from.len() && from[i] == v
}

/// Ordered displays stand from left to right, and from top to bottom where they begin in one column;
/// two at one corner stand in the order in which they came.
pub proof fn displays_read_from_left_to_right(
    out: Seq<MonitorInfo>,
    from: Seq<int>,
    i: int,
    j: int,
)
    requires
        is_ordered(out, from),
        0 <= i < j < out.len(),
    ensures
        out[i].rect.left <= out[j].rect.left,
        out[i].rect.left == out[j].rect.left ==> out[i].rect.top <= out[j].rect.top,
        out[i].rect.left == out[j].rect.left && out[i].rect.top == out[j].rect.top ==> from[i]
            < from[j],
{
}

/// Ordering loses no display, adds none and changes none: each display of the list stands at exactly
/// one place.
pub proof fn every_display_stands_at_one_place(
    list: Seq<MonitorInfo>,
    out: Seq<MonitorInfo>,
    from: Seq<int>,
    v: int,
)
    requires
        is_reordering(list, out, from),
        0 <= v < list.len(),
    ensures
        out.len() == list.len(),
        exists|i: int| 0 <= i < out.len() && #[trigger] from[i] == v && out[i] == list[v],
        forall|i: int, j: int|
            0 <= i < out.len() && 0 <= j < out.len() && #[trigger] from[i] == v && #[trigger] from[j]
                == v ==> i == j,
        forall|i: int|
            0 <= i < out.len() ==> 0 <= #[trigger] from[i] < list.len() && out[i] == list[from[i]],
{
    let i = lemma_place_of(list, out, from, v);
    assert(from[i] == v && out[i] == list[from[i]]);
}

/// The bar is on the display that the settings name, while there is one of that number; on the last
/// one otherwise; and without any display it has the whole screen.
pub proof fn the_bar_is_on_the_chosen_display(
    list: Seq<MonitorInfo>,
    idx: int,
    screen_w: i32,
    screen_h: i32,
)
    requires
        0 <= idx,
    ensures
        idx < list.len() ==> chosen_rect(list, idx, screen_w, screen_h) == list[idx].rect,
        0 < list.len() <= idx ==> chosen_rect(list, idx, screen_w, screen_h)
            == list.last().rect,
        list.len() == 0 ==> chosen_rect(list, idx, screen_w, screen_h) == (Rect {
            left: 0,
            top: 0,
            right: screen_w,
            bottom: screen_h,
        }),
        idx < list.len() ==> effective(idx, list.len() as int) == idx,
        0 < list.len() <= idx ==> effective(idx, list.len() as int) == list.len() - 1,
{
}

} // verus!
