//! Rectangles covering the filled pixels of a glyph bitmap.
//!
//! Pixels are stored row-major; the pixel at column `x` and row `y` lives at
//! offset `y * width + x`. Rectangles are `(x, y, width, height)` in pixel
//! space, with `y` growing downwards.

use vstd::prelude::*;

verus! {

/// A rectangle `(x, y, width, height)` in pixel space.
pub type PixelRect = (u32, u32, u32, u32);

/// Whether the pixel at column `x`, row `y` counts as filled: its row-major
/// offset fits in a `u32`, lies inside the buffer, and the byte there is nonzero.
pub open spec fn filled(width: u32, pixels: Seq<u8>, x: int, y: int) -> bool {
    let offset = y * width + x;
    &&& 0 <= x
    &&& 0 <= y
    &&& offset <= u32::MAX
    &&& offset < pixels.len()
    &&& pixels[offset] != 0
}

/// `(x, w)` is a maximal horizontal run of filled pixels in row `y`:
/// columns `x .. x + w` are filled and the run cannot be extended on either side
/// without leaving the row or reaching an empty pixel.
pub open spec fn is_run(width: u32, pixels: Seq<u8>, y: int, x: int, w: int) -> bool {
    &&& 0 <= x
    &&& 0 < w
    &&& x + w <= width
    &&& forall|i: int| x <= i < x + w ==> #[trigger] filled(width, pixels, i, y)
    &&& (x == 0 || !filled(width, pixels, x - 1, y))
    &&& (x + w == width || !filled(width, pixels, x + w, y))
}

/// A rectangle of the merged cover: the same run `(x, w)` occurs in every row
/// `y .. y + h` of the bitmap, and neither in the row above nor in the row below.
pub open spec fn is_merged_rect(width: u32, height: u32, pixels: Seq<u8>, r: PixelRect) -> bool {
    let x = r.0 as int;
    let y = r.1 as int;
    let w = r.2 as int;
    let h = r.3 as int;
    &&& 0 < h
    &&& y + h <= height
    &&& forall|j: int| y <= j < y + h ==> #[trigger] is_run(width, pixels, j, x, w)
    &&& (y == 0 || !is_run(width, pixels, y - 1, x, w))
    &&& (y + h == height || !is_run(width, pixels, y + h, x, w))
}

/// Order of the merged cover: by bottom edge, then by left edge.
pub open spec fn cover_before(a: PixelRect, b: PixelRect) -> bool {
    a.1 + a.3 < b.1 + b.3 || (a.1 + a.3 == b.1 + b.3 && a.0 < b.0)
}

/// `rects` lists every rectangle of the merged cover exactly once, ordered by
/// bottom edge and then by left edge.
pub open spec fn is_merged_cover(width: u32, height: u32, pixels: Seq<u8>, rects: Seq<PixelRect>) -> bool {
    &&& rects.no_duplicates()
    &&& forall|r: PixelRect| rects.contains(r) <==> is_merged_rect(width, height, pixels, r)
    &&& forall|i: int, j: int| 0 <= i < j < rects.len() ==> cover_before(#[trigger] rects[i], #[trigger] rects[j])
}

/// The merged cover of a bitmap, as the one sequence that `is_merged_cover` allows.
pub open spec fn merged_cover(width: u32, height: u32, pixels: Seq<u8>) -> Seq<PixelRect> {
    choose|rects: Seq<PixelRect>| is_merged_cover(width, height, pixels, rects)
}

/// Two sequences ordered by `cover_before` with the same elements are equal.
proof fn lemma_ordered_prefix(s1: Seq<PixelRect>, s2: Seq<PixelRect>, i: int)
    requires
        0 <= i <= s1.len(),
        i <= s2.len(),
        s1.no_duplicates(),
        s2.no_duplicates(),
        forall|r: PixelRect| s1.contains(r) <==> s2.contains(r),
        forall|a: int, b: int| 0 <= a < b < s1.len() ==> cover_before(#[trigger] s1[a], #[trigger] s1[b]),
        forall|a: int, b: int| 0 <= a < b < s2.len() ==> cover_before(#[trigger] s2[a], #[trigger] s2[b]),
    ensures
        forall|j: int| 0 <= j < i ==> s1[j] == s2[j],
    decreases i,
{
    if i > 0 {
        let n = i - 1;
        lemma_ordered_prefix(s1, s2, n);
        assert(s2.contains(s1[n]));
        let k = choose|k: int| 0 <= k < s2.len() && s2[k] == s1[n];
        assert(s1.contains(s2[n]));
        let m = choose|m: int| 0 <= m < s1.len() && s1[m] == s2[n];
        if k < n {
            assert(s1[k] == s2[k]);
        }
        if m < n {
            assert(s1[m] == s2[m]);
        }
        if k > n && m > n {
            assert(cover_before(s2[n], s2[k]));
            assert(cover_before(s1[n], s1[m]));
        }
    }
}

/// Law: the merged cover is one sequence; `merged_cover` names it.
pub proof fn lemma_merged_cover_unique(
    width: u32,
    height: u32,
    pixels: Seq<u8>,
    s1: Seq<PixelRect>,
    s2: Seq<PixelRect>,
)
    requires
        is_merged_cover(width, height, pixels, s1),
        is_merged_cover(width, height, pixels, s2),
    ensures
        s1 == s2,
        s1 == merged_cover(width, height, pixels),
{
    assert forall|t1: Seq<PixelRect>, t2: Seq<PixelRect>|
        is_merged_cover(width, height, pixels, t1) && is_merged_cover(width, height, pixels, t2) implies t1 == t2 by {
        if t1.len() <= t2.len() {
            lemma_ordered_prefix(t1, t2, t1.len() as int);
            if t1.len() < t2.len() {
                let n = t1.len() as int;
                assert(t2.contains(t2[n]));
                assert(t1.contains(t2[n]));
                let k = choose|k: int| 0 <= k < t1.len() && t1[k] == t2[n];
                assert(t2[k] == t1[k]);
            }
        } else {
            lemma_ordered_prefix(t2, t1, t2.len() as int);
            let n = t2.len() as int;
            assert(t1.contains(t1[n]));
            assert(t2.contains(t1[n]));
            let k = choose|k: int| 0 <= k < t2.len() && t2[k] == t1[n];
            assert(t1[k] == t2[k]);
        }
        assert(t1 =~= t2);
    }
    assert(is_merged_cover(width, height, pixels, merged_cover(width, height, pixels)));
}

/// Row-major order on the top-left corners of two rectangles.
pub open spec fn row_major_before(a: PixelRect, b: PixelRect) -> bool {
    a.1 < b.1 || (a.1 == b.1 && a.0 < b.0)
}

/// `rects` is the list of one-pixel squares `(x, y, 1, 1)`, one for each filled
/// pixel inside `width x height`, in row-major order.
pub open spec fn is_pixel_cover(width: u32, height: u32, pixels: Seq<u8>, rects: Seq<PixelRect>) -> bool {
    &&& forall|i: int|
        0 <= i < rects.len() ==> {
            &&& (#[trigger] rects[i]).2 == 1
            &&& rects[i].3 == 1
            &&& rects[i].0 < width
            &&& rects[i].1 < height
            &&& filled(width, pixels, rects[i].0 as int, rects[i].1 as int)
        }
    &&& forall|i: int, j: int|
        0 <= i < j < rects.len() ==> row_major_before(#[trigger] rects[i], #[trigger] rects[j])
    &&& forall|x: u32, y: u32|
        x < width && y < height && #[trigger] filled(width, pixels, x as int, y as int)
            ==> rects.contains((x, y, 1u32, 1u32))
}

/// The runs `runs` are exactly the runs of row `y`, ordered left to right.
pub open spec fn is_row_runs(width: u32, pixels: Seq<u8>, y: int, runs: Seq<(u32, u32)>) -> bool {
    &&& forall|i: int|
        0 <= i < runs.len() ==> is_run(width, pixels, y, (#[trigger] runs[i]).0 as int, runs[i].1 as int)
    &&& forall|i: int, j: int|
        0 <= i < j < runs.len() ==> (#[trigger] runs[i]).0 + runs[i].1 < (#[trigger] runs[j]).0
    &&& forall|x: int, w: int| is_run(width, pixels, y, x, w) ==> #[trigger] has_run(runs, x, w)
}

/// Some element of `runs` is `(x, w)`.
pub open spec fn has_run(runs: Seq<(u32, u32)>, x: int, w: int) -> bool {
    exists|i: int| 0 <= i < runs.len() && runs[i].0 == x && runs[i].1 == w
}

/// An open rectangle `(x, w, start_y, h)` while rows are scanned: when row `y` is
/// next, run `(x, w)` has occurred in every row `start_y .. y` and not in the row
/// before `start_y`.
pub open spec fn is_open_rect(width: u32, pixels: Seq<u8>, y: int, e: (u32, u32, u32, u32)) -> bool {
    &&& 1 <= e.3
    &&& e.2 + e.3 == y
    &&& forall|j: int| e.2 <= j < y ==> #[trigger] is_run(width, pixels, j, e.0 as int, e.1 as int)
    &&& (e.2 == 0 || !is_run(width, pixels, e.2 - 1, e.0 as int, e.1 as int))
}

/// The open rectangles when row `y` is next: one for each run of row `y - 1`,
/// ordered left to right, so that no run occurs twice.
pub open spec fn is_active(width: u32, pixels: Seq<u8>, y: int, active: Seq<(u32, u32, u32, u32)>) -> bool {
    &&& forall|i: int| 0 <= i < active.len() ==> is_open_rect(width, pixels, y, #[trigger] active[i])
    &&& forall|i: int, j: int| 0 <= i < j < active.len() ==> (#[trigger] active[i]).0 < (#[trigger] active[j]).0
    &&& (y > 0 ==> forall|x: int, w: int| is_run(width, pixels, y - 1, x, w)
            ==> #[trigger] has_active(active, x, w))
}

/// Some open rectangle of `active` is for run `(x, w)`.
pub open spec fn has_active(active: Seq<(u32, u32, u32, u32)>, x: int, w: int) -> bool {
    exists|i: int| 0 <= i < active.len() && active[i].0 == x && active[i].1 == w
}

/// `rects` are the merged rectangles that end above row `y`, each once.
pub open spec fn is_closed_before(width: u32, height: u32, pixels: Seq<u8>, y: int, rects: Seq<PixelRect>) -> bool {
    &&& rects.no_duplicates()
    &&& forall|i: int|
        0 <= i < rects.len() ==> {
            &&& is_merged_rect(width, height, pixels, #[trigger] rects[i])
            &&& rects[i].1 + rects[i].3 < y
        }
    &&& forall|r: PixelRect|
        is_merged_rect(width, height, pixels, r) && r.1 + r.3 < y ==> #[trigger] rects.contains(r)
    &&& forall|i: int, j: int| 0 <= i < j < rects.len() ==> cover_before(#[trigger] rects[i], #[trigger] rects[j])
}

/// Whether rectangle `r` contains pixel `(px, py)`.
pub open spec fn rect_contains(r: PixelRect, px: int, py: int) -> bool {
    r.0 <= px < r.0 + r.2 && r.1 <= py < r.1 + r.3
}

/// Leftmost column of the filled stretch of row `y` that reaches column `x`.
spec fn run_left(width: u32, pixels: Seq<u8>, x: int, y: int) -> int
    decreases x,
{
    if x > 0 && filled(width, pixels, x - 1, y) {
        run_left(width, pixels, x - 1, y)
    } else {
        x
    }
}

/// Rightmost column inside the row of the filled stretch of row `y` that reaches column `x`.
spec fn run_right(width: u32, pixels: Seq<u8>, x: int, y: int) -> int
    decreases width - x,
{
    if x + 1 < width && filled(width, pixels, x + 1, y) {
        run_right(width, pixels, x + 1, y)
    } else {
        x
    }
}

/// Topmost row of the streak of run `(x, w)` that reaches row `y`.
spec fn streak_top(width: u32, pixels: Seq<u8>, x: int, w: int, y: int) -> int
    decreases y,
{
    if y > 0 && is_run(width, pixels, y - 1, x, w) {
        streak_top(width, pixels, x, w, y - 1)
    } else {
        y
    }
}

/// Bottom row inside the bitmap of the streak of run `(x, w)` that reaches row `y`.
spec fn streak_bottom(width: u32, height: u32, pixels: Seq<u8>, x: int, w: int, y: int) -> int
    decreases height - y,
{
    if y + 1 < height && is_run(width, pixels, y + 1, x, w) {
        streak_bottom(width, height, pixels, x, w, y + 1)
    } else {
        y
    }
}

proof fn lemma_run_left(width: u32, pixels: Seq<u8>, x: int, y: int)
    requires
        0 <= x,
        filled(width, pixels, x, y),
    ensures
        0 <= run_left(width, pixels, x, y) <= x,
        forall|i: int| run_left(width, pixels, x, y) <= i <= x ==> #[trigger] filled(width, pixels, i, y),
        run_left(width, pixels, x, y) == 0 || !filled(width, pixels, run_left(width, pixels, x, y) - 1, y),
    decreases x,
{
    if x > 0 && filled(width, pixels, x - 1, y) {
        lemma_run_left(width, pixels, x - 1, y);
    }
}

proof fn lemma_run_right(width: u32, pixels: Seq<u8>, x: int, y: int)
    requires
        0 <= x < width,
        filled(width, pixels, x, y),
    ensures
        x <= run_right(width, pixels, x, y) < width,
        forall|i: int| x <= i <= run_right(width, pixels, x, y) ==> #[trigger] filled(width, pixels, i, y),
        run_right(width, pixels, x, y) + 1 == width || !filled(width, pixels, run_right(width, pixels, x, y) + 1, y),
    decreases width - x,
{
    if x + 1 < width && filled(width, pixels, x + 1, y) {
        lemma_run_right(width, pixels, x + 1, y);
    }
}

proof fn lemma_streak_top(width: u32, pixels: Seq<u8>, x: int, w: int, y: int)
    requires
        0 <= y,
        is_run(width, pixels, y, x, w),
    ensures
        0 <= streak_top(width, pixels, x, w, y) <= y,
        forall|j: int| streak_top(width, pixels, x, w, y) <= j <= y ==> #[trigger] is_run(width, pixels, j, x, w),
        streak_top(width, pixels, x, w, y) == 0 || !is_run(width, pixels, streak_top(width, pixels, x, w, y) - 1, x, w),
    decreases y,
{
    if y > 0 && is_run(width, pixels, y - 1, x, w) {
        lemma_streak_top(width, pixels, x, w, y - 1);
    }
}

proof fn lemma_streak_bottom(width: u32, height: u32, pixels: Seq<u8>, x: int, w: int, y: int)
    requires
        0 <= y < height,
        is_run(width, pixels, y, x, w),
    ensures
        y <= streak_bottom(width, height, pixels, x, w, y) < height,
        forall|j: int| y <= j <= streak_bottom(width, height, pixels, x, w, y) ==> #[trigger] is_run(width, pixels, j, x, w),
        streak_bottom(width, height, pixels, x, w, y) + 1 == height || !is_run(
            width,
            pixels,
            streak_bottom(width, height, pixels, x, w, y) + 1,
            x,
            w,
        ),
    decreases height - y,
{
    if y + 1 < height && is_run(width, pixels, y + 1, x, w) {
        lemma_streak_bottom(width, height, pixels, x, w, y + 1);
    }
}

/// Two runs of the same row that share a column are the same run.
proof fn lemma_run_unique(width: u32, pixels: Seq<u8>, y: int, x1: int, w1: int, x2: int, w2: int, px: int)
    requires
        is_run(width, pixels, y, x1, w1),
        is_run(width, pixels, y, x2, w2),
        x1 <= px < x1 + w1,
        x2 <= px < x2 + w2,
    ensures
        x1 == x2 && w1 == w2,
{
    if x1 < x2 {
        assert(filled(width, pixels, x2 - 1, y));
    } else if x2 < x1 {
        assert(filled(width, pixels, x1 - 1, y));
    }
    if x1 + w1 < x2 + w2 {
        assert(filled(width, pixels, x1 + w1, y));
    } else if x2 + w2 < x1 + w1 {
        assert(filled(width, pixels, x2 + w2, y));
    }
}

/// Law: inside the bitmap, a pixel is filled exactly when some rectangle of
/// the merged cover contains it.
pub proof fn lemma_merged_cover_is_exact(width: u32, height: u32, pixels: Seq<u8>, px: int, py: int)
    requires
        0 <= px < width,
        0 <= py < height,
    ensures
        filled(width, pixels, px, py) <==> exists|r: PixelRect|
            is_merged_rect(width, height, pixels, r) && #[trigger] rect_contains(r, px, py),
{
    if filled(width, pixels, px, py) {
        lemma_run_left(width, pixels, px, py);
        lemma_run_right(width, pixels, px, py);
        let x = run_left(width, pixels, px, py);
        let w = run_right(width, pixels, px, py) - x + 1;
        assert forall|i: int| x <= i < x + w implies #[trigger] filled(width, pixels, i, py) by {
            if i <= px {
            } else {
            }
        }
        assert(is_run(width, pixels, py, x, w));
        lemma_streak_top(width, pixels, x, w, py);
        lemma_streak_bottom(width, height, pixels, x, w, py);
        let top = streak_top(width, pixels, x, w, py);
        let h = streak_bottom(width, height, pixels, x, w, py) - top + 1;
        let r: PixelRect = (x as u32, top as u32, w as u32, h as u32);
        assert forall|j: int| top <= j < top + h implies #[trigger] is_run(width, pixels, j, x, w) by {
            if j <= py {
            } else {
            }
        }
        assert(is_merged_rect(width, height, pixels, r));
        assert(rect_contains(r, px, py));
    } else {
        assert forall|r: PixelRect| is_merged_rect(width, height, pixels, r) implies !#[trigger] rect_contains(
            r,
            px,
            py,
        ) by {
            if rect_contains(r, px, py) {
                assert(is_run(width, pixels, py, r.0 as int, r.2 as int));
                assert(filled(width, pixels, px, py));
            }
        }
    }
}

/// Law: no two rectangles of the merged cover overlap.
pub proof fn lemma_merged_rects_disjoint(
    width: u32,
    height: u32,
    pixels: Seq<u8>,
    r1: PixelRect,
    r2: PixelRect,
    px: int,
    py: int,
)
    requires
        is_merged_rect(width, height, pixels, r1),
        is_merged_rect(width, height, pixels, r2),
        rect_contains(r1, px, py),
        rect_contains(r2, px, py),
    ensures
        r1 == r2,
{
    assert(is_run(width, pixels, py, r1.0 as int, r1.2 as int));
    assert(is_run(width, pixels, py, r2.0 as int, r2.2 as int));
    lemma_run_unique(width, pixels, py, r1.0 as int, r1.2 as int, r2.0 as int, r2.2 as int, px);
    let x = r1.0 as int;
    let w = r1.2 as int;
    if r1.1 < r2.1 {
        assert(is_run(width, pixels, r2.1 - 1, x, w));
    } else if r2.1 < r1.1 {
        assert(is_run(width, pixels, r1.1 - 1, x, w));
    }
    if r1.1 + r1.3 < r2.1 + r2.3 {
        assert(is_run(width, pixels, r1.1 + r1.3, x, w));
    } else if r2.1 + r2.3 < r1.1 + r1.3 {
        assert(is_run(width, pixels, r2.1 + r2.3, x, w));
    }
}

/// Law: merging changes the rectangles, not the pixels they cover. For the
/// per-pixel cover and the merged cover of the same bitmap, a pixel inside the
/// bitmap lies in some rectangle of one exactly when it lies in some rectangle
/// of the other, and then exactly when it is filled.
pub proof fn lemma_covers_agree(
    width: u32,
    height: u32,
    pixels: Seq<u8>,
    single: Seq<PixelRect>,
    merged: Seq<PixelRect>,
    px: int,
    py: int,
)
    requires
        is_pixel_cover(width, height, pixels, single),
        is_merged_cover(width, height, pixels, merged),
        0 <= px < width,
        0 <= py < height,
    ensures
        (exists|i: int| 0 <= i < single.len() && #[trigger] rect_contains(single[i], px, py))
            == filled(width, pixels, px, py),
        (exists|i: int| 0 <= i < merged.len() && #[trigger] rect_contains(merged[i], px, py))
            == filled(width, pixels, px, py),
{
    lemma_merged_cover_is_exact(width, height, pixels, px, py);
    if filled(width, pixels, px, py) {
        let sq: PixelRect = (px as u32, py as u32, 1u32, 1u32);
        assert(single.contains(sq));
        let i = choose|i: int| 0 <= i < single.len() && single[i] == sq;
        assert(rect_contains(single[i], px, py));
        let r = choose|r: PixelRect| is_merged_rect(width, height, pixels, r) && #[trigger] rect_contains(r, px, py);
        assert(merged.contains(r));
        let j = choose|j: int| 0 <= j < merged.len() && merged[j] == r;
        assert(rect_contains(merged[j], px, py));
    } else {
        assert forall|i: int| 0 <= i < single.len() implies !#[trigger] rect_contains(single[i], px, py) by {
            let s = single[i];
            assert(s.2 == 1 && s.3 == 1);
        }
        assert forall|i: int| 0 <= i < merged.len() implies !#[trigger] rect_contains(merged[i], px, py) by {
            assert(merged.contains(merged[i]));
        }
    }
}

/// Law: merging never adds rectangles. The merged cover of a bitmap has at
/// most as many rectangles as its per-pixel cover has squares.
pub proof fn lemma_merging_never_adds_rects(
    width: u32,
    height: u32,
    pixels: Seq<u8>,
    single: Seq<PixelRect>,
    merged: Seq<PixelRect>,
)
    requires
        is_pixel_cover(width, height, pixels, single),
        is_merged_cover(width, height, pixels, merged),
    ensures
        merged.len() <= single.len(),
{
    let corner = |r: PixelRect| (r.0, r.1, 1u32, 1u32);
    let ms = merged.to_set();
    let ss = single.to_set();
    assert forall|i: int, j: int| 0 <= i < single.len() && 0 <= j < single.len() && i != j implies single[i] != single[j] by {
        if i < j {
            assert(row_major_before(single[i], single[j]));
        } else {
            assert(row_major_before(single[j], single[i]));
        }
    }
    assert(single.no_duplicates());
    merged.unique_seq_to_set();
    single.unique_seq_to_set();
    assert forall|a: PixelRect, b: PixelRect| ms.contains(a) && ms.contains(b) && #[trigger] corner(a) == #[trigger] corner(b) implies a == b by {
        assert(merged.contains(a));
        assert(merged.contains(b));
        assert(is_run(width, pixels, a.1 as int, a.0 as int, a.2 as int));
        assert(is_run(width, pixels, b.1 as int, b.0 as int, b.2 as int));
        lemma_merged_rects_disjoint(width, height, pixels, a, b, a.0 as int, a.1 as int);
    }
    assert(vstd::relations::injective_on(corner, ms));
    assert forall|c: PixelRect| #[trigger] ms.map(corner).contains(c) implies ss.contains(c) by {
        let r = choose|r: PixelRect| ms.contains(r) && corner(r) == c;
        assert(merged.contains(r));
        assert(is_run(width, pixels, r.1 as int, r.0 as int, r.2 as int));
        assert(filled(width, pixels, r.0 as int, r.1 as int));
        assert(single.contains((r.0, r.1, 1u32, 1u32)));
    }
    vstd::set_lib::lemma_map_size(ms, ms.map(corner), corner);
    vstd::set_lib::lemma_len_subset(ms.map(corner), ss);
}

/// The pixels `(x, y)` of the box with corner `(x, y)`, width `w` and height `h`.
spec fn box_pixels(x: int, y: int, w: int, h: int) -> Set<(int, int)> {
    Set::new(|p: (int, int)| x <= p.0 < x + w && y <= p.1 < y + h)
}

/// A box of `w` by `h` pixels holds `w * h` of them.
proof fn lemma_box_pixels_len(x: int, y: int, w: int, h: int)
    requires
        0 <= w,
        0 <= h,
    ensures
        box_pixels(x, y, w, h).finite(),
        box_pixels(x, y, w, h).len() == w * h,
    decreases h,
{
    if h == 0 {
        assert(box_pixels(x, y, w, h) =~= Set::<(int, int)>::empty());
    } else {
        lemma_box_pixels_len(x, y, w, h - 1);
        let row_of = |i: int| (i, y + h - 1);
        let columns = vstd::set_lib::set_int_range(x, x + w);
        vstd::set_lib::lemma_int_range(x, x + w);
        let row = columns.map(row_of);
        assert(vstd::relations::injective_on(row_of, columns));
        vstd::set_lib::lemma_map_size(columns, row, row_of);
        let above = box_pixels(x, y, w, h - 1);
        assert forall|p: (int, int)| #[trigger] row.contains(p) <==> (x <= p.0 < x + w && p.1 == y + h - 1) by {
            if x <= p.0 < x + w && p.1 == y + h - 1 {
                assert(columns.contains(p.0));
                assert(row_of(p.0) == p);
            }
        }
        assert(above.disjoint(row));
        assert(above + row =~= box_pixels(x, y, w, h));
        vstd::set_lib::lemma_set_disjoint_lens(above, row);
        assert(w * (h - 1) + w == w * h) by (nonlinear_arith);
    }
}

/// The pixels `(x, y)` that rectangle `r` contains.
pub open spec fn rect_pixels(r: PixelRect) -> Set<(int, int)> {
    Set::new(|p: (int, int)| rect_contains(r, p.0, p.1))
}

/// The pixels that some rectangle of `rects` contains.
pub open spec fn cover_pixels(rects: Seq<PixelRect>) -> Set<(int, int)> {
    Set::new(|p: (int, int)| exists|i: int| 0 <= i < rects.len() && #[trigger] rect_contains(rects[i], p.0, p.1))
}

/// The sum of the areas of `rects`.
pub open spec fn total_area(rects: Seq<PixelRect>) -> int
    decreases rects.len(),
{
    if rects.len() == 0 {
        0
    } else {
        total_area(rects.drop_last()) + rects.last().2 * rects.last().3
    }
}

/// The pixels `(x, y)` inside a `width x height` bitmap that are filled.
pub open spec fn filled_pixels(width: u32, height: u32, pixels: Seq<u8>) -> Set<(int, int)> {
    Set::new(|p: (int, int)| 0 <= p.0 < width && 0 <= p.1 < height && filled(width, pixels, p.0, p.1))
}

/// Rectangles that share no pixel cover as many pixels as their areas add up to.
proof fn lemma_cover_pixels_len(rects: Seq<PixelRect>)
    requires
        forall|i: int, j: int, px: int, py: int|
            0 <= i < j < rects.len() && #[trigger] rect_contains(rects[i], px, py) ==> !#[trigger] rect_contains(rects[j], px, py),
    ensures
        cover_pixels(rects).finite(),
        cover_pixels(rects).len() == total_area(rects),
    decreases rects.len(),
{
    if rects.len() == 0 {
        assert(cover_pixels(rects) =~= Set::<(int, int)>::empty());
    } else {
        let before = rects.drop_last();
        let n = before.len() as int;
        let r = rects.last();
        lemma_cover_pixels_len(before);
        lemma_box_pixels_len(r.0 as int, r.1 as int, r.2 as int, r.3 as int);
        assert(rect_pixels(r) =~= box_pixels(r.0 as int, r.1 as int, r.2 as int, r.3 as int));
        assert forall|p: (int, int)| #[trigger] cover_pixels(rects).contains(p) <==> (cover_pixels(before).contains(p) || rect_pixels(r).contains(p)) by {
            if cover_pixels(rects).contains(p) {
                let i = choose|i: int| 0 <= i < rects.len() && #[trigger] rect_contains(rects[i], p.0, p.1);
                if i < n {
                    assert(rect_contains(before[i], p.0, p.1));
                }
            }
            if cover_pixels(before).contains(p) {
                let i = choose|i: int| 0 <= i < before.len() && #[trigger] rect_contains(before[i], p.0, p.1);
                assert(rect_contains(rects[i], p.0, p.1));
            }
            if rect_pixels(r).contains(p) {
                assert(rect_contains(rects[n], p.0, p.1));
            }
        }
        assert(cover_pixels(rects) =~= cover_pixels(before) + rect_pixels(r));
        assert forall|p: (int, int)| !(cover_pixels(before).contains(p) && #[trigger] rect_pixels(r).contains(p)) by {
            if cover_pixels(before).contains(p) && rect_pixels(r).contains(p) {
                let i = choose|i: int| 0 <= i < before.len() && #[trigger] rect_contains(before[i], p.0, p.1);
                assert(rect_contains(rects[i], p.0, p.1));
                assert(rect_contains(rects[n], p.0, p.1));
            }
        }
        assert(cover_pixels(before).disjoint(rect_pixels(r)));
        vstd::set_lib::lemma_set_disjoint_lens(cover_pixels(before), rect_pixels(r));
    }
}

/// Law: merging covers the filled pixels exactly once. The areas of the
/// rectangles of the merged cover add up to the number of one-pixel squares of
/// the per-pixel cover of the same bitmap, which is its number of filled pixels.
pub proof fn lemma_merged_area_is_pixel_count(
    width: u32,
    height: u32,
    pixels: Seq<u8>,
    single: Seq<PixelRect>,
    merged: Seq<PixelRect>,
)
    requires
        is_pixel_cover(width, height, pixels, single),
        is_merged_cover(width, height, pixels, merged),
    ensures
        total_area(merged) == single.len(),
        single.len() == filled_pixels(width, height, pixels).len(),
{
    let fp = filled_pixels(width, height, pixels);
    // The merged rectangles share no pixel.
    assert forall|i: int, j: int, px: int, py: int|
        0 <= i < j < merged.len() && #[trigger] rect_contains(merged[i], px, py) implies !#[trigger] rect_contains(merged[j], px, py) by {
        if rect_contains(merged[j], px, py) {
            assert(merged.contains(merged[i]));
            assert(merged.contains(merged[j]));
            lemma_merged_rects_disjoint(width, height, pixels, merged[i], merged[j], px, py);
        }
    }
    lemma_cover_pixels_len(merged);
    // They cover exactly the filled pixels.
    assert forall|p: (int, int)| #[trigger] cover_pixels(merged).contains(p) <==> fp.contains(p) by {
        if cover_pixels(merged).contains(p) {
            let i = choose|i: int| 0 <= i < merged.len() && #[trigger] rect_contains(merged[i], p.0, p.1);
            let r = merged[i];
            assert(merged.contains(r));
            assert(is_run(width, pixels, p.1, r.0 as int, r.2 as int));
        }
        if fp.contains(p) {
            lemma_merged_cover_is_exact(width, height, pixels, p.0, p.1);
            let r = choose|r: PixelRect| is_merged_rect(width, height, pixels, r) && #[trigger] rect_contains(r, p.0, p.1);
            assert(merged.contains(r));
            let i = choose|i: int| 0 <= i < merged.len() && merged[i] == r;
            assert(rect_contains(merged[i], p.0, p.1));
        }
    }
    assert(cover_pixels(merged) =~= fp);
    // The one-pixel squares are the filled pixels, one each.
    assert forall|i: int, j: int| 0 <= i < single.len() && 0 <= j < single.len() && i != j implies single[i] != single[j] by {
        if i < j {
            assert(row_major_before(single[i], single[j]));
        } else {
            assert(row_major_before(single[j], single[i]));
        }
    }
    assert(single.no_duplicates());
    single.unique_seq_to_set();
    let ss = single.to_set();
    let corner = |r: PixelRect| (r.0 as int, r.1 as int);
    assert forall|a: PixelRect, b: PixelRect| ss.contains(a) && ss.contains(b) && #[trigger] corner(a) == #[trigger] corner(b) implies a == b by {
        let ia = choose|i: int| 0 <= i < single.len() && single[i] == a;
        let ib = choose|i: int| 0 <= i < single.len() && single[i] == b;
        assert(single[ia].2 == 1 && single[ib].2 == 1);
    }
    assert(vstd::relations::injective_on(corner, ss));
    assert forall|p: (int, int)| #[trigger] ss.map(corner).contains(p) <==> fp.contains(p) by {
        if ss.map(corner).contains(p) {
            let r = choose|r: PixelRect| ss.contains(r) && corner(r) == p;
            let i = choose|i: int| 0 <= i < single.len() && single[i] == r;
            assert(filled(width, pixels, single[i].0 as int, single[i].1 as int));
        }
        if fp.contains(p) {
            let x = p.0 as u32;
            let y = p.1 as u32;
            assert(filled(width, pixels, x as int, y as int));
            let sq = (x, y, 1u32, 1u32);
            assert(single.contains(sq));
            assert(ss.contains(sq));
            assert(corner(sq) == p);
        }
    }
    assert(ss.map(corner) =~= fp);
    vstd::set_lib::lemma_map_size(ss, fp, corner);
}

/// Bitmaps of one size whose pixels inside agree on being filled.
pub open spec fn same_filled(width: u32, height: u32, p1: Seq<u8>, p2: Seq<u8>) -> bool {
    forall|x: int, y: int| 0 <= x < width && 0 <= y < height ==> #[trigger] filled(width, p1, x, y) == filled(width, p2, x, y)
}

/// Law: both covers depend only on which pixels inside the bitmap are filled,
/// so truncating the pixel buffer to `width * height` bytes, padding it with
/// zeros, or changing one nonzero value into another changes neither: a
/// sequence is the merged (or per-pixel) cover of one bitmap exactly when it is
/// that of the other.
pub proof fn lemma_covers_depend_on_filled(width: u32, height: u32, p1: Seq<u8>, p2: Seq<u8>)
    requires
        same_filled(width, height, p1, p2),
    ensures
        forall|rects: Seq<PixelRect>| #[trigger] is_merged_cover(width, height, p1, rects) == is_merged_cover(width, height, p2, rects),
        forall|rects: Seq<PixelRect>| #[trigger] is_pixel_cover(width, height, p1, rects) == is_pixel_cover(width, height, p2, rects),
{
    assert forall|y: int, x: int, w: int| 0 <= y < height implies #[trigger] is_run(width, p1, y, x, w) == is_run(width, p2, y, x, w) by {
        if is_run(width, p1, y, x, w) {
            assert forall|i: int| x <= i < x + w implies #[trigger] filled(width, p2, i, y) by {
                assert(filled(width, p1, i, y));
            }
            if x > 0 {
                assert(!filled(width, p1, x - 1, y));
            }
            if x + w < width {
                assert(!filled(width, p1, x + w, y));
            }
        }
        if is_run(width, p2, y, x, w) {
            assert forall|i: int| x <= i < x + w implies #[trigger] filled(width, p1, i, y) by {
                assert(filled(width, p2, i, y));
            }
            if x > 0 {
                assert(!filled(width, p2, x - 1, y));
            }
            if x + w < width {
                assert(!filled(width, p2, x + w, y));
            }
        }
    }
    assert forall|r: PixelRect| #[trigger] is_merged_rect(width, height, p1, r) == is_merged_rect(width, height, p2, r) by {
        let x = r.0 as int;
        let y = r.1 as int;
        let w = r.2 as int;
        let h = r.3 as int;
        if 0 < h && y + h <= height {
            if is_merged_rect(width, height, p1, r) {
                assert forall|j: int| y <= j < y + h implies #[trigger] is_run(width, p2, j, x, w) by {
                    assert(is_run(width, p1, j, x, w));
                }
            }
            if is_merged_rect(width, height, p2, r) {
                assert forall|j: int| y <= j < y + h implies #[trigger] is_run(width, p1, j, x, w) by {
                    assert(is_run(width, p2, j, x, w));
                }
            }
            if y > 0 {
                assert(is_run(width, p1, y - 1, x, w) == is_run(width, p2, y - 1, x, w));
            }
            if y + h < height {
                assert(is_run(width, p1, y + h, x, w) == is_run(width, p2, y + h, x, w));
            }
        }
    }
    assert forall|rects: Seq<PixelRect>| #[trigger] is_merged_cover(width, height, p1, rects) == is_merged_cover(width, height, p2, rects) by {
        if is_merged_cover(width, height, p1, rects) {
            assert forall|r: PixelRect| rects.contains(r) <==> is_merged_rect(width, height, p2, r) by {
                assert(is_merged_rect(width, height, p1, r) == is_merged_rect(width, height, p2, r));
            }
        }
        if is_merged_cover(width, height, p2, rects) {
            assert forall|r: PixelRect| rects.contains(r) <==> is_merged_rect(width, height, p1, r) by {
                assert(is_merged_rect(width, height, p1, r) == is_merged_rect(width, height, p2, r));
            }
        }
    }
    assert forall|rects: Seq<PixelRect>| #[trigger] is_pixel_cover(width, height, p1, rects) == is_pixel_cover(width, height, p2, rects) by {
        if is_pixel_cover(width, height, p1, rects) {
            assert forall|i: int| 0 <= i < rects.len() implies filled(width, p2, (#[trigger] rects[i]).0 as int, rects[i].1 as int) by {
                assert(filled(width, p1, rects[i].0 as int, rects[i].1 as int));
            }
            assert forall|x: u32, y: u32| x < width && y < height && #[trigger] filled(width, p2, x as int, y as int) implies rects.contains((x, y, 1u32, 1u32)) by {
                assert(filled(width, p1, x as int, y as int));
            }
        }
        if is_pixel_cover(width, height, p2, rects) {
            assert forall|i: int| 0 <= i < rects.len() implies filled(width, p1, (#[trigger] rects[i]).0 as int, rects[i].1 as int) by {
                assert(filled(width, p2, rects[i].0 as int, rects[i].1 as int));
            }
            assert forall|x: u32, y: u32| x < width && y < height && #[trigger] filled(width, p1, x as int, y as int) implies rects.contains((x, y, 1u32, 1u32)) by {
                assert(filled(width, p2, x as int, y as int));
            }
        }
    }
}

/// Two maximal streaks of the same run that end at the same row start at the same row.
proof fn lemma_streak_start_unique(width: u32, pixels: Seq<u8>, x: int, w: int, a: int, b: int, end: int)
    requires
        0 <= a < end,
        0 <= b < end,
        forall|j: int| a <= j < end ==> #[trigger] is_run(width, pixels, j, x, w),
        forall|j: int| b <= j < end ==> #[trigger] is_run(width, pixels, j, x, w),
        a == 0 || !is_run(width, pixels, a - 1, x, w),
        b == 0 || !is_run(width, pixels, b - 1, x, w),
    ensures
        a == b,
{
    if a < b {
        assert(is_run(width, pixels, b - 1, x, w));
    } else if b < a {
        assert(is_run(width, pixels, a - 1, x, w));
    }
}

/// Row-major offset of pixel `(x, y)`, or `None` when it does not fit in a `u32`.
fn pixel_index(width: u32, x: u32, y: u32) -> (index: Option<usize>)
    ensures
        index == (if y * width + x <= u32::MAX {
            Some((y * width + x) as usize)
        } else {
            None::<usize>
        }),
{
    let offset = match y.checked_mul(width) {
        Some(row) => row.checked_add(x),
        None => None,
    };
    proof {
        if y * width > u32::MAX {
            assert(y * width + x > u32::MAX);
        }
    }
    match offset {
        Some(value) => Some(value as usize),
        None => None,
    }
}

/// Whether pixel `point = (x, y)` is filled.
fn is_filled(width: u32, pixels: &[u8], point: (u32, u32)) -> (b: bool)
    ensures
        b == filled(width, pixels@, point.0 as int, point.1 as int),
{
    match pixel_index(width, point.0, point.1) {
        Some(index) => index < pixels.len() && pixels[index] != 0,
        None => false,
    }
}

/// Collects rectangles covering the filled pixels of a `width x height` bitmap:
/// one `1 x 1` square per filled pixel in row-major order, or, when
/// `merge_rects` holds, the merged cover in which each maximal horizontal run
/// is extended downwards over every row where the very same run recurs.
pub fn collect_pixel_rects(width: u32, height: u32, pixels: &[u8], merge_rects: bool) -> (rects: Vec<PixelRect>)
    ensures
        !merge_rects ==> is_pixel_cover(width, height, pixels@, rects@),
        merge_rects ==> is_merged_cover(width, height, pixels@, rects@),
{
    if !merge_rects {
        return collect_single_pixel_rects(width, height, pixels);
    }
    collect_merged_rects((width, height), pixels)
}

fn collect_single_pixel_rects(width: u32, height: u32, pixels: &[u8]) -> (rects: Vec<PixelRect>)
    ensures
        is_pixel_cover(width, height, pixels@, rects@),
{
    let mut rects: Vec<PixelRect> = Vec::new();
    let mut y: u32 = 0;
    while y < height
        invariant
            y <= height,
            forall|i: int|
                0 <= i < rects@.len() ==> {
                    &&& (#[trigger] rects@[i]).2 == 1
                    &&& rects@[i].3 == 1
                    &&& rects@[i].0 < width
                    &&& rects@[i].1 < y
                    &&& filled(width, pixels@, rects@[i].0 as int, rects@[i].1 as int)
                },
            forall|i: int, j: int|
                0 <= i < j < rects@.len() ==> row_major_before(#[trigger] rects@[i], #[trigger] rects@[j]),
            forall|px: u32, py: u32|
                px < width && py < y && #[trigger] filled(width, pixels@, px as int, py as int)
                    ==> rects@.contains((px, py, 1u32, 1u32)),
        decreases height - y,
    {
        let mut x: u32 = 0;
        while x < width
            invariant
                y < height,
                x <= width,
                forall|i: int|
                    0 <= i < rects@.len() ==> {
                        &&& (#[trigger] rects@[i]).2 == 1
                        &&& rects@[i].3 == 1
                        &&& rects@[i].0 < width
                        &&& (rects@[i].1 < y || (rects@[i].1 == y && rects@[i].0 < x))
                        &&& filled(width, pixels@, rects@[i].0 as int, rects@[i].1 as int)
                    },
                forall|i: int, j: int|
                    0 <= i < j < rects@.len() ==> row_major_before(#[trigger] rects@[i], #[trigger] rects@[j]),
                forall|px: u32, py: u32|
                    px < width && (py < y || (py == y && px < x)) && #[trigger] filled(
                        width,
                        pixels@,
                        px as int,
                        py as int,
                    ) ==> rects@.contains((px, py, 1u32, 1u32)),
            decreases width - x,
        {
            if is_filled(width, pixels, (x, y)) {
                let ghost before = rects@;
                rects.push((x, y, 1, 1));
                proof {
                    assert forall|px: u32, py: u32|
                        px < width && (py < y || (py == y && px < x + 1)) && #[trigger] filled(
                            width,
                            pixels@,
                            px as int,
                            py as int,
                        ) implies rects@.contains((px, py, 1u32, 1u32)) by {
                        if px == x && py == y {
                            assert(rects@[before.len() as int] == (px, py, 1u32, 1u32));
                        } else {
                            let k = choose|k: int| 0 <= k < before.len() && before[k] == (px, py, 1u32, 1u32);
                            assert(rects@[k] == before[k]);
                        }
                    }
                }
            }
            x = x + 1;
        }
        y = y + 1;
    }
    rects
}

fn collect_merged_rects(dimensions: (u32, u32), pixels: &[u8]) -> (rects: Vec<PixelRect>)
    ensures
        is_merged_cover(dimensions.0, dimensions.1, pixels@, rects@),
{
    let (width, height) = dimensions;
    let mut active: Vec<(u32, u32, u32, u32)> = Vec::new();
    let mut rects: Vec<PixelRect> = Vec::new();
    let mut y: u32 = 0;
    while y < height
        invariant
            y <= height,
            is_active(width, pixels@, y as int, active@),
            is_closed_before(width, height, pixels@, y as int, rects@),
        decreases height - y,
    {
        let runs = collect_row_runs(width, pixels, y);
        let next = extend_active_runs(width, pixels, &active, &runs, y);
        close_stale_runs(width, height, pixels, &active, &runs, y, &mut rects);
        active = next;
        y = y + 1;
    }
    let ghost closed = rects@;
    let mut k: usize = 0;
    while k < active.len()
        invariant
            y == height,
            k <= active@.len(),
            is_active(width, pixels@, height as int, active@),
            is_closed_before(width, height, pixels@, height as int, closed),
            rects@.len() == closed.len() + k,
            forall|i: int| 0 <= i < closed.len() ==> rects@[i] == closed[i],
            forall|i: int|
                0 <= i < k ==> rects@[closed.len() + i] == (
                    active@[i].0,
                    active@[i].2,
                    active@[i].1,
                    active@[i].3,
                ),
        decreases active@.len() - k,
    {
        let e = active[k];
        rects.push((e.0, e.2, e.1, e.3));
        k = k + 1;
    }
    proof {
        lemma_final_cover(width, height, pixels@, active@, closed, rects@);
    }
    rects
}

/// The closed rectangles followed by the rectangles still open at the bottom of
/// the bitmap form the merged cover.
proof fn lemma_final_cover(
    width: u32,
    height: u32,
    pixels: Seq<u8>,
    active: Seq<(u32, u32, u32, u32)>,
    closed: Seq<PixelRect>,
    rects: Seq<PixelRect>,
)
    requires
        is_active(width, pixels, height as int, active),
        is_closed_before(width, height, pixels, height as int, closed),
        rects.len() == closed.len() + active.len(),
        forall|i: int| 0 <= i < closed.len() ==> rects[i] == closed[i],
        forall|i: int|
            0 <= i < active.len() ==> rects[closed.len() + i] == (
                active[i].0,
                active[i].2,
                active[i].1,
                active[i].3,
            ),
    ensures
        is_merged_cover(width, height, pixels, rects),
{
    let n = closed.len() as int;
    assert forall|i: int| 0 <= i < rects.len() implies is_merged_rect(width, height, pixels, #[trigger] rects[i])
        && (i < n ==> rects[i].1 + rects[i].3 < height)
        && (i >= n ==> rects[i].1 + rects[i].3 == height) by {
        if i < n {
            assert(closed[i] == rects[i]);
        } else {
            let e = active[i - n];
            assert(is_open_rect(width, pixels, height as int, e));
        }
    }
    assert forall|i: int, j: int| 0 <= i < j < rects.len() implies rects[i] != rects[j] by {
        if j < n {
            assert(closed[i] == rects[i] && closed[j] == rects[j]);
        } else if i >= n {
            assert(active[i - n].0 < active[j - n].0);
        }
    }
    assert forall|i: int, j: int| 0 <= i < j < rects.len() implies cover_before(#[trigger] rects[i], #[trigger] rects[j]) by {
        if j < n {
            assert(closed[i] == rects[i] && closed[j] == rects[j]);
        } else if i < n {
            assert(closed[i] == rects[i]);
            assert(is_open_rect(width, pixels, height as int, active[j - n]));
        } else {
            assert(active[i - n].0 < active[j - n].0);
            assert(is_open_rect(width, pixels, height as int, active[j - n]));
            assert(is_open_rect(width, pixels, height as int, active[i - n]));
        }
    }
    assert forall|r: PixelRect| is_merged_rect(width, height, pixels, r) implies rects.contains(r) by {
        if r.1 + r.3 < height {
            assert(closed.contains(r));
            let k = choose|k: int| 0 <= k < closed.len() && closed[k] == r;
            assert(rects[k] == r);
        } else {
            let x = r.0 as int;
            let w = r.2 as int;
            assert(is_run(width, pixels, height - 1, x, w));
            assert(has_active(active, x, w));
            let k = choose|k: int| 0 <= k < active.len() && active[k].0 == x && active[k].1 == w;
            let e = active[k];
            assert(is_open_rect(width, pixels, height as int, e));
            lemma_streak_start_unique(width, pixels, x, w, e.2 as int, r.1 as int, height as int);
            assert(rects[n + k] == r);
        }
    }
}

/// The runs of row `y`, left to right.
fn collect_row_runs(width: u32, pixels: &[u8], y: u32) -> (runs: Vec<(u32, u32)>)
    ensures
        is_row_runs(width, pixels@, y as int, runs@),
{
    let mut runs: Vec<(u32, u32)> = Vec::new();
    let mut x: u32 = 0;
    while x < width
        invariant
            x <= width,
            x == 0 || !filled(width, pixels@, x - 1, y as int) || x == width || !filled(
                width,
                pixels@,
                x as int,
                y as int,
            ),
            forall|i: int|
                0 <= i < runs@.len() ==> is_run(width, pixels@, y as int, (#[trigger] runs@[i]).0 as int, runs@[i].1 as int)
                    && runs@[i].0 + runs@[i].1 <= x,
            forall|i: int, j: int|
                0 <= i < j < runs@.len() ==> (#[trigger] runs@[i]).0 + runs@[i].1 < (#[trigger] runs@[j]).0,
            forall|x0: int, w0: int|
                x0 < x && is_run(width, pixels@, y as int, x0, w0) ==> #[trigger] has_run(runs@, x0, w0),
        decreases width - x,
    {
        if !is_filled(width, pixels, (x, y)) {
            proof {
                assert forall|x0: int, w0: int|
                    x0 < x + 1 && is_run(width, pixels@, y as int, x0, w0) implies #[trigger] has_run(runs@, x0, w0) by {
                    if x0 == x {
                        assert(filled(width, pixels@, x0, y as int));
                    }
                }
            }
            x = x + 1;
            continue;
        }
        let start = x;
        x = x + 1;
        while x < width && is_filled(width, pixels, (x, y))
            invariant
                start < x <= width,
                filled(width, pixels@, start as int, y as int),
                start == 0 || !filled(width, pixels@, start - 1, y as int),
                forall|i: int| start <= i < x ==> #[trigger] filled(width, pixels@, i, y as int),
            decreases width - x,
        {
            x = x + 1;
        }
        let ghost before = runs@;
        proof {
            assert(is_run(width, pixels@, y as int, start as int, x - start));
        }
        runs.push((start, x - start));
        proof {
            assert forall|i: int|
                0 <= i < before.len() implies (#[trigger] before[i]).0 + before[i].1 < start by {
                let e = before[i].0 + before[i].1;
                assert(is_run(width, pixels@, y as int, before[i].0 as int, before[i].1 as int));
                if e == start {
                    assert(filled(width, pixels@, e as int, y as int));
                }
            }
            assert forall|i: int, j: int|
                0 <= i < j < runs@.len() implies (#[trigger] runs@[i]).0 + runs@[i].1 < (#[trigger] runs@[j]).0 by {
                if j == before.len() {
                    assert(runs@[i] == before[i]);
                } else {
                    assert(runs@[i] == before[i] && runs@[j] == before[j]);
                }
            }
            assert forall|x0: int, w0: int|
                x0 < x && is_run(width, pixels@, y as int, x0, w0) implies #[trigger] has_run(runs@, x0, w0) by {
                if x0 < start {
                    assert(has_run(before, x0, w0));
                    let k = choose|k: int| 0 <= k < before.len() && before[k].0 == x0 && before[k].1 == w0;
                    assert(runs@[k] == before[k]);
                } else {
                    if x0 > start {
                        assert(filled(width, pixels@, x0 - 1, y as int));
                    }
                    if w0 < x - start {
                        assert(filled(width, pixels@, x0 + w0, y as int));
                    }
                    if w0 > x - start {
                        assert(filled(width, pixels@, x as int, y as int));
                    }
                    assert(runs@[before.len() as int] == (start, (x - start) as u32));
                }
            }
        }
    }
    runs
}

/// Index of the open rectangle for run `(x, w)`, if there is one. The open
/// rectangles are kept in a `Vec` and searched: vstd specifies hash-map lookups
/// only for integer and `bool` keys, not for tuple keys such as `(x, w)`.
fn find_active(active: &Vec<(u32, u32, u32, u32)>, x: u32, w: u32) -> (found: Option<usize>)
    ensures
        found matches Some(i) ==> i < active@.len() && active@[i as int].0 == x && active@[i as int].1 == w,
        found is None ==> !has_active(active@, x as int, w as int),
{
    let mut i: usize = 0;
    while i < active.len()
        invariant
            i <= active@.len(),
            forall|k: int| 0 <= k < i ==> !(active@[k].0 == x && active@[k].1 == w),
        decreases active@.len() - i,
    {
        if active[i].0 == x && active[i].1 == w {
            return Some(i);
        }
        i = i + 1;
    }
    None
}

/// Whether `runs` holds run `(x, w)`.
fn contains_run(runs: &Vec<(u32, u32)>, x: u32, w: u32) -> (found: bool)
    ensures
        found == has_run(runs@, x as int, w as int),
{
    let mut i: usize = 0;
    while i < runs.len()
        invariant
            i <= runs@.len(),
            forall|k: int| 0 <= k < i ==> !(runs@[k].0 == x && runs@[k].1 == w),
        decreases runs@.len() - i,
    {
        if runs[i].0 == x && runs[i].1 == w {
            return true;
        }
        i = i + 1;
    }
    false
}

/// The open rectangles after row `y`: each run of row `y` extends the open
/// rectangle of the same run, or opens a new one at row `y`.
fn extend_active_runs(
    width: u32,
    pixels: &[u8],
    active: &Vec<(u32, u32, u32, u32)>,
    runs: &Vec<(u32, u32)>,
    y: u32,
) -> (next: Vec<(u32, u32, u32, u32)>)
    requires
        y < u32::MAX,
        is_active(width, pixels@, y as int, active@),
        is_row_runs(width, pixels@, y as int, runs@),
    ensures
        is_active(width, pixels@, y + 1, next@),
{
    let mut next: Vec<(u32, u32, u32, u32)> = Vec::new();
    let mut k: usize = 0;
    while k < runs.len()
        invariant
            y < u32::MAX,
            k <= runs@.len(),
            is_active(width, pixels@, y as int, active@),
            is_row_runs(width, pixels@, y as int, runs@),
            next@.len() == k,
            forall|i: int|
                0 <= i < k ==> (#[trigger] next@[i]).0 == runs@[i].0 && next@[i].1 == runs@[i].1
                    && is_open_rect(width, pixels@, y + 1, next@[i]),
        decreases runs@.len() - k,
    {
        let run = runs[k];
        let (x, w) = run;
        assert(is_run(width, pixels@, y as int, x as int, w as int));
        match find_active(active, x, w) {
            Some(i) => {
                let e = active[i];
                assert(is_open_rect(width, pixels@, y as int, e));
                let entry = (x, w, e.2, e.3 + 1);
                assert(is_open_rect(width, pixels@, y + 1, entry));
                next.push(entry);
            },
            None => {
                let entry = (x, w, y, 1u32);
                assert(is_open_rect(width, pixels@, y + 1, entry));
                next.push(entry);
            },
        }
        k = k + 1;
    }
    proof {
        assert forall|i: int, j: int| 0 <= i < j < next@.len() implies (#[trigger] next@[i]).0 < (
        #[trigger] next@[j]).0 by {
            assert(runs@[i].0 + runs@[i].1 < runs@[j].0);
        }
        assert forall|x: int, w: int| is_run(width, pixels@, y as int, x, w) implies #[trigger] has_active(
            next@,
            x,
            w,
        ) by {
            assert(has_run(runs@, x, w));
            let k = choose|k: int| 0 <= k < runs@.len() && runs@[k].0 == x && runs@[k].1 == w;
            assert(next@[k].0 == x && next@[k].1 == w);
        }
    }
    next
}

/// Closes the open rectangles whose run does not occur in row `y`, appending
/// them to `rects`.
fn close_stale_runs(
    width: u32,
    height: u32,
    pixels: &[u8],
    active: &Vec<(u32, u32, u32, u32)>,
    runs: &Vec<(u32, u32)>,
    y: u32,
    rects: &mut Vec<PixelRect>,
)
    requires
        y < height,
        is_active(width, pixels@, y as int, active@),
        is_row_runs(width, pixels@, y as int, runs@),
        is_closed_before(width, height, pixels@, y as int, old(rects)@),
    ensures
        is_closed_before(width, height, pixels@, y + 1, final(rects)@),
{
    let ghost start = rects@;
    let mut k: usize = 0;
    while k < active.len()
        invariant
            y < height,
            k <= active@.len(),
            is_active(width, pixels@, y as int, active@),
            is_row_runs(width, pixels@, y as int, runs@),
            is_closed_before(width, height, pixels@, y as int, start),
            start.len() <= rects@.len(),
            forall|i: int| 0 <= i < start.len() ==> rects@[i] == start[i],
            forall|i: int|
                start.len() <= i < rects@.len() ==> {
                    &&& is_merged_rect(width, height, pixels@, #[trigger] rects@[i])
                    &&& rects@[i].1 + rects@[i].3 == y
                },
            forall|i: int|
                start.len() <= i < rects@.len() ==> exists|m: int|
                    0 <= m < k && (#[trigger] rects@[i]).0 == active@[m].0 && rects@[i].2 == active@[m].1,
            forall|i: int, j: int|
                start.len() <= i < j < rects@.len() ==> (#[trigger] rects@[i]).0 < (#[trigger] rects@[j]).0,
            forall|m: int|
                0 <= m < k && !has_run(runs@, (#[trigger] active@[m]).0 as int, active@[m].1 as int)
                    ==> rects@.contains((active@[m].0, active@[m].2, active@[m].1, active@[m].3)),
        decreases active@.len() - k,
    {
        let e = active[k];
        if !contains_run(runs, e.0, e.1) {
            let ghost before = rects@;
            let r = (e.0, e.2, e.1, e.3);
            proof {
                assert(is_open_rect(width, pixels@, y as int, e));
                assert(is_merged_rect(width, height, pixels@, r));
                assert forall|i: int| start.len() <= i < before.len() implies (#[trigger] before[i]).0 < e.0 by {
                    let m = choose|m: int| 0 <= m < k && before[i].0 == active@[m].0 && before[i].2 == active@[m].1;
                    assert(active@[m].0 < active@[k as int].0);
                }
            }
            rects.push(r);
            proof {
                assert forall|m: int|
                    0 <= m < k + 1 && !has_run(runs@, (#[trigger] active@[m]).0 as int, active@[m].1 as int)
                        implies rects@.contains((active@[m].0, active@[m].2, active@[m].1, active@[m].3)) by {
                    if m == k {
                        assert(rects@[before.len() as int] == r);
                    } else {
                        let t = choose|t: int| 0 <= t < before.len() && before[t] == (active@[m].0, active@[m].2, active@[m].1, active@[m].3);
                        assert(rects@[t] == before[t]);
                    }
                }
                assert forall|i: int|
                    start.len() <= i < rects@.len() implies exists|m: int|
                        0 <= m < k + 1 && (#[trigger] rects@[i]).0 == active@[m].0 && rects@[i].2 == active@[m].1 by {
                    if i == before.len() {
                        assert(rects@[i].0 == active@[k as int].0 && rects@[i].2 == active@[k as int].1);
                    } else {
                        assert(rects@[i] == before[i]);
                    }
                }
                assert forall|i: int, j: int|
                    start.len() <= i < j < rects@.len() implies (#[trigger] rects@[i]).0 < (#[trigger] rects@[j]).0 by {
                    if j == before.len() {
                        assert(rects@[i] == before[i]);
                    } else {
                        assert(rects@[i] == before[i] && rects@[j] == before[j]);
                    }
                }
            }
        }
        k = k + 1;
    }
    proof {
        let fin = rects@;
        assert forall|i: int, j: int| 0 <= i < j < fin.len() implies fin[i] != fin[j] by {
            if j < start.len() {
                assert(fin[i] == start[i] && fin[j] == start[j]);
            } else if i < start.len() {
                assert(fin[i] == start[i]);
            }
        }
        assert forall|i: int, j: int| 0 <= i < j < fin.len() implies cover_before(#[trigger] fin[i], #[trigger] fin[j]) by {
            if j < start.len() {
                assert(fin[i] == start[i] && fin[j] == start[j]);
            } else if i < start.len() {
                assert(fin[i] == start[i]);
            }
        }
        assert forall|i: int| 0 <= i < fin.len() implies is_merged_rect(width, height, pixels@, #[trigger] fin[i])
            && fin[i].1 + fin[i].3 < y + 1 by {
            if i < start.len() {
                assert(fin[i] == start[i]);
            }
        }
        assert forall|r: PixelRect|
            is_merged_rect(width, height, pixels@, r) && r.1 + r.3 < y + 1 implies #[trigger] fin.contains(r) by {
            if r.1 + r.3 < y {
                assert(start.contains(r));
                let t = choose|t: int| 0 <= t < start.len() && start[t] == r;
                assert(fin[t] == r);
            } else {
                let x = r.0 as int;
                let w = r.2 as int;
                assert(is_run(width, pixels@, y - 1, x, w));
                assert(has_active(active@, x, w));
                let m = choose|m: int| 0 <= m < active@.len() && active@[m].0 == x && active@[m].1 == w;
                let e = active@[m];
                assert(is_open_rect(width, pixels@, y as int, e));
                lemma_streak_start_unique(width, pixels@, x, w, e.2 as int, r.1 as int, y as int);
                if has_run(runs@, x, w) {
                    let t = choose|t: int| 0 <= t < runs@.len() && runs@[t].0 == x && runs@[t].1 == w;
                    assert(is_run(width, pixels@, y as int, x, w));
                }
                assert(fin.contains((e.0, e.2, e.1, e.3)));
            }
        }
    }
}

} // verus!
