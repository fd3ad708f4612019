//! Glyph outlines traced from bitmaps, and the per-glyph data of the font.

use super::font_writer::{
    empty_glyph, glyf_add_glyph, glyf_glyphs, glyph_bbox, glyph_contour_coords, glyph_contour_count,
    glyph_contour_len, glyph_from_path, glyph_recompute_bbox, glyph_view, new_path, path_close, path_line_to,
    path_move_to, path_steps,
};
use super::{i32_to_i16, is_conversion_error, u32_to_i32, u32_to_u16, usize_to_u16};
use crate::text::{char_from_u32, hex_digit, hex_digit_char, string_from_chars};
use write_fonts::tables::glyf::GlyfLocaBuilder;
use crate::error::Error;
use crate::glyph::BitmapGlyph;
use crate::rects::{collect_pixel_rects, filled, is_merged_cover, is_merged_rect, is_run, lemma_merged_cover_is_exact, lemma_merged_cover_unique, merged_cover, PixelRect};
use kurbo::BezPath;
use vstd::prelude::*;
use vstd::string::*;
use write_fonts::tables::glyf::SimpleGlyph;

verus! {

/// An element of a path, with whole-number points.
pub enum PathStep {
    MoveTo(int, int),
    LineTo(int, int),
    Close,
}

/// What a simple glyph holds: contours of `(x, y, on_curve, cubic)` points, the
/// bounding box `(x_min, y_min, x_max, y_max)`, instruction bytes, overlap flag.
pub type GlyphView = (Seq<Seq<(i16, i16, bool, bool)>>, (i16, i16, i16, i16), Seq<u8>, bool);

/// The number of moves among `steps`.
pub open spec fn count_moves(steps: Seq<PathStep>) -> nat
    decreases steps.len(),
{
    if steps.len() == 0 {
        0
    } else {
        count_moves(steps.drop_last()) + if steps.last() is MoveTo {
            1nat
        } else {
            0nat
        }
    }
}

/// The point of a step lies within `bound` of the origin on both axes.
pub open spec fn step_within(step: PathStep, bound: int) -> bool {
    match step {
        PathStep::MoveTo(x, y) => -bound <= x <= bound && -bound <= y <= bound,
        PathStep::LineTo(x, y) => -bound <= x <= bound && -bound <= y <= bound,
        PathStep::Close => true,
    }
}

/// Every point of `steps` lies within `bound` of the origin on both axes.
pub open spec fn steps_within(steps: Seq<PathStep>, bound: int) -> bool {
    forall|i: int| 0 <= i < steps.len() ==> step_within(#[trigger] steps[i], bound)
}

/// The bound that path coordinates are clamped to: `i32::MAX`, far beyond the
/// `i16` range that glyph coordinates saturate to.
pub open spec fn coord_limit() -> int {
    0x7FFF_FFFF
}

/// `v` clamped to `lo ..= hi`.
pub open spec fn clamp_to(v: int, lo: int, hi: int) -> int {
    if v > hi {
        hi
    } else if v < lo {
        lo
    } else {
        v
    }
}

/// The corners `(x0, y0, x1, y1)` of a rectangle multiplied by `scale` and
/// clamped to `coord_limit()`; the bottom edge stops one unit below the limit
/// and the top edge one unit above its negation, so that a rectangle of
/// nonzero scaled height keeps a nonzero height.
pub open spec fn scale_corners(c: (int, int, int, int), scale: int) -> (int, int, int, int) {
    (
        clamp_to(c.0 * scale, -coord_limit(), coord_limit()),
        clamp_to(c.1 * scale, -coord_limit(), coord_limit() - 1),
        clamp_to(c.2 * scale, -coord_limit(), coord_limit()),
        clamp_to(c.3 * scale, -(coord_limit() - 1), coord_limit()),
    )
}

/// `v` clamped to the range of `i16`.
pub open spec fn sat_i16(v: int) -> i16 {
    if v < i16::MIN {
        i16::MIN
    } else if v > i16::MAX {
        i16::MAX
    } else {
        v as i16
    }
}

/// The box `(x_min, y_min, x_max, y_max)` grown to take in `(x, y)`.
pub open spec fn box_with(b: Option<(int, int, int, int)>, x: int, y: int) -> (int, int, int, int) {
    match b {
        None => (x, y, x, y),
        Some(q) => (
            if x < q.0 { x } else { q.0 },
            if y < q.1 { y } else { q.1 },
            if x > q.2 { x } else { q.2 },
            if y > q.3 { y } else { q.3 },
        ),
    }
}

/// The box of the points of `steps`, if they have any.
pub open spec fn steps_box(steps: Seq<PathStep>) -> Option<(int, int, int, int)>
    decreases steps.len(),
{
    if steps.len() == 0 {
        None
    } else {
        let b = steps_box(steps.drop_last());
        match steps.last() {
            PathStep::MoveTo(x, y) => Some(box_with(b, x, y)),
            PathStep::LineTo(x, y) => Some(box_with(b, x, y)),
            PathStep::Close => b,
        }
    }
}

/// The control box of `steps` clamped to `i16`, zero when there are no points.
pub open spec fn steps_bbox(steps: Seq<PathStep>) -> (i16, i16, i16, i16) {
    match steps_box(steps) {
        None => (0i16, 0i16, 0i16, 0i16),
        Some(q) => (sat_i16(q.0), sat_i16(q.1), sat_i16(q.2), sat_i16(q.3)),
    }
}

/// The contours, as points, that tracing `steps` gives: a move starts a new
/// contour at its point, a line adds its point to the current contour, and a
/// close drops the current contour's last point when it repeats the first.
pub open spec fn traced_points(steps: Seq<PathStep>) -> Seq<Seq<(int, int)>>
    decreases steps.len(),
{
    if steps.len() == 0 {
        Seq::empty()
    } else {
        let prev = traced_points(steps.drop_last());
        let n = prev.len() as int;
        match steps.last() {
            PathStep::MoveTo(x, y) => prev.push(seq![(x, y)]),
            PathStep::LineTo(x, y) => if n == 0 {
                prev
            } else {
                prev.update(n - 1, prev[n - 1].push((x, y)))
            },
            PathStep::Close => if n > 0 && prev[n - 1].len() > 1 && prev[n - 1].last() == prev[n - 1][0] {
                prev.update(n - 1, prev[n - 1].drop_last())
            } else {
                prev
            },
        }
    }
}

/// The contours that `SimpleGlyph::from_bezpath` traces from a path with these
/// elements: the traced points, each rounded to `i16` (saturating) as an
/// on-curve, non-cubic point.
pub open spec fn traced_contours(steps: Seq<PathStep>) -> Seq<Seq<(i16, i16, bool, bool)>> {
    traced_points(steps).map_values(
        |c: Seq<(int, int)>| c.map_values(|p: (int, int)| (sat_i16(p.0), sat_i16(p.1), true, false)),
    )
}

/// The number of points of all contours.
pub open spec fn total_points(contours: Seq<Seq<(i16, i16, bool, bool)>>) -> int {
    contours.flatten().len() as int
}

/// The box of a sequence of glyph points, if there are any.
pub open spec fn points_box(points: Seq<(i16, i16, bool, bool)>) -> Option<(int, int, int, int)>
    decreases points.len(),
{
    if points.len() == 0 {
        None
    } else {
        Some(box_with(points_box(points.drop_last()), points.last().0 as int, points.last().1 as int))
    }
}

/// The box of all points of all contours, zero when there are none.
pub open spec fn contour_points_bbox(contours: Seq<Seq<(i16, i16, bool, bool)>>) -> (i16, i16, i16, i16) {
    match points_box(contours.flatten()) {
        None => (0i16, 0i16, 0i16, 0i16),
        Some(q) => (q.0 as i16, q.1 as i16, q.2 as i16, q.3 as i16),
    }
}

/// The point before point `i` when the points are written one after another,
/// starting from the origin.
pub open spec fn previous_point(points: Seq<(i16, i16, bool, bool)>, i: int) -> (int, int) {
    if i == 0 {
        (0, 0)
    } else {
        (points[i - 1].0 as int, points[i - 1].1 as int)
    }
}

/// Each point of the sequence differs from the one before by an `i16` on each axis.
#[verifier::opaque]
pub open spec fn point_deltas_fit(points: Seq<(i16, i16, bool, bool)>) -> bool {
    forall|i: int|
        0 <= i < points.len() ==> {
            &&& i16::MIN <= (#[trigger] points[i]).0 - previous_point(points, i).0 <= i16::MAX
            &&& i16::MIN <= points[i].1 - previous_point(points, i).1 <= i16::MAX
        }
}

/// The glyph's points, written one after another, differ by `i16` steps.
pub open spec fn deltas_fit(contours: Seq<Seq<(i16, i16, bool, bool)>>) -> bool {
    point_deltas_fit(contours.flatten())
}

/// The corners `(x0, y0, x1, y1)` in font space (y up, before scaling) of a
/// pixel rectangle of `glyph`: the top of the rectangle sits `line_height`
/// minus the glyph's vertical offset minus the rectangle's row above the baseline.
pub open spec fn rect_corners(glyph: BitmapGlyph, line_height: int, r: PixelRect) -> (int, int, int, int) {
    let top = line_height - glyph.offset_y - r.1;
    (glyph.offset_x + r.0, top - r.3, glyph.offset_x + r.0 + r.2, top)
}

/// The closed path around a rectangle with corners `(x0, y0, x1, y1)`.
pub open spec fn rect_steps(c: (int, int, int, int)) -> Seq<PathStep> {
    seq![
        PathStep::MoveTo(c.0, c.1),
        PathStep::LineTo(c.2, c.1),
        PathStep::LineTo(c.2, c.3),
        PathStep::LineTo(c.0, c.3),
        PathStep::Close,
    ]
}

/// The paths around the given pixel rectangles of `glyph`, scaled by `scale`,
/// one after another.
pub open spec fn rects_steps(glyph: BitmapGlyph, line_height: int, scale: int, rects: Seq<PixelRect>) -> Seq<PathStep>
    decreases rects.len(),
{
    if rects.len() == 0 {
        Seq::empty()
    } else {
        rects_steps(glyph, line_height, scale, rects.drop_last())
            + rect_steps(scale_corners(rect_corners(glyph, line_height, rects.last()), scale))
    }
}

/// The merged cover of a glyph's bitmap.
pub open spec fn glyph_cover(glyph: BitmapGlyph) -> Seq<PixelRect> {
    merged_cover(glyph.width as u32, glyph.height as u32, glyph.pixels@)
}

/// The outline path of a glyph: its merged rectangles traced in font space and
/// scaled by `scale`.
pub open spec fn outline_steps(glyph: BitmapGlyph, line_height: int, scale: int) -> Seq<PathStep> {
    rects_steps(glyph, line_height, scale, glyph_cover(glyph))
}

/// The glyph made for a bitmap glyph: empty when no pixel is filled, else the
/// glyph traced from its outline path, whose bounding box is recomputed from
/// its points when the traced box is all zero.
pub open spec fn outline_glyph(glyph: BitmapGlyph, line_height: int, scale: int) -> GlyphView {
    let steps = outline_steps(glyph, line_height, scale);
    let contours = traced_contours(steps);
    let traced_box = steps_bbox(steps);
    if glyph_cover(glyph).len() == 0 {
        (Seq::empty(), (0i16, 0i16, 0i16, 0i16), Seq::empty(), false)
    } else if traced_box == (0i16, 0i16, 0i16, 0i16) && total_points(contours) > 0 {
        (contours, contour_points_bbox(contours), Seq::empty(), false)
    } else {
        (contours, traced_box, Seq::empty(), false)
    }
}

/// Steps that start with a move, or no steps.
pub open spec fn starts_with_move(steps: Seq<PathStep>) -> bool {
    steps.len() == 0 || steps[0] is MoveTo
}

/// `v * scale` clamped to `lo ..= hi`.
fn scale_coord(v: i64, scale: u32, lo: i64, hi: i64) -> (r: i64)
    requires
        -0x4_0000_0000 <= v <= 0x4_0000_0000,
        lo <= hi,
    ensures
        r == clamp_to(v * scale, lo as int, hi as int),
{
    proof {
        assert(-0x4_0000_0000 * 0x1_0000_0000 <= v * scale <= 0x4_0000_0000 * 0x1_0000_0000) by (nonlinear_arith)
            requires -0x4_0000_0000 <= v <= 0x4_0000_0000, 0 <= scale <= 0xFFFF_FFFF;
    }
    let product: i128 = v as i128 * scale as i128;
    if product > hi as i128 {
        hi
    } else if product < lo as i128 {
        lo
    } else {
        product as i64
    }
}

/// Appends the closed path around the rectangle with corners `(x0, y0)` and `(x1, y1)`.
fn push_rect(path: &mut BezPath, x0: i64, y0: i64, x1: i64, y1: i64)
    requires
        starts_with_move(path_steps(*old(path))),
        -coord_limit() <= x0 <= coord_limit(),
        -coord_limit() <= y0 <= coord_limit(),
        -coord_limit() <= x1 <= coord_limit(),
        -coord_limit() <= y1 <= coord_limit(),
    ensures
        path_steps(*final(path)) == path_steps(*old(path)) + rect_steps((x0 as int, y0 as int, x1 as int, y1 as int)),
        starts_with_move(path_steps(*final(path))),
{
    let ghost start = path_steps(*path);
    let (a0, b0, a1, b1) = (x0 as i32, y0 as i32, x1 as i32, y1 as i32);
    path_move_to(path, a0, b0);
    path_line_to(path, a1, b0);
    path_line_to(path, a1, b1);
    path_line_to(path, a0, b1);
    path_close(path);
    assert(path_steps(*path) =~= start + rect_steps((x0 as int, y0 as int, x1 as int, y1 as int)));
}

/// Appends to `path` the merged rectangles of `glyph`, traced in font space
/// and scaled by `scale` (corners clamped as `scale_corners` says), and counts
/// them (saturating at `u16::MAX`). The `requires` leaves out the line heights
/// whose rectangle tops overflow `i32`, where the computation panics.
fn append_glyph_rects(
    path: &mut BezPath,
    glyph: &BitmapGlyph,
    dimensions: (u32, u32),
    offsets: (i32, i32),
    line_height: i32,
    scale: u32,
) -> (r: Result<u16, Error>)
    requires
        starts_with_move(path_steps(*old(path))),
        dimensions == (glyph.width as u32, glyph.height as u32),
        offsets == (glyph.offset_x as i32, glyph.offset_y as i32),
        glyph_cover(*glyph).len() > 0 ==> i32::MIN + 0x2_0000 <= line_height - glyph.offset_y <= i32::MAX,
    ensures
        r matches Ok(n) && n == (if glyph_cover(*glyph).len() < u16::MAX {
            glyph_cover(*glyph).len()
        } else {
            u16::MAX as nat
        }),
        path_steps(*final(path)) == path_steps(*old(path)) + outline_steps(*glyph, line_height as int, scale as int),
        starts_with_move(path_steps(*final(path))),
        steps_within(path_steps(*old(path)), coord_limit()) ==> steps_within(path_steps(*final(path)), coord_limit()),
{
    let (width, height) = dimensions;
    let (x_offset, y_offset) = offsets;
    let mut contours: u16 = 0;
    let rects = collect_pixel_rects(width, height, &glyph.pixels, true);
    proof {
        lemma_merged_cover_unique(width, height, glyph.pixels@, rects@, rects@);
    }
    let ghost cover = rects@;
    let ghost lh = line_height as int;
    let ghost sc = scale as int;
    let ghost start = path_steps(*path);
    let mut k: usize = 0;
    proof {
        assert(cover.take(0) =~= Seq::<PixelRect>::empty());
        assert(rects_steps(*glyph, lh, sc, cover.take(0)) =~= Seq::<PathStep>::empty());
        assert(start + Seq::<PathStep>::empty() =~= start);
    }
    while k < rects.len()
        invariant
            k <= rects@.len(),
            rects@ == cover,
            cover == glyph_cover(*glyph),
            is_merged_cover(width, height, glyph.pixels@, cover),
            width == glyph.width as u32,
            height == glyph.height as u32,
            x_offset == glyph.offset_x as i32,
            y_offset == glyph.offset_y as i32,
            lh == line_height as int,
            sc == scale as int,
            cover.len() > 0 ==> i32::MIN + 0x2_0000 <= line_height - glyph.offset_y <= i32::MAX,
            path_steps(*path) == start + rects_steps(*glyph, lh, sc, cover.take(k as int)),
            starts_with_move(path_steps(*path)),
            starts_with_move(start),
            steps_within(start, coord_limit()) ==> steps_within(path_steps(*path), coord_limit()),
            contours == (if k < u16::MAX { k as nat } else { u16::MAX as nat }),
        decreases rects@.len() - k,
    {
        let r = rects[k];
        assert(cover.contains(r));
        assert(is_merged_rect(width, height, glyph.pixels@, r));
        assert(is_run(width, glyph.pixels@, r.1 as int, r.0 as int, r.2 as int));
        let x = u32_to_i32(r.0, "glyph x to i32")?;
        let y = u32_to_i32(r.1, "glyph y to i32")?;
        let w = u32_to_i32(r.2, "glyph width to i32")?;
        let h = u32_to_i32(r.3, "glyph height to i32")?;
        let top: i64 = line_height as i64 - y_offset as i64 - y as i64;
        let x0: i64 = x_offset as i64 + x as i64;
        let x1: i64 = x0 + w as i64;
        let y0: i64 = top - h as i64;
        let ghost before = path_steps(*path);
        let sx0 = scale_coord(x0, scale, -0x7FFF_FFFF, 0x7FFF_FFFF);
        let sy0 = scale_coord(y0, scale, -0x7FFF_FFFF, 0x7FFF_FFFE);
        let sx1 = scale_coord(x1, scale, -0x7FFF_FFFF, 0x7FFF_FFFF);
        let sy1 = scale_coord(top, scale, -0x7FFF_FFFE, 0x7FFF_FFFF);
        push_rect(path, sx0, sy0, sx1, sy1);
        proof {
            let taken = cover.take(k as int);
            assert(cover.take(k + 1).drop_last() =~= taken);
            assert(cover.take(k + 1).last() == r);
            let corners = rect_corners(*glyph, lh, r);
            assert(corners == (x0 as int, y0 as int, x1 as int, top as int));
            let added = rect_steps((sx0 as int, sy0 as int, sx1 as int, sy1 as int));
            assert(scale_corners(corners, sc) == (sx0 as int, sy0 as int, sx1 as int, sy1 as int));
            assert(rects_steps(*glyph, lh, sc, cover.take(k + 1)) == rects_steps(*glyph, lh, sc, taken) + added);
            assert(path_steps(*path) =~= start + rects_steps(*glyph, lh, sc, cover.take(k + 1)));
            if steps_within(start, coord_limit()) {
                assert forall|i: int| 0 <= i < path_steps(*path).len() implies step_within(#[trigger] path_steps(*path)[i], coord_limit()) by {
                    if i < before.len() {
                        assert(path_steps(*path)[i] == before[i]);
                    } else {
                        assert(path_steps(*path)[i] == added[i - before.len()]);
                    }
                }
            }
        }
        contours = contours.saturating_add(1);
        k = k + 1;
    }
    proof {
        assert(cover.take(rects@.len() as int) =~= cover);
    }
    Ok(contours)
}

/// Tracing steps that start with a move gives one contour per move, none of
/// them empty.
proof fn lemma_traced_shape(steps: Seq<PathStep>)
    requires
        starts_with_move(steps),
    ensures
        traced_contours(steps).len() == count_moves(steps),
        forall|c: int| 0 <= c < traced_contours(steps).len() ==> #[trigger] traced_contours(steps)[c].len() > 0,
    decreases steps.len(),
{
    let t = traced_points(steps);
    if steps.len() > 0 {
        let prev = steps.drop_last();
        if prev.len() > 0 {
            assert(prev[0] == steps[0]);
            assert(count_moves(prev) > 0) by {
                lemma_count_moves_first(prev);
            }
        } else {
            assert(steps.last() == steps[0]);
        }
        lemma_traced_shape(prev);
        let tp = traced_points(prev);
        assert forall|c: int| 0 <= c < tp.len() implies #[trigger] tp[c].len() > 0 by {
            assert(traced_contours(prev)[c].len() == tp[c].len());
        }
        assert forall|c: int| 0 <= c < t.len() implies #[trigger] t[c].len() > 0 by {
            match steps.last() {
                PathStep::MoveTo(x, y) => {
                    if c < tp.len() {
                        assert(t[c] == tp[c]);
                    }
                },
                PathStep::LineTo(x, y) => {
                    if c < tp.len() - 1 {
                        assert(t[c] == tp[c]);
                    }
                },
                PathStep::Close => {
                    if c < tp.len() - 1 {
                        assert(t[c] == tp[c]);
                    }
                },
            }
        }
    }
    assert forall|c: int| 0 <= c < traced_contours(steps).len() implies #[trigger] traced_contours(steps)[c].len() > 0 by {
        assert(traced_contours(steps)[c].len() == t[c].len());
    }
}

/// Steps that start with a move have a move.
proof fn lemma_count_moves_first(steps: Seq<PathStep>)
    requires
        steps.len() > 0,
        steps[0] is MoveTo,
    ensures
        count_moves(steps) > 0,
    decreases steps.len(),
{
    if steps.len() > 1 {
        assert(steps.drop_last()[0] == steps[0]);
        lemma_count_moves_first(steps.drop_last());
    }
}

/// The four corners of a rectangle, in the order its path visits them.
pub open spec fn rect_points(c: (int, int, int, int)) -> Seq<(int, int)> {
    seq![(c.0, c.1), (c.2, c.1), (c.2, c.3), (c.0, c.3)]
}

/// Tracing a rectangle of nonzero height after other steps adds one contour:
/// its four corners.
proof fn lemma_traced_rect(prefix: Seq<PathStep>, c: (int, int, int, int))
    requires
        c.1 != c.3,
    ensures
        traced_points(prefix + rect_steps(c)) == traced_points(prefix).push(rect_points(c)),
{
    let s1 = prefix.push(PathStep::MoveTo(c.0, c.1));
    let s2 = s1.push(PathStep::LineTo(c.2, c.1));
    let s3 = s2.push(PathStep::LineTo(c.2, c.3));
    let s4 = s3.push(PathStep::LineTo(c.0, c.3));
    let s5 = s4.push(PathStep::Close);
    assert(prefix + rect_steps(c) =~= s5);
    assert(s1.drop_last() =~= prefix);
    assert(s2.drop_last() =~= s1);
    assert(s3.drop_last() =~= s2);
    assert(s4.drop_last() =~= s3);
    assert(s5.drop_last() =~= s4);
    let t = traced_points(prefix);
    let n = t.len() as int;
    let q1: Seq<(int, int)> = seq![(c.0, c.1)];
    let q2 = q1.push((c.2, c.1));
    let q3 = q2.push((c.2, c.3));
    let q4 = q3.push((c.0, c.3));
    let p1 = traced_points(s1);
    assert(p1 == t.push(q1));
    assert(p1.len() == n + 1 && p1[n] == q1);
    let p2 = traced_points(s2);
    assert(p2 == p1.update(n, p1[n].push((c.2, c.1))));
    assert(p2 =~= t.push(q2));
    assert(p2.len() == n + 1 && p2[n] == q2);
    let p3 = traced_points(s3);
    assert(p3 == p2.update(n, p2[n].push((c.2, c.3))));
    assert(p3 =~= t.push(q3));
    assert(p3.len() == n + 1 && p3[n] == q3);
    let p4 = traced_points(s4);
    assert(p4 == p3.update(n, p3[n].push((c.0, c.3))));
    assert(q4 =~= rect_points(c));
    assert(p4 =~= t.push(rect_points(c)));
    assert(rect_points(c).last() != rect_points(c)[0]);
    assert(traced_points(s5) == traced_points(s4));
}

/// The scaled rectangles of `rects`, each of nonzero height once scaled, trace
/// one four-point contour each.
proof fn lemma_traced_rects(glyph: BitmapGlyph, line_height: int, scale: int, rects: Seq<PixelRect>)
    requires
        forall|i: int| 0 <= i < rects.len() ==> (#[trigger] scale_corners(rect_corners(glyph, line_height, rects[i]), scale)).1
            != scale_corners(rect_corners(glyph, line_height, rects[i]), scale).3,
    ensures
        traced_points(rects_steps(glyph, line_height, scale, rects)).len() == rects.len(),
        forall|k: int| 0 <= k < rects.len() ==> (#[trigger] traced_points(rects_steps(glyph, line_height, scale, rects))[k]).len() == 4,
    decreases rects.len(),
{
    if rects.len() > 0 {
        let before = rects.drop_last();
        assert forall|i: int| 0 <= i < before.len() implies (#[trigger] scale_corners(rect_corners(glyph, line_height, before[i]), scale)).1
            != scale_corners(rect_corners(glyph, line_height, before[i]), scale).3 by {
            assert(before[i] == rects[i]);
        }
        lemma_traced_rects(glyph, line_height, scale, before);
        assert(rects.last() == rects[rects.len() - 1]);
        let scaled = scale_corners(rect_corners(glyph, line_height, rects.last()), scale);
        lemma_traced_rect(rects_steps(glyph, line_height, scale, before), scaled);
    }
}

/// Contours of four points each hold four points per contour.
proof fn lemma_four_point_contours(contours: Seq<Seq<(i16, i16, bool, bool)>>)
    requires
        forall|k: int| 0 <= k < contours.len() ==> (#[trigger] contours[k]).len() == 4,
    ensures
        total_points(contours) == 4 * contours.len(),
    decreases contours.len(),
{
    if contours.len() == 0 {
        assert(contours.flatten() =~= Seq::<(i16, i16, bool, bool)>::empty());
    } else {
        let rest = contours.drop_last();
        assert forall|k: int| 0 <= k < rest.len() implies (#[trigger] rest[k]).len() == 4 by {
            assert(rest[k] == contours[k]);
        }
        lemma_four_point_contours(rest);
        assert(rest.push(contours.last()) =~= contours);
        rest.lemma_flatten_push(contours.last());
    }
}

/// Law: each rectangle of a glyph's merged cover becomes one contour of four
/// points, its corners, at any scale of at least one: the glyph has as many
/// contours as rectangles and four times as many points.
pub proof fn lemma_outline_four_points_per_rect(glyph: BitmapGlyph, line_height: int, scale: int, cover: Seq<PixelRect>)
    requires
        is_merged_cover(glyph.width as u32, glyph.height as u32, glyph.pixels@, cover),
        scale >= 1,
    ensures
        outline_glyph(glyph, line_height, scale).0.len() == cover.len(),
        forall|k: int| 0 <= k < cover.len() ==> (#[trigger] outline_glyph(glyph, line_height, scale).0[k]).len() == 4,
        total_points(outline_glyph(glyph, line_height, scale).0) == 4 * cover.len(),
{
    lemma_merged_cover_unique(glyph.width as u32, glyph.height as u32, glyph.pixels@, cover, cover);
    assert forall|i: int| 0 <= i < cover.len() implies (#[trigger] scale_corners(rect_corners(glyph, line_height, cover[i]), scale)).1
        != scale_corners(rect_corners(glyph, line_height, cover[i]), scale).3 by {
        let r = cover[i];
        assert(cover.contains(r));
        assert(is_merged_rect(glyph.width as u32, glyph.height as u32, glyph.pixels@, r));
        let c = rect_corners(glyph, line_height, r);
        assert(c.1 * scale < c.3 * scale) by (nonlinear_arith)
            requires c.1 < c.3, scale >= 1;
    }
    lemma_traced_rects(glyph, line_height, scale, cover);
    let steps = outline_steps(glyph, line_height, scale);
    let contours = traced_contours(steps);
    assert forall|k: int| 0 <= k < contours.len() implies (#[trigger] contours[k]).len() == 4 by {
        assert(contours[k] == traced_points(steps)[k].map_values(|p: (int, int)| (sat_i16(p.0), sat_i16(p.1), true, false)));
    }
    lemma_four_point_contours(contours);
    if cover.len() == 0 {
        assert(outline_glyph(glyph, line_height, scale).0 =~= Seq::<Seq<(i16, i16, bool, bool)>>::empty());
    } else {
        assert(outline_glyph(glyph, line_height, scale).0 == contours);
    }
}

/// The scaled outline of `glyph` needs no clamping: scaled by `scale`, its
/// columns stay within `coord_limit()` and its rows within one unit of it.
pub open spec fn outline_fits(glyph: BitmapGlyph, line_height: int, scale: int) -> bool {
    &&& -coord_limit() <= glyph.offset_x * scale
    &&& (glyph.offset_x + glyph.width) * scale <= coord_limit()
    &&& -(coord_limit() - 1) <= (line_height - glyph.offset_y - glyph.height) * scale
    &&& (line_height - glyph.offset_y) * scale <= coord_limit() - 1
}

/// The traced paths of `rects` hold five steps per rectangle, those of
/// rectangle `k` at `5 * k`.
proof fn lemma_rects_steps_index(glyph: BitmapGlyph, line_height: int, scale: int, rects: Seq<PixelRect>)
    ensures
        rects_steps(glyph, line_height, scale, rects).len() == 5 * rects.len(),
        forall|k: int, j: int| 0 <= k < rects.len() && 0 <= j < 5 ==> #[trigger] rects_steps(glyph, line_height, scale, rects)[5 * k + j]
            == rect_steps(scale_corners(rect_corners(glyph, line_height, rects[k]), scale))[j],
    decreases rects.len(),
{
    if rects.len() > 0 {
        let before = rects.drop_last();
        lemma_rects_steps_index(glyph, line_height, scale, before);
        let all = rects_steps(glyph, line_height, scale, rects);
        let prev = rects_steps(glyph, line_height, scale, before);
        let n = before.len() as int;
        assert forall|k: int, j: int| 0 <= k < rects.len() && 0 <= j < 5 implies #[trigger] all[5 * k + j]
            == rect_steps(scale_corners(rect_corners(glyph, line_height, rects[k]), scale))[j] by {
            if k < n {
                assert(all[5 * k + j] == prev[5 * k + j]);
                assert(before[k] == rects[k]);
            } else {
                assert(rects.last() == rects[k]);
                assert(all[5 * k + j] == rect_steps(scale_corners(rect_corners(glyph, line_height, rects.last()), scale))[5 * k + j - 5 * n]);
            }
        }
    }
}

/// Law: each merged rectangle `(x, y, w, h)` of a glyph's bitmap is traced in
/// font space, y up, as the closed contour of its corners scaled by `scale`:
/// left edge `(offset_x + x) * scale`, right edge `(offset_x + x + w) * scale`,
/// top edge `(line_height - offset_y - y) * scale` and bottom edge
/// `(line_height - offset_y - y - h) * scale`, visited from the bottom left
/// corner, rightwards, up, leftwards, then closed. Row 0 of the bitmap is the
/// top of the glyph.
pub proof fn lemma_outline_rect_edges(glyph: BitmapGlyph, line_height: int, scale: int, cover: Seq<PixelRect>, k: int)
    requires
        is_merged_cover(glyph.width as u32, glyph.height as u32, glyph.pixels@, cover),
        0 <= k < cover.len(),
        scale >= 0,
        outline_fits(glyph, line_height, scale),
    ensures
        ({
            let steps = outline_steps(glyph, line_height, scale);
            let r = cover[k];
            let left = (glyph.offset_x + r.0) * scale;
            let right = (glyph.offset_x + r.0 + r.2) * scale;
            let top = (line_height - glyph.offset_y - r.1) * scale;
            let bottom = (line_height - glyph.offset_y - r.1 - r.3) * scale;
            &&& steps.len() == 5 * cover.len()
            &&& steps[5 * k] == PathStep::MoveTo(left, bottom)
            &&& steps[5 * k + 1] == PathStep::LineTo(right, bottom)
            &&& steps[5 * k + 2] == PathStep::LineTo(right, top)
            &&& steps[5 * k + 3] == PathStep::LineTo(left, top)
            &&& steps[5 * k + 4] == PathStep::Close
        }),
{
    lemma_merged_cover_unique(glyph.width as u32, glyph.height as u32, glyph.pixels@, cover, cover);
    lemma_rects_steps_index(glyph, line_height, scale, cover);
    let r = cover[k];
    assert(cover.contains(r));
    assert(is_merged_rect(glyph.width as u32, glyph.height as u32, glyph.pixels@, r));
    assert(is_run(glyph.width as u32, glyph.pixels@, r.1 as int, r.0 as int, r.2 as int));
    let ox = glyph.offset_x as int;
    let hi = line_height - glyph.offset_y;
    let lo = line_height - glyph.offset_y - glyph.height;
    let left = (ox + r.0) * scale;
    let right = (ox + r.0 + r.2) * scale;
    let top = (hi - r.1) * scale;
    let bottom = (hi - r.1 - r.3) * scale;
    assert(ox * scale <= left <= right <= (ox + glyph.width) * scale) by (nonlinear_arith)
        requires
            left == (ox + r.0) * scale,
            right == (ox + r.0 + r.2) * scale,
            0 <= r.0,
            0 <= r.2,
            r.0 + r.2 <= glyph.width,
            scale >= 0;
    assert(lo * scale <= bottom <= top <= hi * scale) by (nonlinear_arith)
        requires
            top == (hi - r.1) * scale,
            bottom == (hi - r.1 - r.3) * scale,
            0 <= r.1,
            0 <= r.3,
            r.1 + r.3 <= glyph.height,
            lo == hi - glyph.height,
            scale >= 0;
    let c = scale_corners(rect_corners(glyph, line_height, r), scale);
    assert(c == (left, bottom, right, top));
    let steps = outline_steps(glyph, line_height, scale);
    assert(steps[5 * k + 0] == rect_steps(c)[0]);
    assert(steps[5 * k + 1] == rect_steps(c)[1]);
    assert(steps[5 * k + 2] == rect_steps(c)[2]);
    assert(steps[5 * k + 3] == rect_steps(c)[3]);
    assert(steps[5 * k + 4] == rect_steps(c)[4]);
}

/// Contour `k` of `steps` is a box, from its move to the end of its second
/// line, that holds the box `[x0, x1] x [y0, y1]`.
pub open spec fn contour_holds_box(steps: Seq<PathStep>, k: int, x0: int, y0: int, x1: int, y1: int) -> bool {
    0 <= 5 * k + 2 < steps.len() && match (steps[5 * k], steps[5 * k + 2]) {
        (PathStep::MoveTo(a, b), PathStep::LineTo(c, d)) => a <= x0 && x1 <= c && b <= y0 && y1 <= d,
        _ => false,
    }
}

/// Law: a glyph's outline covers exactly its filled pixels. The pixel at
/// column `px` and row `py` (row 0 at the top) is filled exactly when its
/// square in font space, `[(offset_x + px) * scale, (offset_x + px + 1) * scale]`
/// across and `[(line_height - offset_y - py - 1) * scale, (line_height - offset_y - py) * scale]`
/// up, lies inside one of the outline's rectangles.
pub proof fn lemma_outline_covers_filled_pixels(
    glyph: BitmapGlyph,
    line_height: int,
    scale: int,
    cover: Seq<PixelRect>,
    px: int,
    py: int,
)
    requires
        is_merged_cover(glyph.width as u32, glyph.height as u32, glyph.pixels@, cover),
        scale >= 1,
        outline_fits(glyph, line_height, scale),
        0 <= px < glyph.width,
        0 <= py < glyph.height,
    ensures
        filled(glyph.width as u32, glyph.pixels@, px, py) <==> exists|k: int| 0 <= k < cover.len() && #[trigger] contour_holds_box(
            outline_steps(glyph, line_height, scale),
            k,
            (glyph.offset_x + px) * scale,
            (line_height - glyph.offset_y - py - 1) * scale,
            (glyph.offset_x + px + 1) * scale,
            (line_height - glyph.offset_y - py) * scale,
        ),
{
    let w = glyph.width as u32;
    let h = glyph.height as u32;
    let steps = outline_steps(glyph, line_height, scale);
    let ox = glyph.offset_x as int;
    let hi = line_height - glyph.offset_y;
    let sx0 = (ox + px) * scale;
    let sx1 = (ox + px + 1) * scale;
    let sy0 = (hi - py - 1) * scale;
    let sy1 = (hi - py) * scale;
    assert((glyph.offset_x + px) * scale == sx0 && (glyph.offset_x + px + 1) * scale == sx1);
    assert((line_height - glyph.offset_y - py - 1) * scale == sy0 && (line_height - glyph.offset_y - py) * scale == sy1);
    lemma_merged_cover_is_exact(w, h, glyph.pixels@, px, py);
    if filled(w, glyph.pixels@, px, py) {
        let r = choose|r: PixelRect| is_merged_rect(w, h, glyph.pixels@, r) && #[trigger] crate::rects::rect_contains(r, px, py);
        assert(cover.contains(r));
        let k = choose|k: int| 0 <= k < cover.len() && cover[k] == r;
        lemma_outline_rect_edges(glyph, line_height, scale, cover, k);
        assert((ox + r.0) * scale <= sx0 && sx1 <= (ox + r.0 + r.2) * scale) by (nonlinear_arith)
            requires
                sx0 == (ox + px) * scale,
                sx1 == (ox + px + 1) * scale,
                r.0 <= px < r.0 + r.2,
                scale >= 0;
        assert((hi - r.1 - r.3) * scale <= sy0 && sy1 <= (hi - r.1) * scale) by (nonlinear_arith)
            requires
                sy0 == (hi - py - 1) * scale,
                sy1 == (hi - py) * scale,
                r.1 <= py < r.1 + r.3,
                scale >= 0;
        assert(contour_holds_box(steps, k, sx0, sy0, sx1, sy1));
    }
    if exists|k: int| 0 <= k < cover.len() && #[trigger] contour_holds_box(steps, k, sx0, sy0, sx1, sy1) {
        let k = choose|k: int| 0 <= k < cover.len() && #[trigger] contour_holds_box(steps, k, sx0, sy0, sx1, sy1);
        let r = cover[k];
        lemma_outline_rect_edges(glyph, line_height, scale, cover, k);
        assert(r.0 <= px < r.0 + r.2) by (nonlinear_arith)
            requires
                (ox + r.0) * scale <= (ox + px) * scale,
                (ox + px + 1) * scale <= (ox + r.0 + r.2) * scale,
                scale >= 1;
        assert(r.1 <= py < r.1 + r.3) by (nonlinear_arith)
            requires
                (hi - r.1 - r.3) * scale <= (hi - py - 1) * scale,
                (hi - py) * scale <= (hi - r.1) * scale,
                scale >= 1;
        assert(cover.contains(r));
        assert(is_merged_rect(w, h, glyph.pixels@, r));
        assert(is_run(w, glyph.pixels@, py, r.0 as int, r.2 as int));
    }
}

/// The rectangle tops of `glyph` fit `i32` at line height `line_height` when
/// that fits `i32`: the glyph's outline is then computed without overflow.
pub open spec fn rect_tops_fit(glyph: BitmapGlyph, line_height: int) -> bool {
    line_height <= i32::MAX && glyph_cover(glyph).len() > 0 ==> line_height - glyph.offset_y <= i32::MAX
}

/// Builds the glyph for a bitmap glyph, with its bounding box and point count.
/// The `requires` leaves out the line heights whose rectangle tops overflow
/// `i32`, where the computation panics.
fn build_bitmap_glyph(glyph: &BitmapGlyph, line_height: u32, scale: u32) -> (r: Result<(SimpleGlyph, (i16, i16, i16, i16), u16), Error>)
    requires
        rect_tops_fit(*glyph, line_height as int),
    ensures
        r is Ok <==> line_height <= i32::MAX && total_points(outline_glyph(*glyph, line_height as int, scale as int).0) <= u16::MAX,
        line_height > i32::MAX ==> is_conversion_error(r, "line height to i32"@),
        line_height <= i32::MAX && r is Err ==> is_conversion_error(r, "glyph point count to u16"@),
        r matches Ok(b) ==> {
            &&& glyph_view(b.0) == outline_glyph(*glyph, line_height as int, scale as int)
            &&& b.1 == glyph_view(b.0).1
            &&& b.2 == total_points(glyph_view(b.0).0)
            &&& glyph_view(b.0).0.len() == glyph_cover(*glyph).len()
            &&& forall|c: int| 0 <= c < glyph_view(b.0).0.len() ==> #[trigger] glyph_view(b.0).0[c].len() > 0
        },
{
    let dimensions = (glyph.width as u32, glyph.height as u32);
    let offsets = (glyph.offset_x as i32, glyph.offset_y as i32);
    let mut path = new_path();
    let contours = append_glyph_rects(
        &mut path,
        glyph,
        dimensions,
        offsets,
        u32_to_i32(line_height, "line height to i32")?,
        scale,
    )?;
    let ghost steps = outline_steps(*glyph, line_height as int, scale as int);
    if contours == 0 {
        let simple = empty_glyph();
        proof {
            assert(glyph_view(simple).0.flatten() =~= Seq::<(i16, i16, bool, bool)>::empty());
        }
        return Ok((simple, (0, 0, 0, 0), 0));
    }
    let mut simple = match glyph_from_path(&path) {
        Ok(simple) => simple,
        Err(_) => return Err(Error::Conversion(String::from_str("failed to build glyph from path"))),
    };
    proof {
        lemma_count_moves_rects(*glyph, line_height as int, scale as int, glyph_cover(*glyph));
        lemma_traced_shape(steps);
    }
    let traced_box = glyph_bbox(&simple);
    if traced_box.0 == 0 && traced_box.1 == 0 && traced_box.2 == 0 && traced_box.3 == 0 {
        glyph_recompute_bbox(&mut simple);
    }
    let count = glyph_contour_count(&simple);
    let ghost contours_view = glyph_view(simple).0;
    let mut points: usize = 0;
    let mut c: usize = 0;
    while c < count
        invariant
            c <= count,
            count == contours_view.len(),
            contours_view == glyph_view(simple).0,
            points == (if total_points(contours_view.take(c as int)) < usize::MAX {
                total_points(contours_view.take(c as int))
            } else {
                usize::MAX as int
            }),
        decreases count - c,
    {
        let len = glyph_contour_len(&simple, c);
        proof {
            assert(contours_view.take(c + 1) =~= contours_view.take(c as int).push(contours_view[c as int]));
            contours_view.take(c as int).lemma_flatten_push(contours_view[c as int]);
        }
        points = points.saturating_add(len);
        c = c + 1;
    }
    proof {
        assert(contours_view.take(count as int) =~= contours_view);
    }
    let point_count = usize_to_u16(points, "glyph point count to u16")?;
    let bbox = glyph_bbox(&simple);
    Ok((simple, bbox, point_count))
}

proof fn lemma_count_moves_rects(glyph: BitmapGlyph, line_height: int, scale: int, rects: Seq<PixelRect>)
    ensures
        count_moves(rects_steps(glyph, line_height, scale, rects)) == rects.len(),
        starts_with_move(rects_steps(glyph, line_height, scale, rects)),
        rects.len() > 0 ==> rects_steps(glyph, line_height, scale, rects).len() > 0,
    decreases rects.len(),
{
    if rects.len() > 0 {
        let prev = rects_steps(glyph, line_height, scale, rects.drop_last());
        lemma_count_moves_rects(glyph, line_height, scale, rects.drop_last());
        let added = rect_steps(scale_corners(rect_corners(glyph, line_height, rects.last()), scale));
        lemma_count_moves_append(prev, added);
        assert(count_moves(added) == 1) by {
            reveal_with_fuel(count_moves, 6);
        }
        if prev.len() > 0 {
            assert((prev + added)[0] == prev[0]);
        } else {
            assert((prev + added)[0] == added[0]);
        }
    }
}

proof fn lemma_count_moves_append(a: Seq<PathStep>, b: Seq<PathStep>)
    ensures
        count_moves(a + b) == count_moves(a) + count_moves(b),
    decreases b.len(),
{
    if b.len() > 0 {
        lemma_count_moves_append(a, b.drop_last());
        assert((a + b).drop_last() =~= a + b.drop_last());
    } else {
        assert(a + b =~= a);
    }
}


/// The path of the `.notdef` glyph: a square of side `side` at the origin.
pub open spec fn notdef_steps(side: int) -> Seq<PathStep> {
    rect_steps(scale_corners((0, 0, 1, 1), side))
}

/// The `.notdef` glyph traced from its path.
pub open spec fn notdef_glyph(side: int) -> GlyphView {
    (traced_contours(notdef_steps(side)), steps_bbox(notdef_steps(side)), Seq::empty(), false)
}

/// Side of the `.notdef` square: the larger of the em size and the scale.
pub open spec fn notdef_side(units_per_em: int, scale: int) -> int {
    if units_per_em > scale {
        units_per_em
    } else {
        scale
    }
}

fn make_notdef_glyph(units: u32, scale: u32) -> (r: Result<SimpleGlyph, Error>)
    ensures
        r matches Ok(g) && glyph_view(g) == notdef_glyph(notdef_side(units as int, scale as int)),
        r matches Ok(g) && glyph_view(g).0.len() == 1 && glyph_view(g).0[0].len() > 0,
{
    let side = if units > scale { units } else { scale };
    let right = scale_coord(1, side, -0x7FFF_FFFF, 0x7FFF_FFFF);
    let top = scale_coord(1, side, -0x7FFF_FFFE, 0x7FFF_FFFF);
    let mut path = new_path();
    push_rect(&mut path, 0, 0, right, top);
    proof {
        let steps = notdef_steps(side as int);
        let sd = side as int;
        assert(0 * sd == 0 && 1 * sd == sd);
        assert(right == clamp_to(sd, -coord_limit(), coord_limit()));
        assert(top == clamp_to(sd, -(coord_limit() - 1), coord_limit()));
        assert(scale_corners((0, 0, 1, 1), sd) == (0int, 0int, right as int, top as int));
        assert(path_steps(path) =~= steps);
        assert(count_moves(steps) == 1) by {
            reveal_with_fuel(count_moves, 6);
        }
        assert forall|i: int| 0 <= i < steps.len() implies step_within(#[trigger] steps[i], coord_limit()) by {}
        lemma_traced_shape(steps);
    }
    match glyph_from_path(&path) {
        Ok(glyph) => Ok(glyph),
        Err(_) => Err(Error::Conversion(String::from_str("failed to build .notdef glyph"))),
    }
}

/// `value * factor`, or `u32::MAX` when the product does not fit.
pub open spec fn saturating_u32(value: int) -> int {
    if value > u32::MAX {
        u32::MAX as int
    } else {
        value
    }
}

/// `value` clamped to the range of `i32`.
pub open spec fn clamp_i32(value: int) -> int {
    if value < i32::MIN {
        i32::MIN as int
    } else if value > i32::MAX {
        i32::MAX as int
    } else {
        value
    }
}

/// Advance width of a glyph in font units: its own advance, or its width plus
/// one pixel, times the scale (saturating), and never less than one pixel.
pub open spec fn glyph_advance(glyph: BitmapGlyph, scale: int) -> int {
    let advance = match glyph.advance_width {
        Some(a) => a as int,
        None => if glyph.width < u16::MAX {
            glyph.width + 1
        } else {
            u16::MAX as int
        },
    };
    let scaled = saturating_u32(advance * scale);
    if scaled > scale {
        scaled
    } else {
        scale
    }
}

/// Left side bearing of a glyph in font units: its horizontal offset times the
/// scale, saturating at the range of `i32`.
pub open spec fn glyph_lsb(glyph: BitmapGlyph, scale: int) -> int {
    clamp_i32(glyph.offset_x * scale)
}

/// The glyphs that the character map can hold: codepoints up to `U+FFFF`.
pub open spec fn is_mapped(glyph: BitmapGlyph) -> bool {
    glyph.codepoint <= 0xFFFF
}

/// The glyphs of the font after `.notdef`, in input order.
pub open spec fn mapped_glyphs(glyphs: Seq<BitmapGlyph>) -> Seq<BitmapGlyph> {
    glyphs.filter(|g: BitmapGlyph| is_mapped(g))
}

/// The glyph name `uXXXX` of a codepoint up to `U+FFFF`, in uppercase hex.
pub open spec fn glyph_name(code: int) -> Seq<char> {
    seq!['u', hex_digit(code / 4096 % 16), hex_digit(code / 256 % 16), hex_digit(code / 16 % 16), hex_digit(code % 16)]
}

/// The `(char, glyph id)` mappings of the glyphs `m`, the i-th having glyph id
/// `base + i`: one for each glyph whose codepoint is not zero and is a character.
pub open spec fn char_mappings_from(m: Seq<BitmapGlyph>, base: int) -> Seq<(char, u16)>
    decreases m.len(),
{
    if m.len() == 0 {
        Seq::empty()
    } else {
        let code = m.last().codepoint;
        let rest = char_mappings_from(m.drop_last(), base);
        if code != 0 && !(0xD800 <= code <= 0xDFFF) {
            rest.push((code as char, (base + m.len() - 1) as u16))
        } else {
            rest
        }
    }
}

/// The `(char, glyph id)` mappings of the glyphs `m`, the i-th having glyph id
/// `i + 1` (after `.notdef`).
pub open spec fn char_mappings(m: Seq<BitmapGlyph>) -> Seq<(char, u16)> {
    char_mappings_from(m, 1)
}

/// `new` is `old` with the glyphs `m` added after it, the first of them
/// getting glyph id `base`: their names, character map entries and mappings,
/// metrics, boxes and maxima.
pub open spec fn extends_data(old: GlyphBuildData, new: GlyphBuildData, m: Seq<BitmapGlyph>, base: int, line_height: int, scale: int) -> bool {
    &&& new.glyph_names@.len() == old.glyph_names@.len() + m.len()
    &&& forall|i: int| 0 <= i < old.glyph_names@.len() ==> #[trigger] new.glyph_names@[i] == old.glyph_names@[i]
    &&& forall|k: int| 0 <= k < m.len() ==> (#[trigger] new.glyph_names@[old.glyph_names@.len() + k])@ == glyph_name(m[k].codepoint as int)
    &&& new.cmap_entries@.len() == old.cmap_entries@.len() + m.len()
    &&& forall|i: int| 0 <= i < old.cmap_entries@.len() ==> #[trigger] new.cmap_entries@[i] == old.cmap_entries@[i]
    &&& forall|k: int| 0 <= k < m.len() ==> #[trigger] new.cmap_entries@[old.cmap_entries@.len() + k] == (m[k].codepoint as u16, (base + k) as u16)
    &&& new.cmap_mappings@ == old.cmap_mappings@ + char_mappings_from(m, base)
    &&& new.glyph_metrics@ == old.glyph_metrics@ + m.map_values(
        |g: BitmapGlyph| (glyph_advance(g, scale) as u32, glyph_lsb(g, scale) as i16),
    )
    &&& new.glyph_bboxes@ == old.glyph_bboxes@ + m.map_values(|g: BitmapGlyph| outline_glyph(g, line_height, scale).1)
    &&& new.max_points == (if max_point_count(m, line_height, scale) > old.max_points {
        max_point_count(m, line_height, scale)
    } else {
        old.max_points as int
    })
    &&& new.max_contours == (if max_contour_count(m) > old.max_contours {
        max_contour_count(m)
    } else {
        old.max_contours as int
    })
}

/// The largest point count among the glyphs `m`, or zero.
pub open spec fn max_point_count(m: Seq<BitmapGlyph>, line_height: int, scale: int) -> int
    decreases m.len(),
{
    if m.len() == 0 {
        0
    } else {
        let rest = max_point_count(m.drop_last(), line_height, scale);
        let here = total_points(outline_glyph(m.last(), line_height, scale).0);
        if here > rest {
            here
        } else {
            rest
        }
    }
}

/// The largest contour count among the glyphs `m`, or zero.
pub open spec fn max_contour_count(m: Seq<BitmapGlyph>) -> int
    decreases m.len(),
{
    if m.len() == 0 {
        0
    } else {
        let rest = max_contour_count(m.drop_last());
        let here = glyph_cover(m.last()).len() as int;
        if here > rest {
            here
        } else {
            rest
        }
    }
}

/// A glyph that the glyf table can hold: fewer than 32767 contours and point
/// coordinates that change by no more than an `i16` from one point to the next.
pub open spec fn fits_glyf(view: GlyphView) -> bool {
    view.0.len() < 32767 && deltas_fit(view.0)
}

/// The mapped glyph `glyph` with glyph id `id` converts: the id fits a `u16`,
/// the line height fits `i32`, and its point count, left side bearing and
/// outline fit the font's fields.
pub open spec fn glyph_converts(glyph: BitmapGlyph, id: int, line_height: int, scale: int) -> bool {
    let view = outline_glyph(glyph, line_height, scale);
    &&& id <= u16::MAX
    &&& line_height <= i32::MAX
    &&& total_points(view.0) <= u16::MAX
    &&& i16::MIN <= glyph_lsb(glyph, scale) <= i16::MAX
    &&& fits_glyf(view)
}

/// Per-glyph data collected while the glyf table is built.
pub struct GlyphBuildData {
    /// `(advance width, left side bearing)` per glyph, in font units.
    pub glyph_metrics: Vec<(u32, i16)>,
    pub glyph_names: Vec<String>,
    /// `(codepoint, glyph id)` per mapped glyph.
    pub cmap_entries: Vec<(u16, u16)>,
    /// `(character, glyph id)` per glyph that the cmap table maps.
    pub cmap_mappings: Vec<(char, u16)>,
    /// `(x_min, y_min, x_max, y_max)` per glyph.
    pub glyph_bboxes: Vec<(i16, i16, i16, i16)>,
    pub max_points: u16,
    pub max_contours: u16,
}

/// The names and character map entries of `data` are those of `.notdef`
/// followed by the glyphs `m`.
pub open spec fn describes_names(data: GlyphBuildData, m: Seq<BitmapGlyph>) -> bool {
    &&& data.glyph_names@.len() == m.len() + 1
    &&& data.glyph_names@[0]@ == ".notdef"@
    &&& forall|k: int| 0 <= k < m.len() ==> (#[trigger] data.glyph_names@[k + 1])@ == glyph_name(m[k].codepoint as int)
    &&& data.cmap_entries@.len() == m.len()
    &&& forall|k: int| 0 <= k < m.len() ==> #[trigger] data.cmap_entries@[k] == (m[k].codepoint as u16, (k + 1) as u16)
    &&& data.cmap_mappings@ == char_mappings(m)
}

/// The metrics, boxes and maxima of `data` are those of `.notdef` (glyph
/// `notdef`, advance `notdef_advance`) followed by the glyphs `m`.
pub open spec fn describes_outlines(
    data: GlyphBuildData,
    notdef: GlyphView,
    notdef_advance: int,
    m: Seq<BitmapGlyph>,
    line_height: int,
    scale: int,
) -> bool {
    &&& data.glyph_metrics@.len() == m.len() + 1
    &&& data.glyph_metrics@[0] == (notdef_advance as u32, 0i16)
    &&& forall|k: int| 0 <= k < m.len() ==> #[trigger] data.glyph_metrics@[k + 1] == (
        glyph_advance(m[k], scale) as u32,
        glyph_lsb(m[k], scale) as i16,
    )
    &&& data.glyph_bboxes@.len() == m.len() + 1
    &&& data.glyph_bboxes@[0] == notdef.1
    &&& forall|k: int| 0 <= k < m.len() ==> #[trigger] data.glyph_bboxes@[k + 1] == outline_glyph(m[k], line_height, scale).1
    &&& data.max_points == max_point_count(m, line_height, scale)
    &&& data.max_contours == max_contour_count(m)
}

/// `data` describes `.notdef` followed by the glyphs `m`.
pub open spec fn describes(
    data: GlyphBuildData,
    notdef: GlyphView,
    notdef_advance: int,
    m: Seq<BitmapGlyph>,
    line_height: int,
    scale: int,
) -> bool {
    describes_names(data, m) && describes_outlines(data, notdef, notdef_advance, m, line_height, scale)
}

/// The glyphs of a glyf/loca builder that holds `.notdef` followed by the glyphs `m`.
pub open spec fn built_glyphs(notdef: GlyphView, m: Seq<BitmapGlyph>, line_height: int, scale: int) -> Seq<GlyphView> {
    seq![notdef] + m.map_values(|g: BitmapGlyph| outline_glyph(g, line_height, scale))
}

/// Em size in font units: line height times scale, saturating at `u32::MAX`.
pub open spec fn units_per_em_of(line_height: int, scale: int) -> int {
    saturating_u32(line_height * scale)
}

/// Whether the glyph can be added to the glyf table.
fn glyph_fits_glyf(glyph: &SimpleGlyph) -> (fits: bool)
    ensures
        fits == fits_glyf(glyph_view(*glyph)),
{
    let count = glyph_contour_count(glyph);
    if count >= 32767 {
        return false;
    }
    let ghost contours = glyph_view(*glyph).0;
    let mut prev: (i16, i16) = (0, 0);
    let mut c: usize = 0;
    proof {
        reveal(point_deltas_fit);
        assert(contours.take(0) =~= Seq::<Seq<(i16, i16, bool, bool)>>::empty());
    }
    while c < count
        invariant
            c <= count,
            count == contours.len(),
            contours == glyph_view(*glyph).0,
            point_deltas_fit(contours.take(c as int).flatten()),
            ends_at(contours.take(c as int).flatten(), prev),
        decreases count - c,
    {
        let ghost done = contours.take(c as int).flatten();
        proof {
            assert(contours.take(c + 1) =~= contours.take(c as int).push(contours[c as int]));
            contours.take(c as int).lemma_flatten_push(contours[c as int]);
        }
        match contour_deltas_fit(glyph, c, prev, Ghost(done)) {
            Some(last) => {
                prev = last;
            },
            None => {
                proof {
                    reveal(point_deltas_fit);
                    lemma_flatten_prefix(contours, c + 1);
                    let part = contours.take(c + 1).flatten();
                    let whole = contours.flatten();
                    let i = choose|i: int| 0 <= i < part.len() && !({
                        &&& i16::MIN <= (#[trigger] part[i]).0 - previous_point(part, i).0 <= i16::MAX
                        &&& i16::MIN <= part[i].1 - previous_point(part, i).1 <= i16::MAX
                    });
                    assert(whole[i] == part[i]);
                    if i > 0 {
                        assert(whole[i - 1] == part[i - 1]);
                    }
                    assert(previous_point(whole, i) == previous_point(part, i));
                }
                return false;
            },
        }
        c = c + 1;
    }
    proof {
        assert(contours.take(count as int) =~= contours);
    }
    true
}

/// The last point of `points` has coordinates `p`, or there are no points and `p` is the origin.
pub open spec fn ends_at(points: Seq<(i16, i16, bool, bool)>, p: (i16, i16)) -> bool {
    &&& points.len() == 0 ==> p == (0i16, 0i16)
    &&& points.len() > 0 ==> p.0 == points.last().0 && p.1 == points.last().1
}

#[verifier::rlimit(100)]
/// Checks the point deltas of contour `c`, following the points `done` that end at `prev`;
/// gives the last point when they fit.
fn contour_deltas_fit(glyph: &SimpleGlyph, c: usize, prev: (i16, i16), Ghost(done): Ghost<Seq<(i16, i16, bool, bool)>>) -> (r: Option<(i16, i16)>)
    requires
        c < glyph_view(*glyph).0.len(),
        point_deltas_fit(done),
        ends_at(done, prev),
    ensures
        r is Some <==> point_deltas_fit(done + glyph_view(*glyph).0[c as int]),
        r matches Some(last) ==> ends_at(done + glyph_view(*glyph).0[c as int], last),
{
    let ghost current = glyph_view(*glyph).0[c as int];
    let coords = glyph_contour_coords(glyph, c);
    let mut last = prev;
    let mut j: usize = 0;
    proof {
        assert(done + current.take(0) =~= done);
    }
    while j < coords.len()
        invariant
            j <= coords@.len(),
            c < glyph_view(*glyph).0.len(),
            current == glyph_view(*glyph).0[c as int],
            coords@.len() == current.len(),
            forall|i: int| 0 <= i < coords@.len() ==> #[trigger] coords@[i].0 == current[i].0 && coords@[i].1 == current[i].1,
            point_deltas_fit(done + current.take(j as int)),
            ends_at(done + current.take(j as int), last),
        decreases coords@.len() - j,
    {
        let p = coords[j];
        let dx = p.0 as i32 - last.0 as i32;
        let dy = p.1 as i32 - last.1 as i32;
        let ghost seen = done + current.take(j as int);
        proof {
            assert(done + current.take(j + 1) =~= seen.push(current[j as int]));
        }
        if dx < -32768 || dx > 32767 || dy < -32768 || dy > 32767 {
            proof {
                lemma_delta_breaks(done, current, j as int, last, (p.0 as int, p.1 as int));
            }
            return None;
        }
        proof {
            lemma_delta_extends(seen, current[j as int], last);
        }
        last = p;
        j = j + 1;
    }
    proof {
        assert(current.take(coords@.len() as int) =~= current);
    }
    Some(last)
}

/// A point whose step from `last`, the end of `done` and the first `j` points
/// of `current`, leaves the `i16` range spoils all of `done + current`.
proof fn lemma_delta_breaks(
    done: Seq<(i16, i16, bool, bool)>,
    current: Seq<(i16, i16, bool, bool)>,
    j: int,
    last: (i16, i16),
    p: (int, int),
)
    requires
        0 <= j < current.len(),
        ends_at(done + current.take(j), last),
        p == (current[j].0 as int, current[j].1 as int),
        !(i16::MIN <= p.0 - last.0 <= i16::MAX && i16::MIN <= p.1 - last.1 <= i16::MAX),
    ensures
        !point_deltas_fit(done + current),
{
    reveal(point_deltas_fit);
    let seen = done + current.take(j);
    let whole = done + current;
    let i = seen.len() as int;
    assert(whole[i] == current[j]);
    if i > 0 {
        assert(whole[i - 1] == seen[i - 1]);
    }
    assert(previous_point(whole, i) == (last.0 as int, last.1 as int));
    assert(!(i16::MIN <= whole[i].0 - previous_point(whole, i).0 <= i16::MAX
        && i16::MIN <= whole[i].1 - previous_point(whole, i).1 <= i16::MAX));
}

/// A point whose step from `last`, the end of `seen`, fits keeps the deltas fitting.
proof fn lemma_delta_extends(seen: Seq<(i16, i16, bool, bool)>, q: (i16, i16, bool, bool), last: (i16, i16))
    requires
        point_deltas_fit(seen),
        ends_at(seen, last),
        i16::MIN <= q.0 - last.0 <= i16::MAX,
        i16::MIN <= q.1 - last.1 <= i16::MAX,
    ensures
        point_deltas_fit(seen.push(q)),
        ends_at(seen.push(q), (q.0, q.1)),
{
    reveal(point_deltas_fit);
    let next = seen.push(q);
    assert(previous_point(next, seen.len() as int) == (last.0 as int, last.1 as int));
    assert forall|i: int| 0 <= i < next.len() implies {
        &&& i16::MIN <= (#[trigger] next[i]).0 - previous_point(next, i).0 <= i16::MAX
        &&& i16::MIN <= next[i].1 - previous_point(next, i).1 <= i16::MAX
    } by {
        if i < seen.len() {
            assert(next[i] == seen[i]);
            assert(previous_point(next, i) == previous_point(seen, i));
        }
    }
}

/// The points of the first `c` contours come first among the points of all contours.
proof fn lemma_flatten_prefix(contours: Seq<Seq<(i16, i16, bool, bool)>>, c: int)
    requires
        0 <= c <= contours.len(),
    ensures
        contours.take(c).flatten().len() <= contours.flatten().len(),
        forall|i: int| 0 <= i < contours.take(c).flatten().len() ==> #[trigger] contours.take(c).flatten()[i] == contours.flatten()[i],
    decreases contours.len() - c,
{
    if c < contours.len() {
        lemma_flatten_prefix(contours, c + 1);
        assert(contours.take(c + 1) =~= contours.take(c).push(contours[c]));
        contours.take(c).lemma_flatten_push(contours[c]);
        let part = contours.take(c).flatten();
        let next = contours.take(c + 1).flatten();
        assert forall|i: int| 0 <= i < part.len() implies #[trigger] part[i] == contours.flatten()[i] by {
            assert(next[i] == part[i]);
        }
    } else {
        assert(contours.take(c) =~= contours);
    }
}


/// The number of points of all contours of a glyph, saturating at `usize::MAX`.
fn glyph_point_total(glyph: &SimpleGlyph) -> (points: usize)
    ensures
        points == (if total_points(glyph_view(*glyph).0) < usize::MAX {
            total_points(glyph_view(*glyph).0)
        } else {
            usize::MAX as int
        }),
{
    let count = glyph_contour_count(glyph);
    let ghost contours_view = glyph_view(*glyph).0;
    let mut points: usize = 0;
    let mut c: usize = 0;
    while c < count
        invariant
            c <= count,
            count == contours_view.len(),
            contours_view == glyph_view(*glyph).0,
            points == (if total_points(contours_view.take(c as int)) < usize::MAX {
                total_points(contours_view.take(c as int))
            } else {
                usize::MAX as int
            }),
        decreases count - c,
    {
        let len = glyph_contour_len(glyph, c);
        proof {
            assert(contours_view.take(c + 1) =~= contours_view.take(c as int).push(contours_view[c as int]));
            contours_view.take(c as int).lemma_flatten_push(contours_view[c as int]);
        }
        points = points.saturating_add(len);
        c = c + 1;
    }
    proof {
        assert(contours_view.take(count as int) =~= contours_view);
    }
    points
}

/// With no empty contour, there are at least as many points as contours.
proof fn lemma_points_at_least_contours(contours: Seq<Seq<(i16, i16, bool, bool)>>)
    requires
        forall|c: int| 0 <= c < contours.len() ==> #[trigger] contours[c].len() > 0,
    ensures
        total_points(contours) >= contours.len(),
    decreases contours.len(),
{
    if contours.len() > 0 {
        let rest = contours.drop_last();
        assert forall|c: int| 0 <= c < rest.len() implies #[trigger] rest[c].len() > 0 by {
            assert(rest[c] == contours[c]);
        }
        lemma_points_at_least_contours(rest);
        assert(rest.push(contours.last()) =~= contours);
        rest.lemma_flatten_push(contours.last());
    }
}

/// Starts the per-glyph data with `.notdef`, a square of the em size (or of
/// the scale, if larger), and adds its outline to the glyf table.
pub(crate) fn init_glyph_data(line_height: u32, scale: u32, glyf_builder: &mut GlyfLocaBuilder) -> (r: Result<GlyphBuildData, Error>)
    requires
        glyf_glyphs(*old(glyf_builder)) == Seq::<GlyphView>::empty(),
    ensures
        ({
            let units = units_per_em_of(line_height as int, scale as int);
            let notdef = notdef_glyph(notdef_side(units, scale as int));
            &&& r is Ok <==> total_points(notdef.0) <= u16::MAX && fits_glyf(notdef)
            &&& (r is Err ==> r matches Err(Error::Conversion(_)))
            &&& (r matches Ok(data) ==> describes(data, notdef, units, Seq::empty(), line_height as int, scale as int))
            &&& r is Ok ==> glyf_glyphs(*final(glyf_builder)) == seq![notdef]
        }),
{
    let units = match line_height.checked_mul(scale) {
        Some(product) => product,
        None => u32::MAX,
    };
    let notdef = make_notdef_glyph(units, scale)?;
    let points = glyph_point_total(&notdef);
    if points > 65535 || !glyph_fits_glyf(&notdef) {
        return Err(Error::Conversion(String::from_str("glyph does not fit the glyf table")));
    }
    if let Err(message) = glyf_add_glyph(glyf_builder, &notdef) {
        return Err(Error::Conversion(message));
    }
    let mut glyph_metrics: Vec<(u32, i16)> = Vec::new();
    glyph_metrics.push((units, 0));
    let mut glyph_names: Vec<String> = Vec::new();
    glyph_names.push(String::from_str(".notdef"));
    let mut glyph_bboxes: Vec<(i16, i16, i16, i16)> = Vec::new();
    glyph_bboxes.push(glyph_bbox(&notdef));
    let data = GlyphBuildData {
        glyph_metrics,
        glyph_names,
        cmap_entries: Vec::new(),
        cmap_mappings: Vec::new(),
        glyph_bboxes,
        max_points: 0,
        max_contours: 0,
    };
    proof {
        assert(char_mappings(Seq::<BitmapGlyph>::empty()) =~= data.cmap_mappings@);
    }
    Ok(data)
}

/// The `uXXXX` name of a codepoint up to `U+FFFF`.
fn glyph_name_string(code: u32) -> (name: String)
    requires
        code <= 0xFFFF,
    ensures
        name@ == glyph_name(code as int),
{
    let mut chars: Vec<char> = Vec::new();
    chars.push('u');
    chars.push(hex_digit_char(code / 4096 % 16));
    chars.push(hex_digit_char(code / 256 % 16));
    chars.push(hex_digit_char(code / 16 % 16));
    chars.push(hex_digit_char(code % 16));
    let name = string_from_chars(&chars);
    proof {
        assert(chars@ =~= glyph_name(code as int));
    }
    name
}

/// The glyphs up to `i` that are mapped come first among all mapped glyphs.
proof fn lemma_mapped_prefix(glyphs: Seq<BitmapGlyph>, i: int)
    requires
        0 <= i <= glyphs.len(),
    ensures
        mapped_glyphs(glyphs.take(i)).len() <= mapped_glyphs(glyphs).len(),
        forall|k: int| 0 <= k < mapped_glyphs(glyphs.take(i)).len() ==> #[trigger] mapped_glyphs(glyphs.take(i))[k] == mapped_glyphs(glyphs)[k],
    decreases glyphs.len() - i,
{
    if i < glyphs.len() {
        lemma_mapped_prefix(glyphs, i + 1);
        lemma_mapped_step(glyphs, i);
        let part = mapped_glyphs(glyphs.take(i));
        let next = mapped_glyphs(glyphs.take(i + 1));
        assert forall|k: int| 0 <= k < part.len() implies #[trigger] part[k] == mapped_glyphs(glyphs)[k] by {
            assert(next[k] == part[k]);
        }
    } else {
        assert(glyphs.take(i) =~= glyphs);
    }
}

/// Taking one more glyph adds it to the mapped glyphs exactly when it is mapped.
proof fn lemma_mapped_step(glyphs: Seq<BitmapGlyph>, i: int)
    requires
        0 <= i < glyphs.len(),
    ensures
        mapped_glyphs(glyphs.take(i + 1)) == (if is_mapped(glyphs[i]) {
            mapped_glyphs(glyphs.take(i)).push(glyphs[i])
        } else {
            mapped_glyphs(glyphs.take(i))
        }),
{
    assert(glyphs.take(i + 1).drop_last() =~= glyphs.take(i));
    assert(glyphs.take(i + 1).last() == glyphs[i]);
    reveal_with_fuel(Seq::filter, 1);
}

/// Adds the mapped glyphs, in order, after the glyphs already in `data`: their
/// names, character map entries, outlines and metrics. The first gets the glyph
/// id that is the number of names already in `data`.
pub(crate) fn append_bitmap_glyphs(
    glyphs: &[BitmapGlyph],
    line_height: u32,
    scale: u32,
    glyf_builder: &mut GlyfLocaBuilder,
    data: &mut GlyphBuildData,
) -> (r: Result<(), Error>)
    requires
        forall|k: int| 0 <= k < mapped_glyphs(glyphs@).len() ==> rect_tops_fit(#[trigger] mapped_glyphs(glyphs@)[k], line_height as int),
    ensures
        ({
            let m = mapped_glyphs(glyphs@);
            let base = old(data).glyph_names@.len() as int;
            &&& r is Ok <==> scale <= i32::MAX && forall|k: int| 0 <= k < m.len() ==> glyph_converts(
                #[trigger] m[k],
                base + k,
                line_height as int,
                scale as int,
            )
            &&& (r is Err ==> r matches Err(Error::Conversion(_)))
            &&& r is Ok ==> extends_data(*old(data), *final(data), m, base, line_height as int, scale as int)
            &&& r is Ok ==> glyf_glyphs(*final(glyf_builder)) == glyf_glyphs(*old(glyf_builder)) + m.map_values(
                |g: BitmapGlyph| outline_glyph(g, line_height as int, scale as int),
            )
        }),
{
    let scale_i32 = u32_to_i32(scale, "scale to i32")?;
    let ghost lh = line_height as int;
    let ghost sc = scale as int;
    let ghost start = *data;
    let ghost start_glyphs = glyf_glyphs(*glyf_builder);
    let ghost base = data.glyph_names@.len() as int;
    let mut i: usize = 0;
    proof {
        assert(glyphs@.take(0) =~= Seq::<BitmapGlyph>::empty());
        assert(mapped_glyphs(Seq::<BitmapGlyph>::empty()) =~= Seq::<BitmapGlyph>::empty()) by {
            reveal_with_fuel(Seq::filter, 1);
        }
        let e = Seq::<BitmapGlyph>::empty();
        assert(start.cmap_mappings@ + char_mappings_from(e, base) =~= start.cmap_mappings@);
        assert(start.glyph_metrics@ + e.map_values(|g: BitmapGlyph| (glyph_advance(g, sc) as u32, glyph_lsb(g, sc) as i16)) =~= start.glyph_metrics@);
        assert(start.glyph_bboxes@ + e.map_values(|g: BitmapGlyph| outline_glyph(g, lh, sc).1) =~= start.glyph_bboxes@);
        assert(start_glyphs + e.map_values(|g: BitmapGlyph| outline_glyph(g, lh, sc)) =~= start_glyphs);
        assert(extends_data(start, *data, e, base, lh, sc));
    }
    while i < glyphs.len()
        invariant
            i <= glyphs@.len(),
            forall|k: int| 0 <= k < mapped_glyphs(glyphs@).len() ==> rect_tops_fit(#[trigger] mapped_glyphs(glyphs@)[k], line_height as int),
            lh == line_height as int,
            sc == scale as int,
            scale_i32 == scale,
            base == start.glyph_names@.len(),
            start == *old(data),
            start_glyphs == glyf_glyphs(*old(glyf_builder)),
            extends_data(start, *data, mapped_glyphs(glyphs@.take(i as int)), base, lh, sc),
            glyf_glyphs(*glyf_builder) == start_glyphs + mapped_glyphs(glyphs@.take(i as int)).map_values(
                |g: BitmapGlyph| outline_glyph(g, lh, sc),
            ),
            forall|k: int| 0 <= k < mapped_glyphs(glyphs@.take(i as int)).len() ==> glyph_converts(
                #[trigger] mapped_glyphs(glyphs@.take(i as int))[k],
                base + k,
                lh,
                sc,
            ),
        decreases glyphs@.len() - i,
    {
        let glyph = &glyphs[i];
        let ghost m = mapped_glyphs(glyphs@.take(i as int));
        proof {
            lemma_mapped_step(glyphs@, i as int);
        }
        if glyph.codepoint > 0xFFFF {
            i = i + 1;
            continue;
        }
        let ghost m2 = m.push(*glyph);
        let glyph_id = match usize_to_u16(data.glyph_names.len(), "glyph id to u16") {
            Ok(id) => id,
            Err(e) => {
                proof {
                    lemma_mapped_prefix(glyphs@, i + 1);
                    assert(mapped_glyphs(glyphs@.take(i + 1))[m.len() as int] == *glyph);
                    assert(!glyph_converts(mapped_glyphs(glyphs@)[m.len() as int], base + m.len(), lh, sc));
                }
                return Err(e);
            },
        };
        let code = u32_to_u16(glyph.codepoint, "codepoint to u16")?;
        let ghost before_names = *data;
        data.cmap_entries.push((code, glyph_id));
        if glyph.codepoint != 0 {
            if let Some(character) = char_from_u32(glyph.codepoint) {
                data.cmap_mappings.push((character, glyph_id));
            }
        }
        data.glyph_names.push(glyph_name_string(glyph.codepoint));
        let ghost before = *data;
        let ghost glyphs_before = glyf_glyphs(*glyf_builder);
        proof {
            lemma_mapped_prefix(glyphs@, i + 1);
            assert(mapped_glyphs(glyphs@.take(i + 1))[m.len() as int] == *glyph);
            assert(rect_tops_fit(mapped_glyphs(glyphs@)[m.len() as int], lh));
        }
        match append_bitmap_glyph(glyph, line_height, scale, glyf_builder, data, scale_i32) {
            Ok(()) => {},
            Err(e) => {
                proof {
                    lemma_mapped_prefix(glyphs@, i + 1);
                    assert(mapped_glyphs(glyphs@.take(i + 1))[m.len() as int] == *glyph);
                    assert(!glyph_converts(mapped_glyphs(glyphs@)[m.len() as int], base + m.len(), lh, sc));
                }
                return Err(e);
            },
        }
        proof {
            assert(m2.drop_last() =~= m);
            assert(m2.last() == *glyph);
            lemma_extends_step(start, before_names, *data, m, *glyph, base, lh, sc);
            assert(glyf_glyphs(*glyf_builder) =~= start_glyphs + m2.map_values(|g: BitmapGlyph| outline_glyph(g, lh, sc)));
            assert forall|k: int| 0 <= k < m2.len() implies glyph_converts(#[trigger] m2[k], base + k, lh, sc) by {
                if k < m.len() {
                    assert(m2[k] == m[k]);
                }
            }
        }
        i = i + 1;
    }
    proof {
        assert(glyphs@.take(glyphs@.len() as int) =~= glyphs@);
    }
    Ok(())
}

/// The largest point and contour counts are never negative.
proof fn lemma_max_counts_nonneg(m: Seq<BitmapGlyph>, line_height: int, scale: int)
    ensures
        max_point_count(m, line_height, scale) >= 0,
        max_contour_count(m) >= 0,
    decreases m.len(),
{
    if m.len() > 0 {
        lemma_max_counts_nonneg(m.drop_last(), line_height, scale);
    }
}

/// Data that describe `.notdef` alone, extended by the glyphs `m` from glyph
/// id 1, describe `.notdef` followed by `m`.
pub(crate) proof fn lemma_extends_describes(
    start: GlyphBuildData,
    new: GlyphBuildData,
    notdef: GlyphView,
    notdef_advance: int,
    m: Seq<BitmapGlyph>,
    line_height: int,
    scale: int,
)
    requires
        describes(start, notdef, notdef_advance, Seq::empty(), line_height, scale),
        extends_data(start, new, m, 1, line_height, scale),
    ensures
        describes(new, notdef, notdef_advance, m, line_height, scale),
{
    lemma_max_counts_nonneg(m, line_height, scale);
    assert(new.glyph_names@[0] == start.glyph_names@[0]);
    assert forall|k: int| 0 <= k < m.len() implies (#[trigger] new.glyph_names@[k + 1])@ == glyph_name(m[k].codepoint as int) by {
        assert(new.glyph_names@[1 + k] == new.glyph_names@[k + 1]);
    }
    assert forall|k: int| 0 <= k < m.len() implies #[trigger] new.cmap_entries@[k] == (m[k].codepoint as u16, (k + 1) as u16) by {
        assert(new.cmap_entries@[0 + k] == new.cmap_entries@[k]);
    }
    assert(new.cmap_mappings@ =~= char_mappings(m));
    assert(new.glyph_metrics@[0] == start.glyph_metrics@[0]);
    assert forall|k: int| 0 <= k < m.len() implies #[trigger] new.glyph_metrics@[k + 1] == (
        glyph_advance(m[k], scale) as u32,
        glyph_lsb(m[k], scale) as i16,
    ) by {}
    assert(new.glyph_bboxes@[0] == start.glyph_bboxes@[0]);
    assert forall|k: int| 0 <= k < m.len() implies #[trigger] new.glyph_bboxes@[k + 1] == outline_glyph(m[k], line_height, scale).1 by {}
}

/// Adding one more glyph `g` with glyph id `base + m.len()` after the glyphs
/// `m` extends the data by `m.push(g)`.
proof fn lemma_extends_step(
    start: GlyphBuildData,
    prev: GlyphBuildData,
    new: GlyphBuildData,
    m: Seq<BitmapGlyph>,
    g: BitmapGlyph,
    base: int,
    line_height: int,
    scale: int,
)
    requires
        extends_data(start, prev, m, base, line_height, scale),
        base == start.glyph_names@.len(),
        new.glyph_names@.len() == prev.glyph_names@.len() + 1,
        forall|i: int| 0 <= i < prev.glyph_names@.len() ==> #[trigger] new.glyph_names@[i] == prev.glyph_names@[i],
        new.glyph_names@[prev.glyph_names@.len() as int]@ == glyph_name(g.codepoint as int),
        new.cmap_entries@ == prev.cmap_entries@.push((g.codepoint as u16, (base + m.len()) as u16)),
        new.cmap_mappings@ == (if g.codepoint != 0 && !(0xD800 <= g.codepoint <= 0xDFFF) {
            prev.cmap_mappings@.push((g.codepoint as char, (base + m.len()) as u16))
        } else {
            prev.cmap_mappings@
        }),
        new.glyph_metrics@ == prev.glyph_metrics@.push((glyph_advance(g, scale) as u32, glyph_lsb(g, scale) as i16)),
        new.glyph_bboxes@ == prev.glyph_bboxes@.push(outline_glyph(g, line_height, scale).1),
        new.max_points == (if total_points(outline_glyph(g, line_height, scale).0) > prev.max_points {
            total_points(outline_glyph(g, line_height, scale).0)
        } else {
            prev.max_points as int
        }),
        new.max_contours == (if glyph_cover(g).len() > prev.max_contours {
            glyph_cover(g).len() as int
        } else {
            prev.max_contours as int
        }),
    ensures
        extends_data(start, new, m.push(g), base, line_height, scale),
{
    let m2 = m.push(g);
    assert(m2.drop_last() =~= m);
    assert(m2.last() == g);
    let on = start.glyph_names@.len();
    assert forall|k: int| 0 <= k < m2.len() implies (#[trigger] new.glyph_names@[on + k])@ == glyph_name(m2[k].codepoint as int) by {
        if k < m.len() {
            assert(m2[k] == m[k]);
            assert(new.glyph_names@[on + k] == prev.glyph_names@[on + k]);
        }
    }
    let oc = start.cmap_entries@.len();
    assert forall|k: int| 0 <= k < m2.len() implies #[trigger] new.cmap_entries@[oc + k] == (m2[k].codepoint as u16, (base + k) as u16) by {
        if k < m.len() {
            assert(m2[k] == m[k]);
            assert(new.cmap_entries@[oc + k] == prev.cmap_entries@[oc + k]);
        }
    }
    assert forall|i: int| 0 <= i < start.cmap_entries@.len() implies #[trigger] new.cmap_entries@[i] == start.cmap_entries@[i] by {
        assert(new.cmap_entries@[i] == prev.cmap_entries@[i]);
    }
    assert(new.cmap_mappings@ =~= start.cmap_mappings@ + char_mappings_from(m2, base));
    assert(new.glyph_metrics@ =~= start.glyph_metrics@ + m2.map_values(
        |g: BitmapGlyph| (glyph_advance(g, scale) as u32, glyph_lsb(g, scale) as i16),
    ));
    assert(new.glyph_bboxes@ =~= start.glyph_bboxes@ + m2.map_values(|g: BitmapGlyph| outline_glyph(g, line_height, scale).1));
}

/// Adds one mapped glyph's outline to the glyf table, and its box, maxima and
/// metrics to `data`.
fn append_bitmap_glyph(
    glyph: &BitmapGlyph,
    line_height: u32,
    scale: u32,
    glyf_builder: &mut GlyfLocaBuilder,
    data: &mut GlyphBuildData,
    scale_i32: i32,
) -> (r: Result<(), Error>)
    requires
        rect_tops_fit(*glyph, line_height as int),
        scale_i32 == scale,
    ensures
        r is Ok <==> ({
            let view = outline_glyph(*glyph, line_height as int, scale as int);
            &&& line_height <= i32::MAX
            &&& total_points(view.0) <= u16::MAX
            &&& i16::MIN <= glyph_lsb(*glyph, scale as int) <= i16::MAX
            &&& fits_glyf(view)
        }),
        r is Err ==> r matches Err(Error::Conversion(_)),
        r is Ok ==> ({
            let view = outline_glyph(*glyph, line_height as int, scale as int);
            &&& final(data).glyph_metrics@ == old(data).glyph_metrics@.push(
                (glyph_advance(*glyph, scale as int) as u32, glyph_lsb(*glyph, scale as int) as i16),
            )
            &&& final(data).glyph_bboxes@ == old(data).glyph_bboxes@.push(view.1)
            &&& final(data).max_points == (if total_points(view.0) > old(data).max_points {
                total_points(view.0)
            } else {
                old(data).max_points as int
            })
            &&& final(data).max_contours == (if glyph_cover(*glyph).len() > old(data).max_contours {
                glyph_cover(*glyph).len() as int
            } else {
                old(data).max_contours as int
            })
            &&& final(data).glyph_names@ == old(data).glyph_names@
            &&& final(data).cmap_entries@ == old(data).cmap_entries@
            &&& final(data).cmap_mappings@ == old(data).cmap_mappings@
            &&& glyf_glyphs(*final(glyf_builder)) == glyf_glyphs(*old(glyf_builder)).push(view)
        }),
{
    let ghost lh = line_height as int;
    let ghost sc = scale as int;
    let (ttf_glyph, bbox, point_count) = build_bitmap_glyph(glyph, line_height, scale)?;
    proof {
        lemma_points_at_least_contours(glyph_view(ttf_glyph).0);
    }
    let contour_count = usize_to_u16(glyph_contour_count(&ttf_glyph), "contour count to u16")?;
    data.glyph_bboxes.push(bbox);
    data.max_points = if point_count > data.max_points { point_count } else { data.max_points };
    data.max_contours = if contour_count > data.max_contours { contour_count } else { data.max_contours };
    if !glyph_fits_glyf(&ttf_glyph) {
        return Err(Error::Conversion(String::from_str("glyph does not fit the glyf table")));
    }
    if let Err(message) = glyf_add_glyph(glyf_builder, &ttf_glyph) {
        return Err(Error::Conversion(message));
    }
    let advance = match glyph.advance_width {
        Some(advance) => advance,
        None => glyph.width.saturating_add(1),
    };
    let x_advance = match (advance as u32).checked_mul(scale) {
        Some(product) => product,
        None => u32::MAX,
    };
    let offset_scaled = match (glyph.offset_x as i32).checked_mul(scale_i32) {
        Some(product) => product,
        None => if glyph.offset_x < 0 { i32::MIN } else { i32::MAX },
    };
    proof {
        if (glyph.offset_x as i32) * scale_i32 > i32::MAX {
            assert(glyph.offset_x > 0) by (nonlinear_arith)
                requires (glyph.offset_x as int) * (scale_i32 as int) > i32::MAX, scale_i32 >= 0;
        }
        if (glyph.offset_x as i32) * scale_i32 < i32::MIN {
            assert(glyph.offset_x < 0) by (nonlinear_arith)
                requires (glyph.offset_x as int) * (scale_i32 as int) < i32::MIN, scale_i32 >= 0;
        }
    }
    let lsb = i32_to_i16(offset_scaled, "left side bearing to i16")?;
    data.glyph_metrics.push((if x_advance > scale { x_advance } else { scale }, lsb));
    Ok(())
}


/// The advance and left side bearing of `.notdef` (advance `notdef_advance`)
/// and of each glyph of `m`.
pub open spec fn glyph_metrics_of(m: Seq<BitmapGlyph>, notdef_advance: int, scale: int) -> Seq<(u32, i16)> {
    seq![(notdef_advance as u32, 0i16)] + m.map_values(
        |g: BitmapGlyph| (glyph_advance(g, scale) as u32, glyph_lsb(g, scale) as i16),
    )
}

/// The box of `.notdef` and of each glyph of `m`.
pub open spec fn glyph_bboxes_of(notdef: GlyphView, m: Seq<BitmapGlyph>, line_height: int, scale: int) -> Seq<(i16, i16, i16, i16)> {
    seq![notdef.1] + m.map_values(|g: BitmapGlyph| outline_glyph(g, line_height, scale).1)
}

/// The names of `.notdef` and of each glyph of `m`.
pub open spec fn glyph_names_of(m: Seq<BitmapGlyph>) -> Seq<Seq<char>> {
    seq![".notdef"@] + m.map_values(|g: BitmapGlyph| glyph_name(g.codepoint as int))
}

/// The `(codepoint, glyph id)` entries of the glyphs of `m`.
pub open spec fn cmap_entries_of(m: Seq<BitmapGlyph>) -> Seq<(u16, u16)> {
    Seq::new(m.len(), |k: int| (m[k].codepoint as u16, (k + 1) as u16))
}

/// What `describes` says of each field, as whole sequences.
pub proof fn lemma_described_fields(
    data: GlyphBuildData,
    notdef: GlyphView,
    notdef_advance: int,
    m: Seq<BitmapGlyph>,
    line_height: int,
    scale: int,
)
    requires
        describes(data, notdef, notdef_advance, m, line_height, scale),
    ensures
        data.glyph_metrics@ == glyph_metrics_of(m, notdef_advance, scale),
        data.glyph_bboxes@ == glyph_bboxes_of(notdef, m, line_height, scale),
        data.glyph_names@.map_values(|n: String| n@) == glyph_names_of(m),
        data.cmap_entries@ == cmap_entries_of(m),
        data.cmap_mappings@ == char_mappings(m),
{
    let metrics = glyph_metrics_of(m, notdef_advance, scale);
    assert forall|i: int| 0 <= i < metrics.len() implies data.glyph_metrics@[i] == metrics[i] by {
        if i > 0 {
            assert(data.glyph_metrics@[(i - 1) + 1] == metrics[i]);
        }
    }
    assert(data.glyph_metrics@ =~= metrics);
    let bboxes = glyph_bboxes_of(notdef, m, line_height, scale);
    assert forall|i: int| 0 <= i < bboxes.len() implies data.glyph_bboxes@[i] == bboxes[i] by {
        if i > 0 {
            assert(data.glyph_bboxes@[(i - 1) + 1] == bboxes[i]);
        }
    }
    assert(data.glyph_bboxes@ =~= bboxes);
    let names = glyph_names_of(m);
    let have = data.glyph_names@.map_values(|n: String| n@);
    assert forall|i: int| 0 <= i < names.len() implies have[i] == names[i] by {
        if i > 0 {
            assert(data.glyph_names@[(i - 1) + 1]@ == names[i]);
        }
    }
    assert(have =~= names);
    let entries = cmap_entries_of(m);
    assert forall|i: int| 0 <= i < entries.len() implies data.cmap_entries@[i] == entries[i] by {}
    assert(data.cmap_entries@ =~= entries);
}

} // verus!
