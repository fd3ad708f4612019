//! Font-wide metrics: em size, ascender and descender, the clock, and the
//! horizontal metrics summary of all glyphs.

use super::glyphs::{saturating_u32, GlyphBuildData};
use super::{i32_to_i16, is_conversion_error, u32_to_i32, u32_to_u16, u64_to_i64};
use crate::error::Error;
use std::time::{SystemTime, UNIX_EPOCH};
use vstd::prelude::*;

verus! {

#[verifier::external_type_specification]
#[verifier::external_body]
pub struct ExSystemTime(SystemTime);

/// `(x_min, y_min, x_max, y_max)` of a glyph.
pub type GlyphBbox = (i16, i16, i16, i16);

/// Horizontal metrics over all glyphs, as the head and hhea tables need them.
#[derive(Clone, Copy)]
pub struct HorizontalMetricsSummary {
    pub head_bbox: GlyphBbox,
    pub advance_width_max: u16,
    pub min_lsb: i16,
    pub min_rsb: i16,
    pub x_max_extent: i16,
}

/// Font-wide metrics. `head_flags` is the bit set of the head table's flags.
#[derive(Clone, Copy)]
pub struct FontGlobalMetrics {
    pub units_per_em: u16,
    pub ascender: i16,
    pub descender: i16,
    pub now_mac_epoch: i64,
    pub head_flags: u16,
    pub summary: HorizontalMetricsSummary,
}

/// The larger of two integers.
pub open spec fn max_int(a: int, b: int) -> int {
    if a > b {
        a
    } else {
        b
    }
}

/// The smaller of two integers.
pub open spec fn min_int(a: int, b: int) -> int {
    if a < b {
        a
    } else {
        b
    }
}

/// `v` clamped to the range of `i16`.
pub open spec fn clamp_i16(v: int) -> int {
    max_int(i16::MIN as int, min_int(v, i16::MAX as int))
}

/// An advance width as the hhea and hmtx tables hold it: at most `u16::MAX`.
pub open spec fn capped_advance(advance: u32) -> int {
    min_int(advance as int, u16::MAX as int)
}

/// Right side bearing: advance minus left side bearing minus box width, clamped to `i16`.
pub open spec fn right_bearing(metric: (u32, i16), bbox: GlyphBbox) -> int {
    clamp_i16(capped_advance(metric.0) - (metric.1 + (bbox.2 - bbox.0)))
}

/// Extent to the right: left side bearing plus box width, clamped to `i16`.
pub open spec fn right_extent(metric: (u32, i16), bbox: GlyphBbox) -> int {
    clamp_i16(metric.1 + (bbox.2 - bbox.0))
}

/// The box that takes in `a` and `b`.
pub open spec fn union_bbox(a: GlyphBbox, b: GlyphBbox) -> GlyphBbox {
    (
        if a.0 < b.0 { a.0 } else { b.0 },
        if a.1 < b.1 { a.1 } else { b.1 },
        if a.2 > b.2 { a.2 } else { b.2 },
        if a.3 > b.3 { a.3 } else { b.3 },
    )
}

/// The summary of the first `n` glyphs: the largest capped advance, the
/// smallest left and right side bearings (from `i16::MAX`), the largest right
/// extent (from `i16::MIN`), and the box of the first glyph and every later
/// glyph whose box is not all zero.
pub open spec fn summary_of(metrics: Seq<(u32, i16)>, bboxes: Seq<GlyphBbox>, n: int) -> HorizontalMetricsSummary
    decreases n,
{
    if n <= 0 {
        HorizontalMetricsSummary {
            head_bbox: (0, 0, 0, 0),
            advance_width_max: 0,
            min_lsb: i16::MAX,
            min_rsb: i16::MAX,
            x_max_extent: i16::MIN,
        }
    } else {
        let prev = summary_of(metrics, bboxes, n - 1);
        let metric = metrics[n - 1];
        let bbox = bboxes[n - 1];
        HorizontalMetricsSummary {
            head_bbox: if n == 1 {
                bbox
            } else if bbox != (0i16, 0i16, 0i16, 0i16) {
                union_bbox(prev.head_bbox, bbox)
            } else {
                prev.head_bbox
            },
            advance_width_max: max_int(prev.advance_width_max as int, capped_advance(metric.0)) as u16,
            min_lsb: min_int(prev.min_lsb as int, metric.1 as int) as i16,
            min_rsb: min_int(prev.min_rsb as int, right_bearing(metric, bbox)) as i16,
            x_max_extent: max_int(prev.x_max_extent as int, right_extent(metric, bbox)) as i16,
        }
    }
}

/// The number of glyphs that have both metrics and a box.
pub open spec fn paired_len(metrics: Seq<(u32, i16)>, bboxes: Seq<GlyphBbox>) -> int {
    min_int(metrics.len() as int, bboxes.len() as int)
}

/// Every glyph's left side bearing equals its box's `x_min`.
pub open spec fn lsb_at_x_min(metrics: Seq<(u32, i16)>, bboxes: Seq<GlyphBbox>) -> bool {
    forall|i: int| 0 <= i < paired_len(metrics, bboxes) ==> #[trigger] metrics[i].1 == bboxes[i].0
}

/// Head flags: baseline at y = 0, and left side bearing at x = 0 when every
/// glyph's left side bearing equals its `x_min`.
pub open spec fn head_flags_of(metrics: Seq<(u32, i16)>, bboxes: Seq<GlyphBbox>) -> u16 {
    if lsb_at_x_min(metrics, bboxes) {
        3
    } else {
        1
    }
}

/// Seconds from 1904-01-01 (the font epoch) to 1970-01-01.
pub open spec fn mac_epoch_offset() -> int {
    2_082_844_800
}

/// Ascender in font units: line height minus baseline, times the scale,
/// saturating at the range of `i32`.
pub open spec fn ascender_of(line_height: int, baseline: int, scale: int) -> int {
    let v = (line_height - baseline) * scale;
    if v > i32::MAX {
        i32::MAX as int
    } else if v < i32::MIN {
        i32::MIN as int
    } else {
        v
    }
}

/// Descender in font units: minus the baseline times the scale, the product
/// saturating at the range of `i32`.
pub open spec fn descender_of(baseline: int, scale: int) -> int {
    let v = baseline * scale;
    -(if v > i32::MAX {
        i32::MAX as int
    } else if v < i32::MIN {
        i32::MIN as int
    } else {
        v
    })
}

/// The metrics that `prepare_global_metrics` computes when it succeeds.
pub open spec fn global_metrics_of(
    line_height: int,
    baseline: int,
    scale: int,
    metrics: Seq<(u32, i16)>,
    bboxes: Seq<GlyphBbox>,
    now_unix: int,
) -> FontGlobalMetrics {
    FontGlobalMetrics {
        units_per_em: saturating_u32(line_height * scale) as u16,
        ascender: ascender_of(line_height, baseline, scale) as i16,
        descender: descender_of(baseline, scale) as i16,
        now_mac_epoch: min_int(now_unix + mac_epoch_offset(), i64::MAX as int) as i64,
        head_flags: head_flags_of(metrics, bboxes),
        summary: summary_of(metrics, bboxes, paired_len(metrics, bboxes)),
    }
}

/// The conditions under which `prepare_global_metrics` succeeds, the clock having given `now`.
pub open spec fn global_metrics_succeed(line_height: int, baseline: int, scale: int, now: Result<u64, String>) -> bool {
    &&& saturating_u32(line_height * scale) <= u16::MAX
    &&& line_height <= i32::MAX
    &&& scale <= i32::MAX
    &&& i16::MIN <= ascender_of(line_height, baseline, scale) <= i16::MAX
    &&& i16::MIN <= descender_of(baseline, scale) <= i16::MAX
    &&& now matches Ok(secs) && secs <= i64::MAX
}

/// `SystemTime::now`.
#[verifier::external_body]
pub(crate) fn system_now() -> SystemTime {
    SystemTime::now()
}

/// `SystemTime::duration_since(UNIX_EPOCH)`, in whole seconds; the error text
/// when the time lies before the Unix epoch.
#[verifier::external_body]
pub(crate) fn seconds_since_unix_epoch(time: SystemTime) -> Result<u64, String> {
    time.duration_since(UNIX_EPOCH).map(|elapsed| elapsed.as_secs()).map_err(|error| error.to_string())
}

/// The em size, ascender, descender, timestamp, head flags and horizontal
/// summary, `now` being what the clock gave (seconds since the Unix epoch, or
/// why there are none).
pub(crate) fn prepare_global_metrics(
    line_height: u32,
    baseline: i16,
    scale: u32,
    glyph_data: &GlyphBuildData,
    now: Result<u64, String>,
) -> (r: Result<FontGlobalMetrics, Error>)
    ensures
        r is Ok <==> global_metrics_succeed(line_height as int, baseline as int, scale as int, now),
        r is Err ==> r matches Err(Error::Conversion(_)),
        r matches Ok(g) ==> g == global_metrics_of(
            line_height as int,
            baseline as int,
            scale as int,
            glyph_data.glyph_metrics@,
            glyph_data.glyph_bboxes@,
            now->Ok_0 as int,
        ),
{
    let em = match line_height.checked_mul(scale) {
        Some(product) => product,
        None => u32::MAX,
    };
    let units_per_em = u32_to_u16(em, "units_per_em to u16")?;
    let line_height_i32 = u32_to_i32(line_height, "line height to i32")?;
    let scale_i32 = u32_to_i32(scale, "scale to i32")?;
    let above: i64 = line_height_i32 as i64 - baseline as i64;
    proof {
        assert(-0x8000 * 0x8000_0000 <= above * scale_i32 <= 0x8000_8000 * 0x8000_0000) by (nonlinear_arith)
            requires -0x8000 <= above <= 0x8000_8000, 0 <= scale_i32 <= 0x8000_0000;
    }
    let product: i64 = above * scale_i32 as i64;
    let ascender_wide: i32 = if product > i32::MAX as i64 {
        i32::MAX
    } else if product < i32::MIN as i64 {
        i32::MIN
    } else {
        product as i32
    };
    let ascender = i32_to_i16(ascender_wide, "ascender to i16")?;
    let below = match (baseline as i32).checked_mul(scale_i32) {
        Some(product) => product,
        None => if baseline < 0 { i32::MIN } else { i32::MAX },
    };
    proof {
        if baseline >= 0 {
            assert(baseline * scale_i32 >= 0) by (nonlinear_arith)
                requires baseline >= 0, scale_i32 >= 0;
        } else {
            assert(baseline * scale_i32 <= 0) by (nonlinear_arith)
                requires baseline < 0, scale_i32 >= 0;
            // A product below `i32::MIN` would have made the ascender overflow `i16` first.
            assert(above * scale_i32 >= -(baseline * scale_i32)) by (nonlinear_arith)
                requires above >= -baseline, scale_i32 >= 0;
            assert(product == above * scale_i32);
        }
    }
    let descender = i32_to_i16(-below, "descender to i16")?;
    let summary = summarize_horizontal_metrics(&glyph_data.glyph_metrics, &glyph_data.glyph_bboxes)?;
    let now_unix = match now {
        Ok(secs) => secs,
        Err(message) => return Err(Error::Conversion(message)),
    };
    let now_i64 = u64_to_i64(now_unix, "unix timestamp to i64")?;
    let now_mac_epoch = match now_i64.checked_add(2_082_844_800) {
        Some(sum) => sum,
        None => i64::MAX,
    };
    Ok(FontGlobalMetrics {
        units_per_em,
        ascender,
        descender,
        now_mac_epoch,
        head_flags: head_flags(glyph_data),
        summary,
    })
}

/// The head table flags for the glyphs of `glyph_data`.
fn head_flags(glyph_data: &GlyphBuildData) -> (flags: u16)
    ensures
        flags == head_flags_of(glyph_data.glyph_metrics@, glyph_data.glyph_bboxes@),
{
    let metrics = &glyph_data.glyph_metrics;
    let bboxes = &glyph_data.glyph_bboxes;
    let n = if metrics.len() < bboxes.len() { metrics.len() } else { bboxes.len() };
    let mut i: usize = 0;
    while i < n
        invariant
            i <= n,
            n == paired_len(metrics@, bboxes@),
            metrics@ == glyph_data.glyph_metrics@,
            bboxes@ == glyph_data.glyph_bboxes@,
            forall|k: int| 0 <= k < i ==> #[trigger] metrics@[k].1 == bboxes@[k].0,
        decreases n - i,
    {
        if metrics[i].1 != bboxes[i].0 {
            assert(!lsb_at_x_min(metrics@, bboxes@));
            return 1;
        }
        i = i + 1;
    }
    3
}

/// Summarizes the horizontal metrics of the glyphs that have both metrics and a box.
fn summarize_horizontal_metrics(glyph_metrics: &Vec<(u32, i16)>, glyph_bboxes: &Vec<GlyphBbox>) -> (r: Result<HorizontalMetricsSummary, Error>)
    ensures
        r == Ok::<HorizontalMetricsSummary, Error>(
            summary_of(glyph_metrics@, glyph_bboxes@, paired_len(glyph_metrics@, glyph_bboxes@)),
        ),
{
    let n = if glyph_metrics.len() < glyph_bboxes.len() { glyph_metrics.len() } else { glyph_bboxes.len() };
    let mut bbox: GlyphBbox = (0, 0, 0, 0);
    let mut bbox_initialized = false;
    let mut advance_width_max: u16 = 0;
    let mut min_lsb: i16 = i16::MAX;
    let mut min_rsb: i16 = i16::MAX;
    let mut x_max_extent: i16 = i16::MIN;
    let mut i: usize = 0;
    while i < n
        invariant
            i <= n,
            n == paired_len(glyph_metrics@, glyph_bboxes@),
            bbox_initialized == (i > 0),
            ({
                let s = summary_of(glyph_metrics@, glyph_bboxes@, i as int);
                &&& s.head_bbox == bbox
                &&& s.advance_width_max == advance_width_max
                &&& s.min_lsb == min_lsb
                &&& s.min_rsb == min_rsb
                &&& s.x_max_extent == x_max_extent
            }),
        decreases n - i,
    {
        let (advance_width, lsb) = glyph_metrics[i];
        let glyph_bbox = glyph_bboxes[i];
        let capped = if advance_width < 65535 { advance_width } else { 65535 };
        let advance = u32_to_u16(capped, "advance width to u16")?;
        advance_width_max = if advance > advance_width_max { advance } else { advance_width_max };
        let width = glyph_bbox.2 as i32 - glyph_bbox.0 as i32;
        let bearing = advance as i32 - (lsb as i32 + width);
        let bearing = if bearing < -32768 { -32768 } else if bearing > 32767 { 32767 } else { bearing };
        min_lsb = if lsb < min_lsb { lsb } else { min_lsb };
        let right = i32_to_i16(bearing, "right side bearing to i16")?;
        min_rsb = if right < min_rsb { right } else { min_rsb };
        let extent = lsb as i32 + width;
        let extent = if extent < -32768 { -32768 } else if extent > 32767 { 32767 } else { extent };
        let extent = i32_to_i16(extent, "x max extent to i16")?;
        x_max_extent = if extent > x_max_extent { extent } else { x_max_extent };
        let is_zero = glyph_bbox.0 == 0 && glyph_bbox.1 == 0 && glyph_bbox.2 == 0 && glyph_bbox.3 == 0;
        if !is_zero || !bbox_initialized {
            bbox = include_bbox(bbox, glyph_bbox, bbox_initialized);
            bbox_initialized = true;
        }
        i = i + 1;
    }
    Ok(HorizontalMetricsSummary { head_bbox: bbox, advance_width_max, min_lsb, min_rsb, x_max_extent })
}

/// The box `aggregate` grown to take in `bbox`, or `bbox` itself when nothing
/// has been taken in yet.
fn include_bbox(aggregate: GlyphBbox, bbox: GlyphBbox, initialized: bool) -> (r: GlyphBbox)
    ensures
        r == (if initialized {
            union_bbox(aggregate, bbox)
        } else {
            bbox
        }),
{
    if !initialized {
        return bbox;
    }
    (
        if aggregate.0 < bbox.0 { aggregate.0 } else { bbox.0 },
        if aggregate.1 < bbox.1 { aggregate.1 } else { bbox.1 },
        if aggregate.2 > bbox.2 { aggregate.2 } else { bbox.2 },
        if aggregate.3 > bbox.3 { aggregate.3 } else { bbox.3 },
    )
}

} // verus!
