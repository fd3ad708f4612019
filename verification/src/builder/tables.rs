//! The values of the font-wide tables.

use super::font_writer::{
    cmap_table_writes, name_table_writes, post_table_writes,
    build_font, cmap_table_bytes, dump_cmap, dump_gasp, dump_head, dump_hhea, dump_hmtx, dump_maxp, dump_name,
    dump_os2, dump_post, font_add_raw, font_entries, distinct_tags, tables_map, font_tables_size, gasp_table_bytes, has_cmap_conflict,
    head_table_bytes, hhea_table_bytes, hmtx_table_bytes, maxp_table_bytes, name_table_bytes, os2_table_bytes,
    post_table_bytes, CmapFailure,
};
use super::glyphs::{saturating_u32, GlyphBuildData};
use super::metrics::{max_int, min_int, FontGlobalMetrics};
use super::names::{build_name_records, family_fits, lemma_name_records_short, name_records_of, records_view};
use crate::text::str_chars;
use super::{i16_to_u16_non_negative, is_conversion_error, u32_to_i16, u32_to_u16, u64_to_i16};
use crate::error::Error;
use vstd::prelude::*;
use vstd::string::*;
use write_fonts::FontBuilder;

verus! {

/// Fields of the head table. `font_revision` is a 16.16 fixed-point number
/// given by its bits; `flags` and `mac_style` are bit sets; `created` and
/// `modified` are seconds since 1904-01-01.
#[derive(Clone, Copy, Debug, PartialEq, Eq)]
pub struct HeadFields {
    pub font_revision: i32,
    pub checksum_adjustment: u32,
    pub flags: u16,
    pub units_per_em: u16,
    pub created: i64,
    pub modified: i64,
    pub x_min: i16,
    pub y_min: i16,
    pub x_max: i16,
    pub y_max: i16,
    pub mac_style: u16,
    pub lowest_rec_ppem: u16,
    pub index_to_loc_format: i16,
}

/// Fields of the OS/2 table that the font sets; `fs_selection` is a bit set.
#[derive(Clone, Copy, Debug, PartialEq, Eq)]
pub struct Os2Fields {
    pub x_avg_char_width: i16,
    pub y_subscript_x_size: i16,
    pub y_subscript_y_size: i16,
    pub y_subscript_y_offset: i16,
    pub y_superscript_x_size: i16,
    pub y_superscript_y_size: i16,
    pub y_superscript_y_offset: i16,
    pub y_strikeout_size: i16,
    pub y_strikeout_position: i16,
    pub ul_unicode_range_1: u32,
    pub ach_vend_id: [u8; 4],
    pub fs_selection: u16,
    pub us_first_char_index: u16,
    pub us_last_char_index: u16,
    pub s_typo_ascender: i16,
    pub s_typo_descender: i16,
    pub us_win_ascent: u16,
    pub us_win_descent: u16,
    pub ul_code_page_range_1: Option<u32>,
    pub ul_code_page_range_2: Option<u32>,
    pub sx_height: Option<i16>,
    pub s_cap_height: Option<i16>,
    pub us_default_char: Option<u16>,
    pub us_break_char: Option<u16>,
    pub us_max_context: Option<u16>,
}

/// Fields of the maxp table.
#[derive(Clone, Copy, Debug, PartialEq, Eq)]
pub struct MaxpFields {
    pub num_glyphs: u16,
    pub max_points: Option<u16>,
    pub max_contours: Option<u16>,
    pub max_composite_points: Option<u16>,
    pub max_composite_contours: Option<u16>,
    pub max_zones: Option<u16>,
    pub max_twilight_points: Option<u16>,
    pub max_storage: Option<u16>,
    pub max_function_defs: Option<u16>,
    pub max_instruction_defs: Option<u16>,
    pub max_stack_elements: Option<u16>,
    pub max_size_of_instructions: Option<u16>,
    pub max_component_elements: Option<u16>,
    pub max_component_depth: Option<u16>,
}

/// Fields of the hhea table.
#[derive(Clone, Copy, Debug, PartialEq, Eq)]
pub struct HheaFields {
    pub ascender: i16,
    pub descender: i16,
    pub line_gap: i16,
    pub advance_width_max: u16,
    pub min_left_side_bearing: i16,
    pub min_right_side_bearing: i16,
    pub x_max_extent: i16,
    pub caret_slope_rise: i16,
    pub caret_slope_run: i16,
    pub caret_offset: i16,
    pub number_of_h_metrics: u16,
}


/// The room that a table of `len` bytes takes in the font file: a 16-byte
/// record and its data padded to 4 bytes.
pub open spec fn table_room(len: int) -> int {
    16 + (len + 3) / 4 * 4
}

/// `a + b`, or `u64::MAX` when it does not fit.
pub open spec fn saturating_u64(v: int) -> int {
    if v > u64::MAX {
        u64::MAX as int
    } else {
        v
    }
}

/// No table of `entries` has tag `tag`.
pub open spec fn tag_absent(entries: Seq<(Seq<u8>, Seq<u8>)>, tag: Seq<u8>) -> bool {
    forall|i: int| 0 <= i < entries.len() ==> #[trigger] entries[i].0 != tag
}

/// Adds a serialized table under `tag`, keeping `room` at the room the tables
/// take (saturating); a failed serialization becomes a conversion error. `log`
/// lists the tables added so far, in order; on success the list with this table
/// added comes back.
pub(crate) fn put_table(
    builder: &mut FontBuilder,
    tag: [u8; 4],
    bytes: Result<Vec<u8>, String>,
    room: &mut u64,
    log: Ghost<Seq<(Seq<u8>, Seq<u8>)>>,
) -> (r: Result<Ghost<Seq<(Seq<u8>, Seq<u8>)>>, Error>)
    requires
        font_entries(*old(builder)) == tables_map(log@),
        distinct_tags(log@),
        tag_absent(log@, tag@),
        *old(room) == saturating_u64(font_tables_size(log@)),
    ensures
        r is Ok <==> bytes is Ok,
        r is Err ==> r matches Err(Error::Conversion(_)),
        r matches Ok(next) ==> {
            &&& next@ == log@.push((tag@, bytes->Ok_0@))
            &&& font_entries(*final(builder)) == tables_map(next@)
            &&& distinct_tags(next@)
            &&& *final(room) == saturating_u64(font_tables_size(next@))
        },
{
    match bytes {
        Ok(data) => {
            let ghost next = log@.push((tag@, data@));
            let len = data.len() as u128;
            let added: u128 = 16 + (len / 4 + if len % 4 == 0 { 0 } else { 1 }) * 4;
            let total: u128 = *room as u128 + added;
            *room = if total > u64::MAX as u128 { u64::MAX } else { total as u64 };
            font_add_raw(builder, tag, data);
            proof {
                assert(next.drop_last() =~= log@);
                assert(added == table_room(len as int));
                assert(font_tables_size(log@) >= 0) by {
                    lemma_tables_size_nonneg(log@);
                }
                assert forall|i: int, j: int| 0 <= i < j < next.len() implies #[trigger] next[i].0 != #[trigger] next[j].0 by {
                    if j == log@.len() {
                        assert(log@[i].0 != tag@);
                    } else {
                        assert(log@[i].0 != log@[j].0);
                    }
                }
            }
            Ok(Ghost(next))
        },
        Err(message) => Err(Error::Conversion(message)),
    }
}

proof fn lemma_tables_size_nonneg(entries: Seq<(Seq<u8>, Seq<u8>)>)
    ensures
        font_tables_size(entries) >= 0,
    decreases entries.len(),
{
    if entries.len() > 0 {
        lemma_tables_size_nonneg(entries.drop_last());
    }
}

/// Tag of the head table.
pub open spec fn head_tag() -> Seq<u8> {
    seq![104u8, 101u8, 97u8, 100u8]
}

/// Tag of the name table.
pub open spec fn name_tag() -> Seq<u8> {
    seq![110u8, 97u8, 109u8, 101u8]
}

/// Tag of the OS/2 table.
pub open spec fn os2_tag() -> Seq<u8> {
    seq![79u8, 83u8, 47u8, 50u8]
}

/// Tag of the gasp table.
pub open spec fn gasp_tag() -> Seq<u8> {
    seq![103u8, 97u8, 115u8, 112u8]
}

/// Tag of the maxp table.
pub open spec fn maxp_tag() -> Seq<u8> {
    seq![109u8, 97u8, 120u8, 112u8]
}

/// Tag of the post table.
pub open spec fn post_tag() -> Seq<u8> {
    seq![112u8, 111u8, 115u8, 116u8]
}

/// Tag of the cmap table.
pub open spec fn cmap_tag() -> Seq<u8> {
    seq![99u8, 109u8, 97u8, 112u8]
}

/// Tag of the hhea table.
pub open spec fn hhea_tag() -> Seq<u8> {
    seq![104u8, 104u8, 101u8, 97u8]
}

/// Tag of the hmtx table.
pub open spec fn hmtx_tag() -> Seq<u8> {
    seq![104u8, 109u8, 116u8, 120u8]
}

/// Tag of the glyf table.
pub open spec fn glyf_tag() -> Seq<u8> {
    seq![103u8, 108u8, 121u8, 102u8]
}

/// Tag of the loca table.
pub open spec fn loca_tag() -> Seq<u8> {
    seq![108u8, 111u8, 99u8, 97u8]
}

/// Tag of the DSIG table.
pub open spec fn dsig_tag() -> Seq<u8> {
    seq![68u8, 83u8, 73u8, 71u8]
}

/// The head table's fields: revision 1.0, no checksum yet, the flags, em size,
/// creation and modification time and box of the metrics, no style, smallest
/// readable size 8 ppem, and the loca format.
pub open spec fn head_fields_of(metrics: FontGlobalMetrics, index_to_loc_format: i16) -> HeadFields {
    HeadFields {
        font_revision: 0x10000,
        checksum_adjustment: 0,
        flags: metrics.head_flags,
        units_per_em: metrics.units_per_em,
        created: metrics.now_mac_epoch,
        modified: metrics.now_mac_epoch,
        x_min: metrics.summary.head_bbox.0,
        y_min: metrics.summary.head_bbox.1,
        x_max: metrics.summary.head_bbox.2,
        y_max: metrics.summary.head_bbox.3,
        mac_style: 0,
        lowest_rec_ppem: 8,
        index_to_loc_format,
    }
}

/// Gasp behavior: grayscale and symmetric smoothing at every size.
pub open spec fn gasp_ranges_of() -> Seq<(u16, u16)> {
    seq![(u16::MAX, 0x000Au16)]
}

/// The maxp table's fields: the glyph count, the largest point and contour
/// counts (at least 4 and 1), two zones, and nothing composite or hinted.
pub open spec fn maxp_fields_of(num_glyphs: u16, max_points: u16, max_contours: u16) -> MaxpFields {
    MaxpFields {
        num_glyphs,
        max_points: Some(max_int(max_points as int, 4) as u16),
        max_contours: Some(max_int(max_contours as int, 1) as u16),
        max_composite_points: Some(0),
        max_composite_contours: Some(0),
        max_zones: Some(2),
        max_twilight_points: Some(0),
        max_storage: Some(0),
        max_function_defs: Some(0),
        max_instruction_defs: Some(0),
        max_stack_elements: Some(0),
        max_size_of_instructions: Some(0),
        max_component_elements: Some(0),
        max_component_depth: Some(0),
    }
}

/// The hhea table's fields from the font metrics.
pub open spec fn hhea_fields_of(metrics: FontGlobalMetrics, num_glyphs: u16) -> HheaFields {
    HheaFields {
        ascender: metrics.ascender,
        descender: metrics.descender,
        line_gap: 0,
        advance_width_max: metrics.summary.advance_width_max,
        min_left_side_bearing: metrics.summary.min_lsb,
        min_right_side_bearing: metrics.summary.min_rsb,
        x_max_extent: metrics.summary.x_max_extent,
        caret_slope_rise: 1,
        caret_slope_run: 0,
        caret_offset: 0,
        number_of_h_metrics: num_glyphs,
    }
}

/// The hmtx table's `(advance, left side bearing)` per glyph, advances capped at `u16::MAX`.
pub open spec fn hmtx_metrics_of(metrics: Seq<(u32, i16)>) -> Seq<(u16, i16)> {
    metrics.map_values(|m: (u32, i16)| (min_int(m.0 as int, u16::MAX as int) as u16, m.1))
}

/// The sum of the advances.
pub open spec fn advance_sum(metrics: Seq<(u32, i16)>) -> int
    decreases metrics.len(),
{
    if metrics.len() == 0 {
        0
    } else {
        advance_sum(metrics.drop_last()) + metrics.last().0
    }
}

/// The average advance, capped at `i16::MAX`; with no glyphs, the em size.
pub open spec fn average_advance_of(metrics: Seq<(u32, i16)>, line_height: int, scale: int) -> int {
    if metrics.len() == 0 {
        saturating_u32(line_height * scale)
    } else {
        min_int(advance_sum(metrics) / (metrics.len() as int), i16::MAX as int)
    }
}

/// Smallest codepoint of the character map entries, or 32 (space) when there are none.
pub open spec fn first_code(entries: Seq<(u16, u16)>) -> int
    decreases entries.len(),
{
    if entries.len() == 0 {
        32
    } else if entries.len() == 1 {
        entries[0].0 as int
    } else {
        min_int(first_code(entries.drop_last()), entries.last().0 as int)
    }
}

/// Largest codepoint of the character map entries, or 126 (tilde) when there are none.
pub open spec fn last_code(entries: Seq<(u16, u16)>) -> int
    decreases entries.len(),
{
    if entries.len() == 0 {
        126
    } else if entries.len() == 1 {
        entries[0].0 as int
    } else {
        max_int(last_code(entries.drop_last()), entries.last().0 as int)
    }
}

/// Half the em size.
pub open spec fn half_height_of(line_height: int, scale: int) -> int {
    saturating_u32(line_height * scale) / 2
}

/// Seven tenths of the ascender, rounded toward zero (computed without overflow).
pub open spec fn x_height_of(ascender: i16) -> int {
    let product = ascender * 7;
    if product >= 0 {
        product / 10
    } else {
        -((-product) / 10)
    }
}

/// The size of a number without its sign.
pub open spec fn abs_int(v: int) -> int {
    if v < 0 {
        -v
    } else {
        v
    }
}

/// The OS/2 table's fields: average advance, sub- and superscript and
/// strikeout metrics from half the em size, the vendor `B2TF`, regular
/// selection, first and last codepoints, typographic and Windows ascent and
/// descent, x height and cap height from the ascender.
pub open spec fn os2_fields_of(
    metrics_list: Seq<(u32, i16)>,
    entries: Seq<(u16, u16)>,
    line_height: int,
    metrics: FontGlobalMetrics,
    scale: int,
) -> Os2Fields {
    let half = half_height_of(line_height, scale);
    let bbox = metrics.summary.head_bbox;
    Os2Fields {
        x_avg_char_width: average_advance_of(metrics_list, line_height, scale) as i16,
        y_subscript_x_size: half as i16,
        y_subscript_y_size: half as i16,
        y_subscript_y_offset: (half / 2) as i16,
        y_superscript_x_size: half as i16,
        y_superscript_y_size: half as i16,
        y_superscript_y_offset: half as i16,
        y_strikeout_size: scale as i16,
        y_strikeout_position: half as i16,
        ul_unicode_range_1: 1,
        ach_vend_id: [66u8, 50u8, 84u8, 70u8],
        fs_selection: 0x0040,
        us_first_char_index: first_code(entries) as u16,
        us_last_char_index: last_code(entries) as u16,
        s_typo_ascender: metrics.ascender,
        s_typo_descender: metrics.descender,
        us_win_ascent: max_int(max_int(metrics.ascender as int, bbox.3 as int), 1) as u16,
        us_win_descent: max_int(max_int(abs_int(metrics.descender as int), abs_int(bbox.1 as int)), 1) as u16,
        ul_code_page_range_1: Some(1),
        ul_code_page_range_2: Some(0),
        sx_height: Some(x_height_of(metrics.ascender) as i16),
        s_cap_height: Some(metrics.ascender),
        us_default_char: Some(0),
        us_break_char: Some(32),
        us_max_context: Some(0),
    }
}

/// Law: the Windows ascent and descent of the OS/2 table take in every glyph
/// and the typographic extent: the ascent is at least the head table's
/// `y_max` (the top of the highest glyph) and the ascender, and the descent at
/// least the depth of the head table's `y_min` and of the descender; both are
/// positive.
pub proof fn lemma_win_extent_covers_glyphs(
    metrics_list: Seq<(u32, i16)>,
    entries: Seq<(u16, u16)>,
    line_height: int,
    metrics: FontGlobalMetrics,
    scale: int,
    index_to_loc_format: i16,
)
    ensures
        ({
            let os2 = os2_fields_of(metrics_list, entries, line_height, metrics, scale);
            let head = head_fields_of(metrics, index_to_loc_format);
            &&& os2.us_win_ascent >= head.y_max
            &&& os2.us_win_ascent >= metrics.ascender
            &&& os2.us_win_ascent >= 1
            &&& os2.us_win_descent >= -head.y_min
            &&& os2.us_win_descent >= -metrics.descender
            &&& os2.us_win_descent >= 1
        }),
{
}

/// The OS/2 fields convert: the average advance, half the em size and the scale fit an `i16`.
pub open spec fn os2_fields_convert(metrics_list: Seq<(u32, i16)>, line_height: int, scale: int) -> bool {
    &&& average_advance_of(metrics_list, line_height, scale) <= i16::MAX
    &&& half_height_of(line_height, scale) <= i16::MAX
    &&& scale <= i16::MAX
}

fn average_advance(glyph_metrics: &Vec<(u32, i16)>, line_height: u32, scale: u32) -> (r: Result<i16, Error>)
    requires
        glyph_metrics@.len() <= u32::MAX,
    ensures
        r is Ok <==> average_advance_of(glyph_metrics@, line_height as int, scale as int) <= i16::MAX,
        r is Err ==> r matches Err(Error::Conversion(_)),
        r matches Ok(v) ==> v == average_advance_of(glyph_metrics@, line_height as int, scale as int),
{
    if glyph_metrics.len() == 0 {
        let em = match line_height.checked_mul(scale) {
            Some(product) => product,
            None => u32::MAX,
        };
        return u32_to_i16(em, "average advance fallback to i16");
    }
    let mut sum: u64 = 0;
    let mut i: usize = 0;
    while i < glyph_metrics.len()
        invariant
            i <= glyph_metrics@.len(),
            glyph_metrics@.len() <= u32::MAX,
            sum == advance_sum(glyph_metrics@.take(i as int)),
            sum <= i * u32::MAX,
        decreases glyph_metrics@.len() - i,
    {
        proof {
            assert(glyph_metrics@.take(i + 1).drop_last() =~= glyph_metrics@.take(i as int));
            assert(i * u32::MAX + u32::MAX <= u32::MAX * u32::MAX + u32::MAX) by (nonlinear_arith)
                requires i < u32::MAX;
        }
        sum = sum + glyph_metrics[i].0 as u64;
        i = i + 1;
    }
    proof {
        assert(glyph_metrics@.take(glyph_metrics@.len() as int) =~= glyph_metrics@);
    }
    let divisor = glyph_metrics.len() as u64;
    let average = sum / divisor;
    let capped = if average < 32767 { average } else { 32767 };
    u64_to_i16(capped, "average advance to i16")
}

/// Smallest and largest codepoints of the entries, or 32 and 126 when there are none.
fn code_range(entries: &Vec<(u16, u16)>) -> (r: (u16, u16))
    ensures
        r.0 == first_code(entries@),
        r.1 == last_code(entries@),
{
    if entries.len() == 0 {
        return (32, 126);
    }
    let mut first = entries[0].0;
    let mut last = entries[0].0;
    let mut i: usize = 1;
    while i < entries.len()
        invariant
            1 <= i <= entries@.len(),
            first == first_code(entries@.take(i as int)),
            last == last_code(entries@.take(i as int)),
        decreases entries@.len() - i,
    {
        proof {
            assert(entries@.take(i + 1).drop_last() =~= entries@.take(i as int));
            assert(entries@.take(1)[0] == entries@[0]);
        }
        let code = entries[i].0;
        first = if code < first { code } else { first };
        last = if code > last { code } else { last };
        i = i + 1;
    }
    proof {
        assert(entries@.take(entries@.len() as int) =~= entries@);
    }
    (first, last)
}

fn build_os2_fields(
    glyph_data: &GlyphBuildData,
    line_height: u32,
    metrics: &FontGlobalMetrics,
    scale: u32,
) -> (r: Result<Os2Fields, Error>)
    requires
        glyph_data.glyph_metrics@.len() <= u32::MAX,
    ensures
        r is Ok <==> os2_fields_convert(glyph_data.glyph_metrics@, line_height as int, scale as int),
        r is Err ==> r matches Err(Error::Conversion(_)),
        r matches Ok(f) ==> f == os2_fields_of(
            glyph_data.glyph_metrics@,
            glyph_data.cmap_entries@,
            line_height as int,
            *metrics,
            scale as int,
        ),
        r matches Ok(f) ==> f.us_win_ascent >= metrics.summary.head_bbox.3 && f.us_win_ascent >= metrics.ascender,
        r matches Ok(f) ==> f.us_win_descent >= -metrics.summary.head_bbox.1 && f.us_win_descent >= -metrics.descender,
{
    let em = match line_height.checked_mul(scale) {
        Some(product) => product,
        None => u32::MAX,
    };
    let half_height = em / 2;
    let bbox = metrics.summary.head_bbox;
    let x_avg_char_width = average_advance(&glyph_data.glyph_metrics, line_height, scale)?;
    let half = u32_to_i16(half_height, "y_subscript_x_size to i16")?;
    let quarter = u32_to_i16(half_height / 2, "y_subscript_y_offset to i16")?;
    let strikeout = u32_to_i16(scale, "y_strikeout_size to i16")?;
    let (first, last) = code_range(&glyph_data.cmap_entries);
    let ascent_high = if metrics.ascender > bbox.3 { metrics.ascender } else { bbox.3 };
    let ascent = i16_to_u16_non_negative(if ascent_high > 1 { ascent_high } else { 1 }, "us_win_ascent to u16")?;
    let descender_size: u16 = if metrics.descender < 0 { (-(metrics.descender as i32)) as u16 } else { metrics.descender as u16 };
    let bottom_size: u16 = if bbox.1 < 0 { (-(bbox.1 as i32)) as u16 } else { bbox.1 as u16 };
    let descent_high = if descender_size > bottom_size { descender_size } else { bottom_size };
    let descent = if descent_high > 1 { descent_high } else { 1 };
    let product: i32 = metrics.ascender as i32 * 7;
    let x_height: i16 = if product >= 0 { (product / 10) as i16 } else { (-((-product) / 10)) as i16 };
    proof {
        assert(x_height == x_height_of(metrics.ascender));
        assert(ascent == max_int(max_int(metrics.ascender as int, bbox.3 as int), 1));
        assert(descent == max_int(max_int(abs_int(metrics.descender as int), abs_int(bbox.1 as int)), 1));
        assert(half == half_height_of(line_height as int, scale as int));
        assert(quarter == half_height_of(line_height as int, scale as int) / 2);
    }
    Ok(Os2Fields {
        x_avg_char_width,
        y_subscript_x_size: half,
        y_subscript_y_size: half,
        y_subscript_y_offset: quarter,
        y_superscript_x_size: half,
        y_superscript_y_size: half,
        y_superscript_y_offset: half,
        y_strikeout_size: strikeout,
        y_strikeout_position: half,
        ul_unicode_range_1: 1,
        ach_vend_id: [66, 50, 84, 70],
        fs_selection: 0x0040,
        us_first_char_index: first,
        us_last_char_index: last,
        s_typo_ascender: metrics.ascender,
        s_typo_descender: metrics.descender,
        us_win_ascent: ascent,
        us_win_descent: descent,
        ul_code_page_range_1: Some(1),
        ul_code_page_range_2: Some(0),
        sx_height: Some(x_height),
        s_cap_height: Some(metrics.ascender),
        us_default_char: Some(0),
        us_break_char: Some(32),
        us_max_context: Some(0),
    })
}


/// The head, name, OS/2, gasp and maxp tables, in the order they are added.
pub open spec fn primary_tables_of(
    glyph_data: GlyphBuildData,
    metrics: FontGlobalMetrics,
    family: Seq<char>,
    line_height: int,
    scale: int,
    num_glyphs: u16,
    index_to_loc_format: i16,
) -> Seq<(Seq<u8>, Seq<u8>)> {
    seq![
        (head_tag(), head_table_bytes(head_fields_of(metrics, index_to_loc_format))),
        (name_tag(), name_table_bytes(name_records_of(family))),
        (os2_tag(), os2_table_bytes(os2_fields_of(glyph_data.glyph_metrics@, glyph_data.cmap_entries@, line_height, metrics, scale))),
        (gasp_tag(), gasp_table_bytes(1, gasp_ranges_of())),
        (maxp_tag(), maxp_table_bytes(maxp_fields_of(num_glyphs, glyph_data.max_points, glyph_data.max_contours))),
    ]
}

/// Adds the head, name, OS/2, gasp and maxp tables.
pub(crate) fn add_primary_tables(
    builder: &mut FontBuilder,
    glyph_data: &GlyphBuildData,
    metrics: &FontGlobalMetrics,
    family_name: &str,
    line_height: u32,
    scale: u32,
    num_glyphs: u16,
    index_to_loc_format: i16,
    room: &mut u64,
) -> (r: Result<(), Error>)
    requires
        font_entries(*old(builder)) == Map::<Seq<u8>, Seq<u8>>::empty(),
        *old(room) == 0,
        glyph_data.glyph_metrics@.len() <= u32::MAX,
    ensures
        r is Err ==> r matches Err(Error::Conversion(_)),
        r is Ok ==> os2_fields_convert(glyph_data.glyph_metrics@, line_height as int, scale as int),
        r is Ok ==> family_fits(family_name@),
        r is Ok ==> name_table_writes(name_records_of(family_name@)),
        os2_fields_convert(glyph_data.glyph_metrics@, line_height as int, scale as int) && family_fits(family_name@)
            && name_table_writes(name_records_of(family_name@)) ==> r is Ok,
        r is Ok ==> font_entries(*final(builder)) == tables_map(primary_tables_of(*glyph_data, *metrics, family_name@, line_height as int, scale as int, num_glyphs, index_to_loc_format)),
        r is Ok ==> distinct_tags(primary_tables_of(*glyph_data, *metrics, family_name@, line_height as int, scale as int, num_glyphs, index_to_loc_format)),
        r is Ok ==> *final(room) == saturating_u64(font_tables_size(primary_tables_of(*glyph_data, *metrics, family_name@, line_height as int, scale as int, num_glyphs, index_to_loc_format))),
{
    let ghost empty = Seq::<(Seq<u8>, Seq<u8>)>::empty();
    proof {
        assert(font_tables_size(empty) == 0);
        assert(tables_map(empty) == Map::<Seq<u8>, Seq<u8>>::empty());
    }
    let bbox = metrics.summary.head_bbox;
    let head = HeadFields {
        font_revision: 0x10000,
        checksum_adjustment: 0,
        flags: metrics.head_flags,
        units_per_em: metrics.units_per_em,
        created: metrics.now_mac_epoch,
        modified: metrics.now_mac_epoch,
        x_min: bbox.0,
        y_min: bbox.1,
        x_max: bbox.2,
        y_max: bbox.3,
        mac_style: 0,
        lowest_rec_ppem: 8,
        index_to_loc_format,
    };
    let log = put_table(builder, [104, 101, 97, 100], dump_head(&head), room, Ghost(empty))?;
    let family_chars = str_chars(family_name);
    if family_chars.len() > 16375 {
        return Err(Error::Conversion(String::from_str("family name too long for the name table")));
    }
    let records = build_name_records(family_name);
    proof {
        lemma_name_records_short(family_name@);
        assert forall|i: int| 0 <= i < records@.len() implies (#[trigger] records@[i]).4@.len() <= 16383 by {
            assert(records_view(records@)[i].4 == records@[i].4@);
        }
        assert(records@.map_values(|e: (u16, u16, u16, u16, String)| (e.0, e.1, e.2, e.3, e.4@)) =~= records_view(records@));
    }
    let log = put_table(builder, [110, 97, 109, 101], dump_name(&records), room, log)?;
    let os2 = build_os2_fields(glyph_data, line_height, metrics, scale)?;
    let log = put_table(builder, [79, 83, 47, 50], dump_os2(&os2), room, log)?;
    let mut ranges: Vec<(u16, u16)> = Vec::new();
    ranges.push((u16::MAX, 0x000A));
    let log = put_table(builder, [103, 97, 115, 112], dump_gasp(1, &ranges), room, log)?;
    let maxp = MaxpFields {
        num_glyphs,
        max_points: Some(if glyph_data.max_points > 4 { glyph_data.max_points } else { 4 }),
        max_contours: Some(if glyph_data.max_contours > 1 { glyph_data.max_contours } else { 1 }),
        max_composite_points: Some(0),
        max_composite_contours: Some(0),
        max_zones: Some(2),
        max_twilight_points: Some(0),
        max_storage: Some(0),
        max_function_defs: Some(0),
        max_instruction_defs: Some(0),
        max_stack_elements: Some(0),
        max_size_of_instructions: Some(0),
        max_component_elements: Some(0),
        max_component_depth: Some(0),
    };
    let log = put_table(builder, [109, 97, 120, 112], dump_maxp(&maxp), room, log)?;
    proof {
        assert(ranges@ =~= gasp_ranges_of());
        assert(log@ =~= seq![
            (head_tag(), head_table_bytes(head_fields_of(*metrics, index_to_loc_format))),
            (name_tag(), name_table_bytes(name_records_of(family_name@))),
            (os2_tag(), os2_table_bytes(os2_fields_of(glyph_data.glyph_metrics@, glyph_data.cmap_entries@, line_height as int, *metrics, scale as int))),
            (gasp_tag(), gasp_table_bytes(1, gasp_ranges_of())),
            (maxp_tag(), maxp_table_bytes(maxp_fields_of(num_glyphs, glyph_data.max_points, glyph_data.max_contours))),
        ]);
    }
    Ok(())
}


/// Whether the glyph names, read as text, are `names`.
pub open spec fn names_view(names: Seq<String>) -> Seq<Seq<char>> {
    names.map_values(|n: String| n@)
}

/// The post, cmap, hhea and hmtx tables, in the order they are added.
pub open spec fn layout_tables_of(glyph_data: GlyphBuildData, metrics: FontGlobalMetrics, num_glyphs: u16, scale: int) -> Seq<(Seq<u8>, Seq<u8>)> {
    seq![
        (post_tag(), post_table_bytes(names_view(glyph_data.glyph_names@), -scale as i16, (scale / 2) as i16)),
        (cmap_tag(), cmap_table_bytes(glyph_data.cmap_mappings@.to_set())),
        (hhea_tag(), hhea_table_bytes(hhea_fields_of(metrics, num_glyphs))),
        (hmtx_tag(), hmtx_table_bytes(hmtx_metrics_of(glyph_data.glyph_metrics@))),
    ]
}

/// Adds the post, cmap, hhea and hmtx tables after the tables `log`.
pub(crate) fn add_layout_tables(
    builder: &mut FontBuilder,
    glyph_data: &GlyphBuildData,
    metrics: &FontGlobalMetrics,
    num_glyphs: u16,
    scale: u32,
    room: &mut u64,
    log: Ghost<Seq<(Seq<u8>, Seq<u8>)>>,
) -> (r: Result<(), Error>)
    requires
        font_entries(*old(builder)) == tables_map(log@),
        distinct_tags(log@),
        forall|i: int| 0 <= i < log@.len() ==> {
            let t = #[trigger] log@[i].0;
            t != post_tag() && t != cmap_tag() && t != hhea_tag() && t != hmtx_tag()
        },
        *old(room) == saturating_u64(font_tables_size(log@)),
    ensures
        r is Err ==> r matches Err(Error::Conversion(_)),
        has_cmap_conflict(glyph_data.cmap_mappings@) && scale <= i16::MAX ==> r is Err,
        r is Ok ==> scale <= i16::MAX && !has_cmap_conflict(glyph_data.cmap_mappings@),
        r is Ok ==> post_table_writes(names_view(glyph_data.glyph_names@), -(scale as int) as i16, (scale / 2) as i16)
            && cmap_table_writes(glyph_data.cmap_mappings@.to_set()),
        scale <= i16::MAX && !has_cmap_conflict(glyph_data.cmap_mappings@) && glyph_data.glyph_metrics@.len() <= u16::MAX
            && post_table_writes(names_view(glyph_data.glyph_names@), -(scale as int) as i16, (scale / 2) as i16)
            && cmap_table_writes(glyph_data.cmap_mappings@.to_set()) ==> r is Ok,
        r is Ok ==> font_entries(*final(builder)) == tables_map(log@ + layout_tables_of(*glyph_data, *metrics, num_glyphs, scale as int)),
        r is Ok ==> distinct_tags(log@ + layout_tables_of(*glyph_data, *metrics, num_glyphs, scale as int)),
        r is Ok ==> *final(room) == saturating_u64(font_tables_size(log@ + layout_tables_of(*glyph_data, *metrics, num_glyphs, scale as int))),
{
    let ghost start = log@;
    let position = u32_to_i16(scale, "underline position to i16")?;
    let thickness = u32_to_i16(scale / 2, "underline thickness to i16")?;
    proof {
        assert forall|i: int| 0 <= i < start.len() implies #[trigger] start[i].0 != post_tag() by {}
    }
    let log = put_table(builder, [112, 111, 115, 116], dump_post(&glyph_data.glyph_names, -position, thickness), room, log)?;
    let ghost after_post = log@;
    proof {
        assert forall|i: int| 0 <= i < after_post.len() implies #[trigger] after_post[i].0 != cmap_tag() by {
            if i < start.len() {
                assert(after_post[i] == start[i]);
            }
        }
    }
    let log = match dump_cmap(&glyph_data.cmap_mappings) {
        Ok(bytes) => put_table(builder, [99, 109, 97, 112], Ok(bytes), room, log)?,
        Err(CmapFailure::Conflict(conflict)) => {
            let mut message = String::from_str("failed to build cmap: ");
            message.append(conflict.as_str());
            return Err(Error::Conversion(message));
        },
        Err(CmapFailure::Write(message)) => return Err(Error::Conversion(message)),
    };
    let ghost after_cmap = log@;
    proof {
        assert forall|i: int| 0 <= i < after_cmap.len() implies #[trigger] after_cmap[i].0 != hhea_tag() by {
            if i < start.len() {
                assert(after_cmap[i] == start[i]);
            } else if i == start.len() {
                assert(after_cmap[i] == after_post[i]);
            }
        }
    }
    let summary = metrics.summary;
    let hhea = HheaFields {
        ascender: metrics.ascender,
        descender: metrics.descender,
        line_gap: 0,
        advance_width_max: summary.advance_width_max,
        min_left_side_bearing: summary.min_lsb,
        min_right_side_bearing: summary.min_rsb,
        x_max_extent: summary.x_max_extent,
        caret_slope_rise: 1,
        caret_slope_run: 0,
        caret_offset: 0,
        number_of_h_metrics: num_glyphs,
    };
    let log = put_table(builder, [104, 104, 101, 97], dump_hhea(&hhea), room, log)?;
    let ghost after_hhea = log@;
    proof {
        assert forall|i: int| 0 <= i < after_hhea.len() implies #[trigger] after_hhea[i].0 != hmtx_tag() by {
            if i < start.len() {
                assert(after_hhea[i] == start[i]);
            } else if i == start.len() {
                assert(after_hhea[i] == after_post[i]);
            } else if i == start.len() + 1 {
                assert(after_hhea[i] == after_cmap[i]);
            }
        }
    }
    let long_metrics = build_hmtx_metrics(&glyph_data.glyph_metrics)?;
    let log = put_table(builder, [104, 109, 116, 120], dump_hmtx(&long_metrics), room, log)?;
    proof {
        assert(log@ =~= start + layout_tables_of(*glyph_data, *metrics, num_glyphs, scale as int));
    }
    Ok(())
}

/// The hmtx table's `(advance, left side bearing)` per glyph.
fn build_hmtx_metrics(glyph_metrics: &Vec<(u32, i16)>) -> (r: Result<Vec<(u16, i16)>, Error>)
    ensures
        r matches Ok(v) && v@ == hmtx_metrics_of(glyph_metrics@),
{
    let mut long_metrics: Vec<(u16, i16)> = Vec::new();
    let mut i: usize = 0;
    while i < glyph_metrics.len()
        invariant
            i <= glyph_metrics@.len(),
            long_metrics@ == hmtx_metrics_of(glyph_metrics@.take(i as int)),
        decreases glyph_metrics@.len() - i,
    {
        let (advance_width, lsb) = glyph_metrics[i];
        let advance = u32_to_u16(if advance_width < 65535 { advance_width } else { 65535 }, "hmtx advance width to u16")?;
        long_metrics.push((advance, lsb));
        proof {
            assert(hmtx_metrics_of(glyph_metrics@.take(i + 1)) =~= hmtx_metrics_of(glyph_metrics@.take(i as int)).push((advance, lsb)));
        }
        i = i + 1;
    }
    proof {
        assert(glyph_metrics@.take(glyph_metrics@.len() as int) =~= glyph_metrics@);
    }
    Ok(long_metrics)
}

} // verus!
