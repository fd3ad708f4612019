//! Assembles a TrueType font from bitmap glyphs.

pub mod font_writer;
pub mod glyphs;
pub mod metrics;
pub mod names;
pub mod tables;

use crate::error::Error;
use crate::glyph::{BitmapGlyph, FontConfig};
use core::num::TryFromIntError;
use write_fonts::tables::glyf::{GlyfLocaBuilder, Glyf};
use write_fonts::tables::loca::Loca;
use write_fonts::FontBuilder;
use font_writer::{
    build_font, build_glyf_loca, distinct_tags, dump_glyf, dump_loca, font_entries, font_file_bytes,
    font_tables_size, tables_map, glyf_glyphs, glyf_loca_of, glyf_table_bytes, has_cmap_conflict, head_table_bytes,
    hhea_table_bytes, hmtx_table_bytes, loca_table_bytes, maxp_table_bytes, name_table_bytes,
    new_font_builder, new_glyf_loca_builder, os2_table_bytes, post_table_bytes, gasp_table_bytes,
    cmap_table_bytes, cmap_table_writes, glyf_table_writes, loca_table_writes, name_table_writes,
    post_table_writes,
};
use glyphs::{
    append_bitmap_glyphs, built_glyphs, char_mappings, cmap_entries_of, describes, fits_glyf, GlyphBuildData,
    glyph_bboxes_of, glyph_converts, glyph_metrics_of, glyph_names_of, init_glyph_data,
    is_mapped, lemma_described_fields, lemma_extends_describes, mapped_glyphs, max_contour_count, max_point_count, notdef_glyph, notdef_side,
    total_points, units_per_em_of, GlyphView,
};
use metrics::{FontGlobalMetrics, global_metrics_of, global_metrics_succeed, prepare_global_metrics, seconds_since_unix_epoch, system_now};
use names::{family_fits, name_records_of};
use tables::{
    add_layout_tables, add_primary_tables, cmap_tag, dsig_tag, gasp_ranges_of, gasp_tag, glyf_tag,
    head_fields_of, head_tag, hhea_fields_of, hhea_tag, hmtx_metrics_of, hmtx_tag, loca_tag, maxp_fields_of,
    layout_tables_of, maxp_tag, name_tag, names_view, os2_fields_convert, os2_fields_of, os2_tag, post_tag,
    primary_tables_of, put_table, saturating_u64,
};
use vstd::prelude::*;
use vstd::string::*;

verus! {

/// `r` is a conversion error whose text starts with `context` and `": "`.
pub open spec fn is_conversion_error<T>(r: Result<T, Error>, context: Seq<char>) -> bool {
    &&& r matches Err(Error::Conversion(text))
    &&& text@.len() >= context.len() + 2
    &&& text@.subrange(0, context.len() as int) == context
}

/// Error for a failed integer conversion: `format!("{context}: {error}")`.
#[verifier::external_body]
fn conversion_failure(context: &str, error: TryFromIntError) -> (e: Error)
    ensures
        is_conversion_error(Err::<(), Error>(e), context@),
{
    Error::Conversion(format!("{context}: {error}"))
}

/// `i32::try_from` on a `u32`: the same number when it fits, else an error.
#[verifier::external_body]
fn i32_try_from_u32(value: u32) -> (r: Result<i32, TryFromIntError>)
    ensures
        r is Ok <==> value <= i32::MAX,
        r matches Ok(v) ==> v == value,
{
    i32::try_from(value)
}

/// `i64::try_from` on a `u64`: the same number when it fits, else an error.
#[verifier::external_body]
fn i64_try_from_u64(value: u64) -> (r: Result<i64, TryFromIntError>)
    ensures
        r is Ok <==> value <= i64::MAX,
        r matches Ok(v) ==> v == value,
{
    i64::try_from(value)
}

pub(crate) fn usize_to_u16(value: usize, context: &str) -> (r: Result<u16, Error>)
    ensures
        value <= u16::MAX ==> r == Ok::<u16, Error>(value as u16),
        value > u16::MAX ==> is_conversion_error(r, context@),
{
    match u16::try_from(value) {
        Ok(v) => Ok(v),
        Err(e) => Err(conversion_failure(context, e)),
    }
}

pub(crate) fn u32_to_u16(value: u32, context: &str) -> (r: Result<u16, Error>)
    ensures
        value <= u16::MAX ==> r == Ok::<u16, Error>(value as u16),
        value > u16::MAX ==> is_conversion_error(r, context@),
{
    match u16::try_from(value) {
        Ok(v) => Ok(v),
        Err(e) => Err(conversion_failure(context, e)),
    }
}

pub(crate) fn u32_to_i32(value: u32, context: &str) -> (r: Result<i32, Error>)
    ensures
        value <= i32::MAX ==> r == Ok::<i32, Error>(value as i32),
        value > i32::MAX ==> is_conversion_error(r, context@),
{
    match i32_try_from_u32(value) {
        Ok(v) => Ok(v),
        Err(e) => Err(conversion_failure(context, e)),
    }
}

pub(crate) fn u64_to_i64(value: u64, context: &str) -> (r: Result<i64, Error>)
    ensures
        value <= i64::MAX ==> r == Ok::<i64, Error>(value as i64),
        value > i64::MAX ==> is_conversion_error(r, context@),
{
    match i64_try_from_u64(value) {
        Ok(v) => Ok(v),
        Err(e) => Err(conversion_failure(context, e)),
    }
}

pub(crate) fn i32_to_i16(value: i32, context: &str) -> (r: Result<i16, Error>)
    ensures
        i16::MIN <= value <= i16::MAX ==> r == Ok::<i16, Error>(value as i16),
        !(i16::MIN <= value <= i16::MAX) ==> is_conversion_error(r, context@),
{
    match i16::try_from(value) {
        Ok(v) => Ok(v),
        Err(e) => Err(conversion_failure(context, e)),
    }
}

pub(crate) fn u32_to_i16(value: u32, context: &str) -> (r: Result<i16, Error>)
    ensures
        value <= i16::MAX ==> r == Ok::<i16, Error>(value as i16),
        value > i16::MAX ==> is_conversion_error(r, context@),
{
    let as_i32 = u32_to_i32(value, context)?;
    i32_to_i16(as_i32, context)
}

pub(crate) fn u64_to_i16(value: u64, context: &str) -> (r: Result<i16, Error>)
    ensures
        value <= i16::MAX ==> r == Ok::<i16, Error>(value as i16),
        value > i16::MAX ==> is_conversion_error(r, context@),
{
    match i16::try_from(value) {
        Ok(v) => Ok(v),
        Err(e) => Err(conversion_failure(context, e)),
    }
}

pub(crate) fn i16_to_u16_non_negative(value: i16, context: &str) -> (r: Result<u16, Error>)
    ensures
        value >= 0 ==> r == Ok::<u16, Error>(value as u16),
        value < 0 ==> is_conversion_error(r, context@),
{
    match u16::try_from(value) {
        Ok(v) => Ok(v),
        Err(e) => Err(conversion_failure(context, e)),
    }
}

/// Baseline height in pixels for a line height: a fifth of it, at least one.
pub open spec fn baseline_of(line_height: int) -> int {
    if line_height / 5 >= 1 {
        line_height / 5
    } else {
        1
    }
}

pub(crate) fn baseline_from_line_height(line_height: u32) -> (r: Result<i16, Error>)
    ensures
        line_height <= i32::MAX && baseline_of(line_height as int) <= i16::MAX ==> r == Ok::<i16, Error>(
            baseline_of(line_height as int) as i16,
        ),
        line_height > i32::MAX ==> is_conversion_error(r, "line height to i32"@),
        line_height <= i32::MAX && baseline_of(line_height as int) > i16::MAX ==> is_conversion_error(r, "baseline to i16"@),
{
    let line_height_i32 = u32_to_i32(line_height, "line height to i32")?;
    let fifth = line_height_i32 / 5;
    let baseline = if fifth >= 1 { fifth } else { 1 };
    i32_to_i16(baseline, "baseline to i16")
}

/// Line height in pixels used for building: the configured one, at least one.
pub open spec fn effective_line_height(config: FontConfig) -> int {
    if config.line_height >= 1 {
        config.line_height as int
    } else {
        1
    }
}

/// Font units per pixel used for building: the configured scale, at least one.
pub open spec fn effective_scale(config: FontConfig) -> int {
    if config.scale >= 1 {
        config.scale as int
    } else {
        1
    }
}

/// The `.notdef` glyph of a font with this configuration.
pub open spec fn font_notdef(config: FontConfig) -> GlyphView {
    let lh = effective_line_height(config);
    let sc = effective_scale(config);
    notdef_glyph(notdef_side(units_per_em_of(lh, sc), sc))
}

/// The glyph outlines go into the glyf table: `.notdef` fits, the scale fits
/// an `i32`, and every mapped glyph converts.
pub open spec fn glyphs_convert(glyphs: Seq<BitmapGlyph>, config: FontConfig) -> bool {
    let lh = effective_line_height(config);
    let sc = effective_scale(config);
    let m = mapped_glyphs(glyphs);
    let notdef = font_notdef(config);
    &&& total_points(notdef.0) <= u16::MAX
    &&& fits_glyf(notdef)
    &&& sc <= i32::MAX
    &&& forall|k: int| 0 <= k < m.len() ==> glyph_converts(#[trigger] m[k], k + 1, lh, sc)
}

/// Every value that the font's tables are computed from fits its field, the
/// clock having given `now`.
#[verifier::opaque]
pub open spec fn font_converts(glyphs: Seq<BitmapGlyph>, config: FontConfig, now: Result<u64, String>) -> bool {
    let lh = effective_line_height(config);
    let sc = effective_scale(config);
    let m = mapped_glyphs(glyphs);
    let notdef = font_notdef(config);
    let units = units_per_em_of(lh, sc);
    &&& glyphs_convert(glyphs, config)
    &&& m.len() > 0
    &&& global_metrics_succeed(lh, baseline_of(lh), sc, now)
    &&& m.len() + 1 <= u16::MAX
    &&& os2_fields_convert(glyph_metrics_of(m, units, sc), lh, sc)
    &&& !has_cmap_conflict(char_mappings(m))
    &&& family_fits(config.family_name@)
}

/// What `write_fonts` is asked to serialize can be serialized: the name, post,
/// cmap, glyf and loca tables, and a font file whose table offsets fit a `u32`.
pub open spec fn font_writes(glyphs: Seq<BitmapGlyph>, config: FontConfig, now_unix: int) -> bool {
    let lh = effective_line_height(config);
    let sc = effective_scale(config);
    let m = mapped_glyphs(glyphs);
    let built = glyf_loca_of(built_glyphs(font_notdef(config), m, lh, sc));
    &&& name_table_writes(name_records_of(config.family_name@))
    &&& post_table_writes(glyph_names_of(m), -sc as i16, (sc / 2) as i16)
    &&& cmap_table_writes(char_mappings(m).to_set())
    &&& glyf_table_writes(built.0)
    &&& loca_table_writes(built.1)
    &&& 12 + font_tables_size(font_tables(glyphs, config, now_unix)) <= u32::MAX
}

/// The empty digital signature table: version 1, no signatures, no flags.
pub open spec fn empty_dsig() -> Seq<u8> {
    seq![0u8, 0u8, 0u8, 1u8, 0u8, 0u8, 0u8, 0u8]
}

/// The tables of the font, in the order they are added, the clock having
/// given `now_unix` seconds since the Unix epoch.
#[verifier::opaque]
pub open spec fn font_tables(glyphs: Seq<BitmapGlyph>, config: FontConfig, now_unix: int) -> Seq<(Seq<u8>, Seq<u8>)> {
    let lh = effective_line_height(config);
    let sc = effective_scale(config);
    let m = mapped_glyphs(glyphs);
    let notdef = font_notdef(config);
    let units = units_per_em_of(lh, sc);
    let metrics_list = glyph_metrics_of(m, units, sc);
    let bboxes = glyph_bboxes_of(notdef, m, lh, sc);
    let metrics = global_metrics_of(lh, baseline_of(lh), sc, metrics_list, bboxes, now_unix);
    let built = glyf_loca_of(built_glyphs(notdef, m, lh, sc));
    let loca_format: i16 = if built.2 { 1 } else { 0 };
    let num_glyphs = (m.len() + 1) as u16;
    seq![
        (head_tag(), head_table_bytes(head_fields_of(metrics, loca_format))),
        (name_tag(), name_table_bytes(name_records_of(config.family_name@))),
        (os2_tag(), os2_table_bytes(os2_fields_of(metrics_list, cmap_entries_of(m), lh, metrics, sc))),
        (gasp_tag(), gasp_table_bytes(1, gasp_ranges_of())),
        (maxp_tag(), maxp_table_bytes(maxp_fields_of(num_glyphs, max_point_count(m, lh, sc) as u16, max_contour_count(m) as u16))),
        (post_tag(), post_table_bytes(glyph_names_of(m), -sc as i16, (sc / 2) as i16)),
        (cmap_tag(), cmap_table_bytes(char_mappings(m).to_set())),
        (hhea_tag(), hhea_table_bytes(hhea_fields_of(metrics, num_glyphs))),
        (hmtx_tag(), hmtx_table_bytes(hmtx_metrics_of(metrics_list))),
        (glyf_tag(), glyf_table_bytes(built.0)),
        (loca_tag(), loca_table_bytes(built.1)),
        (dsig_tag(), empty_dsig()),
    ]
}

/// Builds a TrueType font from bitmap glyphs, with the current time as its
/// creation and modification time.
pub fn build_ttf(glyphs: &[BitmapGlyph], config: &FontConfig) -> (r: Result<Vec<u8>, Error>)
    ensures
        r matches Err(Error::NoGlyphs) <==> glyphs_convert(glyphs@, *config) && mapped_glyphs(glyphs@).len() == 0,
        r matches Ok(bytes) ==> exists|now_unix: u64| {
            &&& #[trigger] font_converts(glyphs@, *config, Ok::<u64, String>(now_unix))
            &&& font_writes(glyphs@, *config, now_unix as int)
            &&& bytes@ == font_file_bytes(tables_map(font_tables(glyphs@, *config, now_unix as int)))
        },
{
    let now = seconds_since_unix_epoch(system_now());
    let r = build_ttf_at(glyphs, config, now);
    proof {
        if r is Ok {
            reveal(font_converts);
            let t = now->Ok_0;
            assert(now == Ok::<u64, String>(t));
        }
    }
    r
}

/// Builds a TrueType font from bitmap glyphs; `now` is what the clock gave:
/// seconds since the Unix epoch, or why there are none.
///
/// Only glyphs with codepoints up to `U+FFFF` enter the font, after `.notdef`.
/// Each glyph's filled pixels are merged into rectangles, traced as closed
/// paths in font space (y up, `line_height` above the baseline at the top of
/// the bitmap row 0, shifted by the glyph's offsets) and scaled by `scale`.
#[verifier::rlimit(100)]
pub fn build_ttf_at(glyphs: &[BitmapGlyph], config: &FontConfig, now: Result<u64, String>) -> (r: Result<Vec<u8>, Error>)
    ensures
        r matches Err(Error::NoGlyphs) <==> glyphs_convert(glyphs@, *config) && mapped_glyphs(glyphs@).len() == 0,
        r is Ok ==> font_converts(glyphs@, *config, now) && font_writes(glyphs@, *config, now->Ok_0 as int),
        now is Ok && font_converts(glyphs@, *config, now) && font_writes(glyphs@, *config, now->Ok_0 as int) ==> r is Ok,
        r matches Ok(bytes) ==> bytes@ == font_file_bytes(tables_map(font_tables(glyphs@, *config, now->Ok_0 as int))),
{
    let line_height: u32 = if config.line_height >= 1 { config.line_height as u32 } else { 1 };
    let scale: u32 = if config.scale >= 1 { config.scale } else { 1 };
    let baseline = baseline_from_line_height(line_height)?;
    proof {
        reveal(font_converts);
    }
    let (glyph_data, glyf_builder) = collect_glyphs(glyphs, config, line_height, scale)?;
    let ghost lh = line_height as int;
    let ghost sc = scale as int;
    let ghost m = mapped_glyphs(glyphs@);
    let ghost notdef = font_notdef(*config);
    let ghost units = units_per_em_of(lh, sc);
    proof {
        lemma_described_fields(glyph_data, notdef, units, m, lh, sc);
    }

    let metrics = prepare_global_metrics(line_height, baseline, scale, &glyph_data, now)?;

    let (glyf, loca, long_loca) = build_glyf_loca(glyf_builder);
    let index_to_loc_format: i16 = if long_loca { 1 } else { 0 };

    let num_glyphs = usize_to_u16(glyph_data.glyph_names.len(), "num_glyphs to u16")?;
    let mut builder = new_font_builder();
    assert(font_entries(builder) =~= Map::<Seq<u8>, Seq<u8>>::empty());
    let mut room: u64 = 0;
    add_font_tables(
        &mut builder,
        &glyph_data,
        &metrics,
        config.family_name.as_str(),
        line_height,
        scale,
        num_glyphs,
        index_to_loc_format,
        &mut room,
    )?;
    let ghost tables = font_tables_from(glyph_data, metrics, config.family_name@, line_height as int, scale as int, num_glyphs, index_to_loc_format);
    proof {
        lemma_font_tables(glyphs@, *config, now, glyph_data, metrics, (glyf, loca, long_loca), num_glyphs);
    }
    let bytes = finish_font(&mut builder, &glyf, &loca, &mut room, Ghost(tables))?;
    Ok(bytes)
}

/// The head, name, OS/2, gasp, maxp, post, cmap, hhea and hmtx tables for
/// this glyph data and these metrics.
#[verifier::opaque]
pub open spec fn font_tables_from(
    glyph_data: GlyphBuildData,
    metrics: FontGlobalMetrics,
    family: Seq<char>,
    line_height: int,
    scale: int,
    num_glyphs: u16,
    index_to_loc_format: i16,
) -> Seq<(Seq<u8>, Seq<u8>)> {
    primary_tables_of(glyph_data, metrics, family, line_height, scale, num_glyphs, index_to_loc_format)
        + layout_tables_of(glyph_data, metrics, num_glyphs, scale)
}

/// Adds the nine tables other than glyf, loca and DSIG.
fn add_font_tables(
    builder: &mut FontBuilder,
    glyph_data: &GlyphBuildData,
    metrics: &FontGlobalMetrics,
    family_name: &str,
    line_height: u32,
    scale: u32,
    num_glyphs: u16,
    index_to_loc_format: i16,
    room: &mut u64,
) -> (r: Result<(), Error>)
    requires
        font_entries(*old(builder)) == Map::<Seq<u8>, Seq<u8>>::empty(),
        *old(room) == 0,
        glyph_data.glyph_metrics@.len() <= u32::MAX,
    ensures
        r is Err ==> r matches Err(Error::Conversion(_)),
        r is Ok ==> os2_fields_convert(glyph_data.glyph_metrics@, line_height as int, scale as int),
        r is Ok ==> !has_cmap_conflict(glyph_data.cmap_mappings@),
        r is Ok ==> family_fits(family_name@),
        r is Ok ==> name_table_writes(name_records_of(family_name@))
            && post_table_writes(names_view(glyph_data.glyph_names@), -(scale as int) as i16, (scale / 2) as i16)
            && cmap_table_writes(glyph_data.cmap_mappings@.to_set()),
        os2_fields_convert(glyph_data.glyph_metrics@, line_height as int, scale as int) && family_fits(family_name@)
            && name_table_writes(name_records_of(family_name@)) && scale <= i16::MAX
            && !has_cmap_conflict(glyph_data.cmap_mappings@) && glyph_data.glyph_metrics@.len() <= u16::MAX
            && post_table_writes(names_view(glyph_data.glyph_names@), -(scale as int) as i16, (scale / 2) as i16)
            && cmap_table_writes(glyph_data.cmap_mappings@.to_set()) ==> r is Ok,
        r is Ok ==> ({
            let tables = font_tables_from(*glyph_data, *metrics, family_name@, line_height as int, scale as int, num_glyphs, index_to_loc_format);
            &&& font_entries(*final(builder)) == tables_map(tables)
            &&& distinct_tags(tables)
            &&& tables.len() == 9
            &&& forall|i: int| 0 <= i < 9 ==> {
                let t = #[trigger] tables[i].0;
                t != glyf_tag() && t != loca_tag() && t != dsig_tag()
            }
            &&& *final(room) == saturating_u64(font_tables_size(tables))
        }),
{
    add_primary_tables(builder, glyph_data, metrics, family_name, line_height, scale, num_glyphs, index_to_loc_format, room)?;
    let ghost primary = primary_tables_of(*glyph_data, *metrics, family_name@, line_height as int, scale as int, num_glyphs, index_to_loc_format);
    proof {
        assert forall|i: int| 0 <= i < primary.len() implies {
            let t = #[trigger] primary[i].0;
            t != post_tag() && t != cmap_tag() && t != hhea_tag() && t != hmtx_tag()
        } by {}
    }
    add_layout_tables(builder, glyph_data, metrics, num_glyphs, scale, room, Ghost(primary))?;
    proof {
        reveal(font_tables_from);
        let tables = font_tables_from(*glyph_data, *metrics, family_name@, line_height as int, scale as int, num_glyphs, index_to_loc_format);
        assert forall|i: int| 0 <= i < 9 implies {
            let t = #[trigger] tables[i].0;
            t != glyf_tag() && t != loca_tag() && t != dsig_tag()
        } by {}
    }
    Ok(())
}

/// Law: a line height of zero builds what a line height of one builds. The
/// conditions for a font, and its tables, are those of line height one.
pub proof fn lemma_zero_line_height_acts_as_one(glyphs: Seq<BitmapGlyph>, config: FontConfig, now: Result<u64, String>, now_unix: int)
    requires
        config.line_height == 0,
    ensures
        ({
            let one = FontConfig { family_name: config.family_name, line_height: 1, scale: config.scale };
            &&& glyphs_convert(glyphs, config) == glyphs_convert(glyphs, one)
            &&& font_converts(glyphs, config, now) == font_converts(glyphs, one, now)
            &&& font_writes(glyphs, config, now_unix) == font_writes(glyphs, one, now_unix)
            &&& font_tables(glyphs, config, now_unix) == font_tables(glyphs, one, now_unix)
        }),
{
    reveal(font_converts);
    reveal(font_tables);
}

/// Law: a scale of zero builds what a scale of one builds. The conditions for
/// a font, and its tables, are those of scale one.
pub proof fn lemma_zero_scale_acts_as_one(glyphs: Seq<BitmapGlyph>, config: FontConfig, now: Result<u64, String>, now_unix: int)
    requires
        config.scale == 0,
    ensures
        ({
            let one = FontConfig { family_name: config.family_name, line_height: config.line_height, scale: 1 };
            &&& glyphs_convert(glyphs, config) == glyphs_convert(glyphs, one)
            &&& font_converts(glyphs, config, now) == font_converts(glyphs, one, now)
            &&& font_writes(glyphs, config, now_unix) == font_writes(glyphs, one, now_unix)
            &&& font_tables(glyphs, config, now_unix) == font_tables(glyphs, one, now_unix)
        }),
{
    reveal(font_converts);
    reveal(font_tables);
}

/// Keeping the mapped glyphs twice keeps the same glyphs.
proof fn lemma_mapped_idempotent(glyphs: Seq<BitmapGlyph>)
    ensures
        mapped_glyphs(mapped_glyphs(glyphs)) == mapped_glyphs(glyphs),
{
    let m = mapped_glyphs(glyphs);
    m.filter_lemma(|g: BitmapGlyph| is_mapped(g));
    glyphs.filter_lemma(|g: BitmapGlyph| is_mapped(g));
    lemma_filter_all(m);
}

/// Keeping the mapped glyphs of glyphs that are all mapped keeps them all.
proof fn lemma_filter_all(s: Seq<BitmapGlyph>)
    requires
        forall|i: int| 0 <= i < s.len() ==> is_mapped(#[trigger] s[i]),
    ensures
        mapped_glyphs(s) == s,
    decreases s.len(),
{
    reveal_with_fuel(Seq::filter, 1);
    if s.len() > 0 {
        let rest = s.drop_last();
        assert forall|i: int| 0 <= i < rest.len() implies is_mapped(#[trigger] rest[i]) by {
            assert(rest[i] == s[i]);
        }
        lemma_filter_all(rest);
        assert(is_mapped(s[s.len() - 1]));
        assert(rest.push(s.last()) =~= s);
    } else {
        assert(mapped_glyphs(s) =~= s);
    }
}

/// Law: glyphs beyond `U+FFFF` change nothing. Dropping them beforehand gives
/// the same conditions for a font, the same tables, and the same answer to
/// whether any glyph can be mapped.
pub proof fn lemma_unmapped_glyphs_change_nothing(glyphs: Seq<BitmapGlyph>, config: FontConfig, now: Result<u64, String>, now_unix: int)
    ensures
        ({
            let kept = mapped_glyphs(glyphs);
            &&& mapped_glyphs(kept) == mapped_glyphs(glyphs)
            &&& glyphs_convert(glyphs, config) == glyphs_convert(kept, config)
            &&& font_converts(glyphs, config, now) == font_converts(kept, config, now)
            &&& font_writes(glyphs, config, now_unix) == font_writes(kept, config, now_unix)
            &&& font_tables(glyphs, config, now_unix) == font_tables(kept, config, now_unix)
        }),
{
    lemma_mapped_idempotent(glyphs);
    reveal(font_converts);
    reveal(font_tables);
}

/// The tables built from the glyph data, metrics and glyf/loca tables are the font's tables.
proof fn lemma_font_tables(
    glyphs: Seq<BitmapGlyph>,
    config: FontConfig,
    now: Result<u64, String>,
    glyph_data: GlyphBuildData,
    metrics: FontGlobalMetrics,
    built: (Glyf, Loca, bool),
    num_glyphs: u16,
)
    requires
        ({
            let lh = effective_line_height(config);
            let sc = effective_scale(config);
            let m = mapped_glyphs(glyphs);
            let notdef = font_notdef(config);
            let units = units_per_em_of(lh, sc);
            &&& describes(glyph_data, notdef, units, m, lh, sc)
            &&& now is Ok
            &&& metrics == global_metrics_of(lh, baseline_of(lh), sc, glyph_data.glyph_metrics@, glyph_data.glyph_bboxes@, now->Ok_0 as int)
            &&& built == glyf_loca_of(built_glyphs(notdef, m, lh, sc))
            &&& num_glyphs == m.len() + 1
        }),
    ensures
        font_tables_from(glyph_data, metrics, config.family_name@, effective_line_height(config), effective_scale(config), num_glyphs, if built.2 { 1i16 } else { 0i16 }) + seq![
            (glyf_tag(), glyf_table_bytes(built.0)),
            (loca_tag(), loca_table_bytes(built.1)),
            (dsig_tag(), empty_dsig()),
        ] == font_tables(glyphs, config, now->Ok_0 as int),
{
    let lh = effective_line_height(config);
    let sc = effective_scale(config);
    let m = mapped_glyphs(glyphs);
    let notdef = font_notdef(config);
    let units = units_per_em_of(lh, sc);
    lemma_described_fields(glyph_data, notdef, units, m, lh, sc);
    reveal(font_tables);
    reveal(font_tables_from);
    assert(font_tables_from(glyph_data, metrics, config.family_name@, lh, sc, num_glyphs, if built.2 { 1i16 } else { 0i16 }) + seq![
        (glyf_tag(), glyf_table_bytes(built.0)),
        (loca_tag(), loca_table_bytes(built.1)),
        (dsig_tag(), empty_dsig()),
    ] =~= font_tables(glyphs, config, now->Ok_0 as int));
}

/// The per-glyph data and the glyf/loca builder holding `.notdef` and the
/// mapped glyphs; `NoGlyphs` when no glyph is mapped.
fn collect_glyphs(glyphs: &[BitmapGlyph], config: &FontConfig, line_height: u32, scale: u32) -> (r: Result<(GlyphBuildData, GlyfLocaBuilder), Error>)
    requires
        line_height == effective_line_height(*config),
        scale == effective_scale(*config),
    ensures
        r matches Err(Error::NoGlyphs) <==> glyphs_convert(glyphs@, *config) && mapped_glyphs(glyphs@).len() == 0,
        r is Err ==> r matches Err(Error::Conversion(_)) || r matches Err(Error::NoGlyphs),
        r is Ok <==> glyphs_convert(glyphs@, *config) && mapped_glyphs(glyphs@).len() > 0,
        r matches Ok(v) ==> describes(v.0, font_notdef(*config), units_per_em_of(line_height as int, scale as int), mapped_glyphs(glyphs@), line_height as int, scale as int),
        r matches Ok(v) ==> glyf_glyphs(v.1) == built_glyphs(font_notdef(*config), mapped_glyphs(glyphs@), line_height as int, scale as int),
{
    let ghost notdef = font_notdef(*config);
    let ghost units = units_per_em_of(line_height as int, scale as int);
    let mut glyf_builder = new_glyf_loca_builder();
    let mut glyph_data = init_glyph_data(line_height, scale, &mut glyf_builder)?;
    let ghost start = glyph_data;
    append_bitmap_glyphs(glyphs, line_height, scale, &mut glyf_builder, &mut glyph_data)?;
    proof {
        lemma_extends_describes(start, glyph_data, notdef, units, mapped_glyphs(glyphs@), line_height as int, scale as int);
        assert(glyf_glyphs(glyf_builder) =~= built_glyphs(notdef, mapped_glyphs(glyphs@), line_height as int, scale as int));
    }
    if glyph_data.cmap_entries.len() == 0 {
        return Err(Error::NoGlyphs);
    }
    Ok((glyph_data, glyf_builder))
}

/// Adds the glyf, loca and empty DSIG tables after the tables `log` and writes the font file.
fn finish_font(builder: &mut FontBuilder, glyf: &Glyf, loca: &Loca, room: &mut u64, log: Ghost<Seq<(Seq<u8>, Seq<u8>)>>) -> (r: Result<Vec<u8>, Error>)
    requires
        font_entries(*old(builder)) == tables_map(log@),
        distinct_tags(log@),
        log@.len() == 9,
        forall|i: int| 0 <= i < 9 ==> {
            let t = #[trigger] log@[i].0;
            t != glyf_tag() && t != loca_tag() && t != dsig_tag()
        },
        *old(room) == saturating_u64(font_tables_size(log@)),
    ensures
        r is Err ==> r matches Err(Error::Conversion(_)),
        r is Ok ==> glyf_table_writes(*glyf) && loca_table_writes(*loca) && 12 + font_tables_size(log@ + seq![
            (glyf_tag(), glyf_table_bytes(*glyf)),
            (loca_tag(), loca_table_bytes(*loca)),
            (dsig_tag(), empty_dsig()),
        ]) <= u32::MAX,
        glyf_table_writes(*glyf) && loca_table_writes(*loca) && 12 + font_tables_size(log@ + seq![
            (glyf_tag(), glyf_table_bytes(*glyf)),
            (loca_tag(), loca_table_bytes(*loca)),
            (dsig_tag(), empty_dsig()),
        ]) <= u32::MAX ==> r is Ok,
        r matches Ok(bytes) ==> bytes@ == font_file_bytes(tables_map(log@ + seq![
            (glyf_tag(), glyf_table_bytes(*glyf)),
            (loca_tag(), loca_table_bytes(*loca)),
            (dsig_tag(), empty_dsig()),
        ])),
{
    let ghost start = log@;
    proof {
        assert forall|i: int| 0 <= i < start.len() implies #[trigger] start[i].0 != glyf_tag() by {}
    }
    let log = put_table(builder, [103, 108, 121, 102], dump_glyf(glyf), room, log)?;
    let ghost before_loca = log@;
    proof {
        assert forall|i: int| 0 <= i < before_loca.len() implies #[trigger] before_loca[i].0 != loca_tag() by {
            if i < 9 {
                assert(before_loca[i] == start[i]);
            }
        }
    }
    let log = put_table(builder, [108, 111, 99, 97], dump_loca(loca), room, log)?;
    let ghost before_dsig = log@;
    proof {
        assert forall|i: int| 0 <= i < before_dsig.len() implies #[trigger] before_dsig[i].0 != dsig_tag() by {
            if i < 9 {
                assert(before_dsig[i] == start[i]);
            } else if i == 9 {
                assert(before_dsig[i] == before_loca[i]);
            }
        }
    }
    let mut dsig: Vec<u8> = Vec::new();
    dsig.push(0);
    dsig.push(0);
    dsig.push(0);
    dsig.push(1);
    dsig.push(0);
    dsig.push(0);
    dsig.push(0);
    dsig.push(0);
    proof {
        assert(dsig@ =~= empty_dsig());
    }
    let log = put_table(builder, [68, 83, 73, 71], Ok(dsig), room, log)?;
    proof {
        assert(log@ =~= start + seq![
            (glyf_tag(), glyf_table_bytes(*glyf)),
            (loca_tag(), loca_table_bytes(*loca)),
            (dsig_tag(), empty_dsig()),
        ]);
    }
    if *room > u32::MAX as u64 - 12 {
        return Err(Error::Conversion(String::from_str("font exceeds the 4 GiB that table offsets can address")));
    }
    proof {
        assert(log@ =~= start + seq![
            (glyf_tag(), glyf_table_bytes(*glyf)),
            (loca_tag(), loca_table_bytes(*loca)),
            (dsig_tag(), empty_dsig()),
        ]);
        assert(font_tables_size(log@) <= u32::MAX - 12);
        assert(tables_map(log@) == font_entries(*builder) && distinct_tags(log@) && log@.len() <= 4095
            && 12 + font_tables_size(log@) <= u32::MAX);
    }
    Ok(build_font(builder))
}

} // verus!
