//! Calls into `kurbo` paths and `write_fonts` tables.
//!
//! Paths are modelled by their elements (`path_steps`), with whole-number
//! points; glyphs by what they hold (`glyph_view`); the glyf/loca builder by the
//! glyphs added to it; the font builder by its map from tag to table data. The bytes
//! of the fixed-layout tables (head, hhea, maxp, gasp, hmtx) are spelled out;
//! what the other tables serialize to is named per table, as a function of the
//! plain values they are built from. Tables are serialized with `write_fonts::dump_table` and put
//! in the font with `FontBuilder::add_raw`, which is what `FontBuilder::add_table`
//! does; a failed serialization is reported in the words of `BuilderError`.

use super::glyphs::{steps_bbox, traced_contours, contour_points_bbox, deltas_fit, total_points, GlyphView, PathStep, steps_within};
use super::tables::{HeadFields, HheaFields, MaxpFields, Os2Fields};
use kurbo::{BezPath, Point};
use vstd::prelude::*;
use write_fonts::tables::cmap::Cmap;
use write_fonts::tables::gasp::{Gasp, GaspRange, GaspRangeBehavior};
use write_fonts::tables::glyf::{Glyf, GlyfLocaBuilder, SimpleGlyph};
use write_fonts::tables::head::{Flags, Head, MacStyle};
use write_fonts::tables::hhea::Hhea;
use write_fonts::tables::hmtx::Hmtx;
use write_fonts::tables::loca::{Loca, LocaFormat};
use write_fonts::tables::maxp::Maxp;
use write_fonts::tables::name::{Name, NameRecord};
use write_fonts::tables::os2::{Os2, SelectionFlags};
use write_fonts::tables::post::Post;
use write_fonts::tables::vmtx::LongMetric;
use write_fonts::types::{FWord, Fixed, GlyphId, LongDateTime, NameId, Tag, UfWord};
use write_fonts::{FontBuilder, OffsetMarker};

verus! {

#[verifier::external_type_specification]
#[verifier::external_body]
pub struct ExBezPath(BezPath);

#[verifier::external_type_specification]
#[verifier::external_body]
pub struct ExSimpleGlyph(SimpleGlyph);

#[verifier::external_type_specification]
#[verifier::external_body]
pub struct ExGlyfLocaBuilder(GlyfLocaBuilder);

#[verifier::external_type_specification]
#[verifier::external_body]
pub struct ExGlyf(Glyf);

#[verifier::external_type_specification]
#[verifier::external_body]
pub struct ExLoca(Loca);

#[verifier::external_type_specification]
#[verifier::external_body]
pub struct ExFontBuilder<'a>(FontBuilder<'a>);

/// The elements of a `kurbo` path, each point a whole number.
pub uninterp spec fn path_steps(path: BezPath) -> Seq<PathStep>;

/// What a `SimpleGlyph` holds: its contours of `(x, y, on_curve, cubic)` points, its
/// bounding box, its instruction bytes and its overlap flag.
pub uninterp spec fn glyph_view(glyph: SimpleGlyph) -> GlyphView;

/// The glyphs added to a `GlyfLocaBuilder`, in order.
pub uninterp spec fn glyf_glyphs(builder: GlyfLocaBuilder) -> Seq<GlyphView>;

/// What `GlyfLocaBuilder::build` makes of these glyphs: the glyf table, the loca
/// table, and whether the loca table uses the long format.
pub uninterp spec fn glyf_loca_of(glyphs: Seq<GlyphView>) -> (Glyf, Loca, bool);

/// The bytes that `write_fonts::dump_table` writes for a glyf table.
pub uninterp spec fn glyf_table_bytes(glyf: Glyf) -> Seq<u8>;

/// The bytes that `write_fonts::dump_table` writes for a loca table.
pub uninterp spec fn loca_table_bytes(loca: Loca) -> Seq<u8>;

/// The `n` bytes of `v`, most significant first; a negative `v` is written in
/// two's complement.
pub open spec fn be_bytes(v: int, n: nat) -> Seq<u8>
    decreases n,
{
    if n == 0 {
        Seq::empty()
    } else {
        be_bytes(v / 256, (n - 1) as nat).push((v % 256) as u8)
    }
}

/// The two bytes of a 16-bit field.
pub open spec fn be16(v: int) -> Seq<u8> {
    be_bytes(v, 2)
}

/// The four bytes of a 32-bit field.
pub open spec fn be32(v: int) -> Seq<u8> {
    be_bytes(v, 4)
}

/// The bytes of the head table built from these fields: version 1.0, the
/// revision, checksum adjustment, magic number `0x5F0F3CF5`, the flags that
/// `head` defines (`0x781F`), units per em, the two dates as 8-byte values, the
/// box, the mac style bits that `head` defines (`0x7F`), the smallest readable
/// size, font direction hint 2, the loca format and glyph data format 0.
#[verifier::opaque]
pub open spec fn head_table_bytes(f: HeadFields) -> Seq<u8> {
    be16(1) + be16(0) + be32(f.font_revision as int) + be32(f.checksum_adjustment as int) + be32(0x5F0F3CF5)
        + be16((f.flags & 0x781F) as int) + be16(f.units_per_em as int) + be_bytes(f.created as int, 8)
        + be_bytes(f.modified as int, 8) + be16(f.x_min as int) + be16(f.y_min as int) + be16(f.x_max as int)
        + be16(f.y_max as int) + be16((f.mac_style & 0x7F) as int) + be16(f.lowest_rec_ppem as int) + be16(2)
        + be16(f.index_to_loc_format as int) + be16(0)
}

/// The bytes of the name table built from these `(platform, encoding, language, name id, text)` records.
pub uninterp spec fn name_table_bytes(records: Seq<(u16, u16, u16, u16, Seq<char>)>) -> Seq<u8>;

/// The bytes of the version 4 OS/2 table built from these fields (all
/// optional fields given), the others left at `Os2::default()`: weight class
/// 400, width class 5, and zeros; the selection bits are those that OS/2
/// defines (`0x3FF`).
#[verifier::opaque]
pub open spec fn os2_table_bytes(f: Os2Fields) -> Seq<u8> {
    be16(4) + be16(f.x_avg_char_width as int) + be16(400) + be16(5) + be16(0) + be16(f.y_subscript_x_size as int)
        + be16(f.y_subscript_y_size as int) + be16(0) + be16(f.y_subscript_y_offset as int)
        + be16(f.y_superscript_x_size as int) + be16(f.y_superscript_y_size as int) + be16(0)
        + be16(f.y_superscript_y_offset as int) + be16(f.y_strikeout_size as int)
        + be16(f.y_strikeout_position as int) + be16(0) + be_bytes(0, 10) + be32(f.ul_unicode_range_1 as int)
        + be32(0) + be32(0) + be32(0) + f.ach_vend_id@ + be16((f.fs_selection & 0x3FF) as int)
        + be16(f.us_first_char_index as int) + be16(f.us_last_char_index as int) + be16(f.s_typo_ascender as int)
        + be16(f.s_typo_descender as int) + be16(0) + be16(f.us_win_ascent as int) + be16(f.us_win_descent as int)
        + be32(f.ul_code_page_range_1.unwrap() as int) + be32(f.ul_code_page_range_2.unwrap() as int)
        + be16(f.sx_height.unwrap() as int) + be16(f.s_cap_height.unwrap() as int)
        + be16(f.us_default_char.unwrap() as int) + be16(f.us_break_char.unwrap() as int)
        + be16(f.us_max_context.unwrap() as int)
}

/// The bytes of the gasp table of this version with these `(max ppem, behavior)`
/// ranges: the version, the number of ranges, then each range with the
/// behavior bits that `gasp` defines (`0xF`).
#[verifier::opaque]
pub open spec fn gasp_table_bytes(version: u16, ranges: Seq<(u16, u16)>) -> Seq<u8> {
    be16(version as int) + be16(ranges.len() as int) + ranges.map_values(
        |r: (u16, u16)| be16(r.0 as int) + be16((r.1 & 0xF) as int),
    ).flatten()
}

/// The bytes of the maxp table built from these fields: version 1.0, the glyph
/// count and the thirteen limits when any limit is given (the table is only
/// written when all are), version 0.5 and the glyph count when none is.
#[verifier::opaque]
pub open spec fn maxp_table_bytes(f: MaxpFields) -> Seq<u8> {
    if f.max_points is None && f.max_contours is None && f.max_composite_points is None
        && f.max_composite_contours is None && f.max_zones is None && f.max_twilight_points is None
        && f.max_storage is None && f.max_function_defs is None && f.max_instruction_defs is None
        && f.max_stack_elements is None && f.max_size_of_instructions is None
        && f.max_component_elements is None && f.max_component_depth is None {
        be32(0x5000) + be16(f.num_glyphs as int)
    } else {
        be32(0x10000) + be16(f.num_glyphs as int) + be16(f.max_points.unwrap() as int)
            + be16(f.max_contours.unwrap() as int) + be16(f.max_composite_points.unwrap() as int)
            + be16(f.max_composite_contours.unwrap() as int) + be16(f.max_zones.unwrap() as int)
            + be16(f.max_twilight_points.unwrap() as int) + be16(f.max_storage.unwrap() as int)
            + be16(f.max_function_defs.unwrap() as int) + be16(f.max_instruction_defs.unwrap() as int)
            + be16(f.max_stack_elements.unwrap() as int) + be16(f.max_size_of_instructions.unwrap() as int)
            + be16(f.max_component_elements.unwrap() as int) + be16(f.max_component_depth.unwrap() as int)
    }
}

/// The bytes of the version 2 post table for these glyph names and underline metrics.
pub uninterp spec fn post_table_bytes(names: Seq<Seq<char>>, underline_position: i16, underline_thickness: i16) -> Seq<u8>;

/// The bytes of the cmap table that `Cmap::from_mappings` builds from this set of `(char, glyph id)` mappings.
pub uninterp spec fn cmap_table_bytes(mappings: Set<(char, u16)>) -> Seq<u8>;

/// The bytes of the hhea table built from these fields: version 1.0, the
/// fields in order, four reserved zeros and metric data format 0, then the
/// number of long metrics.
#[verifier::opaque]
pub open spec fn hhea_table_bytes(f: HheaFields) -> Seq<u8> {
    be16(1) + be16(0) + be16(f.ascender as int) + be16(f.descender as int) + be16(f.line_gap as int)
        + be16(f.advance_width_max as int) + be16(f.min_left_side_bearing as int)
        + be16(f.min_right_side_bearing as int) + be16(f.x_max_extent as int) + be16(f.caret_slope_rise as int)
        + be16(f.caret_slope_run as int) + be16(f.caret_offset as int) + be16(0) + be16(0) + be16(0) + be16(0)
        + be16(0) + be16(f.number_of_h_metrics as int)
}

/// The bytes of the hmtx table with these `(advance, left side bearing)`
/// metrics, one after another, and no further bearings.
#[verifier::opaque]
pub open spec fn hmtx_table_bytes(metrics: Seq<(u16, i16)>) -> Seq<u8> {
    metrics.map_values(|m: (u16, i16)| be16(m.0 as int) + be16(m.1 as int)).flatten()
}

/// Whether `write_fonts::dump_table` succeeds on a glyf table.
pub uninterp spec fn glyf_table_writes(glyf: Glyf) -> bool;

/// Whether `write_fonts::dump_table` succeeds on a loca table.
pub uninterp spec fn loca_table_writes(loca: Loca) -> bool;

/// Whether the name table built from these records serializes.
pub uninterp spec fn name_table_writes(records: Seq<(u16, u16, u16, u16, Seq<char>)>) -> bool;

/// Whether the version 2 post table for these glyph names and underline metrics serializes.
pub uninterp spec fn post_table_writes(names: Seq<Seq<char>>, underline_position: i16, underline_thickness: i16) -> bool;

/// Whether the cmap table built from this set of mappings serializes.
pub uninterp spec fn cmap_table_writes(mappings: Set<(char, u16)>) -> bool;

/// Every optional OS/2 field of versions 1 to 4 is given, so that the table's
/// version (4) has all the fields it needs.
pub open spec fn os2_fields_complete(f: Os2Fields) -> bool {
    &&& f.ul_code_page_range_1 is Some
    &&& f.ul_code_page_range_2 is Some
    &&& f.sx_height is Some
    &&& f.s_cap_height is Some
    &&& f.us_default_char is Some
    &&& f.us_break_char is Some
    &&& f.us_max_context is Some
}

/// Every optional maxp field is given, so that the table's version (1.0) has
/// all the fields it needs.
pub open spec fn maxp_fields_complete(f: MaxpFields) -> bool {
    &&& f.max_points is Some
    &&& f.max_contours is Some
    &&& f.max_composite_points is Some
    &&& f.max_composite_contours is Some
    &&& f.max_zones is Some
    &&& f.max_twilight_points is Some
    &&& f.max_storage is Some
    &&& f.max_function_defs is Some
    &&& f.max_instruction_defs is Some
    &&& f.max_stack_elements is Some
    &&& f.max_size_of_instructions is Some
    &&& f.max_component_elements is Some
    &&& f.max_component_depth is Some
}

/// The tables held by a `FontBuilder`: the data under each tag.
pub uninterp spec fn font_entries(builder: FontBuilder) -> Map<Seq<u8>, Seq<u8>>;

/// The font file that `FontBuilder::build` writes for these tables.
pub uninterp spec fn font_file_bytes(tables: Map<Seq<u8>, Seq<u8>>) -> Seq<u8>;

/// The tables that adding these `(tag, data)` entries in order gives, a later
/// entry replacing an earlier one with the same tag.
pub open spec fn tables_map(entries: Seq<(Seq<u8>, Seq<u8>)>) -> Map<Seq<u8>, Seq<u8>>
    decreases entries.len(),
{
    if entries.len() == 0 {
        Map::empty()
    } else {
        tables_map(entries.drop_last()).insert(entries.last().0, entries.last().1)
    }
}

/// No two entries have the same tag.
pub open spec fn distinct_tags(entries: Seq<(Seq<u8>, Seq<u8>)>) -> bool {
    forall|i: int, j: int| 0 <= i < j < entries.len() ==> #[trigger] entries[i].0 != #[trigger] entries[j].0
}

/// Some two mappings send the same character to different glyphs.
pub open spec fn has_cmap_conflict(mappings: Seq<(char, u16)>) -> bool {
    exists|i: int, j: int|
        0 <= i < mappings.len() && 0 <= j < mappings.len() && #[trigger] mappings[i].0 == #[trigger] mappings[j].0
            && mappings[i].1 != mappings[j].1
}

/// Room that a table takes in the font file: a 16-byte record and its data padded to 4 bytes.
pub open spec fn font_tables_size(entries: Seq<(Seq<u8>, Seq<u8>)>) -> int
    decreases entries.len(),
{
    if entries.len() == 0 {
        0
    } else {
        font_tables_size(entries.drop_last()) + 16 + (entries.last().1.len() + 3) / 4 * 4
    }
}

/// Why a cmap table could not be written.
pub enum CmapFailure {
    /// Two mappings send one character to different glyphs; the text describes them.
    Conflict(String),
    /// Serializing the table failed; the text describes it.
    Write(String),
}

/// `BezPath::new`: an empty path.
#[verifier::external_body]
pub(crate) fn new_path() -> (path: BezPath)
    ensures
        path_steps(path) == Seq::<PathStep>::empty(),
{
    BezPath::new()
}

/// `BezPath::move_to`: appends a move to `(x, y)`; the path must begin with a
/// move (`BezPath::push` asserts it).
#[verifier::external_body]
pub(crate) fn path_move_to(path: &mut BezPath, x: i32, y: i32)
    requires
        path_steps(*old(path)).len() == 0 || path_steps(*old(path))[0] is MoveTo,
    ensures
        path_steps(*final(path)) == path_steps(*old(path)).push(PathStep::MoveTo(x as int, y as int)),
{
    path.move_to(Point::new(x.into(), y.into()))
}

/// `BezPath::line_to`: appends a line to `(x, y)`; the path must not be empty
/// (`line_to` asserts it) and must begin with a move.
#[verifier::external_body]
pub(crate) fn path_line_to(path: &mut BezPath, x: i32, y: i32)
    requires
        path_steps(*old(path)).len() > 0,
        path_steps(*old(path))[0] is MoveTo,
    ensures
        path_steps(*final(path)) == path_steps(*old(path)).push(PathStep::LineTo(x as int, y as int)),
{
    path.line_to(Point::new(x.into(), y.into()))
}

/// `BezPath::close_path`: appends a close.
#[verifier::external_body]
pub(crate) fn path_close(path: &mut BezPath)
    requires
        path_steps(*old(path)).len() > 0,
        path_steps(*old(path))[0] is MoveTo,
    ensures
        path_steps(*final(path)) == path_steps(*old(path)).push(PathStep::Close),
{
    path.close_path()
}

/// `SimpleGlyph::from_bezpath`. It fails exactly when the path has elements and
/// does not begin with a move. The glyph has no instructions and no overlap
/// flag. For paths whose coordinates an `f64` holds exactly, its contours are
/// the traced points of the path (`traced_contours`) and its bounding box is
/// the rounded control box of the path, coordinates saturated to `i16`.
#[verifier::external_body]
pub(crate) fn glyph_from_path(path: &BezPath) -> (r: Result<SimpleGlyph, ()>)
    ensures
        r is Ok <==> (path_steps(*path).len() == 0 || path_steps(*path)[0] is MoveTo),
        steps_within(path_steps(*path), 0x8_0000_0000_0000) ==> (r matches Ok(g) ==> glyph_view(g).0 == traced_contours(path_steps(*path))),
        r matches Ok(g) ==> glyph_view(g).2 == Seq::<u8>::empty() && !glyph_view(g).3,
        steps_within(path_steps(*path), 0x8_0000_0000_0000) ==> (r matches Ok(g) ==> glyph_view(g).1 == steps_bbox(path_steps(*path))),
{
    SimpleGlyph::from_bezpath(path).map_err(|_| ())
}

/// `SimpleGlyph::default`: no contours, a zero bounding box, no instructions.
#[verifier::external_body]
pub(crate) fn empty_glyph() -> (g: SimpleGlyph)
    ensures
        glyph_view(g) == (Seq::<Seq<(i16, i16, bool, bool)>>::empty(), (0i16, 0i16, 0i16, 0i16), Seq::<u8>::empty(), false),
{
    SimpleGlyph::default()
}

/// The bounding box field of a glyph.
#[verifier::external_body]
pub(crate) fn glyph_bbox(glyph: &SimpleGlyph) -> (bbox: (i16, i16, i16, i16))
    ensures
        bbox == glyph_view(*glyph).1,
{
    (glyph.bbox.x_min, glyph.bbox.y_min, glyph.bbox.x_max, glyph.bbox.y_max)
}

/// The number of contours of a glyph.
#[verifier::external_body]
pub(crate) fn glyph_contour_count(glyph: &SimpleGlyph) -> (n: usize)
    ensures
        n == glyph_view(*glyph).0.len(),
{
    glyph.contours.len()
}

/// The number of points of contour `contour` (`Contour::len`).
#[verifier::external_body]
pub(crate) fn glyph_contour_len(glyph: &SimpleGlyph, contour: usize) -> (n: usize)
    requires
        contour < glyph_view(*glyph).0.len(),
    ensures
        n == glyph_view(*glyph).0[contour as int].len(),
{
    glyph.contours[contour].len()
}

/// The `(x, y)` coordinates of the points of contour `contour` of a glyph.
#[verifier::external_body]
pub(crate) fn glyph_contour_coords(glyph: &SimpleGlyph, contour: usize) -> (points: Vec<(i16, i16)>)
    requires
        contour < glyph_view(*glyph).0.len(),
    ensures
        points@.len() == glyph_view(*glyph).0[contour as int].len(),
        forall|i: int| 0 <= i < points@.len() ==> #[trigger] points@[i].0 == glyph_view(*glyph).0[contour as int][i].0
            && points@[i].1 == glyph_view(*glyph).0[contour as int][i].1,
{
    glyph.contours[contour].iter().map(|point| (point.x, point.y)).collect()
}

/// `SimpleGlyph::recompute_bounding_box`: the box of all points, left as it was
/// when there are none.
#[verifier::external_body]
pub(crate) fn glyph_recompute_bbox(glyph: &mut SimpleGlyph)
    ensures
        glyph_view(*final(glyph)).0 == glyph_view(*old(glyph)).0,
        glyph_view(*final(glyph)).2 == glyph_view(*old(glyph)).2,
        glyph_view(*final(glyph)).3 == glyph_view(*old(glyph)).3,
        glyph_view(*final(glyph)).1 == (if total_points(glyph_view(*old(glyph)).0) == 0 {
            glyph_view(*old(glyph)).1
        } else {
            contour_points_bbox(glyph_view(*old(glyph)).0)
        }),
{
    glyph.recompute_bounding_box()
}

/// `GlyfLocaBuilder::new`: no glyphs yet.
#[verifier::external_body]
pub(crate) fn new_glyf_loca_builder() -> (builder: GlyfLocaBuilder)
    ensures
        glyf_glyphs(builder) == Seq::<GlyphView>::empty(),
{
    GlyfLocaBuilder::new()
}

/// `GlyfLocaBuilder::add_glyph`. It writes the glyph at once; the `requires`
/// leaves out the glyphs on which that writing panics or validation fails:
/// 32767 contours or more, 65535 instruction bytes or more, contour end
/// indices beyond `u16`, and point deltas beyond `i16`.
#[verifier::external_body]
pub(crate) fn glyf_add_glyph(builder: &mut GlyfLocaBuilder, glyph: &SimpleGlyph) -> (r: Result<(), String>)
    requires
        glyph_view(*glyph).0.len() < 32767,
        glyph_view(*glyph).2.len() < 65535,
        total_points(glyph_view(*glyph).0) <= 65535,
        forall|c: int| 0 <= c < glyph_view(*glyph).0.len() ==> #[trigger] glyph_view(*glyph).0[c].len() > 0,
        deltas_fit(glyph_view(*glyph).0),
    ensures
        r is Ok,
        glyf_glyphs(*final(builder)) == glyf_glyphs(*old(builder)).push(glyph_view(*glyph)),
{
    builder.add_glyph(glyph).map(|_| ()).map_err(|error| error.to_string())
}

/// `GlyfLocaBuilder::build`, with the loca format told as "is long".
#[verifier::external_body]
pub(crate) fn build_glyf_loca(builder: GlyfLocaBuilder) -> (r: (Glyf, Loca, bool))
    ensures
        r == glyf_loca_of(glyf_glyphs(builder)),
{
    let (glyf, loca, format) = builder.build();
    let long = match format {
        LocaFormat::Short => false,
        LocaFormat::Long => true,
    };
    (glyf, loca, long)
}

/// `write_fonts::dump_table` on a glyf table.
#[verifier::external_body]
pub(crate) fn dump_glyf(glyf: &Glyf) -> (r: Result<Vec<u8>, String>)
    ensures
        r is Ok <==> glyf_table_writes(*glyf),
        r matches Ok(bytes) ==> bytes@ == glyf_table_bytes(*glyf),
{
    write_fonts::dump_table(glyf).map_err(|inner| format!("failed to build '{}' table: '{}'", Tag::new(b"glyf"), inner))
}

/// `write_fonts::dump_table` on a loca table.
#[verifier::external_body]
pub(crate) fn dump_loca(loca: &Loca) -> (r: Result<Vec<u8>, String>)
    ensures
        r is Ok <==> loca_table_writes(*loca),
        r matches Ok(bytes) ==> bytes@ == loca_table_bytes(*loca),
{
    write_fonts::dump_table(loca).map_err(|inner| format!("failed to build '{}' table: '{}'", Tag::new(b"loca"), inner))
}

/// `Head::new` from the fields, then `write_fonts::dump_table`, which always
/// succeeds here: the head table validates nothing and holds no offsets.
#[verifier::external_body]
pub(crate) fn dump_head(f: &HeadFields) -> (r: Result<Vec<u8>, String>)
    ensures
        r is Ok,
        r matches Ok(bytes) ==> bytes@ == head_table_bytes(*f),
{
    let head = Head::new(Fixed::from_bits(f.font_revision), f.checksum_adjustment,
        Flags::from_bits_truncate(f.flags), f.units_per_em, LongDateTime::new(f.created),
        LongDateTime::new(f.modified), f.x_min, f.y_min, f.x_max, f.y_max,
        MacStyle::from_bits_truncate(f.mac_style), f.lowest_rec_ppem, f.index_to_loc_format);
    write_fonts::dump_table(&head).map_err(|inner| format!("failed to build '{}' table: '{}'", Tag::new(b"head"), inner))
}

/// `Name::new` from the records, then `write_fonts::dump_table`. The `requires`
/// leaves out what panics there: a storage offset beyond `u16` (more than 5460
/// records), and string lengths that overflow the `u16` they are computed in
/// (a string's UTF-16 length in bytes, up to four per character, or its
/// character count); strings of at most 16383 characters stay clear of both.
#[verifier::external_body]
pub(crate) fn dump_name(records: &Vec<(u16, u16, u16, u16, String)>) -> (r: Result<Vec<u8>, String>)
    requires
        records@.len() <= 5460,
        forall|i: int| 0 <= i < records@.len() ==> (#[trigger] records@[i]).4@.len() <= 16383,
    ensures
        r is Ok <==> name_table_writes(records@.map_values(|e: (u16, u16, u16, u16, String)| (e.0, e.1, e.2, e.3, e.4@))),
        r matches Ok(bytes) ==> bytes@ == name_table_bytes(
            records@.map_values(|e: (u16, u16, u16, u16, String)| (e.0, e.1, e.2, e.3, e.4@)),
        ),
{
    let records = records.iter().map(|(platform_id, encoding_id, language_id, name_id, text)| NameRecord {
        platform_id: *platform_id, encoding_id: *encoding_id, language_id: *language_id,
        name_id: NameId::new(*name_id), string: OffsetMarker::new(text.clone()) }).collect();
    write_fonts::dump_table(&Name::new(records)).map_err(|inner| format!("failed to build '{}' table: '{}'", Tag::new(b"name"), inner))
}

/// An `Os2` with these fields and the others at `Os2::default()`, then
/// `write_fonts::dump_table`. The table holds no offsets, and its validation
/// only asks that the fields of its version be present, so it succeeds when
/// the optional fields are all given, as a version 4 table. What it writes for
/// other fields (an older version, or an error) is left unsaid.
#[verifier::external_body]
pub(crate) fn dump_os2(f: &Os2Fields) -> (r: Result<Vec<u8>, String>)
    ensures
        os2_fields_complete(*f) ==> r is Ok,
        r matches Ok(bytes) ==> (os2_fields_complete(*f) ==> bytes@ == os2_table_bytes(*f)),
{
    let Os2Fields { x_avg_char_width, y_subscript_x_size, y_subscript_y_size, y_subscript_y_offset, y_superscript_x_size, y_superscript_y_size, y_superscript_y_offset, y_strikeout_size, y_strikeout_position, ul_unicode_range_1, ach_vend_id, fs_selection, us_first_char_index, us_last_char_index, s_typo_ascender, s_typo_descender, us_win_ascent, us_win_descent, ul_code_page_range_1, ul_code_page_range_2, sx_height, s_cap_height, us_default_char, us_break_char, us_max_context } = *f;
    let os2 = Os2 { x_avg_char_width, y_subscript_x_size, y_subscript_y_size, y_subscript_y_offset, y_superscript_x_size, y_superscript_y_size, y_superscript_y_offset, y_strikeout_size, y_strikeout_position, ul_unicode_range_1, ach_vend_id: Tag::new(&ach_vend_id), fs_selection: SelectionFlags::from_bits_truncate(fs_selection), us_first_char_index, us_last_char_index, s_typo_ascender, s_typo_descender, us_win_ascent, us_win_descent, ul_code_page_range_1, ul_code_page_range_2, sx_height, s_cap_height, us_default_char, us_break_char, us_max_context, ..Os2::default() };
    write_fonts::dump_table(&os2).map_err(|inner| format!("failed to build '{}' table: '{}'", Tag::new(b"OS/2"), inner))
}

/// A `Gasp` with this version and `(max ppem, behavior bits)` ranges, then
/// `write_fonts::dump_table`, which succeeds: the table holds no offsets and
/// validates only the number of ranges.
#[verifier::external_body]
pub(crate) fn dump_gasp(version: u16, ranges: &Vec<(u16, u16)>) -> (r: Result<Vec<u8>, String>)
    requires
        ranges@.len() <= u16::MAX,
    ensures
        r is Ok,
        r matches Ok(bytes) ==> bytes@ == gasp_table_bytes(version, ranges@),
{
    let gasp_ranges: Vec<GaspRange> = ranges.iter().map(|(range_max_ppem, bits)| GaspRange {
        range_max_ppem: *range_max_ppem, range_gasp_behavior: GaspRangeBehavior::from_bits_truncate(*bits) }).collect();
    let gasp = Gasp { version, num_ranges: gasp_ranges.len() as u16, gasp_ranges };
    write_fonts::dump_table(&gasp).map_err(|inner| format!("failed to build '{}' table: '{}'", Tag::new(b"gasp"), inner))
}

/// A `Maxp` with these fields, then `write_fonts::dump_table`. The table holds
/// no offsets and its validation only asks that the fields of its version be
/// present, so it succeeds when the optional fields are all given.
#[verifier::external_body]
pub(crate) fn dump_maxp(f: &MaxpFields) -> (r: Result<Vec<u8>, String>)
    ensures
        maxp_fields_complete(*f) ==> r is Ok,
        r matches Ok(bytes) ==> bytes@ == maxp_table_bytes(*f),
{
    let MaxpFields { num_glyphs, max_points, max_contours, max_composite_points, max_composite_contours, max_zones, max_twilight_points, max_storage, max_function_defs, max_instruction_defs, max_stack_elements, max_size_of_instructions, max_component_elements, max_component_depth } = *f;
    let maxp = Maxp { num_glyphs, max_points, max_contours, max_composite_points, max_composite_contours, max_zones, max_twilight_points, max_storage, max_function_defs, max_instruction_defs, max_stack_elements, max_size_of_instructions, max_component_elements, max_component_depth };
    write_fonts::dump_table(&maxp).map_err(|inner| format!("failed to build '{}' table: '{}'", Tag::new(b"maxp"), inner))
}

/// `Post::new_v2` on the glyph names with the underline metrics set, then `write_fonts::dump_table`.
#[verifier::external_body]
pub(crate) fn dump_post(names: &Vec<String>, underline_position: i16, underline_thickness: i16) -> (r: Result<Vec<u8>, String>)
    ensures
        r is Ok <==> post_table_writes(names@.map_values(|n: String| n@), underline_position, underline_thickness),
        r matches Ok(bytes) ==> bytes@ == post_table_bytes(
            names@.map_values(|n: String| n@),
            underline_position,
            underline_thickness,
        ),
{
    let mut post = Post::new_v2(names.iter().map(String::as_str));
    post.underline_position = FWord::new(underline_position);
    post.underline_thickness = FWord::new(underline_thickness);
    write_fonts::dump_table(&post).map_err(|inner| format!("failed to build '{}' table: '{}'", Tag::new(b"post"), inner))
}

/// `Cmap::from_mappings`, then `write_fonts::dump_table`. The mappings conflict
/// exactly when one character goes to two different glyphs.
#[verifier::external_body]
pub(crate) fn dump_cmap(mappings: &Vec<(char, u16)>) -> (r: Result<Vec<u8>, CmapFailure>)
    ensures
        r matches Err(CmapFailure::Conflict(_)) <==> has_cmap_conflict(mappings@),
        !has_cmap_conflict(mappings@) ==> (r is Ok <==> cmap_table_writes(mappings@.to_set())),
        r matches Ok(bytes) ==> bytes@ == cmap_table_bytes(mappings@.to_set()),
{
    let cmap = Cmap::from_mappings(mappings.iter().map(|(c, g)| (*c, GlyphId::new(u32::from(*g)))))
        .map_err(|error| CmapFailure::Conflict(error.to_string()))?;
    write_fonts::dump_table(&cmap).map_err(|inner| CmapFailure::Write(format!("failed to build '{}' table: '{}'", Tag::new(b"cmap"), inner)))
}

/// `Hhea::new` from the fields, then `write_fonts::dump_table`, which always
/// succeeds here: the hhea table validates nothing and holds no offsets.
#[verifier::external_body]
pub(crate) fn dump_hhea(f: &HheaFields) -> (r: Result<Vec<u8>, String>)
    ensures
        r is Ok,
        r matches Ok(bytes) ==> bytes@ == hhea_table_bytes(*f),
{
    let hhea = Hhea::new(FWord::new(f.ascender), FWord::new(f.descender), FWord::new(f.line_gap),
        UfWord::new(f.advance_width_max), FWord::new(f.min_left_side_bearing),
        FWord::new(f.min_right_side_bearing), FWord::new(f.x_max_extent), f.caret_slope_rise,
        f.caret_slope_run, f.caret_offset, f.number_of_h_metrics);
    write_fonts::dump_table(&hhea).map_err(|inner| format!("failed to build '{}' table: '{}'", Tag::new(b"hhea"), inner))
}

/// `Hmtx::new` with these long metrics and no extra bearings, then
/// `write_fonts::dump_table`. The table holds no offsets and validates only
/// that there are at most `u16::MAX` metrics.
#[verifier::external_body]
pub(crate) fn dump_hmtx(metrics: &Vec<(u16, i16)>) -> (r: Result<Vec<u8>, String>)
    ensures
        metrics@.len() <= u16::MAX ==> r is Ok,
        r matches Ok(bytes) ==> bytes@ == hmtx_table_bytes(metrics@),
{
    let long_metrics = metrics.iter().map(|(advance, lsb)| LongMetric::new(*advance, *lsb)).collect();
    write_fonts::dump_table(&Hmtx::new(long_metrics, vec![])).map_err(|inner| format!("failed to build '{}' table: '{}'", Tag::new(b"hmtx"), inner))
}

/// `FontBuilder::new`: no tables yet.
#[verifier::external_body]
pub(crate) fn new_font_builder<'a>() -> (builder: FontBuilder<'a>)
    ensures
        font_entries(builder).dom() == Set::<Seq<u8>>::empty(),
{
    FontBuilder::new()
}

/// `FontBuilder::add_raw`: the table under `tag` becomes `data` (the builder
/// keeps its tables in a map by tag).
#[verifier::external_body]
pub(crate) fn font_add_raw(builder: &mut FontBuilder, tag: [u8; 4], data: Vec<u8>)
    ensures
        font_entries(*final(builder)) == font_entries(*old(builder)).insert(tag@, data@),
{
    builder.add_raw(Tag::new(&tag), data);
}

/// `FontBuilder::build`. The `requires` leaves out the inputs on which it
/// panics: 4096 tables or more (the table directory's search range no longer
/// fits a `u16`), and table offsets beyond the `u32` they are computed in.
#[verifier::external_body]
pub(crate) fn build_font(builder: &mut FontBuilder) -> (bytes: Vec<u8>)
    requires
        exists|entries: Seq<(Seq<u8>, Seq<u8>)>|
            #[trigger] tables_map(entries) == font_entries(*old(builder)) && distinct_tags(entries) && entries.len() <= 4095
                && 12 + font_tables_size(entries) <= u32::MAX,
    ensures
        bytes@ == font_file_bytes(font_entries(*old(builder))),
{
    builder.build()
}

} // verus!
