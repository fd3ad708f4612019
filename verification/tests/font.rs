use bitmap2ttf::builder::build_ttf_at;
use bitmap2ttf::builder::names::sanitize_postscript_name;
use bitmap2ttf::{build_ttf, collect_pixel_rects, BitmapGlyph, Error, FontConfig};

fn sample_glyph() -> BitmapGlyph {
    BitmapGlyph {
        codepoint: 65,
        width: 2,
        height: 2,
        offset_x: 0,
        offset_y: 0,
        advance_width: None,
        pixels: vec![1, 1, 1, 1],
    }
}

fn glyph(codepoint: u32, width: u16, height: u16, pixels: Vec<u8>) -> BitmapGlyph {
    BitmapGlyph {
        codepoint,
        width,
        height,
        offset_x: 0,
        offset_y: 0,
        advance_width: None,
        pixels,
    }
}

fn name_of(face: &ttf_parser::Face, platform: ttf_parser::PlatformId, name_id: u16) -> Option<String> {
    face.names()
        .into_iter()
        .find(|name| name.platform_id == platform && name.name_id == name_id)
        .and_then(|name| {
            if platform == ttf_parser::PlatformId::Macintosh {
                Some(String::from_utf8_lossy(name.name).into_owned())
            } else {
                name.to_string()
            }
        })
}

#[test]
fn merge_rects_reduces_contour_count() {
    let pixels = vec![1, 1, 1, 1, 1, 1];
    let per_pixel = collect_pixel_rects(3, 2, &pixels, false);
    let merged = collect_pixel_rects(3, 2, &pixels, true);
    assert_eq!(per_pixel.len(), 6);
    assert_eq!(merged.len(), 1);
    assert_eq!(merged[0], (0, 0, 3, 2));
}

#[test]
fn default_profile_generates_parseable_ttf() {
    let bytes = build_ttf(&[sample_glyph()], &FontConfig::default()).expect("ttf generation should succeed");

    let face = ttf_parser::Face::parse(&bytes, 0).expect("ttf should parse");
    assert!(face.number_of_glyphs() >= 2);
    assert!(face.units_per_em() > 0);
}

#[test]
fn empty_glyphs_returns_error() {
    let error = build_ttf(&[], &FontConfig::default()).expect_err("empty glyph input should return error");
    assert!(matches!(error, Error::NoGlyphs));
}

#[test]
fn default_config_values() {
    let config = FontConfig::default();
    assert_eq!(config.family_name, "BitmapFont");
    assert_eq!(config.line_height, 16);
    assert_eq!(config.scale, 64);
}

#[test]
fn sample_font_metrics_and_outline() {
    let bytes = build_ttf_at(&[sample_glyph()], &FontConfig::default(), Ok(1_700_000_000)).unwrap();
    let face = ttf_parser::Face::parse(&bytes, 0).unwrap();
    assert_eq!(face.number_of_glyphs(), 2);
    assert_eq!(face.units_per_em(), 1024);
    assert_eq!(face.ascender(), 832);
    assert_eq!(face.descender(), -192);
    let a = face.glyph_index('A').unwrap();
    assert_eq!(a.0, 1);
    assert_eq!(face.glyph_hor_advance(a), Some(192));
    assert_eq!(face.glyph_hor_side_bearing(a), Some(0));
    let bbox = face.glyph_bounding_box(a).unwrap();
    assert_eq!((bbox.x_min, bbox.y_min, bbox.x_max, bbox.y_max), (0, 896, 128, 1024));
    let notdef = face.glyph_bounding_box(ttf_parser::GlyphId(0)).unwrap();
    assert_eq!((notdef.x_min, notdef.y_min, notdef.x_max, notdef.y_max), (0, 0, 1024, 1024));
    assert_eq!(face.glyph_hor_advance(ttf_parser::GlyphId(0)), Some(1024));
    assert_eq!(face.glyph_name(ttf_parser::GlyphId(0)), Some(".notdef"));
    assert_eq!(face.glyph_name(a), Some("u0041"));
    assert_eq!(face.glyph_index('B'), None);
}

#[test]
fn same_clock_gives_same_bytes() {
    let glyphs = vec![sample_glyph(), glyph(0x42, 3, 1, vec![1, 0, 1])];
    let first = build_ttf_at(&glyphs, &FontConfig::default(), Ok(1_600_000_000)).unwrap();
    let second = build_ttf_at(&glyphs, &FontConfig::default(), Ok(1_600_000_000)).unwrap();
    assert_eq!(first, second);
    let later = build_ttf_at(&glyphs, &FontConfig::default(), Ok(1_600_000_001)).unwrap();
    assert_ne!(first, later);
}

#[test]
fn clock_failure_is_a_conversion_error() {
    let result = build_ttf_at(&[sample_glyph()], &FontConfig::default(), Err("clock went backwards".to_string()));
    match result {
        Err(Error::Conversion(message)) => assert_eq!(message, "clock went backwards"),
        other => panic!("unexpected result: {other:?}"),
    }
}

#[test]
fn names_follow_family() {
    let config = FontConfig { family_name: "My Font!".to_string(), line_height: 8, scale: 10 };
    let bytes = build_ttf_at(&[sample_glyph()], &config, Ok(0)).unwrap();
    let face = ttf_parser::Face::parse(&bytes, 0).unwrap();
    let windows = ttf_parser::PlatformId::Windows;
    assert_eq!(name_of(&face, windows, 1).as_deref(), Some("My Font!"));
    assert_eq!(name_of(&face, windows, 2).as_deref(), Some("Regular"));
    assert_eq!(name_of(&face, windows, 3).as_deref(), Some("MyFont-Regular;Version 1.0"));
    assert_eq!(name_of(&face, windows, 4).as_deref(), Some("My Font! Regular"));
    assert_eq!(name_of(&face, windows, 5).as_deref(), Some("Version 1.0"));
    assert_eq!(name_of(&face, windows, 6).as_deref(), Some("MyFont-Regular"));
    let mac = ttf_parser::PlatformId::Macintosh;
    assert_eq!(name_of(&face, mac, 1).as_deref(), Some("My Font!"));
    assert_eq!(name_of(&face, mac, 2).as_deref(), Some("Regular"));
}

#[test]
fn postscript_name_keeps_sixty_three_characters() {
    let family = "A".repeat(70);
    let config = FontConfig { family_name: family, line_height: 16, scale: 64 };
    let bytes = build_ttf_at(&[sample_glyph()], &config, Ok(0)).unwrap();
    let face = ttf_parser::Face::parse(&bytes, 0).unwrap();
    let postscript = name_of(&face, ttf_parser::PlatformId::Windows, 6).unwrap();
    assert_eq!(postscript, "A".repeat(63));
}

#[test]
fn supplementary_codepoints_are_skipped() {
    let result = build_ttf(&[glyph(0x1F600, 1, 1, vec![1])], &FontConfig::default());
    assert!(matches!(result, Err(Error::NoGlyphs)));
    let bytes = build_ttf_at(&[glyph(0x1F600, 1, 1, vec![1]), sample_glyph()], &FontConfig::default(), Ok(0)).unwrap();
    let face = ttf_parser::Face::parse(&bytes, 0).unwrap();
    assert_eq!(face.number_of_glyphs(), 2);
    assert_eq!(face.glyph_index('A').map(|g| g.0), Some(1));
}

#[test]
fn codepoint_zero_gets_a_glyph_but_no_mapping() {
    let bytes = build_ttf_at(&[glyph(0, 1, 1, vec![1]), sample_glyph()], &FontConfig::default(), Ok(0)).unwrap();
    let face = ttf_parser::Face::parse(&bytes, 0).unwrap();
    assert_eq!(face.number_of_glyphs(), 3);
    assert_eq!(face.glyph_name(ttf_parser::GlyphId(1)), Some("u0000"));
    assert_eq!(face.glyph_index('A').map(|g| g.0), Some(2));
}

#[test]
fn offsets_and_advance_are_scaled() {
    let mut g = glyph(0x41, 1, 1, vec![1]);
    g.offset_x = 1;
    g.offset_y = 2;
    g.advance_width = Some(5);
    let bytes = build_ttf_at(&[g], &FontConfig::default(), Ok(0)).unwrap();
    let face = ttf_parser::Face::parse(&bytes, 0).unwrap();
    let id = face.glyph_index('A').unwrap();
    assert_eq!(face.glyph_hor_advance(id), Some(320));
    assert_eq!(face.glyph_hor_side_bearing(id), Some(64));
    let bbox = face.glyph_bounding_box(id).unwrap();
    // top = 16 - 2 - 0 = 14 pixels above the origin
    assert_eq!((bbox.x_min, bbox.y_min, bbox.x_max, bbox.y_max), (64, 832, 128, 896));
}

#[test]
fn blank_glyph_has_no_outline() {
    let bytes = build_ttf_at(&[glyph(0x20, 2, 2, vec![0, 0, 0, 0])], &FontConfig::default(), Ok(0)).unwrap();
    let face = ttf_parser::Face::parse(&bytes, 0).unwrap();
    let id = face.glyph_index(' ').unwrap();
    assert!(face.glyph_bounding_box(id).is_none());
    assert_eq!(face.glyph_hor_advance(id), Some(192));
}

#[test]
fn oversized_em_is_a_conversion_error() {
    let config = FontConfig { family_name: "Big".to_string(), line_height: 2000, scale: 64 };
    let result = build_ttf_at(&[sample_glyph()], &config, Ok(0));
    match result {
        Err(Error::Conversion(message)) => {
            assert_eq!(message, "units_per_em to u16: out of range integral type conversion attempted")
        }
        other => panic!("unexpected result: {other:?}"),
    }
}

#[test]
fn too_long_family_is_a_conversion_error() {
    let config = FontConfig { family_name: "F".repeat(16376), line_height: 16, scale: 64 };
    match build_ttf_at(&[sample_glyph()], &config, Ok(0)) {
        Err(Error::Conversion(message)) => assert_eq!(message, "family name too long for the name table"),
        other => panic!("unexpected result: {other:?}"),
    }
    let config = FontConfig { family_name: "F".repeat(16375), line_height: 16, scale: 64 };
    let bytes = build_ttf_at(&[sample_glyph()], &config, Ok(0)).unwrap();
    assert!(ttf_parser::Face::parse(&bytes, 0).is_ok());
}

#[test]
fn x_height_is_seven_tenths_of_the_ascender() {
    let config = FontConfig { family_name: "Tall".to_string(), line_height: 16, scale: 400 };
    let bytes = build_ttf_at(&[sample_glyph()], &config, Ok(0)).unwrap();
    let face = ttf_parser::Face::parse(&bytes, 0).unwrap();
    assert_eq!(face.units_per_em(), 6400);
    assert_eq!(face.ascender(), 5200);
    assert_eq!(face.x_height(), Some(3640));
    assert_eq!(face.capital_height(), Some(5200));
}

#[test]
fn zero_line_height_and_scale_act_as_one() {
    let glyphs = vec![sample_glyph()];
    let zero_height = FontConfig { family_name: "Z".to_string(), line_height: 0, scale: 64 };
    let one_height = FontConfig { family_name: "Z".to_string(), line_height: 1, scale: 64 };
    assert_eq!(build_ttf_at(&glyphs, &zero_height, Ok(5)).unwrap(), build_ttf_at(&glyphs, &one_height, Ok(5)).unwrap());
    let zero_scale = FontConfig { family_name: "Z".to_string(), line_height: 16, scale: 0 };
    let one_scale = FontConfig { family_name: "Z".to_string(), line_height: 16, scale: 1 };
    assert_eq!(build_ttf_at(&glyphs, &zero_scale, Ok(5)).unwrap(), build_ttf_at(&glyphs, &one_scale, Ok(5)).unwrap());
}

#[test]
fn glyphs_beyond_the_bmp_change_nothing() {
    let with_extra = vec![glyph(0x1F600, 1, 1, vec![1]), sample_glyph(), glyph(0x20000, 2, 1, vec![1, 1])];
    let without = vec![sample_glyph()];
    assert_eq!(
        build_ttf_at(&with_extra, &FontConfig::default(), Ok(9)).unwrap(),
        build_ttf_at(&without, &FontConfig::default(), Ok(9)).unwrap()
    );
}

#[test]
fn postscript_names_are_kept_as_they_are() {
    let once = sanitize_postscript_name("My Font! v2_x-Regular");
    assert_eq!(once, "MyFontv2_x-Regular");
    assert_eq!(sanitize_postscript_name(&once), once);
    assert_eq!(sanitize_postscript_name("  !!"), "BitmapFont-Regular");
    let long = "ab".repeat(40);
    assert_eq!(sanitize_postscript_name(&long).len(), 63);
    assert_eq!(sanitize_postscript_name(&sanitize_postscript_name(&long)), sanitize_postscript_name(&long));
}

struct PointCounter {
    moves: usize,
    lines: usize,
    closes: usize,
}

impl ttf_parser::OutlineBuilder for PointCounter {
    fn move_to(&mut self, _x: f32, _y: f32) {
        self.moves += 1;
    }
    fn line_to(&mut self, _x: f32, _y: f32) {
        self.lines += 1;
    }
    fn quad_to(&mut self, _x1: f32, _y1: f32, _x: f32, _y: f32) {}
    fn curve_to(&mut self, _x1: f32, _y1: f32, _x2: f32, _y2: f32, _x: f32, _y: f32) {}
    fn close(&mut self) {
        self.closes += 1;
    }
}

#[test]
fn each_merged_rectangle_is_a_four_point_contour() {
    // Two merged rectangles: a 2x2 block and a single pixel.
    let bytes = build_ttf_at(&[glyph(0x41, 4, 2, vec![1, 1, 0, 1, 1, 1, 0, 0])], &FontConfig::default(), Ok(0)).unwrap();
    let face = ttf_parser::Face::parse(&bytes, 0).unwrap();
    let a = face.glyph_index('A').unwrap();
    let mut counter = PointCounter { moves: 0, lines: 0, closes: 0 };
    face.outline_glyph(a, &mut counter).unwrap();
    assert_eq!(counter.moves, 2);
    assert_eq!(counter.closes, 2);
    // Each contour of four on-curve points: a move and three lines, then the
    // closing line back to the start.
    assert_eq!(counter.lines, 8);
}

#[test]
fn fixed_layout_tables_have_their_sizes() {
    let bytes = build_ttf_at(&[sample_glyph()], &FontConfig::default(), Ok(0)).unwrap();
    let face = ttf_parser::Face::parse(&bytes, 0).unwrap();
    let raw = face.raw_face();
    let table = |tag: &[u8; 4]| raw.table(ttf_parser::Tag::from_bytes(tag)).unwrap();
    let head = table(b"head");
    assert_eq!(head.len(), 54);
    assert_eq!(&head[0..4], &[0, 1, 0, 0]);
    assert_eq!(&head[12..16], &[0x5F, 0x0F, 0x3C, 0xF5]);
    assert_eq!(&head[18..20], &[0x04, 0x00]);
    assert_eq!(table(b"hhea").len(), 36);
    let maxp = table(b"maxp");
    assert_eq!(maxp.len(), 32);
    assert_eq!(&maxp[0..6], &[0, 1, 0, 0, 0, 2]);
    let os2 = table(b"OS/2");
    assert_eq!(os2.len(), 96);
    assert_eq!(&os2[0..2], &[0, 4]);
    assert_eq!(table(b"hmtx").len(), 8);
}
