use bitmap2ttf::descriptor::bmfont::parse;
use bitmap2ttf::descriptor::json::{
    descriptor_pages, json_glyphs_to_rects, json_layout, JsonDescriptor, JsonGlyph, JsonPage,
};
use bitmap2ttf::descriptor::key_values::parse_key_values;
use bitmap2ttf::descriptor::{
    descriptor_format, extract_glyph_pixels, glyph_rects_to_bitmap_glyphs, resolve_font_config,
    DescriptorError, DescriptorFormat, GlyphRect, Key, NumberKind, PageFiles, PageImage,
};
use bitmap2ttf::text::{ascii_white_space, parse_integer, trim_chars, white_space, IntErrorKind};

const SAMPLE: &str = "info face=\"Test Font\" size=8\n\
common lineHeight=10 base=8 pages=1\n\
page id=0 file=\"atlas.png\"\n\
chars count=1\n\
char id=65 x=1 y=2 width=3 height=4 xoffset=-1 yoffset=2 xadvance=5 page=0 chnl=15\n";

fn chars(s: &str) -> Vec<char> {
    s.chars().collect()
}

fn page_list(files: &PageFiles) -> Vec<(u16, String)> {
    let mut list: Vec<(u16, String)> = files.files().iter().map(|(id, file)| (*id, file.clone())).collect();
    list.sort();
    list
}

fn rect(id: u32, x: u32, y: u32, width: u16, height: u16, page: u16) -> GlyphRect {
    GlyphRect { id, x, y, width, height, offset_x: 0, offset_y: 0, advance_width: width + 1, page }
}

/// A 3x2 RGBA image whose alpha channel is `alpha`, row-major.
fn image(width: u32, height: u32, alpha: &[u8]) -> PageImage {
    let mut rgba = Vec::new();
    for a in alpha {
        rgba.extend_from_slice(&[255, 255, 255, *a]);
    }
    PageImage::from_rgba(width, height, rgba).unwrap()
}

#[test]
fn bmfont_sample_parses() {
    let info = parse(SAMPLE).unwrap();
    assert_eq!(info.line_height, 10);
    assert_eq!(page_list(&info.pages), vec![(0, "atlas.png".to_string())]);
    assert_eq!(
        info.glyphs,
        vec![GlyphRect { id: 65, x: 1, y: 2, width: 3, height: 4, offset_x: -1, offset_y: 2, advance_width: 5, page: 0 }]
    );
}

#[test]
fn bmfont_crlf_and_blank_lines() {
    let text = "\r\n  common lineHeight=12\r\n\r\n\tpage id=1 file=a.png\r\nchar id=1 x=0 y=0 width=1 height=1 xoffset=0 yoffset=0 xadvance=2 page=1";
    let info = parse(text).unwrap();
    assert_eq!(info.line_height, 12);
    assert_eq!(page_list(&info.pages), vec![(1, "a.png".to_string())]);
    assert_eq!(info.glyphs.len(), 1);
    assert_eq!(info.glyphs[0].advance_width, 2);
}

#[test]
fn bmfont_later_values_win() {
    let text = "common lineHeight=5 lineHeight=7\n\
page id=0 file=first.png\n\
page id=0 file=\"second file.png\"\n\
page id=2 file=third.png\n\
common lineHeight=9\n\
char id=1 x=0 y=0 width=1 height=1 xoffset=0 yoffset=0 xadvance=2 page=0\n";
    let info = parse(text).unwrap();
    assert_eq!(info.line_height, 9);
    assert_eq!(
        page_list(&info.pages),
        vec![(0, "second file.png".to_string()), (2, "third.png".to_string())]
    );
    assert_eq!(info.pages.len(), 2);
}

#[test]
fn bmfont_missing_parts() {
    assert_eq!(parse("page id=0 file=a.png\nchar id=1 x=0 y=0 width=1 height=1 xoffset=0 yoffset=0 xadvance=1 page=0").err(), Some(DescriptorError::MissingCommon));
    assert_eq!(parse("common lineHeight=8\nchar id=1 x=0 y=0 width=1 height=1 xoffset=0 yoffset=0 xadvance=1 page=0").err(), Some(DescriptorError::NoPages));
    assert_eq!(parse("common lineHeight=8\npage id=0 file=a.png").err(), Some(DescriptorError::NoChars));
    assert_eq!(parse("").err(), Some(DescriptorError::MissingCommon));
    assert_eq!(parse("page id=0").err(), Some(DescriptorError::MissingPageFile));
    assert_eq!(parse("page file=a.png").err(), Some(DescriptorError::MissingKey(Key::Id)));
    assert_eq!(parse("char id=1 y=0").err(), Some(DescriptorError::MissingKey(Key::X)));
    assert_eq!(parse("common").err(), Some(DescriptorError::MissingKey(Key::LineHeight)));
}

#[test]
fn bmfont_number_errors() {
    assert_eq!(
        parse("common lineHeight=abc").err(),
        Some(DescriptorError::InvalidNumber(NumberKind::U16, Key::LineHeight, IntErrorKind::InvalidDigit))
    );
    assert_eq!(
        parse("common lineHeight=70000").err(),
        Some(DescriptorError::InvalidNumber(NumberKind::U16, Key::LineHeight, IntErrorKind::PosOverflow))
    );
    assert_eq!(
        parse("common lineHeight=").err(),
        Some(DescriptorError::InvalidNumber(NumberKind::U16, Key::LineHeight, IntErrorKind::Empty))
    );
    assert_eq!(
        parse("common lineHeight=-5").err(),
        Some(DescriptorError::InvalidNumber(NumberKind::U16, Key::LineHeight, IntErrorKind::InvalidDigit))
    );
    assert_eq!(
        parse("char id=1 x=0 y=0 width=1 height=1 xoffset=-40000 yoffset=0 xadvance=1 page=0").err(),
        Some(DescriptorError::InvalidNumber(NumberKind::I16, Key::XOffset, IntErrorKind::NegOverflow))
    );
    assert_eq!(
        parse("char id=4294967296 x=0").err(),
        Some(DescriptorError::InvalidNumber(NumberKind::U32, Key::Id, IntErrorKind::PosOverflow))
    );
}

#[test]
fn bmfont_first_bad_line_decides() {
    let text = "common lineHeight=x\nchar id=1\n";
    assert_eq!(
        parse(text).err(),
        Some(DescriptorError::InvalidNumber(NumberKind::U16, Key::LineHeight, IntErrorKind::InvalidDigit))
    );
    let text = "kerning first=1 second=2 amount=-1\ncommon lineHeight=3\npage id=0 file=a\nchar id=7 x=+1 y=0 width=1 height=1 xoffset=+2 yoffset=-3 xadvance=4 page=0";
    let info = parse(text).unwrap();
    assert_eq!(info.glyphs[0].x, 1);
    assert_eq!(info.glyphs[0].offset_x, 2);
    assert_eq!(info.glyphs[0].offset_y, -3);
}

#[test]
fn key_values_tokenize() {
    let values = parse_key_values(&chars("  a=1 junk b=\"x y\" c= d=\"open"));
    let pairs: Vec<(String, String)> = values
        .entries
        .iter()
        .map(|e| (e.key.iter().collect(), e.value.iter().collect()))
        .collect();
    assert_eq!(
        pairs,
        vec![
            ("a".to_string(), "1".to_string()),
            ("b".to_string(), "x y".to_string()),
            ("c".to_string(), "".to_string()),
            ("d".to_string(), "open".to_string()),
        ]
    );
    assert_eq!(values.get("b").map(|v| v.iter().collect::<String>()), Some("x y".to_string()));
    assert_eq!(values.get("junk"), None);
}

#[test]
fn key_values_later_duplicate_counts() {
    let values = parse_key_values(&chars("k=1 k=2"));
    assert_eq!(values.entries.len(), 2);
    assert_eq!(values.get("k"), Some(&vec!['2']));
    let values = parse_key_values(&chars("=5 x"));
    assert_eq!(values.entries.len(), 1);
    assert_eq!(values.get(""), Some(&vec!['5']));
}

#[test]
fn integers_read_like_std() {
    for text in ["0", "65535", "+7", "-1", "", "+", "-", "1x", "00012", "99999999x", "65536"] {
        let expected: Result<u16, _> = text.parse::<u16>();
        let got = parse_integer(&chars(text), false, 0, 0xFFFF);
        match expected {
            Ok(v) => assert_eq!(got, Ok(i64::from(v)), "{text}"),
            Err(e) => {
                let kind = match e.kind() {
                    std::num::IntErrorKind::Empty => IntErrorKind::Empty,
                    std::num::IntErrorKind::InvalidDigit => IntErrorKind::InvalidDigit,
                    std::num::IntErrorKind::PosOverflow => IntErrorKind::PosOverflow,
                    std::num::IntErrorKind::NegOverflow => IntErrorKind::NegOverflow,
                    _ => panic!("unexpected kind"),
                };
                assert_eq!(got, Err(kind), "{text}");
            }
        }
    }
    for text in ["-32768", "32767", "-32769", "32768", "-", "-0", "--1", "+-1"] {
        let expected: Result<i16, _> = text.parse::<i16>();
        let got = parse_integer(&chars(text), true, -0x8000, 0x7FFF);
        match expected {
            Ok(v) => assert_eq!(got, Ok(i64::from(v)), "{text}"),
            Err(e) => {
                let kind = match e.kind() {
                    std::num::IntErrorKind::Empty => IntErrorKind::Empty,
                    std::num::IntErrorKind::InvalidDigit => IntErrorKind::InvalidDigit,
                    std::num::IntErrorKind::PosOverflow => IntErrorKind::PosOverflow,
                    std::num::IntErrorKind::NegOverflow => IntErrorKind::NegOverflow,
                    _ => panic!("unexpected kind"),
                };
                assert_eq!(got, Err(kind), "{text}");
            }
        }
    }
}

#[test]
fn formats_by_extension() {
    assert_eq!(descriptor_format(Some("fnt")), Ok(DescriptorFormat::Bmfont));
    assert_eq!(descriptor_format(Some("FNT")), Ok(DescriptorFormat::Bmfont));
    assert_eq!(descriptor_format(Some("Json")), Ok(DescriptorFormat::Json));
    assert_eq!(descriptor_format(Some("png")), Err(DescriptorError::UnsupportedExtension));
    assert_eq!(descriptor_format(None), Err(DescriptorError::UnsupportedExtension));
}

fn json_glyph(codepoint: u32, advance_width: Option<u16>, width: u16, page: u16) -> JsonGlyph {
    JsonGlyph { codepoint, x: 0, y: 0, width, height: 1, offset_x: 0, offset_y: 0, advance_width, page }
}

#[test]
fn json_pages_from_list_or_image() {
    let d = JsonDescriptor {
        line_height: 8,
        pages: Some(vec![
            JsonPage { id: 1, file: "one.png".to_string() },
            JsonPage { id: 0, file: "zero.png".to_string() },
            JsonPage { id: 1, file: "uno.png".to_string() },
        ]),
        image: Some("ignored.png".to_string()),
        glyphs: vec![],
    };
    let files = descriptor_pages(&d).unwrap();
    assert_eq!(page_list(&files), vec![(0, "zero.png".to_string()), (1, "uno.png".to_string())]);

    let d = JsonDescriptor { line_height: 8, pages: None, image: Some("atlas.png".to_string()), glyphs: vec![] };
    assert_eq!(page_list(&descriptor_pages(&d).unwrap()), vec![(0, "atlas.png".to_string())]);

    let d = JsonDescriptor { line_height: 8, pages: Some(vec![]), image: Some("atlas.png".to_string()), glyphs: vec![] };
    assert_eq!(descriptor_pages(&d).err(), Some(DescriptorError::EmptyJsonPages));

    let d = JsonDescriptor { line_height: 8, pages: None, image: None, glyphs: vec![] };
    assert_eq!(descriptor_pages(&d).err(), Some(DescriptorError::NoJsonPagesOrImage));
}

#[test]
fn json_glyph_advance_defaults() {
    let d = JsonDescriptor {
        line_height: 8,
        pages: None,
        image: Some("a.png".to_string()),
        glyphs: vec![json_glyph(65, None, 7, 0), json_glyph(66, Some(3), 7, 2), json_glyph(67, None, u16::MAX, 0)],
    };
    let rects = json_glyphs_to_rects(&d);
    assert_eq!(rects.iter().map(|r| r.advance_width).collect::<Vec<_>>(), vec![8, 3, u16::MAX]);
    assert_eq!(rects[1].page, 2);
    assert_eq!(rects[0].id, 65);
    let (files, layout_rects) = json_layout(&d).unwrap();
    assert_eq!(files.len(), 1);
    assert_eq!(layout_rects, rects);
}

#[test]
fn json_layout_needs_glyphs() {
    let d = JsonDescriptor { line_height: 8, pages: None, image: None, glyphs: vec![] };
    assert_eq!(json_layout(&d).err(), Some(DescriptorError::NoJsonGlyphs));
    let d = JsonDescriptor { line_height: 8, pages: None, image: None, glyphs: vec![json_glyph(1, None, 1, 0)] };
    assert_eq!(json_layout(&d).err(), Some(DescriptorError::NoJsonPagesOrImage));
}

#[test]
fn page_image_needs_four_bytes_per_pixel() {
    assert!(PageImage::from_rgba(2, 1, vec![0; 8]).is_some());
    assert!(PageImage::from_rgba(2, 1, vec![0; 7]).is_none());
    assert!(PageImage::from_rgba(0, 5, vec![]).is_some());
}

#[test]
fn glyph_pixels_follow_alpha() {
    // alpha:
    // 0 9 0
    // 1 0 255
    let page = image(3, 2, &[0, 9, 0, 1, 0, 255]);
    assert_eq!(page.width(), 3);
    assert_eq!(page.height(), 2);
    let pixels = extract_glyph_pixels(&page, &rect(1, 1, 0, 2, 2, 0)).unwrap();
    assert_eq!(pixels, vec![1, 0, 0, 1]);
    let all = extract_glyph_pixels(&page, &rect(1, 0, 0, 3, 2, 0)).unwrap();
    assert_eq!(all, vec![0, 1, 0, 1, 0, 1]);
    let none = extract_glyph_pixels(&page, &rect(1, 3, 2, 0, 0, 0)).unwrap();
    assert!(none.is_empty());
}

#[test]
fn glyph_rectangle_errors() {
    let page = image(3, 2, &[0, 9, 0, 1, 0, 255]);
    assert_eq!(
        extract_glyph_pixels(&page, &rect(1, 2, 0, 2, 1, 0)),
        Err(DescriptorError::GlyphOutOfBounds { x: 2, y: 0, width: 2, height: 1, image_width: 3, image_height: 2 })
    );
    assert_eq!(extract_glyph_pixels(&page, &rect(1, u32::MAX, 0, 1, 1, 0)), Err(DescriptorError::GlyphXOverflow));
    assert_eq!(extract_glyph_pixels(&page, &rect(1, 0, u32::MAX, 1, 1, 0)), Err(DescriptorError::GlyphYOverflow));
}

#[test]
fn rects_become_bitmap_glyphs() {
    let mut images = std::collections::HashMap::new();
    images.insert(0u16, image(3, 2, &[0, 9, 0, 1, 0, 255]));
    images.insert(4u16, image(1, 1, &[7]));
    let mut second = rect(66, 0, 0, 1, 1, 4);
    second.offset_x = -2;
    second.offset_y = 3;
    second.advance_width = 9;
    let glyphs = glyph_rects_to_bitmap_glyphs(&vec![rect(65, 1, 0, 2, 2, 0), second], &images).unwrap();
    assert_eq!(glyphs.len(), 2);
    assert_eq!(glyphs[0].codepoint, 65);
    assert_eq!(glyphs[0].pixels, vec![1, 0, 0, 1]);
    assert_eq!(glyphs[0].advance_width, Some(3));
    assert_eq!(glyphs[1].codepoint, 66);
    assert_eq!((glyphs[1].offset_x, glyphs[1].offset_y), (-2, 3));
    assert_eq!(glyphs[1].advance_width, Some(9));
    assert_eq!(glyphs[1].pixels, vec![1]);

    let missing = glyph_rects_to_bitmap_glyphs(&vec![rect(65, 1, 0, 2, 2, 0), rect(66, 0, 0, 1, 1, 1)], &images);
    assert_eq!(missing.err(), Some(DescriptorError::MissingPageImage(1)));
    let out_of_bounds = glyph_rects_to_bitmap_glyphs(&vec![rect(65, 5, 0, 2, 2, 0), rect(66, 0, 0, 1, 1, 1)], &images);
    assert!(matches!(out_of_bounds.err(), Some(DescriptorError::GlyphOutOfBounds { .. })));
}

#[test]
fn font_config_fallbacks() {
    let config = resolve_font_config(Some("Given".to_string()), Some("stem".to_string()), Some(12), 10, 32);
    assert_eq!((config.family_name.as_str(), config.line_height, config.scale), ("Given", 12, 32));
    let config = resolve_font_config(None, Some("stem".to_string()), None, 10, 64);
    assert_eq!((config.family_name.as_str(), config.line_height, config.scale), ("stem", 10, 64));
    let config = resolve_font_config(None, None, None, 10, 64);
    assert_eq!(config.family_name, "BitmapFont");
}

#[test]
fn whitespace_matches_std() {
    for code in 0u32..0x3100 {
        if let Some(c) = char::from_u32(code) {
            assert_eq!(white_space(c), c.is_whitespace(), "U+{code:04X}");
            assert_eq!(ascii_white_space(c), c.is_ascii_whitespace(), "U+{code:04X}");
        }
    }
}

#[test]
fn trim_matches_std() {
    for text in ["", "  ", "a", " a b \t", "\u{3000}x\u{2029}", "\r\nline\r", "\u{85}\u{A0}"] {
        let trimmed: String = trim_chars(&chars(text)).into_iter().collect();
        assert_eq!(trimmed, text.trim(), "{text:?}");
    }
}

fn png_bytes(width: u32, height: u32, alpha: &[u8]) -> Vec<u8> {
    let mut rgba = Vec::new();
    for a in alpha {
        rgba.extend_from_slice(&[10, 20, 30, *a]);
    }
    let buffer = image::RgbaImage::from_raw(width, height, rgba).unwrap();
    let mut out = std::io::Cursor::new(Vec::new());
    buffer.write_to(&mut out, image::ImageFormat::Png).unwrap();
    out.into_inner()
}

#[test]
fn decode_reads_png_pages() {
    let bytes = png_bytes(3, 2, &[0, 255, 0, 7, 0, 9]);
    let page = PageImage::decode(&bytes, "atlas.png").unwrap();
    assert_eq!((page.width(), page.height()), (3, 2));
    let pixels = extract_glyph_pixels(&page, &rect(1, 0, 0, 3, 2, 0)).unwrap();
    assert_eq!(pixels, vec![0, 1, 0, 1, 0, 1]);
}

#[test]
fn decode_rejects_bad_bytes_and_unknown_extensions() {
    let bytes = png_bytes(1, 1, &[255]);
    assert!(PageImage::decode(&bytes[..bytes.len() / 2], "atlas.png").is_err());
    assert!(PageImage::decode(&bytes, "atlas").is_err());
    assert!(PageImage::decode(b"not an image", "atlas.png").is_err());
}
