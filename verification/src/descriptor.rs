//! Glyph descriptors: BMFont text files and PNG+JSON layouts, turned into
//! bitmap glyphs.

pub mod bmfont;
pub mod json;
pub mod key_values;

use vstd::prelude::*;
use std::collections::HashMap;
use vstd::arithmetic::div_mod::{lemma_fundamental_div_mod_converse_div, lemma_fundamental_div_mod_converse_mod};
use crate::glyph::{BitmapGlyph, FontConfig};
use crate::text::{str_chars, string_from_chars, IntErrorKind};

verus! {

/// The descriptor fields that are read by name.
#[derive(Debug, Clone, Copy, PartialEq, Eq, Structural)]
pub enum Key {
    LineHeight,
    Id,
    File,
    X,
    Y,
    Width,
    Height,
    XOffset,
    YOffset,
    XAdvance,
    Page,
}

/// The name of a field as it is written in a BMFont line.
pub open spec fn key_name(key: Key) -> Seq<char> {
    match key {
        Key::LineHeight => "lineHeight"@,
        Key::Id => "id"@,
        Key::File => "file"@,
        Key::X => "x"@,
        Key::Y => "y"@,
        Key::Width => "width"@,
        Key::Height => "height"@,
        Key::XOffset => "xoffset"@,
        Key::YOffset => "yoffset"@,
        Key::XAdvance => "xadvance"@,
        Key::Page => "page"@,
    }
}

impl Key {
    /// The name of the field.
    pub fn name(self) -> (r: &'static str)
        ensures
            r@ == key_name(self),
    {
        match self {
            Key::LineHeight => "lineHeight",
            Key::Id => "id",
            Key::File => "file",
            Key::X => "x",
            Key::Y => "y",
            Key::Width => "width",
            Key::Height => "height",
            Key::XOffset => "xoffset",
            Key::YOffset => "yoffset",
            Key::XAdvance => "xadvance",
            Key::Page => "page",
        }
    }
}

/// The integer type a field is read as.
#[derive(Debug, Clone, Copy, PartialEq, Eq, Structural)]
pub enum NumberKind {
    U16,
    U32,
    I16,
}

/// Whether the type has negative values.
pub open spec fn kind_signed(kind: NumberKind) -> bool {
    kind == NumberKind::I16
}

/// The smallest value of the type.
pub open spec fn kind_min(kind: NumberKind) -> int {
    match kind {
        NumberKind::I16 => -0x8000,
        _ => 0,
    }
}

/// The largest value of the type.
pub open spec fn kind_max(kind: NumberKind) -> int {
    match kind {
        NumberKind::U16 => 0xFFFF,
        NumberKind::U32 => 0xFFFF_FFFF,
        NumberKind::I16 => 0x7FFF,
    }
}

/// Why a descriptor could not be read or turned into glyphs.
#[derive(Debug, Clone, Copy, PartialEq, Eq, Structural)]
pub enum DescriptorError {
    /// The file extension is neither `fnt` nor `json`.
    UnsupportedExtension,
    /// A line lacks a field it needs.
    MissingKey(Key),
    /// A field is not a number of its type.
    InvalidNumber(NumberKind, Key, IntErrorKind),
    /// A `page` line has no `file` field.
    MissingPageFile,
    /// No `common` line gave the line height.
    MissingCommon,
    /// No `page` line was found.
    NoPages,
    /// No `char` line was found.
    NoChars,
    /// The JSON layout lists no glyph.
    NoJsonGlyphs,
    /// The JSON layout has an empty `pages` array.
    EmptyJsonPages,
    /// The JSON layout has neither `pages` nor `image`.
    NoJsonPagesOrImage,
    /// A glyph refers to a page whose image was not loaded.
    MissingPageImage(u16),
    /// The glyph's right edge is beyond `u32::MAX`.
    GlyphXOverflow,
    /// The glyph's bottom edge is beyond `u32::MAX`.
    GlyphYOverflow,
    /// The glyph's rectangle leaves its page image.
    GlyphOutOfBounds { x: u32, y: u32, width: u16, height: u16, image_width: u32, image_height: u32 },
}

/// Where a glyph lies on a page image, and its metrics.
#[derive(Debug, Clone, Copy, PartialEq, Eq, Structural)]
pub struct GlyphRect {
    pub id: u32,
    pub x: u32,
    pub y: u32,
    pub width: u16,
    pub height: u16,
    pub offset_x: i16,
    pub offset_y: i16,
    pub advance_width: u16,
    pub page: u16,
}

/// The map from page number to file that a list of pages gives, the later
/// entry counting where a number repeats.
pub open spec fn pages_map(files: Seq<(u16, Seq<char>)>) -> Map<u16, Seq<char>>
    decreases files.len(),
{
    if files.len() == 0 {
        Map::empty()
    } else {
        pages_map(files.drop_last()).insert(files.last().0, files.last().1)
    }
}

/// The page files of a descriptor: the image file of each page number.
pub struct PageFiles {
    files: HashMap<u16, String>,
}

impl View for PageFiles {
    type V = Map<u16, Seq<char>>;

    /// Page number to file name.
    closed spec fn view(&self) -> Map<u16, Seq<char>> {
        self.files@.map_values(|f: String| f@)
    }
}

impl PageFiles {
    /// No page.
    pub fn new() -> (r: Self)
        ensures
            r@ == Map::<u16, Seq<char>>::empty(),
    {
        let r = PageFiles { files: HashMap::new() };
        assert(r@ =~= Map::<u16, Seq<char>>::empty());
        r
    }

    /// Sets the file of page `id`, replacing any earlier one.
    pub fn insert(&mut self, id: u16, file: String)
        ensures
            final(self)@ == old(self)@.insert(id, file@),
    {
        broadcast use vstd::std_specs::hash::group_hash_axioms;
        let ghost text = file@;
        self.files.insert(id, file);
        assert(self@ =~= old(self)@.insert(id, text));
    }

    /// The number of pages.
    pub fn len(&self) -> (n: usize)
        ensures
            n == self@.dom().len(),
            n == 0 <==> self@ == Map::<u16, Seq<char>>::empty(),
    {
        broadcast use vstd::std_specs::hash::group_hash_axioms;
        assert(self@.dom() =~= self.files@.dom());
        let n = self.files.len();
        proof {
            if n == 0 {
                assert(self@ =~= Map::<u16, Seq<char>>::empty());
            } else {
                assert(self@.dom().len() > 0);
            }
        }
        n
    }

    /// The pages: number to file.
    pub fn files(&self) -> (r: &HashMap<u16, String>)
        ensures
            r@.map_values(|f: String| f@) == self@,
    {
        &self.files
    }
}

/// What `image` decodes a page image file to: its width, height and RGBA
/// bytes, or nothing when decoding fails.
pub uninterp spec fn decoded_page(bytes: Seq<u8>, file_name: Seq<char>) -> Option<(u32, u32, Seq<u8>)>;

/// `image::ImageFormat::from_path` on the file name, `image::load_from_memory_with_format`
/// on the bytes, then `to_rgba8`: the width, height and RGBA bytes of the
/// decoded image, a function of the bytes and the name's extension; on failure
/// the text of the `ImageError`.
#[verifier::external_body]
fn decode_rgba(bytes: &[u8], file_name: &str) -> (r: Result<(u32, u32, Vec<u8>), String>)
    ensures
        r is Ok <==> decoded_page(bytes@, file_name@) is Some,
        r matches Ok(d) ==> decoded_page(bytes@, file_name@) == Some((d.0, d.1, d.2@)),
{
    let format = image::ImageFormat::from_path(file_name).map_err(|e| e.to_string())?;
    let decoded = image::load_from_memory_with_format(bytes, format).map_err(|e| e.to_string())?.to_rgba8();
    let (width, height) = decoded.dimensions();
    Ok((width, height, decoded.into_raw()))
}

/// An RGBA page image: four bytes per pixel, rows top to bottom.
pub struct PageImage {
    width: u32,
    height: u32,
    rgba: Vec<u8>,
}

impl PageImage {
    #[verifier::type_invariant]
    closed spec fn sized(&self) -> bool {
        self.rgba@.len() == 4 * self.width * self.height
    }

    /// Width in pixels.
    pub closed spec fn image_width(&self) -> u32 {
        self.width
    }

    /// Height in pixels.
    pub closed spec fn image_height(&self) -> u32 {
        self.height
    }

    /// The alpha byte of the pixel at column `x`, row `y`.
    pub closed spec fn alpha_at(&self, x: int, y: int) -> u8 {
        self.rgba@[4 * (y * self.width + x) + 3]
    }

    /// The image of `width` by `height` pixels whose RGBA bytes are `rgba`, if
    /// there are exactly four bytes per pixel.
    pub fn from_rgba(width: u32, height: u32, rgba: Vec<u8>) -> (r: Option<Self>)
        ensures
            r is Some <==> rgba@.len() == 4 * width * height,
            match r {
                Some(image) => {
                    &&& image.image_width() == width
                    &&& image.image_height() == height
                    &&& forall|x: int, y: int| 0 <= x < width && 0 <= y < height ==> #[trigger] image.alpha_at(x, y) == rgba@[4 * (y * width + x) + 3]
                },
                None => true,
            },
    {
        let n = rgba.len() as u64;
        let area = (width as u64).checked_mul(height as u64);
        let bytes = match area {
            Some(a) => a.checked_mul(4),
            None => None,
        };
        proof {
            assert(width as u64 * height as u64 * 4 == 4 * width * height) by (nonlinear_arith);
            assert(0 <= width * height) by (nonlinear_arith);
            if area is None {
                assert(width * height > u64::MAX);
                assert(4 * width * height > u64::MAX) by (nonlinear_arith)
                    requires
                        width * height > u64::MAX,
                ;
            }
        }
        match bytes {
            Some(b) => {
                assert(b == 4 * width * height);
                if n == b {
                    let image = PageImage { width, height, rgba };
                    assert(forall|x: int, y: int| 0 <= x < width && 0 <= y < height ==> #[trigger] image.alpha_at(x, y) == image.rgba@[4 * (y * width + x) + 3]);
                    Some(image)
                } else {
                    assert(rgba@.len() != 4 * width * height);
                    None
                }
            },
            None => {
                assert(rgba@.len() != 4 * width * height);
                None
            },
        }
    }

    /// Decodes the bytes of a page image file, in the format that the file
    /// name's extension gives, into its RGBA pixels. Fails with the decoder's
    /// message when `image` cannot decode them, and when the decoded buffer
    /// does not hold four bytes per pixel.
    pub fn decode(bytes: &[u8], file_name: &str) -> (r: Result<Self, String>)
        ensures
            r is Ok <==> (decoded_page(bytes@, file_name@) matches Some(d) && d.2.len() == 4 * d.0 * d.1),
            r matches Ok(image) ==> (decoded_page(bytes@, file_name@) matches Some(d) && {
                &&& image.image_width() == d.0
                &&& image.image_height() == d.1
                &&& forall|x: int, y: int| 0 <= x < d.0 && 0 <= y < d.1 ==> #[trigger] image.alpha_at(x, y) == d.2[4 * (y * d.0 + x) + 3]
            }),
    {
        let (width, height, rgba) = decode_rgba(bytes, file_name)?;
        match PageImage::from_rgba(width, height, rgba) {
            Some(image) => Ok(image),
            None => Err(String::from_str("decoded page image has an unexpected size")),
        }
    }

    /// Width in pixels.
    pub fn width(&self) -> (w: u32)
        ensures
            w == self.image_width(),
    {
        self.width
    }

    /// Height in pixels.
    pub fn height(&self) -> (h: u32)
        ensures
            h == self.image_height(),
    {
        self.height
    }
}

/// Pixel `k`, row-major, of a glyph cut out of its page: `1` where the page is
/// not transparent, `0` where it is.
pub open spec fn glyph_pixel(image: PageImage, glyph: GlyphRect, k: int) -> u8 {
    let w = glyph.width as int;
    if image.alpha_at(glyph.x + k % w, glyph.y + k / w) != 0 {
        1
    } else {
        0
    }
}

/// The pixels of a glyph cut out of its page: `1` where the page is not
/// transparent, `0` where it is, row-major; or why the rectangle cannot be cut.
pub open spec fn glyph_pixels(image: PageImage, glyph: GlyphRect) -> Result<Seq<u8>, DescriptorError> {
    let w = glyph.width as int;
    let h = glyph.height as int;
    if glyph.x + w > u32::MAX {
        Err(DescriptorError::GlyphXOverflow)
    } else if glyph.y + h > u32::MAX {
        Err(DescriptorError::GlyphYOverflow)
    } else if glyph.x + w > image.image_width() || glyph.y + h > image.image_height() {
        Err(
            DescriptorError::GlyphOutOfBounds {
                x: glyph.x,
                y: glyph.y,
                width: glyph.width,
                height: glyph.height,
                image_width: image.image_width(),
                image_height: image.image_height(),
            },
        )
    } else {
        Ok(
            Seq::new((w * h) as nat, |k: int| glyph_pixel(image, glyph, k)),
        )
    }
}

/// Law: a glyph cut out of its page holds one byte per pixel of its
/// rectangle, row by row; the byte for column `col` and row `row` of the
/// rectangle is `1` exactly when the page's alpha at column `glyph.x + col`,
/// row `glyph.y + row` is nonzero, and `0` otherwise. The cut succeeds
/// exactly when the rectangle lies inside the page.
pub proof fn lemma_glyph_pixels_read_the_page(image: PageImage, glyph: GlyphRect, col: int, row: int)
    requires
        0 <= col < glyph.width,
        0 <= row < glyph.height,
    ensures
        glyph_pixels(image, glyph) is Ok <==> (glyph.x + glyph.width <= image.image_width() && glyph.y + glyph.height <= image.image_height()),
        glyph_pixels(image, glyph) matches Ok(pixels) ==> {
            &&& pixels.len() == glyph.width * glyph.height
            &&& pixels[row * glyph.width + col] == if image.alpha_at(glyph.x + col, glyph.y + row) != 0 { 1u8 } else { 0u8 }
        },
{
    let w = glyph.width as int;
    let k = row * w + col;
    assert(0 <= k < w * glyph.height) by (nonlinear_arith)
        requires
            k == row * w + col,
            0 <= col < w,
            0 <= row < glyph.height;
    lemma_fundamental_div_mod_converse_div(k, w, row, col);
    lemma_fundamental_div_mod_converse_mod(k, w, row, col);
    assert(w * glyph.height == glyph.width * glyph.height);
}

/// Cuts a glyph's pixels out of its page image.
pub fn extract_glyph_pixels(image: &PageImage, glyph: &GlyphRect) -> (r: Result<Vec<u8>, DescriptorError>)
    ensures
        match r {
            Ok(pixels) => glyph_pixels(*image, *glyph) == Ok::<Seq<u8>, DescriptorError>(pixels@),
            Err(e) => glyph_pixels(*image, *glyph) == Err::<Seq<u8>, DescriptorError>(e),
        },
        r matches Ok(pixels) ==> pixels@.len() == glyph.width * glyph.height,
        r matches Ok(pixels) ==> forall|col: int, row: int| 0 <= col < glyph.width && 0 <= row < glyph.height ==>
            #[trigger] pixels@[row * glyph.width + col] == if image.alpha_at(glyph.x + col, glyph.y + row) != 0 { 1u8 } else { 0u8 },
{
    proof {
        use_type_invariant(image);
    }
    let width = glyph.width as u32;
    let height = glyph.height as u32;
    let x_end = match glyph.x.checked_add(width) {
        Some(v) => v,
        None => return Err(DescriptorError::GlyphXOverflow),
    };
    let y_end = match glyph.y.checked_add(height) {
        Some(v) => v,
        None => return Err(DescriptorError::GlyphYOverflow),
    };
    if x_end > image.width || y_end > image.height {
        return Err(
            DescriptorError::GlyphOutOfBounds {
                x: glyph.x,
                y: glyph.y,
                width: glyph.width,
                height: glyph.height,
                image_width: image.width,
                image_height: image.height,
            },
        );
    }
    let ghost w = width as int;
    let ghost h = height as int;
    let ghost iw = image.width as int;
    let ghost ih = image.height as int;
    let total = image.rgba.len();
    let mut pixels: Vec<u8> = Vec::new();
    let mut row: u32 = 0;
    assert(pixels@ =~= Seq::new(0, |k: int| glyph_pixel(*image, *glyph, k)));
    while row < height
        invariant
            height == h,
            width == w,
            w == glyph.width as int,
            h == glyph.height as int,
            iw == image.width,
            ih == image.height,
            image.rgba@.len() == 4 * iw * ih,
            total == image.rgba@.len(),
            glyph.x + w <= iw,
            glyph.y + h <= ih,
            row <= h,
            pixels@ =~= Seq::new((row * w) as nat, |k: int| glyph_pixel(*image, *glyph, k)),
        decreases h - row,
    {
        let mut col: u32 = 0;
        proof {
            assert(row * w + 0 == row * w);
        }
        while col < width
            invariant
                height == h,
                width == w,
                w == glyph.width as int,
                h == glyph.height as int,
                iw == image.width,
                ih == image.height,
                image.rgba@.len() == 4 * iw * ih,
                total == image.rgba@.len(),
                glyph.x + w <= iw,
                glyph.y + h <= ih,
                row < h,
                col <= w,
                pixels@ =~= Seq::new((row * w + col) as nat, |k: int| glyph_pixel(*image, *glyph, k)),
            decreases w - col,
        {
            let ghost k = row * w + col;
            let ghost px = glyph.x + col;
            let ghost py = glyph.y + row;
            proof {
                assert(0 <= py * iw + px < iw * ih) by (nonlinear_arith)
                    requires
                        0 <= px < iw,
                        0 <= py < ih,
                ;
                assert(0 <= row * w) by (nonlinear_arith)
                    requires
                        0 <= row,
                        0 <= w,
                ;
                lemma_fundamental_div_mod_converse_div(k, w, row as int, col as int);
                lemma_fundamental_div_mod_converse_mod(k, w, row as int, col as int);
            }
            assert(4 * iw * ih == 4 * (iw * ih)) by (nonlinear_arith);
            assert(py * iw + px < total);
            assert(py * iw <= py * iw + px);
            let line_start = ((glyph.y + row) as usize) * (image.width as usize);
            let offset = line_start + ((glyph.x + col) as usize);
            assert(offset == py * iw + px);
            let alpha = image.rgba[4 * offset + 3];
            assert(alpha == image.alpha_at(px, py));
            assert(glyph_pixel(*image, *glyph, k) == (if alpha != 0 { 1u8 } else { 0u8 }));
            pixels.push(if alpha != 0 { 1u8 } else { 0u8 });
            col = col + 1;
            assert(pixels@ =~= Seq::new((row * w + col) as nat, |k: int| glyph_pixel(*image, *glyph, k)));
        }
        row = row + 1;
        assert((row - 1) * w + w == row * w) by (nonlinear_arith);
    }
    assert(h * w == w * h) by (nonlinear_arith);
    assert(glyph_pixels(*image, *glyph) == Ok::<Seq<u8>, DescriptorError>(Seq::new((w * h) as nat, |k: int| glyph_pixel(*image, *glyph, k))));
    proof {
        assert forall|col: int, row: int| 0 <= col < glyph.width && 0 <= row < glyph.height implies
            #[trigger] pixels@[row * glyph.width + col] == if image.alpha_at(glyph.x + col, glyph.y + row) != 0 { 1u8 } else { 0u8 } by {
            lemma_glyph_pixels_read_the_page(*image, *glyph, col, row);
        }
    }
    Ok(pixels)
}

/// The pixels of a glyph, or why they cannot be had: its page must have an image.
pub open spec fn glyph_outcome(images: Map<u16, PageImage>, glyph: GlyphRect) -> Result<Seq<u8>, DescriptorError> {
    if images.contains_key(glyph.page) {
        glyph_pixels(images[glyph.page], glyph)
    } else {
        Err(DescriptorError::MissingPageImage(glyph.page))
    }
}

/// `b` is the bitmap glyph of rectangle `g` with pixels `pixels`.
pub open spec fn bitmap_of_rect(b: BitmapGlyph, g: GlyphRect, pixels: Seq<u8>) -> bool {
    &&& b.codepoint == g.id
    &&& b.width == g.width
    &&& b.height == g.height
    &&& b.offset_x == g.offset_x
    &&& b.offset_y == g.offset_y
    &&& b.advance_width == Some(g.advance_width)
    &&& b.pixels@ == pixels
}

/// Turns glyph rectangles into bitmap glyphs cut out of their page images, in
/// order; the first glyph that cannot be cut gives the error.
pub fn glyph_rects_to_bitmap_glyphs(glyphs: &Vec<GlyphRect>, images: &HashMap<u16, PageImage>) -> (r: Result<Vec<BitmapGlyph>, DescriptorError>)
    ensures
        match r {
            Ok(out) => {
                &&& out.len() == glyphs.len()
                &&& forall|i: int| 0 <= i < glyphs.len() ==> #[trigger] glyph_outcome(images@, glyphs@[i]) == Ok::<Seq<u8>, DescriptorError>(out@[i].pixels@)
                &&& forall|i: int| 0 <= i < glyphs.len() ==> bitmap_of_rect(#[trigger] out@[i], glyphs@[i], out@[i].pixels@)
            },
            Err(e) => exists|i: int|
                0 <= i < glyphs.len() && #[trigger] glyph_outcome(images@, glyphs@[i]) == Err::<Seq<u8>, DescriptorError>(e)
                    && forall|j: int| 0 <= j < i ==> #[trigger] glyph_outcome(images@, glyphs@[j]) is Ok,
        },
{
    let mut out: Vec<BitmapGlyph> = Vec::new();
    let mut k: usize = 0;
    while k < glyphs.len()
        invariant
            k <= glyphs.len(),
            out.len() == k,
            forall|i: int| 0 <= i < k ==> #[trigger] glyph_outcome(images@, glyphs@[i]) == Ok::<Seq<u8>, DescriptorError>(out@[i].pixels@),
            forall|i: int| 0 <= i < k ==> bitmap_of_rect(#[trigger] out@[i], glyphs@[i], out@[i].pixels@),
        decreases glyphs.len() - k,
    {
        let glyph = &glyphs[k];
        proof {
            broadcast use vstd::std_specs::hash::group_hash_axioms;
        }
        let image = match images.get(&glyph.page) {
            Some(image) => image,
            None => {
                assert(glyph_outcome(images@, glyphs@[k as int]) == Err::<Seq<u8>, DescriptorError>(DescriptorError::MissingPageImage(glyph.page)));
                assert(forall|j: int| 0 <= j < k ==> #[trigger] glyph_outcome(images@, glyphs@[j]) is Ok);
                return Err(DescriptorError::MissingPageImage(glyph.page));
            },
        };
        let pixels = match extract_glyph_pixels(image, glyph) {
            Ok(pixels) => pixels,
            Err(e) => {
                assert(glyph_outcome(images@, glyphs@[k as int]) == Err::<Seq<u8>, DescriptorError>(e));
                assert(forall|j: int| 0 <= j < k ==> #[trigger] glyph_outcome(images@, glyphs@[j]) is Ok);
                return Err(e);
            },
        };
        let bitmap = BitmapGlyph {
            codepoint: glyph.id,
            width: glyph.width,
            height: glyph.height,
            offset_x: glyph.offset_x,
            offset_y: glyph.offset_y,
            advance_width: Some(glyph.advance_width),
            pixels,
        };
        out.push(bitmap);
        k = k + 1;
    }
    Ok(out)
}

/// The two descriptor formats.
#[derive(Debug, Clone, Copy, PartialEq, Eq, Structural)]
pub enum DescriptorFormat {
    /// BMFont text (`.fnt`).
    Bmfont,
    /// PNG+JSON (`.json`).
    Json,
}

/// ASCII letters in lower case, other characters unchanged.
pub open spec fn ascii_lowercase(s: Seq<char>) -> Seq<char> {
    s.map_values(|c: char| if 'A' <= c && c <= 'Z' { (c as int + 32) as char } else { c })
}

/// The format that a file extension names, compared without regard to ASCII case.
pub open spec fn format_of_extension(extension: Seq<char>) -> Result<DescriptorFormat, DescriptorError> {
    if ascii_lowercase(extension) == "fnt"@ {
        Ok(DescriptorFormat::Bmfont)
    } else if ascii_lowercase(extension) == "json"@ {
        Ok(DescriptorFormat::Json)
    } else {
        Err(DescriptorError::UnsupportedExtension)
    }
}

/// The format of a descriptor file with this extension (none counts as empty).
pub fn descriptor_format(extension: Option<&str>) -> (r: Result<DescriptorFormat, DescriptorError>)
    ensures
        r == format_of_extension(
            match extension {
                Some(e) => e@,
                None => Seq::<char>::empty(),
            },
        ),
{
    let chars = match extension {
        Some(e) => str_chars(e),
        None => Vec::new(),
    };
    let mut lower: Vec<char> = Vec::new();
    let mut k: usize = 0;
    while k < chars.len()
        invariant
            k <= chars.len(),
            lower@ =~= ascii_lowercase(chars@.take(k as int)),
        decreases chars.len() - k,
    {
        let c = chars[k];
        let l = if 'A' <= c && c <= 'Z' {
            let code = c as u32 + 32;
            assert(code <= 0x7A);
            crate::text::char_from_ascii(code)
        } else {
            c
        };
        lower.push(l);
        k = k + 1;
        assert(lower@ =~= ascii_lowercase(chars@.take(k as int)));
    }
    assert(chars@.take(k as int) =~= chars@);
    if key_values::same_chars(&lower, &str_chars("fnt")) {
        Ok(DescriptorFormat::Bmfont)
    } else if key_values::same_chars(&lower, &str_chars("json")) {
        Ok(DescriptorFormat::Json)
    } else {
        Err(DescriptorError::UnsupportedExtension)
    }
}

/// The font configuration of a conversion run: the family name given, else
/// the descriptor file's stem, else `BitmapFont`; the line height given, else
/// the descriptor's.
pub fn resolve_font_config(
    family_name: Option<String>,
    file_stem: Option<String>,
    line_height: Option<u16>,
    descriptor_line_height: u16,
    scale: u32,
) -> (config: FontConfig)
    ensures
        config.family_name@ == (match family_name {
            Some(name) => name@,
            None => match file_stem {
                Some(stem) => stem@,
                None => "BitmapFont"@,
            },
        }),
        config.line_height == (match line_height {
            Some(h) => h,
            None => descriptor_line_height,
        }),
        config.scale == scale,
{
    let family_name = match family_name {
        Some(name) => name,
        None => match file_stem {
            Some(stem) => stem,
            None => string_from_chars(&str_chars("BitmapFont")),
        },
    };
    let line_height = match line_height {
        Some(h) => h,
        None => descriptor_line_height,
    };
    FontConfig { family_name, line_height, scale }
}

} // verus!
