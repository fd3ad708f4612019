//! PNG+JSON descriptors: a line height, the page images (a `pages` list, or
//! one `image` taken as page 0) and the glyphs with their rectangles.

use vstd::prelude::*;
use crate::descriptor::{pages_map, DescriptorError, GlyphRect, PageFiles};

verus! {

/// A page of a JSON descriptor.
pub struct JsonPage {
    pub id: u16,
    pub file: String,
}

/// A glyph of a JSON descriptor.
pub struct JsonGlyph {
    pub codepoint: u32,
    pub x: u32,
    pub y: u32,
    pub width: u16,
    pub height: u16,
    pub offset_x: i16,
    pub offset_y: i16,
    /// Absent: one more than the width.
    pub advance_width: Option<u16>,
    pub page: u16,
}

/// A JSON descriptor.
pub struct JsonDescriptor {
    pub line_height: u16,
    pub pages: Option<Vec<JsonPage>>,
    pub image: Option<String>,
    pub glyphs: Vec<JsonGlyph>,
}

/// The pages of a JSON descriptor as `(number, file)` pairs.
pub open spec fn json_page_pairs(pages: Seq<JsonPage>) -> Seq<(u16, Seq<char>)> {
    pages.map_values(|p: JsonPage| (p.id, p.file@))
}

/// The page files of a JSON descriptor: those of a non-empty `pages` list (a
/// later entry counting where a number repeats), else `image` as page 0.
pub open spec fn json_pages(d: JsonDescriptor) -> Result<Map<u16, Seq<char>>, DescriptorError> {
    match d.pages {
        Some(pages) => if pages@.len() == 0 {
            Err(DescriptorError::EmptyJsonPages)
        } else {
            Ok(pages_map(json_page_pairs(pages@)))
        },
        None => match d.image {
            Some(image) => Ok(Map::<u16, Seq<char>>::empty().insert(0, image@)),
            None => Err(DescriptorError::NoJsonPagesOrImage),
        },
    }
}

/// The rectangle of a JSON glyph; a missing advance is one more than the width,
/// saturating at `u16::MAX`.
pub open spec fn json_glyph_rect(g: JsonGlyph) -> GlyphRect {
    GlyphRect {
        id: g.codepoint,
        x: g.x,
        y: g.y,
        width: g.width,
        height: g.height,
        offset_x: g.offset_x,
        offset_y: g.offset_y,
        advance_width: match g.advance_width {
            Some(a) => a,
            None => if g.width == u16::MAX {
                u16::MAX
            } else {
                (g.width + 1) as u16
            },
        },
        page: g.page,
    }
}

/// The page files of a JSON descriptor.
pub fn descriptor_pages(descriptor: &JsonDescriptor) -> (r: Result<PageFiles, DescriptorError>)
    ensures
        match r {
            Ok(files) => json_pages(*descriptor) == Ok::<Map<u16, Seq<char>>, DescriptorError>(files@),
            Err(e) => json_pages(*descriptor) == Err::<Map<u16, Seq<char>>, DescriptorError>(e),
        },
{
    if let Some(pages) = &descriptor.pages {
        if pages.len() == 0 {
            return Err(DescriptorError::EmptyJsonPages);
        }
        let mut files = PageFiles::new();
        let mut k: usize = 0;
        assert(json_page_pairs(pages@).take(0) =~= Seq::<(u16, Seq<char>)>::empty());
        while k < pages.len()
            invariant
                k <= pages.len(),
                files@ == pages_map(json_page_pairs(pages@).take(k as int)),
            decreases pages.len() - k,
        {
            let page = &pages[k];
            files.insert(page.id, page.file.clone());
            assert(json_page_pairs(pages@).take(k + 1).drop_last() =~= json_page_pairs(pages@).take(k as int));
            k = k + 1;
        }
        assert(json_page_pairs(pages@).take(k as int) =~= json_page_pairs(pages@));
        return Ok(files);
    }
    if let Some(image) = &descriptor.image {
        let mut files = PageFiles::new();
        files.insert(0, image.clone());
        return Ok(files);
    }
    Err(DescriptorError::NoJsonPagesOrImage)
}

/// Law: the rectangle of a JSON glyph keeps the glyph's codepoint, its
/// position and size in the atlas, its offsets, its page and its advance when
/// it has one; without one the advance is the width plus one, saturating.
pub proof fn lemma_json_rect_keeps_glyph(g: JsonGlyph)
    ensures
        ({
            let r = json_glyph_rect(g);
            &&& r.id == g.codepoint
            &&& r.x == g.x
            &&& r.y == g.y
            &&& r.width == g.width
            &&& r.height == g.height
            &&& r.offset_x == g.offset_x
            &&& r.offset_y == g.offset_y
            &&& r.page == g.page
            &&& (g.advance_width matches Some(a) ==> r.advance_width == a)
            &&& (g.advance_width is None ==> r.advance_width == if g.width < u16::MAX { g.width + 1 } else { u16::MAX as int })
        }),
{
}

/// Whether rectangle `r` is where and what JSON glyph `g` says.
pub open spec fn rect_keeps_glyph(r: GlyphRect, g: JsonGlyph) -> bool {
    &&& r.id == g.codepoint
    &&& r.x == g.x
    &&& r.y == g.y
    &&& r.width == g.width
    &&& r.height == g.height
    &&& r.offset_x == g.offset_x
    &&& r.offset_y == g.offset_y
    &&& r.page == g.page
}

/// The rectangles of the glyphs of a JSON descriptor, in order.
pub fn json_glyphs_to_rects(descriptor: &JsonDescriptor) -> (r: Vec<GlyphRect>)
    ensures
        r@ == descriptor.glyphs@.map_values(|g: JsonGlyph| json_glyph_rect(g)),
        r@.len() == descriptor.glyphs@.len(),
        forall|k: int| 0 <= k < r@.len() ==> rect_keeps_glyph(#[trigger] r@[k], descriptor.glyphs@[k]),
{
    let mut rects: Vec<GlyphRect> = Vec::new();
    let mut k: usize = 0;
    while k < descriptor.glyphs.len()
        invariant
            k <= descriptor.glyphs.len(),
            rects@ =~= descriptor.glyphs@.take(k as int).map_values(|g: JsonGlyph| json_glyph_rect(g)),
        decreases descriptor.glyphs.len() - k,
    {
        let glyph = &descriptor.glyphs[k];
        let advance_width = match glyph.advance_width {
            Some(a) => a,
            None => glyph.width.saturating_add(1),
        };
        rects.push(
            GlyphRect {
                id: glyph.codepoint,
                x: glyph.x,
                y: glyph.y,
                width: glyph.width,
                height: glyph.height,
                offset_x: glyph.offset_x,
                offset_y: glyph.offset_y,
                advance_width,
                page: glyph.page,
            },
        );
        k = k + 1;
        assert(rects@ =~= descriptor.glyphs@.take(k as int).map_values(|g: JsonGlyph| json_glyph_rect(g)));
    }
    assert(descriptor.glyphs@.take(k as int) =~= descriptor.glyphs@);
    rects
}

/// What a JSON descriptor lays out: its page files and glyph rectangles. It
/// must list a glyph, and its pages must be given.
pub fn json_layout(descriptor: &JsonDescriptor) -> (r: Result<(PageFiles, Vec<GlyphRect>), DescriptorError>)
    ensures
        descriptor.glyphs.len() == 0 ==> r == Err::<(PageFiles, Vec<GlyphRect>), DescriptorError>(DescriptorError::NoJsonGlyphs),
        descriptor.glyphs.len() > 0 ==> match r {
            Ok((files, rects)) => json_pages(*descriptor) == Ok::<Map<u16, Seq<char>>, DescriptorError>(files@)
                && rects@ == descriptor.glyphs@.map_values(|g: JsonGlyph| json_glyph_rect(g))
                && rects@.len() == descriptor.glyphs@.len()
                && forall|k: int| 0 <= k < rects@.len() ==> rect_keeps_glyph(#[trigger] rects@[k], descriptor.glyphs@[k]),
            Err(e) => json_pages(*descriptor) == Err::<Map<u16, Seq<char>>, DescriptorError>(e),
        },
{
    if descriptor.glyphs.len() == 0 {
        return Err(DescriptorError::NoJsonGlyphs);
    }
    let files = descriptor_pages(descriptor)?;
    let rects = json_glyphs_to_rects(descriptor);
    Ok((files, rects))
}

} // verus!
