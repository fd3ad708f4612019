//! BMFont text descriptors.
//!
//! A descriptor is a sequence of lines, each a tag followed by `key=value`
//! fields. `common` gives the line height, `page` the image file of a page,
//! `char` one glyph; other tags are ignored. Blank lines are skipped, and the
//! first line that cannot be read decides the error.

use vstd::prelude::*;
use crate::descriptor::key_values::{field_value, fields, parse_key_values, same_chars, KeyValues};
use crate::descriptor::{
    key_name, kind_max, kind_min, kind_signed, DescriptorError, GlyphRect, Key, NumberKind, PageFiles,
};
use crate::text::{
    copy_range, is_white_space, parse_int, parse_integer, str_chars, string_from_chars, trim, trim_chars,
    white_space,
};

verus! {

/// The number in field `key` read as an integer of type `kind`.
pub open spec fn number_field(fields: Seq<(Seq<char>, Seq<char>)>, key: Key, kind: NumberKind) -> Result<int, DescriptorError> {
    match field_value(fields, key_name(key)) {
        None => Err(DescriptorError::MissingKey(key)),
        Some(raw) => match parse_int(raw, kind_signed(kind), kind_min(kind), kind_max(kind)) {
            Ok(v) => Ok(v),
            Err(e) => Err(DescriptorError::InvalidNumber(kind, key, e)),
        },
    }
}

/// The glyph of a `char` line: its fields read in the order `id`, `x`, `y`,
/// `width`, `height`, `xoffset`, `yoffset`, `xadvance`, `page`, the first that
/// fails giving the error.
pub open spec fn glyph_rect_fields(f: Seq<(Seq<char>, Seq<char>)>) -> Result<GlyphRect, DescriptorError> {
    match number_field(f, Key::Id, NumberKind::U32) {
        Err(e) => Err(e),
        Ok(id) => match number_field(f, Key::X, NumberKind::U32) {
            Err(e) => Err(e),
            Ok(x) => match number_field(f, Key::Y, NumberKind::U32) {
                Err(e) => Err(e),
                Ok(y) => match number_field(f, Key::Width, NumberKind::U16) {
                    Err(e) => Err(e),
                    Ok(width) => match number_field(f, Key::Height, NumberKind::U16) {
                        Err(e) => Err(e),
                        Ok(height) => match number_field(f, Key::XOffset, NumberKind::I16) {
                            Err(e) => Err(e),
                            Ok(offset_x) => match number_field(f, Key::YOffset, NumberKind::I16) {
                                Err(e) => Err(e),
                                Ok(offset_y) => match number_field(f, Key::XAdvance, NumberKind::U16) {
                                    Err(e) => Err(e),
                                    Ok(advance_width) => match number_field(f, Key::Page, NumberKind::U16) {
                                        Err(e) => Err(e),
                                        Ok(page) => Ok(
                                            GlyphRect {
                                                id: id as u32,
                                                x: x as u32,
                                                y: y as u32,
                                                width: width as u16,
                                                height: height as u16,
                                                offset_x: offset_x as i16,
                                                offset_y: offset_y as i16,
                                                advance_width: advance_width as u16,
                                                page: page as u16,
                                            },
                                        ),
                                    },
                                },
                            },
                        },
                    },
                },
            },
        },
    }
}

/// What the lines read so far have set.
pub struct BmfontModel {
    pub line_height: Option<u16>,
    pub pages: Map<u16, Seq<char>>,
    pub glyphs: Seq<GlyphRect>,
}

/// Nothing read yet.
pub open spec fn empty_model() -> BmfontModel {
    BmfontModel { line_height: None, pages: Map::empty(), glyphs: Seq::empty() }
}

/// The first position at or after `i` that holds Unicode whitespace.
pub open spec fn first_white_space(s: Seq<char>, i: int) -> int
    decreases s.len() - i,
{
    if 0 <= i < s.len() && !is_white_space(s[i]) {
        first_white_space(s, i + 1)
    } else {
        i
    }
}

/// `first_white_space` stays between its start and the end.
proof fn lemma_first_white_space_bounds(s: Seq<char>, i: int)
    requires
        0 <= i <= s.len(),
    ensures
        i <= first_white_space(s, i) <= s.len(),
    decreases s.len() - i,
{
    if i < s.len() {
        lemma_first_white_space_bounds(s, i + 1);
    }
}

/// The tag of a line: what precedes its first whitespace.
pub open spec fn line_tag(line: Seq<char>) -> Seq<char> {
    line.subrange(0, first_white_space(line, 0))
}

/// The fields part of a line: what follows its first whitespace.
pub open spec fn line_rest(line: Seq<char>) -> Seq<char> {
    let split = first_white_space(line, 0);
    if split < line.len() {
        line.subrange(split + 1, line.len() as int)
    } else {
        Seq::empty()
    }
}

/// The effect of one non-blank, trimmed line.
pub open spec fn line_model(acc: BmfontModel, line: Seq<char>) -> Result<BmfontModel, DescriptorError> {
    let tag = line_tag(line);
    let f = fields(line_rest(line));
    if tag == "common"@ {
        match number_field(f, Key::LineHeight, NumberKind::U16) {
            Err(e) => Err(e),
            Ok(v) => Ok(BmfontModel { line_height: Some(v as u16), pages: acc.pages, glyphs: acc.glyphs }),
        }
    } else if tag == "page"@ {
        match number_field(f, Key::Id, NumberKind::U16) {
            Err(e) => Err(e),
            Ok(id) => match field_value(f, key_name(Key::File)) {
                None => Err(DescriptorError::MissingPageFile),
                Some(file) => Ok(
                    BmfontModel { line_height: acc.line_height, pages: acc.pages.insert(id as u16, file), glyphs: acc.glyphs },
                ),
            },
        }
    } else if tag == "char"@ {
        match glyph_rect_fields(f) {
            Err(e) => Err(e),
            Ok(g) => Ok(BmfontModel { line_height: acc.line_height, pages: acc.pages, glyphs: acc.glyphs.push(g) }),
        }
    } else {
        Ok(acc)
    }
}

/// The pieces of a text between line feeds (a carriage return before a line
/// feed is whitespace, so trimming removes it with the rest).
pub open spec fn newline_pieces(s: Seq<char>) -> Seq<Seq<char>>
    decreases s.len(),
{
    if s.len() == 0 {
        seq![Seq::empty()]
    } else {
        let p = newline_pieces(s.drop_last());
        if s.last() == '\n' {
            p.push(Seq::empty())
        } else {
            p.drop_last().push(p.last().push(s.last()))
        }
    }
}

/// The effect of one piece of text: nothing once an error happened, nothing for
/// a blank line, else that of the trimmed line.
pub open spec fn absorb_line(acc: Result<BmfontModel, DescriptorError>, piece: Seq<char>) -> Result<BmfontModel, DescriptorError> {
    match acc {
        Err(e) => Err(e),
        Ok(a) => {
            let line = trim(piece);
            if line.len() == 0 {
                Ok(a)
            } else {
                line_model(a, line)
            }
        },
    }
}

/// The effect of the pieces, in order.
pub open spec fn absorb_lines(pieces: Seq<Seq<char>>) -> Result<BmfontModel, DescriptorError>
    decreases pieces.len(),
{
    if pieces.len() == 0 {
        Ok(empty_model())
    } else {
        absorb_line(absorb_lines(pieces.drop_last()), pieces.last())
    }
}

/// What a whole descriptor gives.
pub struct BmfontInfoModel {
    pub line_height: u16,
    pub pages: Map<u16, Seq<char>>,
    pub glyphs: Seq<GlyphRect>,
}

/// The checks at the end: a line height, a page and a glyph are needed.
pub open spec fn finish_model(acc: BmfontModel) -> Result<BmfontInfoModel, DescriptorError> {
    match acc.line_height {
        None => Err(DescriptorError::MissingCommon),
        Some(h) => if acc.pages == Map::<u16, Seq<char>>::empty() {
            Err(DescriptorError::NoPages)
        } else if acc.glyphs.len() == 0 {
            Err(DescriptorError::NoChars)
        } else {
            Ok(BmfontInfoModel { line_height: h, pages: acc.pages, glyphs: acc.glyphs })
        },
    }
}

/// What a descriptor text gives.
pub open spec fn bmfont_model(text: Seq<char>) -> Result<BmfontInfoModel, DescriptorError> {
    match absorb_lines(newline_pieces(text)) {
        Err(e) => Err(e),
        Ok(acc) => finish_model(acc),
    }
}

/// A parsed BMFont descriptor.
pub struct BmfontInfo {
    pub line_height: u16,
    pub pages: PageFiles,
    pub glyphs: Vec<GlyphRect>,
}

impl View for BmfontInfo {
    type V = BmfontInfoModel;

    open spec fn view(&self) -> BmfontInfoModel {
        BmfontInfoModel { line_height: self.line_height, pages: self.pages@, glyphs: self.glyphs@ }
    }
}

/// What the lines read so far have set.
pub struct BmfontAccumulator {
    pub line_height: Option<u16>,
    pub pages: PageFiles,
    pub glyphs: Vec<GlyphRect>,
}

impl View for BmfontAccumulator {
    type V = BmfontModel;

    open spec fn view(&self) -> BmfontModel {
        BmfontModel { line_height: self.line_height, pages: self.pages@, glyphs: self.glyphs@ }
    }
}

/// Reads field `key` as an integer of type `kind`.
pub fn parse_number(values: &KeyValues, key: Key, kind: NumberKind) -> (r: Result<i64, DescriptorError>)
    ensures
        match r {
            Ok(v) => kind_min(kind) <= v <= kind_max(kind) && number_field(values.pairs(), key, kind) == Ok::<int, DescriptorError>(v as int),
            Err(e) => number_field(values.pairs(), key, kind) == Err::<int, DescriptorError>(e),
        },
{
    let raw = match values.get(key.name()) {
        Some(raw) => raw,
        None => return Err(DescriptorError::MissingKey(key)),
    };
    let (signed, min, max): (bool, i64, i64) = match kind {
        NumberKind::U16 => (false, 0, 0xFFFF),
        NumberKind::U32 => (false, 0, 0xFFFF_FFFF),
        NumberKind::I16 => (true, -0x8000, 0x7FFF),
    };
    match parse_integer(raw, signed, min, max) {
        Ok(v) => Ok(v),
        Err(e) => Err(DescriptorError::InvalidNumber(kind, key, e)),
    }
}

/// Reads field `key` as a `u16`.
pub fn parse_u16(values: &KeyValues, key: Key) -> (r: Result<u16, DescriptorError>)
    ensures
        match r {
            Ok(v) => number_field(values.pairs(), key, NumberKind::U16) == Ok::<int, DescriptorError>(v as int),
            Err(e) => number_field(values.pairs(), key, NumberKind::U16) == Err::<int, DescriptorError>(e),
        },
{
    match parse_number(values, key, NumberKind::U16) {
        Ok(v) => Ok(v as u16),
        Err(e) => Err(e),
    }
}

/// Reads field `key` as a `u32`.
pub fn parse_u32(values: &KeyValues, key: Key) -> (r: Result<u32, DescriptorError>)
    ensures
        match r {
            Ok(v) => number_field(values.pairs(), key, NumberKind::U32) == Ok::<int, DescriptorError>(v as int),
            Err(e) => number_field(values.pairs(), key, NumberKind::U32) == Err::<int, DescriptorError>(e),
        },
{
    match parse_number(values, key, NumberKind::U32) {
        Ok(v) => Ok(v as u32),
        Err(e) => Err(e),
    }
}

/// Reads field `key` as an `i16`.
pub fn parse_i16(values: &KeyValues, key: Key) -> (r: Result<i16, DescriptorError>)
    ensures
        match r {
            Ok(v) => number_field(values.pairs(), key, NumberKind::I16) == Ok::<int, DescriptorError>(v as int),
            Err(e) => number_field(values.pairs(), key, NumberKind::I16) == Err::<int, DescriptorError>(e),
        },
{
    match parse_number(values, key, NumberKind::I16) {
        Ok(v) => Ok(v as i16),
        Err(e) => Err(e),
    }
}

/// The glyph of a `char` line.
pub fn parse_glyph_rect(values: &KeyValues) -> (r: Result<GlyphRect, DescriptorError>)
    ensures
        match r {
            Ok(g) => glyph_rect_fields(values.pairs()) == Ok::<GlyphRect, DescriptorError>(g),
            Err(e) => glyph_rect_fields(values.pairs()) == Err::<GlyphRect, DescriptorError>(e),
        },
{
    let id = parse_u32(values, Key::Id)?;
    let x = parse_u32(values, Key::X)?;
    let y = parse_u32(values, Key::Y)?;
    let width = parse_u16(values, Key::Width)?;
    let height = parse_u16(values, Key::Height)?;
    let offset_x = parse_i16(values, Key::XOffset)?;
    let offset_y = parse_i16(values, Key::YOffset)?;
    let advance_width = parse_u16(values, Key::XAdvance)?;
    let page = parse_u16(values, Key::Page)?;
    Ok(GlyphRect { id, x, y, width, height, offset_x, offset_y, advance_width, page })
}

impl BmfontAccumulator {
    /// Nothing read yet.
    pub fn new() -> (r: Self)
        ensures
            r@ == empty_model(),
    {
        BmfontAccumulator { line_height: None, pages: PageFiles::new(), glyphs: Vec::new() }
    }

    /// Reads one non-blank, trimmed line.
    pub fn parse_line(&mut self, line: &Vec<char>) -> (r: Result<(), DescriptorError>)
        ensures
            match r {
                Ok(()) => line_model(old(self)@, line@) == Ok::<BmfontModel, DescriptorError>(final(self)@),
                Err(e) => line_model(old(self)@, line@) == Err::<BmfontModel, DescriptorError>(e),
            },
            r is Err ==> final(self)@ == old(self)@,
    {
        let n = line.len();
        let mut split: usize = 0;
        while split < n && !white_space(line[split])
            invariant
                split <= n == line.len(),
                first_white_space(line@, 0) == first_white_space(line@, split as int),
            decreases n - split,
        {
            split = split + 1;
        }
        proof {
            lemma_first_white_space_bounds(line@, split as int);
        }
        let tag = copy_range(line, 0, split);
        let rest = if split < n { copy_range(line, split + 1, n) } else { Vec::new() };
        assert(rest@ == line_rest(line@));
        let values = parse_key_values(&rest);
        if same_chars(&tag, &str_chars("common")) {
            let line_height = parse_u16(&values, Key::LineHeight)?;
            self.line_height = Some(line_height);
        } else if same_chars(&tag, &str_chars("page")) {
            let id = parse_u16(&values, Key::Id)?;
            let file = match values.get(Key::File.name()) {
                Some(file) => string_from_chars(file),
                None => return Err(DescriptorError::MissingPageFile),
            };
            self.pages.insert(id, file);
        } else if same_chars(&tag, &str_chars("char")) {
            let glyph = parse_glyph_rect(&values)?;
            self.glyphs.push(glyph);
        }
        Ok(())
    }

    /// The descriptor, once a line height, a page and a glyph have been read.
    pub fn finish(self) -> (r: Result<BmfontInfo, DescriptorError>)
        ensures
            match r {
                Ok(info) => finish_model(self@) == Ok::<BmfontInfoModel, DescriptorError>(info@),
                Err(e) => finish_model(self@) == Err::<BmfontInfoModel, DescriptorError>(e),
            },
    {
        let line_height = match self.line_height {
            Some(h) => h,
            None => return Err(DescriptorError::MissingCommon),
        };
        if self.pages.len() == 0 {
            return Err(DescriptorError::NoPages);
        }
        if self.glyphs.len() == 0 {
            return Err(DescriptorError::NoChars);
        }
        Ok(BmfontInfo { line_height, pages: self.pages, glyphs: self.glyphs })
    }
}

/// Reads one piece of text into the accumulator, unless an error happened.
fn absorb_piece(acc: &mut BmfontAccumulator, failure: &mut Option<DescriptorError>, piece: &Vec<char>)
    ensures
        match *final(failure) {
            Some(e) => absorb_line(
                match *old(failure) {
                    Some(e0) => Err::<BmfontModel, DescriptorError>(e0),
                    None => Ok(old(acc)@),
                },
                piece@,
            ) == Err::<BmfontModel, DescriptorError>(e),
            None => absorb_line(
                match *old(failure) {
                    Some(e0) => Err::<BmfontModel, DescriptorError>(e0),
                    None => Ok(old(acc)@),
                },
                piece@,
            ) == Ok::<BmfontModel, DescriptorError>(final(acc)@),
        },
{
    if failure.is_some() {
        return;
    }
    let line = trim_chars(piece);
    if line.len() == 0 {
        return;
    }
    match acc.parse_line(&line) {
        Ok(()) => {},
        Err(e) => {
            *failure = Some(e);
        },
    }
}

/// Reads a BMFont text descriptor.
pub fn parse(contents: &str) -> (r: Result<BmfontInfo, DescriptorError>)
    ensures
        match r {
            Ok(info) => bmfont_model(contents@) == Ok::<BmfontInfoModel, DescriptorError>(info@),
            Err(e) => bmfont_model(contents@) == Err::<BmfontInfoModel, DescriptorError>(e),
        },
{
    let chars = str_chars(contents);
    let mut acc = BmfontAccumulator::new();
    let mut failure: Option<DescriptorError> = None;
    let mut current: Vec<char> = Vec::new();
    let ghost mut done: Seq<Seq<char>> = Seq::empty();
    let mut k: usize = 0;
    assert(chars@.take(0) =~= Seq::<char>::empty());
    assert(newline_pieces(chars@.take(0)) =~= done.push(current@));
    while k < chars.len()
        invariant
            k <= chars.len(),
            newline_pieces(chars@.take(k as int)) == done.push(current@),
            absorb_lines(done) == (match failure {
                Some(e) => Err::<BmfontModel, DescriptorError>(e),
                None => Ok(acc@),
            }),
        decreases chars.len() - k,
    {
        let c = chars[k];
        assert(chars@.take(k + 1).drop_last() =~= chars@.take(k as int));
        if c == '\n' {
            absorb_piece(&mut acc, &mut failure, &current);
            proof {
                assert(done.push(current@).drop_last() =~= done);
                done = done.push(current@);
            }
            current = Vec::new();
            assert(newline_pieces(chars@.take(k + 1)) =~= done.push(current@));
        } else {
            current.push(c);
            assert(newline_pieces(chars@.take(k + 1)) =~= done.push(current@));
        }
        k = k + 1;
    }
    absorb_piece(&mut acc, &mut failure, &current);
    proof {
        assert(chars@.take(k as int) =~= chars@);
        assert(done.push(current@).drop_last() =~= done);
    }
    match failure {
        Some(e) => Err(e),
        None => acc.finish(),
    }
}

} // verus!
