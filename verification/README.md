# bitmap2ttf

Converts bitmap font glyphs into TrueType fonts whose outlines trace the
filled pixels, with contracts checked by Verus.

- `src/rects.rs`: the rectangles that cover a glyph's filled pixels, one per
  pixel or merged run by run, with the laws of the merged cover.
- `src/builder/`: glyph outlines, metrics, names and the font tables, written
  with `write-fonts` and `kurbo` behind trusted wrappers in `font_writer.rs`.
- `src/descriptor/`: BMFont text and PNG+JSON descriptors, the page images
  (decoded with `image` behind a trusted wrapper) and the glyphs cut out of
  them.
- `src/text.rs`: characters, whitespace, trimming and decimal integers.
- `app/`: the command-line program (argument parsing, reading and writing
  files, JSON deserialisation).
