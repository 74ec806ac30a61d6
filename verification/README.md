# zavora_slide

A byte-faithful PowerPoint (PresentationML) document engine, verified with
Verus: parsing parts into a lossless XML tree, surgical edits of slides and
notes, content types, text bodies, preset geometry and theme colours.

## Layout

- `src/` — the verified library. Every public function states in its
  contract what it returns and how it changes its arguments.
  - `xml.rs` — the lossless tree: parsing (the tree the XML reader's reports
    build, serializing back to exactly the input), serialization, paths,
    and the laws on edits at a path (every byte outside the edited element
    is kept).
  - `xml_reader.rs`, `xml_writer.rs` — the `quick_xml` reader and writer
    behind trusted calls, with names for what they report and write.
  - `slide_dom.rs` and `slide_dom/` — slide editing: text, paragraphs,
    runs, shapes, groups, tables, fills, outlines, placeholders, authoring.
  - `notes_dom.rs`, `presentation.rs`, `content_types.rs`, `drawing.rs`,
    `paragraph.rs`, `raw_part.rs` — the other parts and the text model.
  - `layout.rs`, `preset_geometry.rs`, `resolve_geometry.rs`,
    `theme_resolver.rs`, `scheme_color.rs` — geometry and theme colours.
  - `sorted_map.rs`, `numbers.rs`, `text.rs`, `bytes.rs`, `xlsx.rs`,
    `error.rs` — helpers.
- `tests/` — tests of the library.
- `app/` — what works in floating point or through the rendering and
  packaging crates: SVG/PNG rendering (`resvg`), PDF export (`svg2pdf`,
  `pdf-writer`), text shaping (`rustybuzz`, `fontdb`), colour modifiers in
  HSL, and the chart workbook (`zip`).
