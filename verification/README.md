# goose_office

Office-document tools for command-line agents — Word (`.docx`), Excel
(`.xlsx`) and PDF — with their logic written in Verus and proved against
its contracts.

## Layout

- `src/` — the verified library.
  - `word/` — the DOCX package (parts, zip container), XML tokens,
    paragraphs, tables, styles, page setup, headers and footers, images,
    Markdown import and document inspection.
  - `excel/` — cell references and ranges, reading and searching sheets,
    cell and row writes, sheet management, styles, grid edits and CSV export.
  - `pdf/` — page selection, ToUnicode character maps, heading detection,
    retrieval chunks, image streams, merge/extract/rotate/watermark plans
    and error replies.
  - `text.rs`, `num.rs`, `unicode.rs` — strings, numbers and the Unicode
    case mappings the tools rely on.
- `app/` — the three command-line front ends (`excel`, `pdf`, `word`
  subcommands of one binary): argument parsing, files on disk, JSON output,
  the spreadsheet and PDF object models, and the floating-point geometry of
  text layout and watermark rendering.
- `tests/` — tests of the library on concrete inputs.

Calls into outside crates that the library makes (quick-xml, pulldown-cmark,
zip, flate2, csv, image) go through small trusted wrappers whose contracts
say what the crate does; everything around them is verified.
