# doc2text

Converts legacy Microsoft Word `.doc` files (OLE2 / compound file containers)
to Markdown: body text with heading levels, page breaks as `---`, textboxes
apart, and the document's fields. Every parsing stage is written in Verus and
carries a contract over a mathematical model of its input.

## Layout

- `src/bytes.rs`: little-endian reads.
- `src/cfb_recover.rs`: a tolerant compound-file reader for containers whose
  directory tree is unsorted or whose header the `cfb` crate rejects.
- `src/ole.rs`: the container, the `WordDocument` and table streams, the FIB
  header and the inspection report.
- `src/fib.rs`, `src/clx.rs`, `src/text.rs`, `src/styles.rs`, `src/papx.rs`:
  the FIB, the piece table, the characters, the heading styles and the
  paragraph runs.
- `src/fields.rs`, `src/markdown.rs`: Word fields and the Markdown output.
- `src/error.rs`: the error type and its messages.
- `src/laws.rs`: properties proved of all inputs.
- `src/lib.rs`: `parse_doc` and `parse_doc_with_options`, which need the
  document's tables to stay inside their streams, and `try_parse_doc`, which
  answers `None` where they do not.
- `app/main.rs`: the command line (`-i FILE [-o OUT]`).

Calls into `cfb` and `encoding_rs`, and a few `std` conversions, go through
small trusted wrappers whose contracts name or state their results.
