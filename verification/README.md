# calico

A terminal EPUB reader. The library in `src/` holds its logic, verified
with Verus: word wrapping and the basic layout of a book into lines with
byte offsets, pagination and the page lookup by offset, reading the XML of
an EPUB package (rootfile, metadata, spine and manifest, body text), book
identifiers and unpacking directories, the library scan, bookmarks, the
first-run setup plan, and the key handling of the reader.

- `src/text.rs`: UTF-8 byte lengths, whitespace, decimal text.
- `src/common/`: books, lines, settings, bookmarks, the book map, the scan.
- `src/layout/`, `src/pagination/`: layout and pages, each with a `laws.rs`
  of proved properties.
- `src/parsers/`: XML events, EPUB package reading, paths and UUIDs.
- `src/onboarding.rs`, `src/rendering.rs`: setup steps and reader decisions.

`app/` is the program around it: file system and terminal I/O, the
serde forms of the configuration files, parallel parsing with rayon, and
the ratatui screens. `tests/` exercises the library.
