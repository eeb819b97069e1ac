# slideforge

A PPTD ⇄ PPTX toolkit: it builds PowerPoint packages from PPTD decks (YAML
projects of pages, elements, themes and layouts), converts packages back into
PPTD, validates decks, and guards outputs against overwriting external edits.

## Layout

- `src/` — the library, verified with Verus.
  - `hash.rs` — sync-point records (`.sync.hash`, legacy sidecars), SHA-256
    hex, the overwrite guard and the convert skip rule.
  - `text.rs`, `error.rs`, `cli.rs` — character helpers, errors, CLI tallies
    and the build decision (write, or refuse with exit code 2).
  - `pptd/` — the value types of the deck model that the logic reads, and
    validation over the facts of a deck, with the count of its duplicate-id
    findings (`duplicates.rs`).
  - `pptx/` — the package: XML writer, OPC relationships and content types,
    part names and relationship resolution, theme and master parts, media
    registry, SVG path grammar, rich-text grammar, text bodies, the shape
    tree of groups, the parsed-part tree (`xml_tree`: parsing a part's bytes
    and reading the tree) and the rules of the
    import that read it (`import_tree`: slide list, relationships,
    placeholders, shape dispatch, fill colors, run flags, master styles,
    paragraph pieces),
    relationship navigation, layout keys, slot colors and body text.
- `app/` — the command-line program: YAML and ZIP I/O, the deck model with
  its floating-point geometry, rendering and import of shapes, and the calls
  into the library.
- `tests/` — tests of the library.
