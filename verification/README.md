# shin_tl

Verified tools for the data formats of the shin visual novel engine: its compiled
scripts (SNR), its archives (ROM), its fonts (FNT) and the markup of its messages.

- `src/` is the library, written in Verus and proved: every public function states
  what it returns in its contract.
  - `snr/operation`: the layout of every operation for each engine version, the
    parser that reads operations into an arena, and the serializer that writes them
    back (with the read/write round trip proved).
  - `snr/reactor`: passes over a whole script (`react_with`), and the passes that
    dump message bytes, validate jump offsets and rewrite strings, with the proof that
    the two passes of a rewrite agree: the second writes exactly what the first laid
    out, and every jump lands where its target operation was written
    (`rewrite/passes`).
  - `snr/layout/message_parser`: the message markup grammar, its serializer and its
    lint.
  - `rom`: the archive header and index entries, the walk over a directory tree,
    the planned layout of a new archive (`rom_allocate`), its index bytes
    (`rom_write_index`), and the reading of an archive's index into its files
    (`rom_read_index`), with the proof that reading an index so written gives back
    every file of the tree at its planned position (`rom/read_back`).
  - `font`, `text`, `chars`, `digits`, `le`: the font format (with the glyph
    numbering proved increasing and without holes but one), text helpers and number
    formatting.
- `app/` is the command-line program that packs a directory into an archive and
  unpacks one: it reads and writes the file system and copies file contents, and leaves
  the layout and the index to the library. It also holds the floating-point layouter of
  message lines.
- `tests/` runs the library on concrete inputs.
