# kdft

A verified reader for Expert Witness Format forensic images (`.E01`, `.L01`,
`.Ex01`, `.Lx01`), with the BitLocker inspection and the command-line decisions
of the KDFT forensic workbench.

- `src/` is the library, verified with Verus. It opens no files: a caller hands
  it a function that reads a run of bytes of a segment file. `open` says what
  opening a set of files gives, `media` what their image holds, and the
  contracts of `reader` tie every read, seek and check to both.
- `tests/` runs the library on images that are built in memory.
- `app/` is the command line, and the readers for images and volumes on disk.
  The case store that the commands work on is a crate of its own.

What the library takes from other crates (inflating, hashing, the cache of
decoded chunks, JSON, BitLocker metadata, the escaping of file name patterns)
is stated in the contracts of the small functions that call them.
