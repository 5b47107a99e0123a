# helium

A reader for OpenVDB volume files, verified with Verus.

## Layout

- `src/reader/`: the file level. `byte_reader` holds the read position over
  the bytes of a file; `helpers` reads the primitive values (little-endian
  integers, floats as bit patterns, length-prefixed UTF-8 strings, byte
  ranges); `header`, `metadata`, `transform`, `grid_descriptor`, `grid`,
  `grids`, `grids_reader` and `reader` read the parts of a file.
- `src/tree/`: the voxel tree of a grid: coordinates, node masks, leaves,
  lower and upper internal nodes, the root and the tree.
- `app/`: the program: it loads a file from disk, hands its bytes to the
  library and prints what was read. It also holds the error type with its
  messages.

Each parser is specified against a spec function that describes the format
(`spec_header`, `spec_metadata`, `spec_grid`, `spec_upper_topology`, ...):
on success the value read and the position after it, on failure the error
and the position where the reader is left (a value cut short by the end of
the input leaves the reader where that value starts).
Floating-point values are kept as their IEEE-754 bit patterns (`F32Bits`,
`F64Bits`); the program turns them into numbers with `from_bits`.
