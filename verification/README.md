# onixlib

Support libraries of the Onix kernel, with their behaviour stated in
`requires`/`ensures` contracts and proved in Verus:

- `allocator`: a first-fit linked-list allocator and a fixed-size-block
  allocator that falls back on it, modelled over address ranges;
- `ansi_term`: the escape sequences of terminal colours;
- `devicetree`: reading a Flattened Devicetree blob (header, memory
  reservation block, structure-block lexer, nodes and properties), and
  reading the whole tree into memory (`parsed`) with lookups by path and
  phandle, `reg` and interrupt decoding, and a text rendering;
- `devtree`: the other FDT reader (blob checks, token cursor, lazy strings,
  property decoding helpers, the cells that collect a node's properties
  and children while it is decoded, and the interrupts of a device decoded
  from its properties, with the nodes they refer to handed in as values).
  It reads tokens only: walking the tree with node cursors is not part of
  it; the `devicetree` module's `parsed` tree offers lookups by path and
  phandle;
- `macro_support`: the small pieces of logic of the derive macro, such as
  the check that at most one field takes the remaining properties or
  children.

The error types of the devicetree readers and of the derive macro's checks
have a `message` method whose text is stated in its contract.

`tests/` runs the library on concrete blobs. `app/` holds what cannot be
verified: reading blobs out of raw memory, and `core::fmt` output.
