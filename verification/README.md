# rust_fem_solver

A 2D finite element toolkit whose integer and text logic is written in Verus
and proved against its contracts.

- `src/` — the verified library: element kinds and their degree-of-freedom
  counts, the mesh (nodes, elements, lookup by ID, statistics), the reader of
  Abaqus `.inp` files, the element-to-equation numbering used by assembly, and
  the integer parts of the CSV, VTK and Tecplot writers, and the XDMF
  document. `src/text.rs` holds
  the character-level helpers (trimming, splitting, number syntax, decimal
  numerals) and their specifications.
- `tests/` — tests that run the compiled library.
- `app/` — plain Rust around the library: file I/O, the `f64` numerics
  (materials, stiffness, the linear solver through `ndarray-linalg`, contact),
  and the writers that print coordinates and displacements.
