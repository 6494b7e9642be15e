# odl

ODL is a text-based language for describing 3D CAD objects. This crate holds
its core, written in Verus and proved against its contracts:

- `tokenizer`: splits ODL source text into tokens (names, numbers, symbols,
  comments, the `let` keyword) and reports the characters it cannot place.
- `constraints`: the sketch constraint solver. Constraints on points and lines
  become equations over variables; the solver sweeps the equations and asks
  its caller to work out each unknown, one step at a time.
- `stl` and `mesh`: reading binary STL files and indexing their corners into
  the vertex and index lists that are drawn.
- `ast`, `runtime` and `graph`: the syntax tree of the language and the
  runtime that walks an instruction graph (a `petgraph` CSR graph).
- `unicode`: the character classes the tokenizer relies on.

Numbers that are `f32` in the program are kept in the library as their `u32`
bit patterns.

`app/` is the desktop program around the library: the egui/wgpu windows, the
floating-point arithmetic of the solver steps, and small demos of the solver
and of the runtime. Run it with no argument for the shader demo followed by
the solver demo, or with `editor`, `solve` or `runtime`. The object view
reads its shader from `src/test.wgsl` and the editor's start-up mesh from
`utah_teapot.stl`.

`tests/` holds the library's tests.
