# darkly

The brush model of the darkly painting engine, as a library verified with
Verus: the brush node graph, brush packs and presets and their archive
formats, the preset library, the portable brush form, the node-preview
subgraph, the brush-to-WGSL compiler walk and WGSL layout helpers, and the
clipboard's pixel trimming.

## Layout

- `src/` — the verified library.
  - `nodegraph.rs`: the node graph, its well-formedness invariant, and the
    operations that keep it (adding, removing and wiring nodes).
  - `archive.rs`: zip archives of named entries, read and written through
    the `zip` crate.
  - `text.rs`: string helpers with specifications (concatenation, decimal
    rendering, lexicographic order, whitespace, UTF-8).
  - `params.rs`: node parameter values.
  - `clipboard.rs`: trimming a clip to its visible pixels, and decoding a
    layer clip's pixel payload.
  - `brush/`: wire types, the node registry and default graph, packs and
    their archive files, presets and their migrations, the preset library,
    the portable brush form (export, import, and their round trip),
    preview subgraphs, and the WGSL compiler walk and shader assembly.
- `tests/` — tests of the library's public API.
- `app/` — what stays outside verification: serde forms of the library's
  types, file I/O, the clipboard's JSON envelope, and the floating-point
  stroke code (pen samples, spacing, stabilizers, preview paths).
