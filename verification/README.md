# enki

A planet renderer whose decisions are verified. The library under `src/` holds what decides,
counts and lays out; Verus proves it against the contracts that stand above each function. The
programs under `app/` are ordinary Rust around it: windows, threads, files, the graphics device
and floating point.

| module     | what it holds                                                                   |
|------------|---------------------------------------------------------------------------------|
| `controls` | navigation between orbit and ground, and the movement keys                      |
| `shell`    | start, settings, panel, keys and clicks, the order of a frame, titles, loading  |
| `voxel`    | which terrain leaves are drawn, cached and being meshed, and their GPU meshes   |
| `nanite`   | cluster slots and residency, streaming of baked nodes, debug exports            |
| `rivers`   | flooding, drainage, discharge, channels, reaches and ribbons                    |
| `ocean`    | the nested-ring sea mesh and what it fills, and the wave transform              |
| `flora`    | genes, leaves, groves of trees, welding, and the plant viewer                   |
| `scene`    | the marker scene                                                                |
| `stress`   | the streaming stress run                                                        |
| `grid`     | grid meshes of patches and water                                                |

Numbers that the renderer computes in floating point reach the library as whole units or as bit
patterns; the doc comments say which. `app/main.rs` runs the planet, or the plant viewer when it
is started under the name `flora_viewer`.
