# elements_ember

The discrete logic of Ember, a dense-grid smoke solver, as a library
verified with Verus, and the floating-point, JSON and file handling around
it as ordinary Rust.

- `src/` — the verified library:
  - `boundaries` — open and wall faces, and the kernels' open-face mask.
  - `solver` — quality presets, the pressure solve a document chooses, and
    the resolution and validation of the solver's discrete parameters.
  - `cfl` — the substep count from how far the fastest face travels.
  - `grid`, `hierarchy` — face grids, cell indexing, the multigrid
    hierarchy's levels and the fields each level holds.
  - `vcycle`, `pcg`, `schedule` — the recorded order of a V-cycle, of an
    MGPCG solve and of Gauss–Seidel sweeps split across submissions, with
    the V-cycle's symmetry and MGPCG's slot discipline proved.
  - `substep` — the stages of one substep and the switches that add them.
  - `state` — which state slots a frame takes and whether they fit.
  - `emitter`, `unions` — emitter frame ranges, noise seeds, union nodes.
  - `bench`, `report`, `text` — benchmark verdicts and scene wiring, result
    file names, commit and Blender checks, missing-run lists, and the text
    helpers they use.
- `tests/` — tests of the library from outside.
- `app/` — the JSON documents, float parameters and their checks, result
  files and Markdown reports, metrics, transforms and benchmark scenes.
