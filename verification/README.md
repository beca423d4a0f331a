# fluid_sim

A 2D smoothed-particle fluid simulation. The verified library in `src/` holds
its integer core; `app/` is the Bevy program around it.

- `grid`: the hash of an integer grid cell and its reduction to a cell key.
- `sort`: ordering lookup entries by cell key, then particle index.
- `lookup`: the spatial lookup (entries sorted by cell, with each cell's
  start index), its rebuild, and the neighbour query; with proofs that a
  query finds exactly the particles whose cells were queried.
- `state`: the simulation's phases and the decisions on keys, mouse
  buttons, start requests and the GPU side's set-up and tear-down.
- `dispatch`: the bitonic sorting schedule of the GPU path.
- `spawn`: the integer square root that sets the spawn grid's row length.
- `overlay`: the selection of debug overlays and the text that names it.

The physics (kernels, densities, forces, integration, collisions) is
floating point and lives in `app/`, as do rendering, input and the UI.
