# voxel_flyer

The core of a small Godot flying game set in a cube world generated from
noise, written in Verus.

- `src/` is the verified library:
  - `point`: integer lattice points.
  - `grid`: the order of three nested loops over a box, as a sequence.
  - `block_set`: a hashed set of occupied cells.
  - `chunk_store`: the loaded chunks (a hash map keyed by packed chunk
    coordinates, plus their walking order) and the engine payload of each.
  - `mesh`: quad meshes, one cube at a time, with hidden faces culled.
  - `spawner`: chunk streaming around the player (a stack of pending load and
    unload requests), block candidates outside the block-free zone, chunk
    building and the initial-load report.
  - `streaming`: what the streaming operations add up to, in particular that
    the loaded chunks converge on the player's view.
  - `player`: the craft's life cycle (crash, respawn) and scoring zones.
- `app/` is the Godot extension: engine classes that call the library and do
  the engine work, the noise sampling and the floating-point arithmetic
  (steering, camera smoothing, score accumulation).
- `tests/` exercises the library on concrete values.
