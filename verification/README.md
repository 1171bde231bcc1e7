# voxel_world

The world model of a small block-building game, verified with Verus.

- `src/block.rs`: block species and blocks.
- `src/chunk.rs`: chunks (8 x 8 x 256 cells), random generation, block
  lookup with neighbour columns, block replacement, neighbour gathering.
- `src/mesh.rs`: which faces of a chunk show, and the render and collider
  geometry built from them (integer corners; the game converts to floats).
- `src/universe.rs`: the set of generated chunk positions and the cube of
  positions generated around the player.
- `src/entity.rs`: the entity trait and kinds.
- `src/rng.rs`: the calls into `rand`.

`app/` is the bevy game around the library: systems, rendering, physics and
the float conversions between world space and chunk cells.
