# voxel_engine

The core of a streamed voxel world, written in Verus. Every function in `src/` carries a
contract, and Verus proves all of them except the wrappers marked
`#[verifier::external_body]` (in `coords`, `fxmap` and `region`): those call rustc-hash,
glam and lz4_flex, and their contracts are trusted, not proved.

- `coords`, `budget`, `item`, `voxel`, `chunk`, `config`, `metrics`, `state`: the basic
  types (block, chunk and region positions, per-frame work budgets, tools, blocks).
- `generator`: flat layered terrain around a sea level.
- `manager`: the streaming state of every chunk and the generation and meshing queues.
- `visibility`, `order`: the chunks to load around a center, nearest first.
- `world`: requesting, generating, evicting chunks; reading and editing blocks.
- `mesh`, `quads`: the visible faces of a chunk column, their quads and triangle indices,
  the spawn surface, and which chunks to mesh in a frame.
- `physics`: whether any block in a box of blocks is solid.
- `input`: held keys and jump presses.
- `text`, `region`: decimal rendering and path joining; chunk file names and the framing of
  their compressed contents.
- `fxmap`: the trusted wrappers over rustc-hash's `FxHashMap`.

Paths are joined with `/` on every platform.

`app/` holds what is not verified: floating-point player movement and camera, frame
timings, serialization with serde and bincode, file I/O, and a headless engine loop. It
has no window and no GPU renderer: there is no winit or wgpu layer, so chunk meshes are
turned into vertex data but not drawn.
