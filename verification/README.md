# renderer

The bookkeeping core of a 2D/3D renderer, written in Verus. The functions in
`src/` carry contracts that Verus proves, except for a few trusted items that
call outside code and whose contracts are believed: the image decoder and
its error message (`image_decode`), font parsing (`fonts`), std's slice sort (`retained`) and std's
type identifiers (`mesh`, whose `MeshId::of` promises nothing of the id).

- `sprite`, `plain_sprite`, `animation`, `time`, `names`: sprite animation
  (loop, play-once, ping-pong, zero-length frames), with a pausable animator
  and one whose clock always runs, and laws such as frame-rate independence
  of updates.
- `atlas`: shelf packing of images into a texture atlas (images stay the
  padding apart from each other and the edges, re-packing a name is
  idempotent); images are decoded with the `image` crate.
- `rect_atlas`, `fonts`: free-rectangle packing with atlas doubling, for
  glyphs, and the fonts the glyphs come from, parsed with `fontdue`.
- `retained`, `text_batches`, `ui_packet`: ordering and grouping of draws,
  text batches per font, gathering UI draw lists into one packet.
- `shape`, `mesh`, `capacity`, `dirty`, `layer`, `draw`, `handle`,
  `shaders`, `instanced_shaders`: index buffers, buffer growth, change
  flags, layers and shader sources.

`app/` holds what Verus does not check: GPU uploads and immediate-mode
drawing with `wgpu`, glTF file loading, font rasterization with `fontdue`,
and floating-point color, UV and glyph placement math.
