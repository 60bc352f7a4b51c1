# neudel

The NeuDel-II game engine core, its *Ball* Game & Watch game and its studio
editor logic, written in Verus: the functions under `src/` carry
contracts that Verus proves, apart from the small trusted wrappers
around outside calls listed at the end.

## Layout

- `src/ecs/` — the entity-component store: a generational entity allocator
  (`entity.rs`), sparse-set component storage (`sparse_set.rs`) and the
  world that ties entities to their stores (`world.rs`).
- `src/ball/` — the *Ball* rules (`game.rs`: ticks, catches, misses, the
  fixed-timestep catch-up), the LCD segment list and what lights each
  segment (`layout.rs`), and the buttons (`controls.rs`).
- `src/atlas.rs` — the shelf packer that places shape cells in the sprite
  atlas, with its no-overlap law.
- `src/scripting.rs` — the script host's bookkeeping.
- `src/studio/` — the editor's logic: data model, asset classification and
  listing order, scene entities and their components, selection and the
  transforms saved across play, console and play state, editor choice,
  script templates, image data URLs, and the helpers of the desktop-shell command backend.
- `src/text.rs` — string helpers stated over character sequences.
- `app/` — what Verus does not see: floating-point geometry and physics,
  file I/O, JSON, process launch, and serde copies of the library types.
- `tests/` — tests of the library, run against the compiled crate.

Calls into `base64`, `uuid` and std items that vstd does not specify go
through small trusted wrappers (marked `#[verifier::external_body]`)
whose contracts are believed, not proved; each states next to it what it
claims of the outside function.
