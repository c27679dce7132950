# Terminal reel engine

A small terminal game and the engine that launches it, with its logic
verified by Verus.

- `src/` is the verified library:
  - `text` — character-level text: trimming, splitting, searching;
  - `manifest` — reading tables, values, arrays and dependencies out of the
    `*.vapor.toml` manifests;
  - `paths` — content ids, path building through std's `Path`, runtime library file names;
  - `launch` — resolving a launch from the packagepack and game manifests,
    and the messages of launch errors;
  - `reel` — the reel generator, scoring, commands and the game session;
  - `game` — the example game definition.
- `app/main.rs` is the engine program: environment and file reads, loading
  the game library, and the terminal loop, all deciding through the library.
- `tests/` holds the tests.
