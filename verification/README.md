# nereid

Audio corpus and playback core, verified with Verus.

- `src/corpus` reads rows of a corpus index, lays them out as a manifest and builds chunks from
  OGG/Opus objects.
- `src/store` is a store whose chunks are known up front, loaded on demand and evicted around what
  is visible.
- `src/audio` holds the player, its queues, its clock and its segment index.
- `src/view` and `src/cache` hold what a viewer needs of them: summaries, playback ownership and
  caches of players and assets.
- `src/server.rs` and `src/catalog.rs` hold the decisions of the corpus server and of catalog
  tables.
- `app` is the ordinary Rust around the library: the server, object storage, the index table,
  sample processing and drawing.

Samples are generic in the library; floating-point work stays in `app`.
