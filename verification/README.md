# deeper

The game logic of a small dungeon crawler, written in Verus and proved against
its contracts.

- `src/dung_gen.rs` draws rooms, joins them with corridors, orients the walls,
  fills the rest of the map with nothing and places the ladder down; its
  contract states that one can walk between every two rooms, over the walks
  defined in `src/reach.rs`. `src/tile_map.rs` holds the floor as a map from
  cells to tiles.
- `src/input.rs` and `src/commands.rs` turn key and mouse events into button
  states and bound commands.
- `src/debug.rs` keeps a stack of nested timers and folds the finished ones
  into a tree.
- `src/snake.rs` is the snake mini-game: board, food, turning and stepping.
- `src/assman.rs`, `src/assets.rs` and `src/loader.rs` register asset files
  look models up by name, and book in model files to load.
- `src/world_gen.rs` maps tiles to models, rotations and physics flags.

Random numbers come from `rand`, room joining uses the union-find table of
`ena`; each call into them stands behind a small trusted function whose
contract is stated in its doc comment.

`app/` is the unverified shell around the library: it prints floors and
timers, reads settings files with `serde`/`ron` and walks asset directories.
