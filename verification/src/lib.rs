//! The game logic of a dungeon crawler: dungeon floor generation, a snake
//! mini-game, nested debug timers, input state and key bindings, and the
//! registries that track asset files.

pub mod application;
pub mod assets;
pub mod assman;
pub mod canvas;
pub mod commands;
pub mod components;
pub mod debug;
pub mod dung_gen;
pub mod entity_smith;
pub mod files;
pub mod input;
pub mod loader;
pub mod random;
pub mod reach;
pub mod snake;
pub mod tile_map;
pub mod union_find;
pub mod world_gen;
