//! Turn-based simulation core of a grid dungeon crawler.
//!
//! The crate decides, turn by turn, what every entity perceives, where it may
//! move, whom it attacks and who dies. Its functions are verified against
//! their contracts. The few that call into `rltk`, for the field of view and
//! for random numbers, state what is taken on trust of it. Drawing, keyboard
//! decoding and the search for paths are left to the program that embeds the
//! crate: a turn that needs a path hands the question out and is taken up
//! again with the answer.
pub mod components;
pub mod dice;
pub mod game_log;
pub mod game_state;
pub mod geometry;
pub mod guarantees;
pub mod level;
pub mod spawner;
pub mod storage;
pub mod systems;
pub mod text;
pub mod turn;
pub mod world;
