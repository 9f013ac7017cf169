//! The simulation core of a turn-based dungeon crawl on a tile grid.
//!
//! The crate carves a level of rooms and corridors, places the hostiles, and
//! resolves the hero's and the hostiles' turns: movement, melee and death.
//! Drawing, key handling and the field-of-view computation are left to the
//! caller, which hands the core plain values (an intent, a grid of visible
//! cells) and draws what the core reports back.

pub mod color;
pub mod display;
pub mod dungeon;
pub mod game;
pub mod messages;
pub mod movement;
pub mod object;
pub mod random;
pub mod rect;
pub mod tile;
pub mod turn;

pub use color::Color;
pub use dungeon::{gen_plan, LevelConfig};
pub use game::{is_fov_covering, is_world_ok, FovGrid, Game, HERO};
pub use messages::Messages;
pub use object::{Ai, DeathCallback, Fighter, Object};
pub use rect::Rect;
pub use tile::{Plan, Tile};
pub use turn::{play_turn, HeroAction, Intent};
