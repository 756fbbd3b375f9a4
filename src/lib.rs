//! Infers what a game directory holds: a display name, the files that
//! launch the game, and the platform they agree on.

pub mod path;
pub mod game;

pub use game::{Game, Genre, Platform};
