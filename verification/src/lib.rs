//! Move generation for falling-block puzzle games.
//!
//! Given a playing field, a spawning placement, a rotation system and a drop
//! discipline, the crate enumerates every placement in which the piece can
//! come to rest: all of them, or one for each set of cells covered.

pub mod boards;
pub mod explore;
pub mod graph;
pub mod landing;
pub mod moves;
pub mod pieces;
pub mod placements;
pub mod reduce;
pub mod rotation;
pub mod srs;

pub use boards::{Board64, BoardError};
pub use moves::{Drop, MoveRules};
pub use pieces::{Offset, Orientation, Piece, Rotation, Shape};
pub use placements::{bl, BlPlacement, BlPosition};
pub use rotation::{KickTable, RotationSystem};
pub use srs::SrsKickTable;
