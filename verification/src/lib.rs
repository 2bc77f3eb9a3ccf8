//! A tile-based conveyor prototype: directional segments on a fixed grid move
//! a resource token one cell per tick toward the end of a chain.
//!
//! The authoritative state is a sparse mapping from grid coordinate to a
//! conveyor segment (`network`); a tick-driven traversal (`engine`) pulls
//! tokens from filled upstream segments into empty downstream ones, gated by
//! a fixed-interval scheduler. Rendering and input are external collaborators
//! that only exchange plain values with this crate.

pub mod engine;
pub mod grid;
pub mod network;
pub mod render;
pub mod state;

pub use engine::MoveResources;
pub use state::Building;
pub use state::Player;
pub use state::ResourceBuffer;
pub use state::State;
pub use state::build_hint;
pub use state::try_build;
pub use state::try_move_player;
pub use state::try_place_coal;
pub use state::try_rotate_belt;
pub use network::ConveyorNetwork;
pub use network::Resource;
pub use network::ResourceMover;
pub use render::Foreground;
pub use render::PaletteColor;
pub use render::Renderable;
pub use grid::clamp;
pub use grid::Direction;
pub use grid::GridIndex;
pub use grid::Position;
pub use grid::BuildingKind;
pub use grid::MAP_HEIGHT;
pub use grid::MAP_WIDTH;
