//! Verified core of a small multiplayer voxel game: the server's block world,
//! the server's player registry and event decisions, and the client's
//! collision grid and pure helpers.

pub mod block_store;
pub mod world;
pub mod player_id;
pub mod game_state;
pub mod address;
pub mod voxels;
pub mod palette;
pub mod sync;
pub mod keyed_list;
pub mod remote_players;
pub mod session;
