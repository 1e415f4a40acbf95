//! Chunked voxel terrain and flight-game state: the integer core of a
//! cube-world flying game. Terrain is streamed in chunks around the player,
//! each chunk is meshed into quads with hidden faces culled, and the player's
//! life cycle (crash, respawn, proximity scoring zones) is a small state
//! machine. Engine calls, noise sampling and floating-point work live in the
//! host application.
pub mod point;
pub mod grid;
pub mod block_set;
pub mod chunk_store;
pub mod spawner;
pub mod mesh;
pub mod streaming;
pub mod player;
