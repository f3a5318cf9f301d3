//! A chunked voxel world: chunk storage, coordinate mapping between a chunk's
//! local grid and the world, face exposure, streaming of chunks around an
//! observer and block picking along a ray.

pub mod block;
pub mod point;
pub mod coord;
pub mod chunk;
pub mod manager;
pub mod terrain;
pub mod model;
pub mod raycasting;
pub mod seqs;
pub mod streaming;
pub mod texture;
pub mod player;
