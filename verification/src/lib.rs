pub mod block;
pub mod chunk;
pub mod entity;
pub mod mesh;
mod rng;
pub mod universe;
