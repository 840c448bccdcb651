//! The logic of a GPU monitor that shows load, memory and temperature as a cloud of particles.
//!
//! * `smi`, `models`, `http`, `estimate`: what is read from `nvidia-smi` and from Ollama.
//! * `patterns`, `visualizer`: the pattern framework and the state of the monitor.
//! * `input`, `lightning`, `layout`, `depth`: keys and pointer, strikes, the places of particles
//!   in a figure, and the order in which they are drawn.
//! * `text`: the handling of text that the readers share.
//! * `outside`: the calls whose contracts are taken on trust.

pub mod depth;
pub mod estimate;
pub mod http;
pub mod input;
pub mod layout;
pub mod lightning;
pub mod models;
pub mod outside;
pub mod patterns;
pub mod smi;
pub mod text;
pub mod visualizer;
