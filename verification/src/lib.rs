//! A bounded, insertion-ordered board of posts. Every post is bound to the
//! fingerprint of its author's secret; only the holder of that secret can
//! change or delete it, and the oldest posts leave when the board is full.

pub mod fingerprint;
pub mod post;
pub mod ordered_map;
pub mod model;
pub mod laws;
pub mod state;
pub mod board;
pub mod service;
