//! What the full-screen presentation view keeps between frames: a fingerprint of what a
//! frame shows, the derived redraw state, and the caches that rendering reuses.
pub mod cache;
pub mod fingerprint;
pub mod state;
