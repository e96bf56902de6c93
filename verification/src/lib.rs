//! Reconstruction of game-entity state from a recorded match's network deltas.
//!
//! A match recording supplies, already parsed, a name table and an ordered
//! sequence of frames, each carrying create/update/delete lists. This crate
//! resolves the per-match class identifiers once (`schema`), folds the frames
//! into a live registry of entities (`registry`, `projector`), tracks a
//! frame position with forward and backward seeking (`cursor`), and exposes
//! a read-only position/color snapshot for a renderer (`snapshot`). The
//! properties the whole fold preserves are stated and proved in `laws`.
//!
//! Decoding the recording's binary container and drawing the snapshot are
//! external collaborators; the crate works on plain values throughout.

pub mod cursor;
pub mod data;
pub mod laws;
pub mod projector;
pub mod registry;
pub mod schema;
pub mod snapshot;
