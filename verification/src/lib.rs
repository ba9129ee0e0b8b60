//! Decoder for a game's binary save-file plugin manifest, plus a resolution
//! engine that cross-references the decoded manifest against a locally
//! installed mod inventory and the game's active load order.
//!
//! Decoding is a single bounds-checked forward pass over the byte buffer and
//! never panics; malformed, truncated, or foreign input is rejected with a
//! tagged error. Resolution is a pure function of set membership, with all
//! filename matching case-insensitive.

pub mod app_state;
pub mod codec;
pub mod cursor;
pub mod decode;
pub mod encode;
pub mod error;
pub mod installed;
pub mod inventory;
pub mod laws;
pub mod names;
pub mod resolve;
pub mod save;
