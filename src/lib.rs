//! Reading, editing and writing the tagged property-bag save format used by
//! Unreal-Engine games, with the editing helpers of the save manager built on it.
//!
//! `model` holds the property tree, `encoding` says what its bytes are,
//! `encode` and `decode` write and read it, `container` does whole files, and
//! `bag` looks up and edits properties in order. `editor` and `players` are the
//! edits the save manager makes; `feedback`, `names` and `steam_cache` are the
//! rest of its logic.

pub mod bag;
pub mod container;
pub mod decode;
pub mod editor;
pub mod encode;
pub mod encoding;
pub mod error;
pub mod feedback;
pub mod laws;
pub mod model;
pub mod names;
pub mod players;
pub mod save_info;
pub mod steam_cache;
pub mod text;
pub mod themes;
pub mod wire;
