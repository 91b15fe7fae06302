//! A directory walker: option handling, the rules by which each walk engine
//! decides what to yield and where to descend, and the walkers themselves.
pub mod dua_backend;
pub mod emit;
pub mod ignore_backend;
pub mod jwalk_backend;
pub mod laws;
pub mod options;
pub mod sys;
pub mod text;
pub mod walkdir_backend;
pub mod zlob_backend;

pub use emit::{Timestamp, WalkItem, WalkedEntry, WalkedMeta};
pub use options::{Engine, OptionError, WalkOptions, WalkOrder, is_hidden_name};
