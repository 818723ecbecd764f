//! # shr
//!
//! shr hunts and reports disk space.

pub mod browser;
pub mod cli;
pub mod event;
pub mod path;
pub mod scan;
pub mod tree;
pub mod utils;

pub use crate::event::{Event, EventDisplay, EventModel, EventRef, ImmutPath};
pub use crate::path::{PathId, PathInterner};
pub use crate::scan::{shr, DirEntry, FsNode, Shared, Shr, ShrRx, ShrTask};
