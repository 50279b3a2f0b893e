//! Turns a stream of file-system change notifications for a watched folder
//! into a small, consistent change-set (files to upload, paths to rename,
//! paths to remove) that a remote sync step can apply.
use vstd::prelude::*;

pub mod config;
pub mod json;
pub mod lot;
pub mod sandbox;
pub mod text;
pub mod time;
pub mod upload;

verus! {

} // verus!
