//! mdwiki: a verified core for a small wiki generator.
//!
//! The crate turns lightweight markup into a document tree, arranges parsed
//! documents in a site hierarchy, and serializes pages back out as HTML,
//! with optional section encryption and navigation synthesis.

pub mod aes;
pub mod config;
pub mod css;
pub mod doc;
pub mod files;
pub mod fstree;
pub mod grammar;
pub mod html;
pub mod nav;
pub mod node;
pub mod parse;
pub mod render;
pub mod tag;
pub mod text;
pub mod wiki;

use vstd::prelude::*;

verus! {

/// Maximum heading level emitted by the parser and the renderer.
pub const HEADING_MAX_LEVEL: u8 = 6;

} // verus!
