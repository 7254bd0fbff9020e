//! A modal text editor core with a vector-font glyph pipeline.
//!
//! The crate is organised around two halves of the editor:
//! text state and glyph geometry.
//!
//! - [`buffer`] holds the line/cursor/buffer model: codepoint-indexed
//!   line edits, mode-dependent cursor clamping and the "sticky column"
//!   rule for vertical movement.
//! - [`editor`] owns the buffers and the modal state machine, and routes
//!   key and text input to buffer operations.
//! - [`glyph`] decomposes font outlines into quadratic Bezier curve
//!   primitives kept in an append-only pool, with a per-codepoint
//!   glyph map.
//! - [`layout`] walks a string and emits one screen-cell quad per
//!   renderable glyph, also locating the screen cell of a cursor
//!   coordinate.
//! - [`config`] classifies the lines of the section/key-value
//!   configuration format.
//! - [`gpu_layout`] computes strides and offsets for interleaved
//!   vertex attribute layouts.

pub mod buffer;
pub mod config;
pub mod editor;
pub mod glyph;
pub mod gpu_layout;
pub mod layout;

use vstd::prelude::*;

verus! {

} // verus!
