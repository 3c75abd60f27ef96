//! Inspection of parse trees and simulation of edits on their source.
//!
//! A tree is held in preorder (`tree`); one iterative walk (`traversal`)
//! produces steps that pluggable strategies (`render`, `line_render`,
//! `markup`) turn into text. `first_error` finds a node to report, and
//! `position` and `edit` keep byte offsets, row/column positions and edit
//! descriptors consistent while the buffer changes.
use vstd::prelude::*;

pub mod decimal;
pub mod edit;
pub mod first_error;
pub mod line_render;
pub mod markup;
pub mod position;
pub mod render;
pub mod stats;
pub mod traversal;
pub mod tree;

verus! {

} // verus!
