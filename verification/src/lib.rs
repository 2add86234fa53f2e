//! Navigable directory tree: an in-memory model of a directory subtree, its
//! flattening into selectable rows, and the selection and scroll arithmetic
//! that keeps a cursor inside the visible window.
//!
//! - `tree`: the directory tree, its rows, and expanding a directory.
//! - `index`: building a tree from a directory listing.
//! - `nav`: the navigation state and its transitions.
//! - `view`: lines, window and status line for a renderer.
//! - `order`, `visibility`: where entries stand in the rows, and which
//!   entries have a row.

pub mod index;
pub mod nav;
pub mod order;
pub mod tree;
pub mod view;
pub mod visibility;
