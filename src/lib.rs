//! A content-addressed filesystem snapshot library: the decision logic of a
//! parallel directory-tree ingester, with its path, directory-entry page,
//! entry queue, layer-state and object-naming components.

pub mod error;
pub mod pstring;
pub mod bytemap;
pub mod dirent;
pub mod queue;
pub mod object;
pub mod layer;
pub mod walk;
pub mod xattr;
pub mod aparc;
mod trusted;
