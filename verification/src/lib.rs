//! Folder sizes on macOS without walking the tree: what Finder caches, through Apple
//! Events, through the `.DS_Store` files it writes, or, failing those, a walk.
pub mod byte_buffer;
pub mod config;
pub mod ds_parser;
pub mod ds_result;
pub mod fffs;
pub mod iterator;
pub mod keyed_list;
pub mod text;

use vstd::prelude::*;

verus! {

/// Where a size came from.
#[derive(Debug, Clone, Copy, PartialEq, Eq, Structural)]
pub enum DataSource {
    Aev,
    DStore,
    Live,
    Failure,
}

} // verus!
