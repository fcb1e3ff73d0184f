//! Conversion between Slab's Quill Delta documents and Markdown, the local
//! vault's file format, and the decisions of the `slab` command line tool.
use vstd::prelude::*;

pub mod text;
pub mod json;
pub mod from_delta;
pub mod markdown;
pub mod to_delta;
pub mod delta_shape;
pub mod markdown_laws;
pub mod delta_laws;
pub mod types;
pub mod paths;
pub mod vault;
pub mod status;
pub mod store;
pub mod config;
pub mod links;
pub mod output;
pub mod posts;
pub mod comments;
pub mod search;
pub mod api;
pub mod sync;
pub mod tree;
pub mod tree_order;
pub mod round_trip;
pub mod topics;
pub mod context;
pub mod auth;
pub mod vault_cmd;

verus! {

} // verus!
