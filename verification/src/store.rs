//! The sync state recorded for each tracked post.
use vstd::prelude::*;

verus! {

/// What the state database records of a post pulled into the vault.
#[derive(Debug)]
pub struct PostState {
    pub slab_id: String,
    pub path: String,
    pub title: String,
    pub remote_updated_at: Option<String>,
    pub remote_content_hash: String,
    pub local_content_hash: String,
    pub version: Option<i64>,
}

} // verus!
