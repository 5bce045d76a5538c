//! Registry entries for upstream documents.

use vstd::prelude::*;

use crate::hash::ContentHash;

verus! {

/// One registered upstream document.
#[derive(Clone, Debug, Eq, PartialEq)]
pub struct DocRegistryRecord {
    pub id: String,
    pub path: String,
    pub title: Option<String>,
    pub content_hash: ContentHash,
    pub derives_from: Vec<String>,
    pub root: bool,
    pub registered_at: String,
}

} // verus!
