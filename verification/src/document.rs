//! Upstream documents: a file of layered nodes, each with an id, its text
//! and the upstream nodes it derives from.

use vstd::prelude::*;

use crate::ids::DocumentId;
use crate::text::{has_prefix, starts_with_text};

verus! {

/// A reference to an upstream document node, with an optional anchor and
/// note that do not change what is referenced.
#[derive(Clone, Debug, Eq, PartialEq)]
pub struct DerivesFrom {
    pub doc: DocumentId,
    pub anchor: Option<String>,
    pub note: Option<String>,
}

/// Where a node's text was taken from in its source document.
#[derive(Clone, Debug, Eq, PartialEq)]
pub struct NodeSource {
    pub doc: String,
    pub heading: String,
    pub lines: [u32; 2],
}

/// A node of the root layer: it derives from nothing.
#[derive(Clone, Debug, Eq, PartialEq)]
pub struct RootNode {
    pub id: DocumentId,
    pub statement: String,
    pub description: Option<String>,
    pub source: NodeSource,
}

/// A leaf node carrying one statement and its upstream node ids (possibly
/// none).
#[derive(Clone, Debug, Eq, PartialEq)]
pub struct SentenceNode {
    pub id: DocumentId,
    pub statement: String,
    pub description: Option<String>,
    pub derives_from: Vec<DocumentId>,
    pub cites: Option<Vec<String>>,
    pub source: NodeSource,
}

/// A section: a titled group of child sections and sentence items, with
/// optional upstream node ids of its own.
#[derive(Debug, Eq, PartialEq)]
pub struct SectionNode {
    pub id: DocumentId,
    pub title: String,
    pub description: Option<String>,
    pub source: NodeSource,
    pub derives_from: Option<Vec<DocumentId>>,
    pub sections: Option<Vec<SectionNode>>,
    pub items: Option<Vec<SentenceNode>>,
}

/// The layer a document node belongs to.
#[derive(Clone, Copy, Debug, Eq, PartialEq, Hash)]
pub enum Layer {
    Root,
    Request,
    Require,
    Spec,
    DetailedSpec,
    BasicDesign,
    Design,
}

/// The layer named by an id's prefix, the first that matches among
/// `ROOT-`, `R-`, `P-` or `REQ-`, `SPEC-`, `DS-`, `BD-`, `DES-`; none if no
/// prefix matches.
pub open spec fn layer_of_id(id: Seq<char>) -> Option<Layer> {
    if has_prefix(id, "ROOT-"@) {
        Some(Layer::Root)
    } else if has_prefix(id, "R-"@) {
        Some(Layer::Request)
    } else if has_prefix(id, "P-"@) || has_prefix(id, "REQ-"@) {
        Some(Layer::Require)
    } else if has_prefix(id, "SPEC-"@) {
        Some(Layer::Spec)
    } else if has_prefix(id, "DS-"@) {
        Some(Layer::DetailedSpec)
    } else if has_prefix(id, "BD-"@) {
        Some(Layer::BasicDesign)
    } else if has_prefix(id, "DES-"@) {
        Some(Layer::Design)
    } else {
        None
    }
}

impl Layer {
    /// The layer an id's prefix names (see `layer_of_id`).
    pub fn from_id_prefix(id: &str) -> (r: Option<Layer>)
        ensures
            r == layer_of_id(id@),
    {
        if starts_with_text(id, "ROOT-") {
            Some(Layer::Root)
        } else if starts_with_text(id, "R-") {
            Some(Layer::Request)
        } else if starts_with_text(id, "P-") || starts_with_text(id, "REQ-") {
            Some(Layer::Require)
        } else if starts_with_text(id, "SPEC-") {
            Some(Layer::Spec)
        } else if starts_with_text(id, "DS-") {
            Some(Layer::DetailedSpec)
        } else if starts_with_text(id, "BD-") {
            Some(Layer::BasicDesign)
        } else if starts_with_text(id, "DES-") {
            Some(Layer::Design)
        } else {
            None
        }
    }
}

/// One upstream document file: its schema version and its nodes, layer by
/// layer. The file itself carries no identifying field.
#[derive(Debug, Eq, PartialEq)]
pub struct DocumentFile {
    pub schema_version: String,
    pub root: Vec<RootNode>,
    pub request: Vec<SentenceNode>,
    pub require: Vec<SectionNode>,
    pub spec: Vec<SectionNode>,
    pub detailed_spec: Vec<SectionNode>,
    pub basic_design: Vec<SectionNode>,
    pub design: Vec<SectionNode>,
}

} // verus!
