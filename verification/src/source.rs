//! Source targets: canonical locators, declared target references and the
//! location of a discovered construct.

use vstd::prelude::*;

use crate::hash::ContentHash;
use crate::ids::{AdapterId, SrcId};

verus! {

/// A canonical locator: an adapter and an opaque value that only that
/// adapter interprets. Two locators are the same exactly when both parts
/// are.
#[derive(Clone, Debug, Eq, PartialEq, Ord, PartialOrd)]
pub struct Locator {
    pub adapter: AdapterId,
    pub value: String,
}

impl Locator {
    /// A copy of this locator.
    pub fn duplicate(&self) -> (l: Locator)
        ensures
            l == *self,
    {
        Locator { adapter: self.adapter.duplicate(), value: self.value.clone() }
    }

    /// Compares two locators by adapter and value.
    pub fn same_as(&self, other: &Locator) -> (r: bool)
        ensures
            r == (self.adapter@ == other.adapter@ && self.value@ == other.value@),
    {
        self.adapter.0 == other.adapter.0 && self.value == other.value
    }
}

/// A target declared by a test: either a locator or a permanent SRC ID.
#[derive(Clone, Debug, Eq, PartialEq)]
pub enum TargetRef {
    Locator(Locator),
    SrcId(SrcId),
}

impl TargetRef {
    /// A copy of this target reference.
    pub fn duplicate(&self) -> (t: TargetRef)
        ensures
            t == *self,
    {
        match self {
            TargetRef::Locator(l) => TargetRef::Locator(l.duplicate()),
            TargetRef::SrcId(id) => TargetRef::SrcId(id.duplicate()),
        }
    }
}

/// Where a discovered construct sits in its source file.
#[derive(Clone, Debug, Eq, PartialEq)]
pub struct SourceLocation {
    pub file: String,
    pub function: String,
    pub start_line: u64,
    pub end_line: u64,
    pub start_byte: u64,
    pub end_byte: u64,
}

impl SourceLocation {
    /// A copy of this location.
    pub fn duplicate(&self) -> (l: SourceLocation)
        ensures
            l == *self,
    {
        SourceLocation {
            file: self.file.clone(),
            function: self.function.clone(),
            start_line: self.start_line,
            end_line: self.end_line,
            start_byte: self.start_byte,
            end_byte: self.end_byte,
        }
    }
}

/// A discovered source target: its canonical locator, its permanent SRC ID
/// if it declares one, its location and its subject hash.
#[derive(Clone, Debug, Eq, PartialEq)]
pub struct SourceFunction {
    pub locator: Locator,
    pub src_id: Option<SrcId>,
    pub location: SourceLocation,
    pub content_hash: ContentHash,
}

} // verus!
