//! String identifier types: each wraps the identifier text verbatim.

use vstd::prelude::*;

verus! {

/// Text that an identifier can be made from: a string slice or an owned
/// `String`.
pub trait IntoText: Sized {
    /// The characters of the text.
    spec fn text_view(&self) -> Seq<char>;

    /// The text as an owned `String`.
    fn into_text(self) -> (s: String)
        ensures
            s@ == self.text_view(),
    ;
}

impl IntoText for String {
    open spec fn text_view(&self) -> Seq<char> {
        self@
    }

    fn into_text(self) -> (s: String) {
        self
    }
}

impl<'a> IntoText for &'a str {
    open spec fn text_view(&self) -> Seq<char> {
        (*self)@
    }

    fn into_text(self) -> (s: String) {
        self.to_owned()
    }
}

/// A specification identifier.
#[derive(Clone, Debug, Eq, Hash, Ord, PartialEq, PartialOrd)]
pub struct SpecId(pub String);

impl View for SpecId {
    type V = Seq<char>;

    open spec fn view(&self) -> Seq<char> {
        self.0@
    }
}

impl SpecId {
    /// Wraps the given text.
    pub fn new<T: IntoText>(value: T) -> (id: SpecId)
        ensures
            id@ == value.text_view(),
    {
        SpecId(value.into_text())
    }

    /// The identifier text.
    pub fn as_str(&self) -> (s: &str)
        ensures
            s@ == self@,
    {
        self.0.as_str()
    }

    /// A copy of this identifier.
    pub fn duplicate(&self) -> (id: SpecId)
        ensures
            id == *self,
    {
        SpecId(self.0.clone())
    }
}

/// A requirement identifier.
#[derive(Clone, Debug, Eq, Hash, Ord, PartialEq, PartialOrd)]
pub struct ReqId(pub String);

impl View for ReqId {
    type V = Seq<char>;

    open spec fn view(&self) -> Seq<char> {
        self.0@
    }
}

impl ReqId {
    /// Wraps the given text.
    pub fn new<T: IntoText>(value: T) -> (id: ReqId)
        ensures
            id@ == value.text_view(),
    {
        ReqId(value.into_text())
    }

    /// The identifier text.
    pub fn as_str(&self) -> (s: &str)
        ensures
            s@ == self@,
    {
        self.0.as_str()
    }

    /// A copy of this identifier.
    pub fn duplicate(&self) -> (id: ReqId)
        ensures
            id == *self,
    {
        ReqId(self.0.clone())
    }
}

/// A verification objective identifier.
#[derive(Clone, Debug, Eq, Hash, Ord, PartialEq, PartialOrd)]
pub struct VoId(pub String);

impl View for VoId {
    type V = Seq<char>;

    open spec fn view(&self) -> Seq<char> {
        self.0@
    }
}

impl VoId {
    /// Wraps the given text.
    pub fn new<T: IntoText>(value: T) -> (id: VoId)
        ensures
            id@ == value.text_view(),
    {
        VoId(value.into_text())
    }

    /// The identifier text.
    pub fn as_str(&self) -> (s: &str)
        ensures
            s@ == self@,
    {
        self.0.as_str()
    }

    /// A copy of this identifier.
    pub fn duplicate(&self) -> (id: VoId)
        ensures
            id == *self,
    {
        VoId(self.0.clone())
    }
}

/// A test identifier.
#[derive(Clone, Debug, Eq, Hash, Ord, PartialEq, PartialOrd)]
pub struct TestId(pub String);

impl View for TestId {
    type V = Seq<char>;

    open spec fn view(&self) -> Seq<char> {
        self.0@
    }
}

impl TestId {
    /// Wraps the given text.
    pub fn new<T: IntoText>(value: T) -> (id: TestId)
        ensures
            id@ == value.text_view(),
    {
        TestId(value.into_text())
    }

    /// The identifier text.
    pub fn as_str(&self) -> (s: &str)
        ensures
            s@ == self@,
    {
        self.0.as_str()
    }

    /// A copy of this identifier.
    pub fn duplicate(&self) -> (id: TestId)
        ensures
            id == *self,
    {
        TestId(self.0.clone())
    }
}

/// A permanent source-target identifier.
#[derive(Clone, Debug, Eq, Hash, Ord, PartialEq, PartialOrd)]
pub struct SrcId(pub String);

impl View for SrcId {
    type V = Seq<char>;

    open spec fn view(&self) -> Seq<char> {
        self.0@
    }
}

impl SrcId {
    /// Wraps the given text.
    pub fn new<T: IntoText>(value: T) -> (id: SrcId)
        ensures
            id@ == value.text_view(),
    {
        SrcId(value.into_text())
    }

    /// The identifier text.
    pub fn as_str(&self) -> (s: &str)
        ensures
            s@ == self@,
    {
        self.0.as_str()
    }

    /// A copy of this identifier.
    pub fn duplicate(&self) -> (id: SrcId)
        ensures
            id == *self,
    {
        SrcId(self.0.clone())
    }
}

/// An upstream document node identifier.
#[derive(Clone, Debug, Eq, Hash, Ord, PartialEq, PartialOrd)]
pub struct DocumentId(pub String);

impl View for DocumentId {
    type V = Seq<char>;

    open spec fn view(&self) -> Seq<char> {
        self.0@
    }
}

impl DocumentId {
    /// Wraps the given text.
    pub fn new<T: IntoText>(value: T) -> (id: DocumentId)
        ensures
            id@ == value.text_view(),
    {
        DocumentId(value.into_text())
    }

    /// The identifier text.
    pub fn as_str(&self) -> (s: &str)
        ensures
            s@ == self@,
    {
        self.0.as_str()
    }

    /// A copy of this identifier.
    pub fn duplicate(&self) -> (id: DocumentId)
        ensures
            id == *self,
    {
        DocumentId(self.0.clone())
    }
}

/// A source discovery adapter identifier.
#[derive(Clone, Debug, Eq, Hash, Ord, PartialEq, PartialOrd)]
pub struct AdapterId(pub String);

impl View for AdapterId {
    type V = Seq<char>;

    open spec fn view(&self) -> Seq<char> {
        self.0@
    }
}

impl AdapterId {
    /// Wraps the given text.
    pub fn new<T: IntoText>(value: T) -> (id: AdapterId)
        ensures
            id@ == value.text_view(),
    {
        AdapterId(value.into_text())
    }

    /// The identifier text.
    pub fn as_str(&self) -> (s: &str)
        ensures
            s@ == self@,
    {
        self.0.as_str()
    }

    /// A copy of this identifier.
    pub fn duplicate(&self) -> (id: AdapterId)
        ensures
            id == *self,
    {
        AdapterId(self.0.clone())
    }
}

} // verus!
