//! Test entities: the managed metadata of a test construct and how it is
//! executed.

use vstd::prelude::*;

use crate::hash::ContentHash;
use crate::ids::{AdapterId, TestId, VoId};
use crate::source::{SourceLocation, TargetRef};
use crate::text::{duplicate_option_string, duplicate_strings};

verus! {

/// How a runner selects and executes a test.
#[derive(Clone, Debug, Eq, PartialEq)]
pub struct ExecutionDescriptor {
    pub adapter: AdapterId,
    pub project: Option<String>,
    pub suite: Option<TestSuite>,
    pub selector: String,
}

/// The suite a test belongs to.
#[derive(Clone, Debug, Eq, PartialEq)]
pub struct TestSuite {
    pub kind: String,
    pub name: Option<String>,
}

/// A structurally complete managed test.
#[derive(Clone, Debug, Eq, PartialEq)]
pub struct TestEntity {
    pub id: TestId,
    pub covers: Vec<VoId>,
    pub targets: Vec<TargetRef>,
    pub intent: String,
    pub input: Option<String>,
    pub expect: Option<String>,
    pub kind: Option<String>,
    pub cases: Vec<String>,
    pub related: Vec<TestId>,
    pub location: SourceLocation,
    pub content_hash: ContentHash,
    pub execution: ExecutionDescriptor,
}

/// How a discovered test construct corresponds to managed tests.
#[derive(Clone, Debug, Eq, PartialEq)]
pub enum ManagedTestLink {
    Missing,
    One(TestId),
    Multiple(Vec<TestId>),
}

/// A test construct as an adapter observed it.
#[derive(Clone, Debug, Eq, PartialEq)]
pub struct DiscoveredTest {
    pub adapter: AdapterId,
    pub location: SourceLocation,
    pub content_hash: ContentHash,
    pub managed: ManagedTestLink,
}

/// The canonical metadata fields of a test.
#[derive(Clone, Debug, Eq, PartialEq)]
pub struct TestRecord {
    pub id: TestId,
    pub covers: Vec<VoId>,
    pub targets: Vec<TargetRef>,
    pub intent: String,
    pub input: Option<String>,
    pub expect: Option<String>,
    pub kind: Option<String>,
    pub cases: Vec<String>,
    pub related: Vec<TestId>,
}

impl ExecutionDescriptor {
    /// A copy of this descriptor.
    pub fn duplicate(&self) -> (d: ExecutionDescriptor)
        ensures
            d == *self,
    {
        let suite = match &self.suite {
            Some(s) => Some(TestSuite { kind: s.kind.clone(), name: duplicate_option_string(&s.name) }),
            None => None,
        };
        ExecutionDescriptor {
            adapter: self.adapter.duplicate(),
            project: duplicate_option_string(&self.project),
            suite,
            selector: self.selector.clone(),
        }
    }
}

fn duplicate_vo_ids(v: &Vec<VoId>) -> (out: Vec<VoId>)
    ensures
        out@ == v@,
{
    let mut out: Vec<VoId> = Vec::new();
    let mut i: usize = 0;
    while i < v.len()
        invariant
            i <= v@.len(),
            out@ == v@.take(i as int),
        decreases v.len() - i,
    {
        out.push(v[i].duplicate());
        assert(out@ =~= v@.take(i as int + 1));
        i = i + 1;
    }
    assert(v@.take(i as int) =~= v@);
    out
}

fn duplicate_test_ids(v: &Vec<TestId>) -> (out: Vec<TestId>)
    ensures
        out@ == v@,
{
    let mut out: Vec<TestId> = Vec::new();
    let mut i: usize = 0;
    while i < v.len()
        invariant
            i <= v@.len(),
            out@ == v@.take(i as int),
        decreases v.len() - i,
    {
        out.push(v[i].duplicate());
        assert(out@ =~= v@.take(i as int + 1));
        i = i + 1;
    }
    assert(v@.take(i as int) =~= v@);
    out
}

fn duplicate_targets(v: &Vec<TargetRef>) -> (out: Vec<TargetRef>)
    ensures
        out@ == v@,
{
    let mut out: Vec<TargetRef> = Vec::new();
    let mut i: usize = 0;
    while i < v.len()
        invariant
            i <= v@.len(),
            out@ == v@.take(i as int),
        decreases v.len() - i,
    {
        out.push(v[i].duplicate());
        assert(out@ =~= v@.take(i as int + 1));
        i = i + 1;
    }
    assert(v@.take(i as int) =~= v@);
    out
}

impl TestEntity {
    /// The two tests hold the same values, field by field.
    pub open spec fn same_as(&self, other: TestEntity) -> bool {
        &&& self.id == other.id
        &&& self.covers@ == other.covers@
        &&& self.targets@ == other.targets@
        &&& self.intent == other.intent
        &&& self.input == other.input
        &&& self.expect == other.expect
        &&& self.kind == other.kind
        &&& self.cases@ == other.cases@
        &&& self.related@ == other.related@
        &&& self.location == other.location
        &&& self.content_hash == other.content_hash
        &&& self.execution == other.execution
    }

    /// A copy of this test.
    pub fn duplicate(&self) -> (t: TestEntity)
        ensures
            t.same_as(*self),
    {
        let covers = duplicate_vo_ids(&self.covers);
        let targets = duplicate_targets(&self.targets);
        let cases = duplicate_strings(&self.cases);
        let related = duplicate_test_ids(&self.related);
        let t = TestEntity {
            id: self.id.duplicate(),
            covers,
            targets,
            intent: self.intent.clone(),
            input: duplicate_option_string(&self.input),
            expect: duplicate_option_string(&self.expect),
            kind: duplicate_option_string(&self.kind),
            cases,
            related,
            location: self.location.duplicate(),
            content_hash: self.content_hash.duplicate(),
            execution: self.execution.duplicate(),
        };
        t
    }
}

} // verus!
