//! Subject hashes of document nodes, verification objectives and source
//! targets: each is the SHA-256 of a canonical hash input built from the
//! subject's canonical fields only.

use vstd::prelude::*;
use vstd::utf8::{decode_utf8, encode_utf8};

use crate::digest::sha256;
use crate::document::{RootNode, SectionNode, SentenceNode};
use crate::encoding::{
    byte_views, domain_name, encode_nested_fields, field_encoding, field_views, fields_encoding,
    hash_input, len_prefixed, sorted_set, FieldValue, Payload, SubjectDomain, SubjectHashInput,
};
use crate::hash::{content_hash_text, ContentHash};
use crate::ids::DocumentId;
use crate::normalize::{normalize_hashed_text, normalized_text};
use crate::order::bytes_equal;
use crate::source::Locator;
use crate::vo::{canonical_keys, CombinationEntry, CoveragePolicy, Dimension, VoRecord};

verus! {

/// The bytes a text fragment contributes: its normalized UTF-8 bytes.
pub open spec fn fragment_bytes(s: Seq<char>) -> Seq<u8> {
    encode_utf8(normalized_text(s))
}

/// A text fragment as a payload.
pub open spec fn fragment(s: Seq<char>) -> Payload {
    Payload::Scalar(fragment_bytes(s))
}

/// The content hash of the hash input for `domain` and `fields`.
pub open spec fn subject_hash_of(domain: SubjectDomain, fields: Seq<(Seq<u8>, Payload)>) -> Seq<
    char,
> {
    content_hash_text(sha256(hash_input(encode_utf8(domain_name(domain)), fields)))
}

/// The fields of a leaf document node: its id and its statement, as text
/// fragments.
pub open spec fn leaf_fields(id: Seq<char>, statement: Seq<char>) -> Seq<(Seq<u8>, Payload)> {
    seq![(encode_utf8("id"@), fragment(id)), (encode_utf8("statement"@), fragment(statement))]
}

/// The subject hash of a leaf document node (a root or sentence node).
pub open spec fn leaf_hash(id: Seq<char>, statement: Seq<char>) -> Seq<char> {
    subject_hash_of(SubjectDomain::DocumentSubject, leaf_fields(id, statement))
}

proof fn lemma_hash_input_push(d: Seq<u8>, fields: Seq<(Seq<u8>, Payload)>, f: (Seq<u8>, Payload))
    ensures
        hash_input(d, fields.push(f)) == hash_input(d, fields) + field_encoding(f.0, f.1),
{
    assert(fields.push(f).drop_last() =~= fields);
    assert(hash_input(d, fields.push(f)) =~= hash_input(d, fields) + field_encoding(f.0, f.1));
}

/// Appends one field, keeping track of the fields written so far.
fn add_field(
    input: SubjectHashInput,
    name: &str,
    value: FieldValue,
    Ghost(d): Ghost<Seq<u8>>,
    Ghost(fields): Ghost<Seq<(Seq<u8>, Payload)>>,
) -> (out: SubjectHashInput)
    requires
        input@ == hash_input(d, fields),
    ensures
        out@ == hash_input(d, fields.push((encode_utf8(name@), value.payload()))),
{
    let ghost p = value.payload();
    let out = input.field(name, value);
    proof {
        lemma_hash_input_push(d, fields, (encode_utf8(name@), p));
    }
    out
}

/// Starts a hash input with no fields yet.
fn start(domain: SubjectDomain) -> (out: SubjectHashInput)
    ensures
        out@ == hash_input(encode_utf8(domain_name(domain)), Seq::empty()),
{
    let out = SubjectHashInput::new(domain);
    assert(out@ =~= hash_input(encode_utf8(domain_name(domain)), Seq::empty()));
    out
}

/// `None` when the value is absent, otherwise a text fragment.
fn optional_text_fragment(value: Option<&str>) -> (v: FieldValue)
    ensures
        v.payload() == (match value {
            None => Payload::Absent,
            Some(t) => fragment(t@),
        }),
{
    match value {
        None => FieldValue::Null,
        Some(text) => FieldValue::text_fragment(text),
    }
}

fn leaf_node_subject_hash(id: &DocumentId, statement: &str) -> (h: ContentHash)
    ensures
        h@ == leaf_hash(id@, statement@),
{
    let ghost d = encode_utf8(domain_name(SubjectDomain::DocumentSubject));
    let input = start(SubjectDomain::DocumentSubject);
    let input = add_field(input, "id", FieldValue::text_fragment(id.as_str()), Ghost(d), Ghost(Seq::empty()));
    let ghost f1 = Seq::<(Seq<u8>, Payload)>::empty().push((encode_utf8("id"@), fragment(id@)));
    let input = add_field(input, "statement", FieldValue::text_fragment(statement), Ghost(d), Ghost(f1));
    assert(f1.push((encode_utf8("statement"@), fragment(statement@))) =~= leaf_fields(id@, statement@));
    input.finish()
}

/// The subject hash of a root node: the leaf rule over its id and
/// statement; its description and source do not enter.
pub fn root_node_subject_hash(node: &RootNode) -> (h: ContentHash)
    ensures
        h@ == leaf_hash(node.id@, node.statement@),
{
    leaf_node_subject_hash(&node.id, &node.statement)
}

/// The subject hash of a sentence node: the leaf rule over its id and
/// statement; its description, upstream ids, citations and source do not
/// enter.
pub fn sentence_node_subject_hash(node: &SentenceNode) -> (h: ContentHash)
    ensures
        h@ == leaf_hash(node.id@, node.statement@),
{
    leaf_node_subject_hash(&node.id, &node.statement)
}

/// A section's sentence items; an absent list is empty.
pub open spec fn item_children(node: SectionNode) -> Seq<SentenceNode> {
    match node.items {
        Some(v) => v@,
        None => Seq::empty(),
    }
}

/// The bytes of each item's subject hash, in order.
pub open spec fn item_hash_bytes(items: Seq<SentenceNode>) -> Seq<Seq<u8>> {
    items.map_values(|x: SentenceNode| encode_utf8(leaf_hash(x.id@, x.statement@)))
}

/// The subject hash of a section node: an `items` field holding its
/// items' subject hashes and a `sections` field holding its child
/// sections' subject hashes, each in declared order. Its own id, title,
/// description, source and upstream ids do not enter, and an absent list
/// counts as an empty one.
pub open spec fn section_hash(node: SectionNode) -> Seq<char>
    decreases node, 1int,
{
    let sections = match node.sections {
        Some(v) => section_hash_bytes(v@),
        None => Seq::empty(),
    };
    subject_hash_of(
        SubjectDomain::DocumentSubject,
        seq![
            (encode_utf8("items"@), Payload::Sequence(item_hash_bytes(item_children(node)))),
            (encode_utf8("sections"@), Payload::Sequence(sections)),
        ],
    )
}

/// The bytes of each section's subject hash, in order.
pub open spec fn section_hash_bytes(children: Seq<SectionNode>) -> Seq<Seq<u8>>
    decreases children, 0int,
{
    if children.len() == 0 {
        Seq::empty()
    } else {
        section_hash_bytes(children.drop_last()).push(encode_utf8(section_hash(children.last())))
    }
}

/// The subject hash of a section node (see `section_hash`).
pub fn section_node_subject_hash(node: &SectionNode) -> (h: ContentHash)
    ensures
        h@ == section_hash(*node),
    decreases node,
{
    let mut item_hashes: Vec<Vec<u8>> = Vec::new();
    match &node.items {
        Some(items) => {
            let mut i: usize = 0;
            while i < items.len()
                invariant
                    i <= items@.len(),
                    node.items == Some(*items),
                    byte_views(item_hashes@) == item_hash_bytes(items@.take(i as int)),
                decreases items.len() - i,
            {
                let h = sentence_node_subject_hash(&items[i]);
                let bytes = h.as_str().as_bytes_vec();
                let ghost before = item_hashes@;
                item_hashes.push(bytes);
                assert(byte_views(item_hashes@) =~= byte_views(before).push(bytes@));
                assert(item_hash_bytes(items@.take(i as int).push(items@[i as int]))
                    =~= item_hash_bytes(items@.take(i as int)).push(bytes@));
                assert(items@.take(i as int + 1) =~= items@.take(i as int).push(items@[i as int]));
                assert(byte_views(item_hashes@) =~= item_hash_bytes(items@.take(i as int + 1)));
                i = i + 1;
            }
            assert(items@.take(i as int) =~= items@);
        },
        None => {
            assert(byte_views(item_hashes@) =~= item_hash_bytes(item_children(*node)));
        },
    }
    let mut section_hashes: Vec<Vec<u8>> = Vec::new();
    match &node.sections {
        Some(children) => {
            let mut i: usize = 0;
            while i < children.len()
                invariant
                    i <= children@.len(),
                    node.sections == Some(*children),
                    byte_views(section_hashes@) == section_hash_bytes(children@.take(i as int)),
                decreases children.len() - i,
            {
                proof {
                    assert(decreases_to!(node => node.sections));
                    assert(decreases_to!(node.sections => node.sections->0));
                    assert(decreases_to!(node.sections->0 => node.sections->0@));
                    assert(decreases_to!(node.sections->0@ => node.sections->0@[i as int]));
                }
                let h = section_node_subject_hash(&children[i]);
                let bytes = h.as_str().as_bytes_vec();
                section_hashes.push(bytes);
                let ghost t = children@.take(i as int + 1);
                assert(t.drop_last() =~= children@.take(i as int));
                assert(byte_views(section_hashes@) =~= section_hash_bytes(t));
                i = i + 1;
            }
            assert(children@.take(i as int) =~= children@);
        },
        None => {
            assert(byte_views(section_hashes@) =~= Seq::<Seq<u8>>::empty());
        },
    }
    let ghost d = encode_utf8(domain_name(SubjectDomain::DocumentSubject));
    let ghost items_payload = Payload::Sequence(byte_views(item_hashes@));
    let input = start(SubjectDomain::DocumentSubject);
    let input = add_field(input, "items", FieldValue::Ordered(item_hashes), Ghost(d), Ghost(Seq::empty()));
    let ghost f1 = Seq::<(Seq<u8>, Payload)>::empty().push((encode_utf8("items"@), items_payload));
    let input = add_field(input, "sections", FieldValue::Ordered(section_hashes), Ghost(d), Ghost(f1));
    proof {
        let sections = if node.sections is Some {
            section_hash_bytes(node.sections->0@)
        } else {
            Seq::empty()
        };
        assert(f1.push((encode_utf8("sections"@), Payload::Sequence(sections))) =~= seq![
            (encode_utf8("items"@), Payload::Sequence(item_hash_bytes(item_children(*node)))),
            (encode_utf8("sections"@), Payload::Sequence(sections)),
        ]);
    }
    input.finish()
}

/// Each string's text-fragment bytes, in order.
pub open spec fn fragment_list(items: Seq<String>) -> Seq<Seq<u8>> {
    items.map_values(|s: String| fragment_bytes(s@))
}

/// The nested fields of one dimension: its name and its partitions, in
/// declared order.
pub open spec fn dimension_fields(d: Dimension) -> Seq<(Seq<u8>, Payload)> {
    seq![
        (encode_utf8("name"@), fragment(d.name@)),
        (encode_utf8("partitions"@), Payload::Sequence(fragment_list(d.partitions@))),
    ]
}

/// The bytes one dimension contributes.
pub open spec fn dimension_bytes(d: Dimension) -> Seq<u8> {
    fields_encoding(dimension_fields(d))
}

/// The nested fields of one combination: one field per pair, named by the
/// dimension and holding the partition value as a text fragment, sorted by
/// name and then by value, so that declaration order does not matter.
pub open spec fn combination_fields(pairs: Seq<(Seq<char>, Seq<char>)>) -> Seq<(Seq<u8>, Payload)> {
    canonical_keys(pairs).map_values(
        |k: (Seq<u8>, Seq<u8>)| (k.0, Payload::Scalar(fragment_bytes(decode_utf8(k.1)))),
    )
}

/// The bytes one combination contributes.
pub open spec fn combination_bytes(e: CombinationEntry) -> Seq<u8> {
    fields_encoding(combination_fields(e@))
}

/// The text a coverage policy is hashed as.
pub open spec fn policy_name(p: CoveragePolicy) -> Seq<char> {
    match p {
        CoveragePolicy::IndependentAxes => "independent-axes"@,
        CoveragePolicy::FullProduct => "full-product"@,
        CoveragePolicy::Explicit => "explicit"@,
    }
}

/// The items of a list with every repeat of an earlier item removed.
pub open spec fn first_occurrences(items: Seq<Seq<u8>>) -> Seq<Seq<u8>>
    decreases items.len(),
{
    if items.len() == 0 {
        Seq::empty()
    } else {
        let earlier = first_occurrences(items.drop_last());
        if earlier.contains(items.last()) {
            earlier
        } else {
            earlier.push(items.last())
        }
    }
}

/// The normalized ids of the upstream nodes a record derives from; anchors
/// and notes do not enter.
pub open spec fn referenced_ids(r: VoRecord) -> Seq<Seq<u8>> {
    r.derives_from@.map_values(|e: crate::document::DerivesFrom| fragment_bytes(e.doc@))
}

/// The canonical fields of a verification objective record.
pub open spec fn vo_fields(r: VoRecord) -> Seq<(Seq<u8>, Payload)> {
    seq![
        (encode_utf8("id"@), fragment(r.id@)),
        (
            encode_utf8("parent"@),
            match r.parent {
                None => Payload::Absent,
                Some(p) => fragment(p@),
            },
        ),
        (
            encode_utf8("derives_from"@),
            Payload::Sequence(sorted_set(first_occurrences(referenced_ids(r)))),
        ),
        (encode_utf8("claim"@), fragment(r.claim@)),
        (
            encode_utf8("dimensions"@),
            Payload::Sequence(r.dimensions@.map_values(|d: Dimension| dimension_bytes(d))),
        ),
        (
            encode_utf8("coverage_policy"@),
            match r.coverage_policy {
                None => Payload::Absent,
                Some(p) => fragment(policy_name(p)),
            },
        ),
        (
            encode_utf8("combinations"@),
            Payload::Sequence(r.combinations@.map_values(|e: CombinationEntry| combination_bytes(e))),
        ),
        (encode_utf8("representative_cases"@), Payload::Sequence(fragment_list(r.representative_cases@))),
        (encode_utf8("created"@), fragment(r.created@)),
        (encode_utf8("updated"@), fragment(r.updated@)),
    ]
}

/// The subject hash of a verification objective record.
pub open spec fn vo_hash(r: VoRecord) -> Seq<char> {
    subject_hash_of(SubjectDomain::RecordSubject, vo_fields(r))
}

fn fragment_list_of(items: &Vec<String>) -> (out: Vec<Vec<u8>>)
    ensures
        byte_views(out@) == fragment_list(items@),
{
    let mut out: Vec<Vec<u8>> = Vec::new();
    let mut i: usize = 0;
    while i < items.len()
        invariant
            i <= items@.len(),
            byte_views(out@) == fragment_list(items@.take(i as int)),
        decreases items.len() - i,
    {
        let normalized = normalize_hashed_text(items[i].as_str());
        let bytes = normalized.as_str().as_bytes_vec();
        let ghost before = out@;
        out.push(bytes);
        assert(byte_views(out@) =~= byte_views(before).push(bytes@));
        assert(items@.take(i as int + 1) =~= items@.take(i as int).push(items@[i as int]));
        assert(fragment_list(items@.take(i as int + 1)) =~= fragment_list(items@.take(i as int)).push(
            bytes@,
        ));
        i = i + 1;
    }
    assert(items@.take(i as int) =~= items@);
    out
}

fn encode_dimension(dimension: &Dimension) -> (out: Vec<u8>)
    ensures
        out@ == dimension_bytes(*dimension),
{
    let name = FieldValue::text_fragment(dimension.name.as_str());
    let partitions = FieldValue::Ordered(fragment_list_of(&dimension.partitions));
    let fields: Vec<(&str, FieldValue)> = vec![("name", name), ("partitions", partitions)];
    assert(field_views(fields@) =~= dimension_fields(*dimension));
    encode_nested_fields(fields)
}

fn coverage_policy_str(policy: CoveragePolicy) -> (s: &'static str)
    ensures
        s@ == policy_name(policy),
{
    match policy {
        CoveragePolicy::IndependentAxes => "independent-axes",
        CoveragePolicy::FullProduct => "full-product",
        CoveragePolicy::Explicit => "explicit",
    }
}

fn encode_combination_entry(entry: &CombinationEntry) -> (out: Vec<u8>)
    ensures
        out@ == combination_bytes(*entry),
{
    let pairs = entry.canonical_pairs();
    let mut fields: Vec<(&str, FieldValue)> = Vec::new();
    let ghost keys = canonical_keys(entry@);
    let mut i: usize = 0;
    while i < pairs.len()
        invariant
            i <= pairs@.len(),
            crate::vo::pair_key_views(crate::vo::pair_views(pairs@)) == keys,
            keys == canonical_keys(entry@),
            field_views(fields@) == combination_fields(entry@).take(i as int),
        decreases pairs.len() - i,
    {
        let name = pairs[i].0.as_str();
        let value = FieldValue::text_fragment(pairs[i].1.as_str());
        proof {
            vstd::utf8::encode_utf8_decode_utf8(pairs@[i as int].1@);
            assert(keys[i as int] == (encode_utf8(pairs@[i as int].0@), encode_utf8(pairs@[i as int].1@)));
        }
        let ghost before = fields@;
        fields.push((name, value));
        assert(field_views(fields@) =~= field_views(before).push((encode_utf8(name@), value.payload())));
        assert(combination_fields(entry@).take(i as int + 1) =~= combination_fields(entry@).take(
            i as int,
        ).push(combination_fields(entry@)[i as int]));
        i = i + 1;
    }
    assert(combination_fields(entry@).take(i as int) =~= combination_fields(entry@));
    encode_nested_fields(fields)
}

/// The ids of the upstream nodes, normalized, without repeats.
fn distinct_referenced_ids(record: &VoRecord) -> (out: Vec<Vec<u8>>)
    ensures
        byte_views(out@) == first_occurrences(referenced_ids(*record)),
{
    let mut out: Vec<Vec<u8>> = Vec::new();
    let ghost ids = referenced_ids(*record);
    let mut i: usize = 0;
    while i < record.derives_from.len()
        invariant
            i <= record.derives_from@.len(),
            ids == referenced_ids(*record),
            byte_views(out@) == first_occurrences(ids.take(i as int)),
        decreases record.derives_from.len() - i,
    {
        let normalized = normalize_hashed_text(record.derives_from[i].doc.as_str());
        let bytes = normalized.as_str().as_bytes_vec();
        let ghost t = ids.take(i as int + 1);
        assert(t.drop_last() =~= ids.take(i as int));
        assert(t.last() == bytes@);
        let mut present = false;
        let mut j: usize = 0;
        while j < out.len()
            invariant
                j <= out@.len(),
                present == byte_views(out@).take(j as int).contains(bytes@),
            decreases out.len() - j,
        {
            let same = bytes_equal(out[j].as_slice(), bytes.as_slice());
            let ghost prev = byte_views(out@).take(j as int);
            let ghost next = byte_views(out@).take(j as int + 1);
            assert(next =~= prev.push(out@[j as int]@));
            proof {
                if same {
                    assert(next[j as int] == bytes@);
                } else if !present {
                    assert forall|k: int| 0 <= k < next.len() implies next[k] != bytes@ by {
                        if k < j {
                            assert(next[k] == prev[k]);
                        }
                    }
                } else {
                    let k = choose|k: int| 0 <= k < prev.len() && prev[k] == bytes@;
                    assert(next[k] == bytes@);
                }
            }
            present = present || same;
            j = j + 1;
        }
        assert(byte_views(out@).take(j as int) =~= byte_views(out@));
        if !present {
            let ghost before = out@;
            out.push(bytes);
            assert(byte_views(out@) =~= byte_views(before).push(bytes@));
        }
        i = i + 1;
    }
    assert(ids.take(i as int) =~= ids);
    out
}

fn encode_dimensions(dimensions: &Vec<Dimension>) -> (out: Vec<Vec<u8>>)
    ensures
        byte_views(out@) == dimensions@.map_values(|d: Dimension| dimension_bytes(d)),
{
    let mut dims: Vec<Vec<u8>> = Vec::new();
    let mut i: usize = 0;
    while i < dimensions.len()
        invariant
            i <= dimensions@.len(),
            byte_views(dims@) == dimensions@.take(i as int).map_values(
                |d: Dimension| dimension_bytes(d),
            ),
        decreases dimensions.len() - i,
    {
        let bytes = encode_dimension(&dimensions[i]);
        let ghost before = dims@;
        dims.push(bytes);
        assert(byte_views(dims@) =~= byte_views(before).push(bytes@));
        assert(dimensions@.take(i as int + 1) =~= dimensions@.take(i as int).push(
            dimensions@[i as int],
        ));
        assert(dimensions@.take(i as int + 1).map_values(|d: Dimension| dimension_bytes(d))
            =~= dimensions@.take(i as int).map_values(|d: Dimension| dimension_bytes(d)).push(
            bytes@,
        ));
        i = i + 1;
    }
    assert(dimensions@.take(i as int) =~= dimensions@);
    dims
}

fn encode_combinations(combinations: &Vec<CombinationEntry>) -> (out: Vec<Vec<u8>>)
    ensures
        byte_views(out@) == combinations@.map_values(|e: CombinationEntry| combination_bytes(e)),
{
    let mut combos: Vec<Vec<u8>> = Vec::new();
    let mut i: usize = 0;
    while i < combinations.len()
        invariant
            i <= combinations@.len(),
            byte_views(combos@) == combinations@.take(i as int).map_values(
                |e: CombinationEntry| combination_bytes(e),
            ),
        decreases combinations.len() - i,
    {
        let bytes = encode_combination_entry(&combinations[i]);
        let ghost before = combos@;
        combos.push(bytes);
        assert(byte_views(combos@) =~= byte_views(before).push(bytes@));
        assert(combinations@.take(i as int + 1) =~= combinations@.take(i as int).push(
            combinations@[i as int],
        ));
        assert(combinations@.take(i as int + 1).map_values(
            |e: CombinationEntry| combination_bytes(e),
        ) =~= combinations@.take(i as int).map_values(
            |e: CombinationEntry| combination_bytes(e),
        ).push(bytes@));
        i = i + 1;
    }
    assert(combinations@.take(i as int) =~= combinations@);
    combos
}

/// The hash input of a verification objective record, up to its
/// dimensions.
#[verifier::spinoff_prover]
fn vo_hash_input_head(record: &VoRecord) -> (input: SubjectHashInput)
    ensures
        input@ == hash_input(encode_utf8(domain_name(SubjectDomain::RecordSubject)), vo_fields(*record).take(5)),
{
    let ghost d = encode_utf8(domain_name(SubjectDomain::RecordSubject));
    let ghost mut fs = Seq::<(Seq<u8>, Payload)>::empty();
    let input = start(SubjectDomain::RecordSubject);

    let v = FieldValue::text_fragment(record.id.as_str());
    let ghost p = v.payload();
    let input = add_field(input, "id", v, Ghost(d), Ghost(fs));
    proof { fs = fs.push((encode_utf8("id"@), p)); }

    let parent = match &record.parent {
        Some(id) => Some(id.as_str()),
        None => None,
    };
    let v = optional_text_fragment(parent);
    let ghost p = v.payload();
    let input = add_field(input, "parent", v, Ghost(d), Ghost(fs));
    proof { fs = fs.push((encode_utf8("parent"@), p)); }

    let v = FieldValue::SetOf(distinct_referenced_ids(record));
    let ghost p = v.payload();
    let input = add_field(input, "derives_from", v, Ghost(d), Ghost(fs));
    proof { fs = fs.push((encode_utf8("derives_from"@), p)); }

    let v = FieldValue::text_fragment(record.claim.as_str());
    let ghost p = v.payload();
    let input = add_field(input, "claim", v, Ghost(d), Ghost(fs));
    proof { fs = fs.push((encode_utf8("claim"@), p)); }

    let dims = encode_dimensions(&record.dimensions);
    let v = FieldValue::Ordered(dims);
    let ghost p = v.payload();
    let input = add_field(input, "dimensions", v, Ghost(d), Ghost(fs));
    proof { fs = fs.push((encode_utf8("dimensions"@), p)); }

    assert(fs =~= vo_fields(*record).take(5));
    input
}

/// The hash input of a verification objective record.
#[verifier::spinoff_prover]
fn vo_hash_input(record: &VoRecord) -> (input: SubjectHashInput)
    ensures
        input@ == hash_input(encode_utf8(domain_name(SubjectDomain::RecordSubject)), vo_fields(*record)),
{
    let ghost d = encode_utf8(domain_name(SubjectDomain::RecordSubject));
    let ghost mut fs = vo_fields(*record).take(5);
    let input = vo_hash_input_head(record);

    let v = match record.coverage_policy {
        None => FieldValue::Null,
        Some(policy) => FieldValue::text_fragment(coverage_policy_str(policy)),
    };
    let ghost p = v.payload();
    let input = add_field(input, "coverage_policy", v, Ghost(d), Ghost(fs));
    proof { fs = fs.push((encode_utf8("coverage_policy"@), p)); }

    let combos = encode_combinations(&record.combinations);
    let v = FieldValue::Ordered(combos);
    let ghost p = v.payload();
    let input = add_field(input, "combinations", v, Ghost(d), Ghost(fs));
    proof { fs = fs.push((encode_utf8("combinations"@), p)); }

    let v = FieldValue::Ordered(fragment_list_of(&record.representative_cases));
    let ghost p = v.payload();
    let input = add_field(input, "representative_cases", v, Ghost(d), Ghost(fs));
    proof { fs = fs.push((encode_utf8("representative_cases"@), p)); }

    let v = FieldValue::text_fragment(record.created.as_str());
    let ghost p = v.payload();
    let input = add_field(input, "created", v, Ghost(d), Ghost(fs));
    proof { fs = fs.push((encode_utf8("created"@), p)); }

    let v = FieldValue::text_fragment(record.updated.as_str());
    let ghost p = v.payload();
    let input = add_field(input, "updated", v, Ghost(d), Ghost(fs));
    proof { fs = fs.push((encode_utf8("updated"@), p)); }

    assert(fs =~= vo_fields(*record));
    input
}

/// The subject hash of a verification objective record (see `vo_fields`).
pub fn vo_subject_hash(record: &VoRecord) -> (h: ContentHash)
    ensures
        h@ == vo_hash(*record),
{
    vo_hash_input(record).finish()
}

/// The canonical fields of a source target: its adapter, its locator value
/// and its construct text, each as a text fragment.
pub open spec fn target_fields(locator: Locator, construct: Seq<char>) -> Seq<(Seq<u8>, Payload)> {
    seq![
        (encode_utf8("adapter"@), fragment(locator.adapter@)),
        (encode_utf8("locator"@), fragment(locator.value@)),
        (encode_utf8("construct"@), fragment(construct)),
    ]
}

/// The subject hash of a source target.
pub open spec fn target_hash(locator: Locator, construct: Seq<char>) -> Seq<char> {
    subject_hash_of(SubjectDomain::TargetSubject, target_fields(locator, construct))
}

/// The subject hash of a source target: its canonical locator and its
/// construct text, so that identical construct text at two locations
/// hashes differently.
pub fn source_target_subject_hash(locator: &Locator, construct_text: &str) -> (h: ContentHash)
    ensures
        h@ == target_hash(*locator, construct_text@),
{
    let ghost d = encode_utf8(domain_name(SubjectDomain::TargetSubject));
    let ghost mut fs = Seq::<(Seq<u8>, Payload)>::empty();
    let input = start(SubjectDomain::TargetSubject);
    let v = FieldValue::text_fragment(locator.adapter.as_str());
    let ghost p = v.payload();
    let input = add_field(input, "adapter", v, Ghost(d), Ghost(fs));
    proof { fs = fs.push((encode_utf8("adapter"@), p)); }
    let v = FieldValue::text_fragment(locator.value.as_str());
    let ghost p = v.payload();
    let input = add_field(input, "locator", v, Ghost(d), Ghost(fs));
    proof { fs = fs.push((encode_utf8("locator"@), p)); }
    let v = FieldValue::text_fragment(construct_text);
    let ghost p = v.payload();
    let input = add_field(input, "construct", v, Ghost(d), Ghost(fs));
    proof { fs = fs.push((encode_utf8("construct"@), p)); }
    assert(fs =~= target_fields(*locator, construct_text@));
    input.finish()
}

} // verus!
