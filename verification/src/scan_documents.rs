//! The document-node layer of the scan: every node id must be unique
//! across all documents, every upstream edge must name a known node, and
//! every node outside the root layer must have an effective upstream (its
//! own edges or an ancestor section's).

use vstd::prelude::*;

use crate::diagnostic::{Diagnostic, DiagnosticSeverity};
use crate::document::{DocumentFile, RootNode, SectionNode, SentenceNode};
use crate::grouping::{group_by_key, group_keys, occurrence_keys, values_for};
use crate::subject_hash::first_occurrences;
use vstd::utf8::encode_utf8;
use crate::ids::DocumentId;
use crate::scan::{contains_string, diag_view, diag_views};
use crate::source::SourceLocation;
use crate::text::push_text;
use crate::order::{key_order, sort_by_key, sort_keys};
use crate::encoding::{lex_order, sorted_set};
use vstd::utf8::decode_utf8;

verus! {

/// A diagnostic as a tuple of code, severity, message and location.
pub open spec fn unlocated_error(code: Seq<char>, message: Seq<char>) -> (
    Seq<char>,
    DiagnosticSeverity,
    Seq<char>,
    Option<SourceLocation>,
) {
    (code, DiagnosticSeverity::Error, message, None)
}

/// The repository-relative path of a document file.
pub open spec fn doc_record_path(name: Seq<char>) -> Seq<char> {
    ".verify/doc/"@ + name + ".json"@
}

/// The message for an upstream edge naming an unknown node.
pub open spec fn dangling_message(node: Seq<char>, target: Seq<char>, path: Seq<char>) -> Seq<char> {
    "document node "@ + node + " derives_from missing node "@ + target + " ("@ + path + ")"@
}

/// The message for a node with no effective upstream.
pub open spec fn orphan_message(node: Seq<char>, path: Seq<char>) -> Seq<char> {
    "document node "@ + node
        + " is orphaned: no effective upstream (own or ancestor derives_from edges) ("@ + path
        + ")"@
}

/// The reports for the edges among `edges` that name no known node, in
/// order.
pub open spec fn dangling_reports(node: Seq<char>, edges: Seq<DocumentId>, known: Seq<Seq<char>>, path: Seq<char>) -> Seq<
    (Seq<char>, DiagnosticSeverity, Seq<char>, Option<SourceLocation>),
>
    decreases edges.len(),
{
    if edges.len() == 0 {
        Seq::empty()
    } else {
        let earlier = dangling_reports(node, edges.drop_last(), known, path);
        if known.contains(edges.last()@) {
            earlier
        } else {
            earlier.push(
                unlocated_error("E-SCAN-012"@, dangling_message(node, edges.last()@, path)),
            )
        }
    }
}

/// The reports for one node: its dangling edges, then an orphan report if
/// neither it nor an ancestor has an edge.
pub open spec fn node_reports(node: Seq<char>, edges: Seq<DocumentId>, ancestor_has_upstream: bool, known: Seq<Seq<char>>, path: Seq<char>) -> Seq<
    (Seq<char>, DiagnosticSeverity, Seq<char>, Option<SourceLocation>),
> {
    let own = dangling_reports(node, edges, known, path);
    if ancestor_has_upstream || edges.len() > 0 {
        own
    } else {
        own.push(unlocated_error("E-SCAN-016"@, orphan_message(node, path)))
    }
}

/// The reports for a sentence node.
pub open spec fn sentence_reports(s: SentenceNode, ancestor_has_upstream: bool, known: Seq<Seq<char>>, path: Seq<char>) -> Seq<
    (Seq<char>, DiagnosticSeverity, Seq<char>, Option<SourceLocation>),
> {
    node_reports(s.id@, s.derives_from@, ancestor_has_upstream, known, path)
}

/// The reports for a list of sentence nodes, in order.
pub open spec fn sentences_reports(items: Seq<SentenceNode>, ancestor_has_upstream: bool, known: Seq<Seq<char>>, path: Seq<char>) -> Seq<
    (Seq<char>, DiagnosticSeverity, Seq<char>, Option<SourceLocation>),
>
    decreases items.len(),
{
    if items.len() == 0 {
        Seq::empty()
    } else {
        sentences_reports(items.drop_last(), ancestor_has_upstream, known, path) + sentence_reports(
            items.last(),
            ancestor_has_upstream,
            known,
            path,
        )
    }
}

/// A section's own upstream ids; an absent list is empty.
pub open spec fn section_edges(s: SectionNode) -> Seq<DocumentId> {
    if s.derives_from is Some {
        s.derives_from->0@
    } else {
        Seq::empty()
    }
}

/// The reports for a section and its descendants: the section's own
/// reports, then its items', then its child sections', each child seeing
/// an upstream if the section or one of its ancestors has an edge.
pub open spec fn section_reports(s: SectionNode, ancestor_has_upstream: bool, known: Seq<Seq<char>>, path: Seq<char>) -> Seq<
    (Seq<char>, DiagnosticSeverity, Seq<char>, Option<SourceLocation>),
>
    decreases s, 1int,
{
    let has = ancestor_has_upstream || section_edges(s).len() > 0;
    let items = if s.items is Some {
        sentences_reports(s.items->0@, has, known, path)
    } else {
        Seq::empty()
    };
    let children = if s.sections is Some {
        sections_reports(s.sections->0@, has, known, path)
    } else {
        Seq::empty()
    };
    node_reports(s.id@, section_edges(s), ancestor_has_upstream, known, path) + items + children
}

/// The reports for a list of sections, in order.
pub open spec fn sections_reports(sections: Seq<SectionNode>, ancestor_has_upstream: bool, known: Seq<Seq<char>>, path: Seq<char>) -> Seq<
    (Seq<char>, DiagnosticSeverity, Seq<char>, Option<SourceLocation>),
>
    decreases sections, 0int,
{
    if sections.len() == 0 {
        Seq::empty()
    } else {
        sections_reports(sections.drop_last(), ancestor_has_upstream, known, path) + section_reports(
            sections.last(),
            ancestor_has_upstream,
            known,
            path,
        )
    }
}

fn record_path_of(name: &str) -> (p: String)
    ensures
        p@ == doc_record_path(name@),
{
    let mut p = String::new();
    push_text(&mut p, ".verify/doc/");
    push_text(&mut p, name);
    push_text(&mut p, ".json");
    assert(p@ =~= doc_record_path(name@));
    p
}

fn check_node(
    node: &DocumentId,
    edges: &Vec<DocumentId>,
    ancestor_has_upstream: bool,
    known_ids: &Vec<String>,
    path: &String,
    diagnostics: &mut Vec<Diagnostic>,
)
    ensures
        diag_views(final(diagnostics)@) == diag_views(old(diagnostics)@) + node_reports(
            node@,
            edges@,
            ancestor_has_upstream,
            known_ids@.map_values(|t: String| t@),
            path@,
        ),
{
    let ghost known = known_ids@.map_values(|t: String| t@);
    let ghost base = diag_views(diagnostics@);
    let mut i: usize = 0;
    while i < edges.len()
        invariant
            i <= edges@.len(),
            known == known_ids@.map_values(|t: String| t@),
            base == diag_views(old(diagnostics)@),
            diag_views(diagnostics@) == base + dangling_reports(node@, edges@.take(i as int), known, path@),
        decreases edges.len() - i,
    {
        let target = edges[i].as_str();
        let ghost t = edges@.take(i as int + 1);
        assert(t.drop_last() =~= edges@.take(i as int));
        if !contains_string(known_ids, target) {
            let mut message = String::new();
            push_text(&mut message, "document node ");
            push_text(&mut message, node.as_str());
            push_text(&mut message, " derives_from missing node ");
            push_text(&mut message, target);
            push_text(&mut message, " (");
            push_text(&mut message, path.as_str());
            push_text(&mut message, ")");
            assert(message@ =~= dangling_message(node@, target@, path@));
            let d = Diagnostic::error("E-SCAN-012", message);
            let ghost before = diagnostics@;
            diagnostics.push(d);
            assert(diag_views(diagnostics@) =~= diag_views(before).push(diag_view(d)));
        }
        assert(diag_views(diagnostics@) =~= base + dangling_reports(node@, t, known, path@));
        i = i + 1;
    }
    assert(edges@.take(i as int) =~= edges@);
    if !(ancestor_has_upstream || edges.len() > 0) {
        let mut message = String::new();
        push_text(&mut message, "document node ");
        push_text(&mut message, node.as_str());
        push_text(
            &mut message,
            " is orphaned: no effective upstream (own or ancestor derives_from edges) (",
        );
        push_text(&mut message, path.as_str());
        push_text(&mut message, ")");
        assert(message@ =~= orphan_message(node@, path@));
        let d = Diagnostic::error("E-SCAN-016", message);
        let ghost before = diagnostics@;
        diagnostics.push(d);
        assert(diag_views(diagnostics@) =~= diag_views(before).push(diag_view(d)));
    }
}

/// Checks one sentence node: `E-SCAN-012` for each upstream id that names
/// no known node, and `E-SCAN-016` if neither it nor an ancestor section
/// has an upstream edge.
pub fn check_sentence_node(
    document: &str,
    sentence: &SentenceNode,
    ancestor_has_upstream: bool,
    known_ids: &Vec<String>,
    diagnostics: &mut Vec<Diagnostic>,
)
    ensures
        diag_views(final(diagnostics)@) == diag_views(old(diagnostics)@) + sentence_reports(
            *sentence,
            ancestor_has_upstream,
            known_ids@.map_values(|t: String| t@),
            doc_record_path(document@),
        ),
{
    let path = record_path_of(document);
    check_node(&sentence.id, &sentence.derives_from, ancestor_has_upstream, known_ids, &path, diagnostics);
}

/// Checks a section node and all its descendants (see `section_reports`).
pub fn check_section_node(
    document: &str,
    section: &SectionNode,
    ancestor_has_upstream: bool,
    known_ids: &Vec<String>,
    diagnostics: &mut Vec<Diagnostic>,
)
    ensures
        diag_views(final(diagnostics)@) == diag_views(old(diagnostics)@) + section_reports(
            *section,
            ancestor_has_upstream,
            known_ids@.map_values(|t: String| t@),
            doc_record_path(document@),
        ),
    decreases section,
{
    let ghost known = known_ids@.map_values(|t: String| t@);
    let ghost path = doc_record_path(document@);
    let ghost base = diag_views(diagnostics@);
    let empty: Vec<DocumentId> = Vec::new();
    let edges = match &section.derives_from {
        Some(edges) => edges,
        None => &empty,
    };
    assert(edges@ == section_edges(*section));
    let record_path = record_path_of(document);
    check_node(&section.id, edges, ancestor_has_upstream, known_ids, &record_path, diagnostics);
    let has_upstream = ancestor_has_upstream || edges.len() > 0;
    let ghost after_own = diag_views(diagnostics@);
    match &section.items {
        Some(items) => {
            let mut i: usize = 0;
            while i < items.len()
                invariant
                    i <= items@.len(),
                    known == known_ids@.map_values(|t: String| t@),
                    path == doc_record_path(document@),
                    diag_views(diagnostics@) == after_own + sentences_reports(items@.take(i as int), has_upstream, known, path),
                decreases items.len() - i,
            {
                let ghost t = items@.take(i as int + 1);
                assert(t.drop_last() =~= items@.take(i as int));
                check_sentence_node(document, &items[i], has_upstream, known_ids, diagnostics);
                assert(diag_views(diagnostics@) =~= after_own + sentences_reports(t, has_upstream, known, path));
                i = i + 1;
            }
            assert(items@.take(i as int) =~= items@);
        },
        None => {
            assert(diag_views(diagnostics@) =~= after_own + Seq::empty());
        },
    }
    let ghost after_items = diag_views(diagnostics@);
    match &section.sections {
        Some(children) => {
            let mut i: usize = 0;
            while i < children.len()
                invariant
                    i <= children@.len(),
                    section.sections == Some(*children),
                    known == known_ids@.map_values(|t: String| t@),
                    path == doc_record_path(document@),
                    diag_views(diagnostics@) == after_items + sections_reports(children@.take(i as int), has_upstream, known, path),
                decreases children.len() - i,
            {
                proof {
                    assert(decreases_to!(section => section.sections));
                    assert(decreases_to!(section.sections => section.sections->0));
                    assert(decreases_to!(section.sections->0 => section.sections->0@));
                    assert(decreases_to!(section.sections->0@ => section.sections->0@[i as int]));
                }
                let ghost t = children@.take(i as int + 1);
                assert(t.drop_last() =~= children@.take(i as int));
                check_section_node(document, &children[i], has_upstream, known_ids, diagnostics);
                assert(diag_views(diagnostics@) =~= after_items + sections_reports(t, has_upstream, known, path));
                i = i + 1;
            }
            assert(children@.take(i as int) =~= children@);
        },
        None => {
            assert(diag_views(diagnostics@) =~= after_items + Seq::empty());
        },
    }
    proof {
        let items_r = if section.items is Some {
            sentences_reports(section.items->0@, has_upstream, known, path)
        } else {
            Seq::empty()
        };
        let children_r = if section.sections is Some {
            sections_reports(section.sections->0@, has_upstream, known, path)
        } else {
            Seq::empty()
        };
        assert(diag_views(diagnostics@) =~= base + (node_reports(section.id@, section_edges(*section), ancestor_has_upstream, known, path) + items_r + children_r));
    }
}

/// The ids of a list of sentence nodes, in order.
pub open spec fn sentence_ids(items: Seq<SentenceNode>) -> Seq<Seq<char>> {
    items.map_values(|n: SentenceNode| n.id@)
}

/// The ids of a list of root nodes, in order.
pub open spec fn root_ids(items: Seq<RootNode>) -> Seq<Seq<char>> {
    items.map_values(|n: RootNode| n.id@)
}

/// The ids of a section and its descendants: the section's, then its
/// items', then its child sections'.
pub open spec fn section_ids(s: SectionNode) -> Seq<Seq<char>>
    decreases s, 1int,
{
    let items = if s.items is Some {
        sentence_ids(s.items->0@)
    } else {
        Seq::empty()
    };
    let children = if s.sections is Some {
        sections_ids(s.sections->0@)
    } else {
        Seq::empty()
    };
    seq![s.id@] + items + children
}

/// The ids of a list of sections and their descendants, in order.
pub open spec fn sections_ids(sections: Seq<SectionNode>) -> Seq<Seq<char>>
    decreases sections, 0int,
{
    if sections.len() == 0 {
        Seq::empty()
    } else {
        sections_ids(sections.drop_last()) + section_ids(sections.last())
    }
}

/// Every node id of a document file, layer by layer.
pub open spec fn file_ids(f: DocumentFile) -> Seq<Seq<char>> {
    root_ids(f.root@) + sentence_ids(f.request@) + sections_ids(f.require@) + sections_ids(f.spec@)
        + sections_ids(f.detailed_spec@) + sections_ids(f.basic_design@) + sections_ids(f.design@)
}

/// Each id paired with the document it occurs in.
pub open spec fn tagged(ids: Seq<Seq<char>>, name: Seq<char>) -> Seq<(Seq<char>, Seq<char>)> {
    ids.map_values(|id: Seq<char>| (id, name))
}

/// The views of a list of (id, document) occurrences.
pub open spec fn occurrence_views(occ: Seq<(String, String)>) -> Seq<(Seq<char>, Seq<char>)> {
    occ.map_values(|p: (String, String)| (p.0@, p.1@))
}

fn push_occurrence(occurrences: &mut Vec<(String, String)>, id: &DocumentId, name: &str)
    ensures
        occurrence_views(final(occurrences)@) == occurrence_views(old(occurrences)@).push((id@, name@)),
{
    let ghost before = occurrences@;
    occurrences.push((id.as_str().to_owned(), name.to_owned()));
    assert(occurrence_views(occurrences@) =~= occurrence_views(before).push((id@, name@)));
}

fn index_sentences(items: &Vec<SentenceNode>, name: &str, occurrences: &mut Vec<(String, String)>)
    ensures
        occurrence_views(final(occurrences)@) == occurrence_views(old(occurrences)@) + tagged(
            sentence_ids(items@),
            name@,
        ),
{
    let ghost base = occurrence_views(occurrences@);
    let mut i: usize = 0;
    while i < items.len()
        invariant
            i <= items@.len(),
            base == occurrence_views(old(occurrences)@),
            occurrence_views(occurrences@) == base + tagged(sentence_ids(items@.take(i as int)), name@),
        decreases items.len() - i,
    {
        push_occurrence(occurrences, &items[i].id, name);
        assert(tagged(sentence_ids(items@.take(i as int + 1)), name@) =~= tagged(
            sentence_ids(items@.take(i as int)),
            name@,
        ).push((items@[i as int].id@, name@)));
        i = i + 1;
    }
    assert(items@.take(i as int) =~= items@);
}

fn index_roots(items: &Vec<RootNode>, name: &str, occurrences: &mut Vec<(String, String)>)
    ensures
        occurrence_views(final(occurrences)@) == occurrence_views(old(occurrences)@) + tagged(
            root_ids(items@),
            name@,
        ),
{
    let ghost base = occurrence_views(occurrences@);
    let mut i: usize = 0;
    while i < items.len()
        invariant
            i <= items@.len(),
            base == occurrence_views(old(occurrences)@),
            occurrence_views(occurrences@) == base + tagged(root_ids(items@.take(i as int)), name@),
        decreases items.len() - i,
    {
        push_occurrence(occurrences, &items[i].id, name);
        assert(tagged(root_ids(items@.take(i as int + 1)), name@) =~= tagged(
            root_ids(items@.take(i as int)),
            name@,
        ).push((items@[i as int].id@, name@)));
        i = i + 1;
    }
    assert(items@.take(i as int) =~= items@);
}

/// Records the id of a section and of each of its descendants, in order.
pub fn index_section_ids(section: &SectionNode, name: &str, occurrences: &mut Vec<(String, String)>)
    ensures
        occurrence_views(final(occurrences)@) == occurrence_views(old(occurrences)@) + tagged(
            section_ids(*section),
            name@,
        ),
    decreases section,
{
    let ghost base = occurrence_views(occurrences@);
    push_occurrence(occurrences, &section.id, name);
    let ghost after_own = occurrence_views(occurrences@);
    match &section.items {
        Some(items) => index_sentences(items, name, occurrences),
        None => {},
    }
    let ghost after_items = occurrence_views(occurrences@);
    match &section.sections {
        Some(children) => {
            let mut i: usize = 0;
            while i < children.len()
                invariant
                    i <= children@.len(),
                    section.sections == Some(*children),
                    occurrence_views(occurrences@) == after_items + tagged(sections_ids(children@.take(i as int)), name@),
                decreases children.len() - i,
            {
                proof {
                    assert(decreases_to!(section => section.sections));
                    assert(decreases_to!(section.sections => section.sections->0));
                    assert(decreases_to!(section.sections->0 => section.sections->0@));
                    assert(decreases_to!(section.sections->0@ => section.sections->0@[i as int]));
                }
                let ghost t = children@.take(i as int + 1);
                assert(t.drop_last() =~= children@.take(i as int));
                index_section_ids(&children[i], name, occurrences);
                assert(tagged(sections_ids(t), name@) =~= tagged(sections_ids(children@.take(i as int)), name@) + tagged(section_ids(children@[i as int]), name@));
                i = i + 1;
            }
            assert(children@.take(i as int) =~= children@);
        },
        None => {},
    }
    proof {
        let items_ids = if section.items is Some {
            sentence_ids(section.items->0@)
        } else {
            Seq::empty()
        };
        let children_ids = if section.sections is Some {
            sections_ids(section.sections->0@)
        } else {
            Seq::empty()
        };
        assert(tagged(section_ids(*section), name@) =~= tagged(seq![section.id@], name@) + tagged(items_ids, name@) + tagged(children_ids, name@));
        assert(occurrence_views(occurrences@) =~= base + tagged(section_ids(*section), name@));
    }
}

fn index_sections(sections: &Vec<SectionNode>, name: &str, occurrences: &mut Vec<(String, String)>)
    ensures
        occurrence_views(final(occurrences)@) == occurrence_views(old(occurrences)@) + tagged(
            sections_ids(sections@),
            name@,
        ),
{
    let ghost base = occurrence_views(occurrences@);
    let mut i: usize = 0;
    while i < sections.len()
        invariant
            i <= sections@.len(),
            base == occurrence_views(old(occurrences)@),
            occurrence_views(occurrences@) == base + tagged(sections_ids(sections@.take(i as int)), name@),
        decreases sections.len() - i,
    {
        let ghost t = sections@.take(i as int + 1);
        assert(t.drop_last() =~= sections@.take(i as int));
        index_section_ids(&sections[i], name, occurrences);
        assert(tagged(sections_ids(t), name@) =~= tagged(sections_ids(sections@.take(i as int)), name@) + tagged(section_ids(sections@[i as int]), name@));
        i = i + 1;
    }
    assert(sections@.take(i as int) =~= sections@);
}

/// Records every node id of a document file, paired with the document's
/// name, layer by layer.
pub fn index_document_ids(file: &DocumentFile, name: &str, occurrences: &mut Vec<(String, String)>)
    ensures
        occurrence_views(final(occurrences)@) == occurrence_views(old(occurrences)@) + tagged(
            file_ids(*file),
            name@,
        ),
{
    let ghost base = occurrence_views(occurrences@);
    index_roots(&file.root, name, occurrences);
    index_sentences(&file.request, name, occurrences);
    index_sections(&file.require, name, occurrences);
    index_sections(&file.spec, name, occurrences);
    index_sections(&file.detailed_spec, name, occurrences);
    index_sections(&file.basic_design, name, occurrences);
    index_sections(&file.design, name, occurrences);
    assert(tagged(file_ids(*file), name@) =~= tagged(root_ids(file.root@), name@) + tagged(sentence_ids(file.request@), name@)
        + tagged(sections_ids(file.require@), name@) + tagged(sections_ids(file.spec@), name@)
        + tagged(sections_ids(file.detailed_spec@), name@) + tagged(sections_ids(file.basic_design@), name@)
        + tagged(sections_ids(file.design@), name@));
}

/// Every (node id, document name) occurrence across the files, in order.
pub open spec fn all_occurrences(files: Seq<(String, DocumentFile)>) -> Seq<(Seq<char>, Seq<char>)>
    decreases files.len(),
{
    if files.len() == 0 {
        Seq::empty()
    } else {
        all_occurrences(files.drop_last()) + tagged(file_ids(files.last().1), files.last().0@)
    }
}

/// The UTF-8 bytes of each occurrence's id.
pub open spec fn view_keys(occ: Seq<(Seq<char>, Seq<char>)>) -> Seq<Seq<u8>> {
    occ.map_values(|p: (Seq<char>, Seq<char>)| encode_utf8(p.0))
}

/// The documents an id (given by its bytes) occurs in, in order.
pub open spec fn documents_of(occ: Seq<(Seq<char>, Seq<char>)>, k: Seq<u8>) -> Seq<Seq<char>>
    decreases occ.len(),
{
    if occ.len() == 0 {
        Seq::empty()
    } else {
        let earlier = documents_of(occ.drop_last(), k);
        if encode_utf8(occ.last().0) == k {
            earlier.push(occ.last().1)
        } else {
            earlier
        }
    }
}

/// The distinct ids (as bytes), ascending.
pub open spec fn distinct_ids(occ: Seq<(Seq<char>, Seq<char>)>) -> Seq<Seq<u8>> {
    sorted_set(first_occurrences(view_keys(occ)))
}

/// The items joined with `sep` between each two.
pub open spec fn join_with(items: Seq<Seq<char>>, sep: Seq<char>) -> Seq<char>
    decreases items.len(),
{
    if items.len() == 0 {
        Seq::empty()
    } else if items.len() == 1 {
        items[0]
    } else {
        join_with(items.drop_last(), sep) + sep + items.last()
    }
}

/// The distinct names, ascending by bytes.
pub open spec fn sorted_distinct(names: Seq<Seq<char>>) -> Seq<Seq<char>> {
    sorted_set(first_occurrences(names.map_values(|n: Seq<char>| encode_utf8(n)))).map_values(
        |b: Seq<u8>| decode_utf8(b),
    )
}

/// The message for a node id that occurs more than once.
pub open spec fn collision_message(id: Seq<char>, documents: Seq<Seq<char>>) -> Seq<char> {
    "document node id "@ + id + " occurs more than once, in: "@ + join_with(
        sorted_distinct(documents),
        ", "@,
    ) + " ("@ + doc_record_path(documents[0]) + ")"@
}

/// The collision reports for the distinct ids `keys`, in order.
pub open spec fn collision_reports(occ: Seq<(Seq<char>, Seq<char>)>, keys: Seq<Seq<u8>>) -> Seq<
    (Seq<char>, DiagnosticSeverity, Seq<char>, Option<SourceLocation>),
>
    decreases keys.len(),
{
    if keys.len() == 0 {
        Seq::empty()
    } else {
        let earlier = collision_reports(occ, keys.drop_last());
        let k = keys.last();
        if documents_of(occ, k).len() > 1 {
            earlier.push(
                unlocated_error("E-SCAN-010"@, collision_message(decode_utf8(k), documents_of(occ, k))),
            )
        } else {
            earlier
        }
    }
}

/// The ids among `keys` that occur exactly once, in order.
pub open spec fn unique_ids(occ: Seq<(Seq<char>, Seq<char>)>, keys: Seq<Seq<u8>>) -> Seq<Seq<char>>
    decreases keys.len(),
{
    if keys.len() == 0 {
        Seq::empty()
    } else {
        let earlier = unique_ids(occ, keys.drop_last());
        if documents_of(occ, keys.last()).len() > 1 {
            earlier
        } else {
            earlier.push(decode_utf8(keys.last()))
        }
    }
}

proof fn lemma_documents_of_nonempty(occ: Seq<(Seq<char>, Seq<char>)>, k: Seq<u8>)
    ensures
        documents_of(occ, k).len() >= 1 <==> view_keys(occ).contains(k),
    decreases occ.len(),
{
    if occ.len() > 0 {
        let rest = occ.drop_last();
        lemma_documents_of_nonempty(rest, k);
        assert(view_keys(occ) =~= view_keys(rest).push(encode_utf8(occ.last().0)));
        if view_keys(rest).contains(k) {
            let i = choose|i: int| 0 <= i < view_keys(rest).len() && view_keys(rest)[i] == k;
            assert(view_keys(occ)[i] == k);
        }
        if view_keys(occ).contains(k) {
            let i = choose|i: int| 0 <= i < view_keys(occ).len() && view_keys(occ)[i] == k;
            if i < rest.len() {
                assert(view_keys(rest)[i] == k);
            }
        }
        if encode_utf8(occ.last().0) == k {
            assert(view_keys(occ)[occ.len() - 1] == k);
        }
    }
}

proof fn lemma_unique_ids_members(occ: Seq<(Seq<char>, Seq<char>)>, keys: Seq<Seq<u8>>, x: Seq<char>)
    ensures
        unique_ids(occ, keys).contains(x) <==> exists|i: int|
            0 <= i < keys.len() && documents_of(occ, #[trigger] keys[i]).len() <= 1 && decode_utf8(keys[i])
                == x,
    decreases keys.len(),
{
    if keys.len() > 0 {
        let rest = keys.drop_last();
        lemma_unique_ids_members(occ, rest, x);
        let earlier = unique_ids(occ, rest);
        if earlier.contains(x) {
            let i = choose|i: int|
                0 <= i < rest.len() && documents_of(occ, #[trigger] rest[i]).len() <= 1 && decode_utf8(rest[i]) == x;
            assert(keys[i] == rest[i]);
        }
        if unique_ids(occ, keys).contains(x) && !earlier.contains(x) {
            let n = keys.len() - 1;
            let u = unique_ids(occ, keys);
            assert(u == earlier.push(decode_utf8(keys.last())));
            let j = choose|j: int| 0 <= j < u.len() && u[j] == x;
            assert(j == earlier.len());
            assert(documents_of(occ, keys[n]).len() <= 1 && decode_utf8(keys[n]) == x);
        }
        if exists|i: int| 0 <= i < keys.len() && documents_of(occ, #[trigger] keys[i]).len() <= 1 && decode_utf8(keys[i]) == x {
            let i = choose|i: int| 0 <= i < keys.len() && documents_of(occ, #[trigger] keys[i]).len() <= 1 && decode_utf8(keys[i]) == x;
            if i < keys.len() - 1 {
                assert(rest[i] == keys[i]);
                assert(earlier.contains(x));
                let u = unique_ids(occ, keys);
                let j = choose|j: int| 0 <= j < earlier.len() && earlier[j] == x;
                assert(u[j] == x);
            } else {
                let u = unique_ids(occ, keys);
                assert(u == earlier.push(x));
                assert(u[earlier.len() as int] == x);
            }
        }
    }
}

/// A document node id is resolvable (among the ids returned by
/// `validate_document_nodes`) exactly when it occurs once in the whole
/// corpus: an id defined twice, in one file or in two, is never resolved to
/// either definition.
pub proof fn lemma_known_ids_are_those_defined_once(files: Seq<(String, DocumentFile)>, x: Seq<char>)
    ensures
        unique_ids(all_occurrences(files), distinct_ids(all_occurrences(files))).contains(x) <==> documents_of(
            all_occurrences(files),
            encode_utf8(x),
        ).len() == 1,
{
    let occ = all_occurrences(files);
    let keys = distinct_ids(occ);
    crate::hash_laws::lemma_sorted_set_members(first_occurrences(view_keys(occ)));
    crate::subject_laws::lemma_first_occurrences_members(view_keys(occ));
    lemma_unique_ids_members(occ, keys, x);
    if unique_ids(occ, keys).contains(x) {
        let i = choose|i: int| 0 <= i < keys.len() && documents_of(occ, #[trigger] keys[i]).len() <= 1 && decode_utf8(keys[i]) == x;
        assert(keys.contains(keys[i]));
        assert(view_keys(occ).contains(keys[i]));
        lemma_documents_of_nonempty(occ, keys[i]);
        let j = choose|j: int| 0 <= j < view_keys(occ).len() && view_keys(occ)[j] == keys[i];
        vstd::utf8::encode_utf8_decode_utf8(occ[j].0);
        assert(keys[i] == encode_utf8(x));
    }
    if documents_of(occ, encode_utf8(x)).len() == 1 {
        lemma_documents_of_nonempty(occ, encode_utf8(x));
        assert(keys.contains(encode_utf8(x)));
        let i = choose|i: int| 0 <= i < keys.len() && keys[i] == encode_utf8(x);
        vstd::utf8::encode_utf8_decode_utf8(x);
        assert(documents_of(occ, keys[i]).len() <= 1 && decode_utf8(keys[i]) == x);
    }
}

/// The edge and orphan reports of one document file: its request nodes,
/// then the sections of each layer after it, none with an ancestor.
pub open spec fn file_reports(name: Seq<char>, f: DocumentFile, known: Seq<Seq<char>>) -> Seq<
    (Seq<char>, DiagnosticSeverity, Seq<char>, Option<SourceLocation>),
> {
    let path = doc_record_path(name);
    sentences_reports(f.request@, false, known, path) + sections_reports(f.require@, false, known, path)
        + sections_reports(f.spec@, false, known, path) + sections_reports(f.detailed_spec@, false, known, path)
        + sections_reports(f.basic_design@, false, known, path) + sections_reports(f.design@, false, known, path)
}

/// The edge and orphan reports of every file, in order.
pub open spec fn files_reports(files: Seq<(String, DocumentFile)>, known: Seq<Seq<char>>) -> Seq<
    (Seq<char>, DiagnosticSeverity, Seq<char>, Option<SourceLocation>),
>
    decreases files.len(),
{
    if files.len() == 0 {
        Seq::empty()
    } else {
        files_reports(files.drop_last(), known) + file_reports(files.last().0@, files.last().1, known)
    }
}

proof fn lemma_grouping_views(occ: Seq<(String, String)>, k: Seq<u8>)
    ensures
        occurrence_keys(occ) == view_keys(occurrence_views(occ)),
        values_for(occ, k).map_values(|s: String| s@) == documents_of(occurrence_views(occ), k),
    decreases occ.len(),
{
    assert(occurrence_keys(occ) =~= view_keys(occurrence_views(occ)));
    if occ.len() > 0 {
        lemma_grouping_views(occ.drop_last(), k);
        assert(occurrence_views(occ.drop_last()) =~= occurrence_views(occ).drop_last());
        let earlier = values_for(occ.drop_last(), k);
        if encode_utf8(occ.last().0@) == k {
            assert(earlier.push(occ.last().1).map_values(|s: String| s@) =~= earlier.map_values(
                |s: String| s@,
            ).push(occ.last().1@));
        }
    }
}

pub(crate) fn join_names(names: &Vec<String>, sep: &str) -> (out: String)
    ensures
        out@ == join_with(names@.map_values(|n: String| n@), sep@),
{
    let ghost views = names@.map_values(|n: String| n@);
    let mut out = String::new();
    let mut i: usize = 0;
    while i < names.len()
        invariant
            i <= names@.len(),
            views == names@.map_values(|n: String| n@),
            out@ == join_with(views.take(i as int), sep@),
        decreases names.len() - i,
    {
        let ghost t = views.take(i as int + 1);
        assert(t.drop_last() =~= views.take(i as int));
        if i > 0 {
            push_text(&mut out, sep);
        }
        push_text(&mut out, names[i].as_str());
        if i == 0 {
            assert(out@ =~= t[0]);
        }
        i = i + 1;
    }
    assert(views.take(i as int) =~= views);
    out
}

/// The distinct names, ascending by bytes.
pub(crate) fn sorted_distinct_names(names: &Vec<String>) -> (out: Vec<String>)
    ensures
        out@.map_values(|n: String| n@) == sorted_distinct(names@.map_values(|n: String| n@)),
{
    let ghost views = names@.map_values(|n: String| n@);
    let ghost bytes = views.map_values(|n: Seq<char>| encode_utf8(n));
    let mut distinct: Vec<String> = Vec::new();
    let mut i: usize = 0;
    while i < names.len()
        invariant
            i <= names@.len(),
            views == names@.map_values(|n: String| n@),
            bytes == views.map_values(|n: Seq<char>| encode_utf8(n)),
            sort_keys(distinct@) == first_occurrences(bytes.take(i as int)),
        decreases names.len() - i,
    {
        let ghost t = bytes.take(i as int + 1);
        assert(t.drop_last() =~= bytes.take(i as int));
        assert(t.last() == encode_utf8(names@[i as int]@));
        let mut present = false;
        let mut j: usize = 0;
        while j < distinct.len()
            invariant
                j <= distinct@.len(),
                i < names@.len(),
                present == sort_keys(distinct@).take(j as int).contains(encode_utf8(names@[i as int]@)),
            decreases distinct.len() - j,
        {
            let same = crate::order::bytes_equal(distinct[j].as_str().as_bytes(), names[i].as_str().as_bytes());
            let ghost prev = sort_keys(distinct@).take(j as int);
            let ghost next = sort_keys(distinct@).take(j as int + 1);
            assert(next =~= prev.push(encode_utf8(distinct@[j as int]@)));
            proof {
                let x = encode_utf8(names@[i as int]@);
                if same {
                    vstd::utf8::encode_utf8_decode_utf8(distinct@[j as int]@);
                    vstd::utf8::encode_utf8_decode_utf8(names@[i as int]@);
                    assert(next[j as int] == x);
                } else if !present {
                    assert forall|k: int| 0 <= k < next.len() implies next[k] != x by {
                        if k < j {
                            assert(next[k] == prev[k]);
                        }
                    }
                } else {
                    let k = choose|k: int| 0 <= k < prev.len() && prev[k] == x;
                    assert(next[k] == x);
                }
            }
            present = present || same;
            j = j + 1;
        }
        assert(sort_keys(distinct@).take(j as int) =~= sort_keys(distinct@));
        if !present {
            let ghost before = distinct@;
            distinct.push(names[i].clone());
            assert(sort_keys(distinct@) =~= sort_keys(before).push(encode_utf8(names@[i as int]@)));
        }
        i = i + 1;
    }
    assert(bytes.take(i as int) =~= bytes);
    let ghost unsorted = distinct@;
    let sorted = sort_by_key(distinct);
    proof {
        assert(key_order::<String>() =~= lex_order());
        let sb = sorted_set(first_occurrences(bytes));
        assert(sort_keys(sorted@) == sb);
        assert forall|i: int| 0 <= i < sorted@.len() implies #[trigger] sorted@[i]@ == decode_utf8(sb[i]) by {
            vstd::utf8::encode_utf8_decode_utf8(sorted@[i]@);
            assert(sort_keys(sorted@)[i] == encode_utf8(sorted@[i]@));
        }
        assert(sorted@.map_values(|n: String| n@) =~= sb.map_values(|b: Seq<u8>| decode_utf8(b)));
    }
    sorted
}

fn check_sentences(document: &str, items: &Vec<SentenceNode>, known_ids: &Vec<String>, diagnostics: &mut Vec<Diagnostic>)
    ensures
        diag_views(final(diagnostics)@) == diag_views(old(diagnostics)@) + sentences_reports(
            items@,
            false,
            known_ids@.map_values(|t: String| t@),
            doc_record_path(document@),
        ),
{
    let ghost known = known_ids@.map_values(|t: String| t@);
    let ghost path = doc_record_path(document@);
    let ghost base = diag_views(diagnostics@);
    let mut i: usize = 0;
    while i < items.len()
        invariant
            i <= items@.len(),
            known == known_ids@.map_values(|t: String| t@),
            path == doc_record_path(document@),
            base == diag_views(old(diagnostics)@),
            diag_views(diagnostics@) == base + sentences_reports(items@.take(i as int), false, known, path),
        decreases items.len() - i,
    {
        let ghost t = items@.take(i as int + 1);
        assert(t.drop_last() =~= items@.take(i as int));
        check_sentence_node(document, &items[i], false, known_ids, diagnostics);
        assert(diag_views(diagnostics@) =~= base + sentences_reports(t, false, known, path));
        i = i + 1;
    }
    assert(items@.take(i as int) =~= items@);
}

fn check_sections(document: &str, sections: &Vec<SectionNode>, known_ids: &Vec<String>, diagnostics: &mut Vec<Diagnostic>)
    ensures
        diag_views(final(diagnostics)@) == diag_views(old(diagnostics)@) + sections_reports(
            sections@,
            false,
            known_ids@.map_values(|t: String| t@),
            doc_record_path(document@),
        ),
{
    let ghost known = known_ids@.map_values(|t: String| t@);
    let ghost path = doc_record_path(document@);
    let ghost base = diag_views(diagnostics@);
    let mut i: usize = 0;
    while i < sections.len()
        invariant
            i <= sections@.len(),
            known == known_ids@.map_values(|t: String| t@),
            path == doc_record_path(document@),
            base == diag_views(old(diagnostics)@),
            diag_views(diagnostics@) == base + sections_reports(sections@.take(i as int), false, known, path),
        decreases sections.len() - i,
    {
        let ghost t = sections@.take(i as int + 1);
        assert(t.drop_last() =~= sections@.take(i as int));
        check_section_node(document, &sections[i], false, known_ids, diagnostics);
        assert(diag_views(diagnostics@) =~= base + sections_reports(t, false, known, path));
        i = i + 1;
    }
    assert(sections@.take(i as int) =~= sections@);
}

fn collision_diagnostic(id: &String, documents: &Vec<String>) -> (d: Diagnostic)
    requires
        documents@.len() > 1,
    ensures
        diag_view(d) == unlocated_error(
            "E-SCAN-010"@,
            collision_message(id@, documents@.map_values(|n: String| n@)),
        ),
{
    let distinct = sorted_distinct_names(documents);
    let joined = join_names(&distinct, ", ");
    let path = record_path_of(documents[0].as_str());
    let mut message = String::new();
    push_text(&mut message, "document node id ");
    push_text(&mut message, id.as_str());
    push_text(&mut message, " occurs more than once, in: ");
    push_text(&mut message, joined.as_str());
    push_text(&mut message, " (");
    push_text(&mut message, path.as_str());
    push_text(&mut message, ")");
    let ghost views = documents@.map_values(|n: String| n@);
    assert(views[0] == documents@[0]@);
    assert(message@ =~= collision_message(id@, views));
    Diagnostic::error("E-SCAN-010", message)
}

/// Checks the document-node layer of every parsed document file: each
/// node id occurring more than once (within a file or across files) is
/// reported once as `E-SCAN-010` and is not resolvable; then every file's
/// nodes are checked for dangling (`E-SCAN-012`) and missing
/// (`E-SCAN-016`) upstream edges against the ids that occur exactly once.
/// Returns those ids, ascending.
pub fn validate_document_nodes(files: &Vec<(String, DocumentFile)>, diagnostics: &mut Vec<Diagnostic>) -> (known: Vec<String>)
    ensures
        known@.map_values(|t: String| t@) == unique_ids(
            all_occurrences(files@),
            distinct_ids(all_occurrences(files@)),
        ),
        diag_views(final(diagnostics)@) == diag_views(old(diagnostics)@) + collision_reports(
            all_occurrences(files@),
            distinct_ids(all_occurrences(files@)),
        ) + files_reports(files@, known@.map_values(|t: String| t@)),
{
    let mut occurrences: Vec<(String, String)> = Vec::new();
    let mut i: usize = 0;
    assert(occurrence_views(occurrences@) =~= all_occurrences(files@.take(0)));
    while i < files.len()
        invariant
            i <= files@.len(),
            occurrence_views(occurrences@) == all_occurrences(files@.take(i as int)),
        decreases files.len() - i,
    {
        let ghost t = files@.take(i as int + 1);
        assert(t.drop_last() =~= files@.take(i as int));
        index_document_ids(&files[i].1, files[i].0.as_str(), &mut occurrences);
        i = i + 1;
    }
    assert(files@.take(i as int) =~= files@);
    let ghost occ = occurrences@;
    let ghost occv = all_occurrences(files@);
    let ghost keys = distinct_ids(occv);
    proof {
        lemma_grouping_views(occ, Seq::empty());
        assert(group_keys(occ) == keys);
    }
    let groups = group_by_key(occurrences);
    let ghost base = diag_views(diagnostics@);
    let mut known: Vec<String> = Vec::new();
    let mut g: usize = 0;
    while g < groups.len()
        invariant
            g <= groups@.len(),
            crate::grouping::is_grouping(occ, groups@),
            group_keys(occ) == keys,
            occv == occurrence_views(occ),
            base == diag_views(old(diagnostics)@),
            known@.map_values(|t: String| t@) == unique_ids(occv, keys.take(g as int)),
            diag_views(diagnostics@) == base + collision_reports(occv, keys.take(g as int)),
        decreases groups.len() - g,
    {
        let ghost k = keys[g as int];
        let ghost kt = keys.take(g as int + 1);
        assert(kt.drop_last() =~= keys.take(g as int));
        assert(kt.last() == k);
        proof {
            lemma_grouping_views(occ, k);
            assert(encode_utf8(groups@[g as int].0@) == k);
            vstd::utf8::encode_utf8_decode_utf8(groups@[g as int].0@);
            assert(groups@[g as int].1@.map_values(|s: String| s@) == documents_of(occv, k));
        }
        if groups[g].1.len() > 1 {
            let d = collision_diagnostic(&groups[g].0, &groups[g].1);
            let ghost before = diagnostics@;
            diagnostics.push(d);
            assert(diag_views(diagnostics@) =~= diag_views(before).push(diag_view(d)));
        } else {
            let ghost before = known@;
            known.push(groups[g].0.clone());
            assert(known@.map_values(|t: String| t@) =~= before.map_values(|t: String| t@).push(groups@[g as int].0@));
        }
        g = g + 1;
    }
    assert(keys.take(g as int) =~= keys);
    let ghost known_views = known@.map_values(|t: String| t@);
    let ghost mid = diag_views(diagnostics@);
    let mut i: usize = 0;
    while i < files.len()
        invariant
            i <= files@.len(),
            known_views == known@.map_values(|t: String| t@),
            diag_views(diagnostics@) == mid + files_reports(files@.take(i as int), known_views),
        decreases files.len() - i,
    {
        let ghost t = files@.take(i as int + 1);
        assert(t.drop_last() =~= files@.take(i as int));
        let name = files[i].0.as_str();
        let file = &files[i].1;
        let ghost before = diag_views(diagnostics@);
        check_sentences(name, &file.request, &known, diagnostics);
        check_sections(name, &file.require, &known, diagnostics);
        check_sections(name, &file.spec, &known, diagnostics);
        check_sections(name, &file.detailed_spec, &known, diagnostics);
        check_sections(name, &file.basic_design, &known, diagnostics);
        check_sections(name, &file.design, &known, diagnostics);
        assert(diag_views(diagnostics@) =~= before + file_reports(name@, *file, known_views));
        assert(diag_views(diagnostics@) =~= mid + files_reports(t, known_views));
        i = i + 1;
    }
    assert(files@.take(i as int) =~= files@);
    known
}

/// The diagnostic for a document file that could not be read or parsed.
pub fn invalid_document_diagnostic(name: &str, error: &str) -> (d: Diagnostic)
    ensures
        diag_view(d) == unlocated_error(
            "E-SCAN-010"@,
            "document "@ + name@ + " has an invalid record: "@ + error@ + " ("@ + doc_record_path(name@)
                + ")"@,
        ),
{
    let path = record_path_of(name);
    let mut message = String::new();
    push_text(&mut message, "document ");
    push_text(&mut message, name);
    push_text(&mut message, " has an invalid record: ");
    push_text(&mut message, error);
    push_text(&mut message, " (");
    push_text(&mut message, path.as_str());
    push_text(&mut message, ")");
    let d = Diagnostic::error("E-SCAN-010", message);
    assert(diag_view(d).2 =~= "document "@ + name@ + " has an invalid record: "@ + error@ + " ("@ + doc_record_path(name@) + ")"@);
    d
}

/// The `E-SCAN-012` report naming the edge `target` of the node `node`.
spec fn edge_report(node: Seq<char>, target: Seq<char>, path: Seq<char>) -> (
    Seq<char>,
    DiagnosticSeverity,
    Seq<char>,
    Option<SourceLocation>,
) {
    (
        "E-SCAN-012"@,
        DiagnosticSeverity::Error,
        "document node "@ + node + " derives_from missing node "@ + target + " ("@ + path + ")"@,
        None,
    )
}

proof fn lemma_dangling_reports_edges(node: Seq<char>, edges: Seq<DocumentId>, known: Seq<Seq<char>>, path: Seq<char>)
    ensures
        forall|k: int|
            0 <= k < edges.len() && !known.contains(edges[k]@) ==> dangling_reports(node, edges, known, path).contains(
                #[trigger] edge_report(node, edges[k]@, path),
            ),
        forall|r| #[trigger]
            dangling_reports(node, edges, known, path).contains(r) ==> exists|k: int|
                0 <= k < edges.len() && !known.contains(edges[k]@) && r == edge_report(node, edges[k]@, path),
        dangling_reports(node, edges, known, path).len() == edges.filter(|e: DocumentId| !known.contains(e@)).len(),
    decreases edges.len(),
{
    reveal(Seq::filter);
    if edges.len() > 0 {
        let d = edges.drop_last();
        lemma_dangling_reports_edges(node, d, known, path);
        let earlier = dangling_reports(node, d, known, path);
        let all = dangling_reports(node, edges, known, path);
        assert forall|k: int|
            0 <= k < edges.len() && !known.contains(edges[k]@) implies all.contains(
                #[trigger] edge_report(node, edges[k]@, path),
            ) by {
            if k < d.len() {
                assert(d[k] == edges[k]);
                let x = edge_report(node, d[k]@, path);
                let q = choose|q: int| 0 <= q < earlier.len() && earlier[q] == x;
                assert(all[q] == x);
            } else {
                assert(all.last() == edge_report(node, edges.last()@, path));
            }
        }
        assert forall|r| #[trigger] all.contains(r) implies exists|k: int|
            0 <= k < edges.len() && !known.contains(edges[k]@) && r == edge_report(node, edges[k]@, path) by {
            let q = choose|q: int| 0 <= q < all.len() && all[q] == r;
            if q < earlier.len() {
                assert(earlier[q] == r);
                assert(earlier.contains(r));
                let k = choose|k: int| 0 <= k < d.len() && !known.contains(d[k]@) && r == edge_report(node, d[k]@, path);
                assert(edges[k] == d[k]);
            } else {
                assert(r == edge_report(node, edges[edges.len() - 1]@, path));
            }
        }
    }
}

/// Every upstream edge of a document node that names no known node is
/// reported by name (`E-SCAN-012`), every such report names one of them,
/// and there are as many such reports as such edges.
pub proof fn lemma_every_dangling_edge_is_reported(
    node: Seq<char>,
    edges: Seq<DocumentId>,
    ancestor_has_upstream: bool,
    known: Seq<Seq<char>>,
    path: Seq<char>,
)
    ensures
        forall|k: int|
            0 <= k < edges.len() && !known.contains(edges[k]@) ==> node_reports(
                node,
                edges,
                ancestor_has_upstream,
                known,
                path,
            ).contains(
                (
                    "E-SCAN-012"@,
                    DiagnosticSeverity::Error,
                    "document node "@ + node + " derives_from missing node "@ + #[trigger] edges[k]@ + " ("@ + path
                        + ")"@,
                    None,
                ),
            ),
        forall|r| #[trigger]
            node_reports(node, edges, ancestor_has_upstream, known, path).contains(r) && r.0 == "E-SCAN-012"@
                ==> exists|k: int|
                0 <= k < edges.len() && !known.contains(edges[k]@) && r == (
                    "E-SCAN-012"@,
                    DiagnosticSeverity::Error,
                    "document node "@ + node + " derives_from missing node "@ + edges[k]@ + " ("@ + path + ")"@,
                    None::<SourceLocation>,
                ),
        node_reports(node, edges, ancestor_has_upstream, known, path).filter(
            |r: (Seq<char>, DiagnosticSeverity, Seq<char>, Option<SourceLocation>)| r.0 == "E-SCAN-012"@,
        ).len() == edges.filter(|e: DocumentId| !known.contains(e@)).len(),
{
    lemma_dangling_reports_edges(node, edges, known, path);
    let own = dangling_reports(node, edges, known, path);
    let all = node_reports(node, edges, ancestor_has_upstream, known, path);
    let code = |r: (Seq<char>, DiagnosticSeverity, Seq<char>, Option<SourceLocation>)| r.0 == "E-SCAN-012"@;
    assert forall|k: int| 0 <= k < edges.len() && !known.contains(edges[k]@) implies all.contains(
        edge_report(node, #[trigger] edges[k]@, path),
    ) by {
        let x = edge_report(node, edges[k]@, path);
        assert(own.contains(x));
        let q = choose|q: int| 0 <= q < own.len() && own[q] == x;
        assert(all[q] == x);
    }
    reveal_strlit("E-SCAN-012");
    reveal_strlit("E-SCAN-016");
    assert("E-SCAN-012"@ != "E-SCAN-016"@) by {
        assert("E-SCAN-012"@[9] != "E-SCAN-016"@[9]);
    }
    assert forall|r| #[trigger] all.contains(r) && r.0 == "E-SCAN-012"@ implies exists|k: int|
        0 <= k < edges.len() && !known.contains(edges[k]@) && r == edge_report(node, edges[k]@, path) by {
        let q = choose|q: int| 0 <= q < all.len() && all[q] == r;
        if q < own.len() {
            assert(own[q] == r);
            assert(own.contains(r));
        }
    }
    assert forall|i: int| 0 <= i < own.len() implies code(#[trigger] own[i]) by {
        assert(own.contains(own[i]));
    }
    lemma_filter_all(own, code);
    if !(ancestor_has_upstream || edges.len() > 0) {
        reveal(Seq::filter);
        assert(all.drop_last() == own);
    }
}

/// Every report of `s` passes `pred`, so filtering keeps them all.
proof fn lemma_filter_all<A>(s: Seq<A>, pred: spec_fn(A) -> bool)
    requires
        forall|i: int| 0 <= i < s.len() ==> pred(#[trigger] s[i]),
    ensures
        s.filter(pred) == s,
    decreases s.len(),
{
    reveal(Seq::filter);
    if s.len() > 0 {
        lemma_filter_all(s.drop_last(), pred);
        assert(s.drop_last().push(s.last()) =~= s);
    }
}

} // verus!
