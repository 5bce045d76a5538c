//! Checks around the test operations: whether an audit record is about a
//! test, and the test hashes an edit must leave unchanged.

use vstd::prelude::*;
use vstd::utf8::{decode_utf8, encode_utf8};

use crate::diagnostic::Diagnostic;
use crate::forms::{nonblank_trimmed, split_items, split_on, trim, trim_chars};
use crate::grouping::{group_by_key, group_keys, occurrence_keys, values_for};
use crate::hash::ContentHash;
use crate::scan::ScanResult;
use crate::test_entity::TestEntity;
use crate::text::{chars_of, has_prefix, push_text, string_from_chars, text_eq};

verus! {

/// `s` without its leading dashes.
pub open spec fn without_leading_dashes(s: Seq<char>) -> Seq<char>
    decreases s.len(),
{
    if s.len() > 0 && s[0] == '-' {
        without_leading_dashes(s.drop_first())
    } else {
        s
    }
}

/// A quote character: `'` or `"`.
pub open spec fn is_quote(c: char) -> bool {
    c == '\'' || c == '"'
}

/// `s` without leading quote characters.
pub open spec fn without_leading_quotes(s: Seq<char>) -> Seq<char>
    decreases s.len(),
{
    if s.len() > 0 && is_quote(s[0]) {
        without_leading_quotes(s.drop_first())
    } else {
        s
    }
}

/// `s` without trailing quote characters.
pub open spec fn without_trailing_quotes(s: Seq<char>) -> Seq<char>
    decreases s.len(),
{
    if s.len() > 0 && is_quote(s.last()) {
        without_trailing_quotes(s.drop_last())
    } else {
        s
    }
}

/// A scalar as written in a record line: trimmed, then without the quote
/// characters around it.
pub open spec fn unquoted(s: Seq<char>) -> Seq<char> {
    without_trailing_quotes(without_leading_quotes(trim(s)))
}

/// Reading the (trimmed, non-blank) lines of an audit record in order,
/// whether a line `id: <test id>` has been met right after a `kind: test`
/// line of the same subject (`.0`), and whether the current subject is a
/// test (`.1`). A list item's leading dashes are ignored.
pub open spec fn audit_state(lines: Seq<Seq<char>>, test_id: Seq<char>) -> (bool, bool)
    decreases lines.len(),
{
    if lines.len() == 0 {
        (false, false)
    } else {
        let (found, subject) = audit_state(lines.drop_last(), test_id);
        let t = trim(without_leading_dashes(lines.last()));
        if found {
            (true, subject)
        } else if has_prefix(t, "kind:"@) {
            (false, unquoted(t.skip(5)) == "test"@)
        } else if subject && has_prefix(t, "id:"@) {
            if unquoted(t.skip(3)) == test_id {
                (true, subject)
            } else {
                (false, false)
            }
        } else {
            (false, subject)
        }
    }
}

fn drop_leading_dashes(s: &Vec<char>) -> (out: Vec<char>)
    ensures
        out@ == without_leading_dashes(s@),
{
    let mut start: usize = 0;
    assert(s@.skip(0) =~= s@);
    while start < s.len() && s[start] == '-'
        invariant
            start <= s@.len(),
            without_leading_dashes(s@) == without_leading_dashes(s@.skip(start as int)),
        decreases s.len() - start,
    {
        assert(s@.skip(start as int).drop_first() =~= s@.skip(start as int + 1));
        start = start + 1;
    }
    let mut out: Vec<char> = Vec::new();
    let mut k: usize = start;
    while k < s.len()
        invariant
            start <= k <= s@.len(),
            out@ == s@.subrange(start as int, k as int),
        decreases s.len() - k,
    {
        out.push(s[k]);
        assert(out@ =~= s@.subrange(start as int, k as int + 1));
        k = k + 1;
    }
    assert(out@ =~= s@.skip(start as int));
    out
}

fn unquote(s: &Vec<char>) -> (out: Vec<char>)
    ensures
        out@ == unquoted(s@),
{
    let t = trim_chars(s);
    let mut start: usize = 0;
    assert(t@.skip(0) =~= t@);
    while start < t.len() && (t[start] == '\'' || t[start] == '"')
        invariant
            start <= t@.len(),
            without_leading_quotes(t@) == without_leading_quotes(t@.skip(start as int)),
        decreases t.len() - start,
    {
        assert(t@.skip(start as int).drop_first() =~= t@.skip(start as int + 1));
        start = start + 1;
    }
    let mut end: usize = t.len();
    assert(without_leading_quotes(t@.skip(start as int)) == t@.skip(start as int));
    assert(t@.skip(start as int) =~= t@.subrange(start as int, end as int));
    while end > start && (t[end - 1] == '\'' || t[end - 1] == '"')
        invariant
            start <= end <= t@.len(),
            unquoted(s@) == without_trailing_quotes(t@.subrange(start as int, end as int)),
        decreases end,
    {
        assert(t@.subrange(start as int, end as int).drop_last() =~= t@.subrange(start as int, end as int - 1));
        end = end - 1;
    }
    let mut out: Vec<char> = Vec::new();
    let mut k: usize = start;
    while k < end
        invariant
            start <= k <= end,
            end <= t@.len(),
            out@ == t@.subrange(start as int, k as int),
        decreases end - k,
    {
        out.push(t[k]);
        assert(out@ =~= t@.subrange(start as int, k as int + 1));
        k = k + 1;
    }
    out
}

fn chars_after(s: &Vec<char>, n: usize) -> (out: Vec<char>)
    requires
        n <= s@.len(),
    ensures
        out@ == s@.skip(n as int),
{
    let mut out: Vec<char> = Vec::new();
    let mut k: usize = n;
    while k < s.len()
        invariant
            n <= k <= s@.len(),
            out@ == s@.subrange(n as int, k as int),
        decreases s.len() - k,
    {
        out.push(s[k]);
        assert(out@ =~= s@.subrange(n as int, k as int + 1));
        k = k + 1;
    }
    assert(out@ =~= s@.skip(n as int));
    out
}

/// Whether the audit record `text` has, under a subject of kind `test`,
/// the id `test_id` (see `audit_state`).
pub fn audit_mentions_test(text: &str, test_id: &str) -> (r: bool)
    ensures
        r == audit_state(nonblank_trimmed(split_on(text@, '\n')), test_id@).0,
{
    let text_chars = chars_of(text);
    let lines = split_items(&text_chars, '\n');
    let ghost lv = lines@.map_values(|s: String| s@);
    assert(lv == nonblank_trimmed(split_on(text@, '\n')));
    let mut subject = false;
    let mut i: usize = 0;
    while i < lines.len()
        invariant
            i <= lines@.len(),
            lv == lines@.map_values(|s: String| s@),
            lv == nonblank_trimmed(split_on(text@, '\n')),
            audit_state(lv.take(i as int), test_id@) == (false, subject),
        decreases lines.len() - i,
    {
        let ghost tk = lv.take(i as int + 1);
        assert(tk.drop_last() =~= lv.take(i as int));
        assert(tk.last() == lines@[i as int]@);
        proof {
            reveal_strlit("kind:");
            reveal_strlit("id:");
        }
        let t = trim_chars(&drop_leading_dashes(&chars_of(lines[i].as_str())));
        let ts = string_from_chars(&t);
        if crate::text::starts_with_text(ts.as_str(), "kind:") {
            let value = unquote(&chars_after(&t, 5));
            let v = string_from_chars(&value);
            subject = text_eq(v.as_str(), "test");
        } else if subject && crate::text::starts_with_text(ts.as_str(), "id:") {
            let value = unquote(&chars_after(&t, 3));
            let v = string_from_chars(&value);
            if text_eq(v.as_str(), test_id) {
                assert(t@ == trim(without_leading_dashes(tk.last())));
                assert(audit_state(tk, test_id@).0);
                proof {
                    lemma_audit_found_sticks(lv, test_id@, i as int + 1);
                }
                return true;
            }
            subject = false;
        }
        i = i + 1;
    }
    assert(lv.take(i as int) =~= lv);
    false
}

proof fn lemma_audit_found_sticks(lines: Seq<Seq<char>>, test_id: Seq<char>, n: int)
    requires
        0 <= n <= lines.len(),
        audit_state(lines.take(n), test_id).0,
    ensures
        audit_state(lines, test_id).0,
    decreases lines.len() - n,
{
    if n < lines.len() {
        let t = lines.take(n + 1);
        assert(t.drop_last() =~= lines.take(n));
        lemma_audit_found_sticks(lines, test_id, n + 1);
    } else {
        assert(lines.take(n) =~= lines);
    }
}

/// Each test's id and content hash, in scan order.
pub open spec fn id_hash_pairs(tests: Seq<TestEntity>) -> Seq<(String, ContentHash)> {
    tests.map_values(|t: TestEntity| (t.id.0, t.content_hash))
}

/// For each distinct test id, ascending by bytes: the id and the hash of
/// the last test with that id.
pub open spec fn id_hash_table(tests: Seq<TestEntity>) -> Seq<(Seq<char>, Seq<char>)> {
    let occ = id_hash_pairs(tests);
    group_keys(occ).map_values(|k: Seq<u8>| (decode_utf8(k), values_for(occ, k).last()@))
}

/// The hashes of the tests by id: for each distinct id, ascending, the
/// hash of the last test with that id.
pub fn test_hashes(scan: &ScanResult) -> (table: Vec<(String, ContentHash)>)
    ensures
        table@.map_values(|p: (String, ContentHash)| (p.0@, p.1@)) == id_hash_table(scan.tests@),
{
    let mut occ: Vec<(String, ContentHash)> = Vec::new();
    let mut i: usize = 0;
    while i < scan.tests.len()
        invariant
            i <= scan.tests@.len(),
            occ@ == id_hash_pairs(scan.tests@.take(i as int)),
        decreases scan.tests.len() - i,
    {
        let t = &scan.tests[i];
        let ghost before = occ@;
        occ.push((t.id.0.clone(), t.content_hash.duplicate()));
        assert(scan.tests@.take(i as int + 1) =~= scan.tests@.take(i as int).push(scan.tests@[i as int]));
        assert(occ@ =~= before.push((scan.tests@[i as int].id.0, scan.tests@[i as int].content_hash)));
        i = i + 1;
    }
    assert(scan.tests@.take(i as int) =~= scan.tests@);
    let ghost o = occ@;
    let groups = group_by_key(occ);
    let ghost keys = group_keys(o);
    let mut table: Vec<(String, ContentHash)> = Vec::new();
    let mut g: usize = 0;
    while g < groups.len()
        invariant
            g <= groups@.len(),
            o == id_hash_pairs(scan.tests@),
            keys == group_keys(o),
            crate::grouping::is_grouping(o, groups@),
            table@.map_values(|p: (String, ContentHash)| (p.0@, p.1@)) == keys.take(g as int).map_values(
                |k: Seq<u8>| (decode_utf8(k), values_for(o, k).last()@),
            ),
        decreases groups.len() - g,
    {
        let ghost k = keys[g as int];
        assert(encode_utf8(groups@[g as int].0@) == k);
        assert(groups@[g as int].1@ == values_for(o, k));
        proof {
            lemma_group_nonempty(o, k);
            crate::hash_laws::lemma_sorted_set_members(first_occurrences_of(o));
            crate::subject_laws::lemma_first_occurrences_members(occurrence_keys(o));
            assert(keys.contains(k));
            vstd::utf8::encode_utf8_decode_utf8(groups@[g as int].0@);
        }
        let values = &groups[g].1;
        let last = values[values.len() - 1].duplicate();
        let ghost before = table@;
        table.push((groups[g].0.clone(), last));
        assert(keys.take(g as int + 1) =~= keys.take(g as int).push(k));
        assert(table@.map_values(|p: (String, ContentHash)| (p.0@, p.1@)) =~= before.map_values(
            |p: (String, ContentHash)| (p.0@, p.1@),
        ).push((decode_utf8(k), values_for(o, k).last()@)));
        g = g + 1;
    }
    assert(keys.take(g as int) =~= keys);
    table
}

/// The key bytes of the pairs, first occurrences only.
spec fn first_occurrences_of(o: Seq<(String, ContentHash)>) -> Seq<Seq<u8>> {
    crate::subject_hash::first_occurrences(occurrence_keys(o))
}

proof fn lemma_group_nonempty(o: Seq<(String, ContentHash)>, k: Seq<u8>)
    requires
        group_keys(o).contains(k),
    ensures
        values_for(o, k).len() > 0,
{
    crate::hash_laws::lemma_sorted_set_members(first_occurrences_of(o));
    crate::subject_laws::lemma_first_occurrences_members(occurrence_keys(o));
    assert(occurrence_keys(o).contains(k));
    lemma_values_for_nonempty(o, k);
}

proof fn lemma_values_for_nonempty(o: Seq<(String, ContentHash)>, k: Seq<u8>)
    requires
        occurrence_keys(o).contains(k),
    ensures
        values_for(o, k).len() > 0,
    decreases o.len(),
{
    let i = choose|i: int| 0 <= i < occurrence_keys(o).len() && occurrence_keys(o)[i] == k;
    if i < o.len() - 1 {
        assert(occurrence_keys(o.drop_last())[i] == k);
        lemma_values_for_nonempty(o.drop_last(), k);
    }
}

/// The hash of the first test with the id `id`, if any.
pub open spec fn first_hash(tests: Seq<TestEntity>, id: Seq<char>) -> Option<Seq<char>>
    decreases tests.len(),
{
    if tests.len() == 0 {
        None
    } else if tests[0].id@ == id {
        Some(tests[0].content_hash@)
    } else {
        first_hash(tests.drop_first(), id)
    }
}

/// The first entry of `before` (other than the edited test) whose hash is
/// not the hash the first test with its id now has.
pub open spec fn first_changed(
    tests: Seq<TestEntity>,
    before: Seq<(Seq<char>, Seq<char>)>,
    edited: Option<Seq<char>>,
) -> Option<int> {
    if exists|i: int|
        0 <= i < before.len() && edited != Some(before[i].0) && first_hash(tests, #[trigger] before[i].0) != Some(
            before[i].1,
        ) {
        Some(
            choose|i: int|
                0 <= i < before.len() && edited != Some(before[i].0) && first_hash(tests, #[trigger] before[i].0)
                    != Some(before[i].1) && forall|j: int|
                    0 <= j < i ==> !(edited != Some(before[j].0) && first_hash(tests, before[j].0) != Some(
                        before[j].1,
                    )),
        )
    } else {
        None
    }
}

fn first_hash_of<'a>(tests: &'a Vec<TestEntity>, id: &str) -> (r: Option<&'a ContentHash>)
    ensures
        match r {
            Some(h) => first_hash(tests@, id@) == Some(h@),
            None => first_hash(tests@, id@) is None,
        },
{
    let mut i: usize = 0;
    assert(tests@.skip(0) =~= tests@);
    while i < tests.len()
        invariant
            i <= tests@.len(),
            first_hash(tests@, id@) == first_hash(tests@.skip(i as int), id@),
        decreases tests.len() - i,
    {
        assert(tests@.skip(i as int)[0] == tests@[i as int]);
        assert(tests@.skip(i as int).drop_first() =~= tests@.skip(i as int + 1));
        if text_eq(tests[i].id.0.as_str(), id) {
            return Some(&tests[i].content_hash);
        }
        i = i + 1;
    }
    None
}

/// Checks that an operation left every test's hash as it was, but the
/// edited test's. `before` holds each test id once, ascending (as
/// `test_hashes` gives it). For the first entry of `before` (other than
/// `edited_id`)
/// whose id's first test in `after` is gone or has another hash, an
/// `E-OP-003` error naming that id.
pub fn verify_other_test_hashes(
    after: &ScanResult,
    before: &Vec<(String, ContentHash)>,
    edited_id: Option<&str>,
) -> (r: Result<(), Diagnostic>)
    requires
        crate::project_checks::strictly_ascending(before@.map_values(|p: (String, ContentHash)| p.0)),
    ensures
        ({
            let bv = before@.map_values(|p: (String, ContentHash)| (p.0@, p.1@));
            let ev = match edited_id {
                Some(e) => Some(e@),
                None => None,
            };
            match r {
                Ok(()) => first_changed(after.tests@, bv, ev) is None,
                Err(d) => first_changed(after.tests@, bv, ev) matches Some(i) && d.code@ == "E-OP-003"@
                    && d.message@ == "operation changed Test `"@ + bv[i].0 + "` outside its edit boundary"@
                    && d.severity == crate::diagnostic::DiagnosticSeverity::Error,
            }
        }),
{
    let ghost bv = before@.map_values(|p: (String, ContentHash)| (p.0@, p.1@));
    let ghost ev = match edited_id {
        Some(e) => Some(e@),
        None => None,
    };
    let mut i: usize = 0;
    while i < before.len()
        invariant
            i <= before@.len(),
            bv == before@.map_values(|p: (String, ContentHash)| (p.0@, p.1@)),
            ev == match edited_id {
                Some(e) => Some(e@),
                None => None,
            },
            forall|j: int|
                0 <= j < i ==> !(ev != Some(bv[j].0) && first_hash(after.tests@, #[trigger] bv[j].0) != Some(
                    bv[j].1,
                )),
        decreases before.len() - i,
    {
        let id = before[i].0.as_str();
        let skip = match edited_id {
            Some(e) => text_eq(e, id),
            None => false,
        };
        if !skip {
            let same = match first_hash_of(&after.tests, id) {
                Some(h) => text_eq(h.as_str(), before[i].1.as_str()),
                None => false,
            };
            if !same {
                let mut message = String::new();
                push_text(&mut message, "operation changed Test `");
                push_text(&mut message, id);
                push_text(&mut message, "` outside its edit boundary");
                proof {
                    assert(ev != Some(bv[i as int].0) && first_hash(after.tests@, bv[i as int].0) != Some(bv[i as int].1));
                    let c = first_changed(after.tests@, bv, ev);
                    let w = choose|w: int|
                        0 <= w < bv.len() && ev != Some(bv[w].0) && first_hash(after.tests@, #[trigger] bv[w].0)
                            != Some(bv[w].1) && forall|j: int|
                            0 <= j < w ==> !(ev != Some(bv[j].0) && first_hash(after.tests@, bv[j].0) != Some(
                                bv[j].1,
                            ));
                    assert(c == Some(w));
                    if w < i {
                        assert(!(ev != Some(bv[w].0) && first_hash(after.tests@, bv[w].0) != Some(bv[w].1)));
                    }
                    if w > i {
                        assert(!(ev != Some(bv[i as int].0) && first_hash(after.tests@, bv[i as int].0) != Some(bv[i as int].1)));
                    }
                }
                return Err(Diagnostic::error("E-OP-003", message));
            }
        }
        i = i + 1;
    }
    Ok(())
}

/// Checked against the table of its own hashes, a scan shows no change
/// when the tests that share an id also share a hash (in particular when
/// ids are distinct).
pub proof fn lemma_own_hashes_show_no_change(tests: Seq<TestEntity>, edited: Option<Seq<char>>)
    requires
        forall|i: int, j: int|
            0 <= i < tests.len() && 0 <= j < tests.len() && tests[i].id@ == tests[j].id@ ==> tests[i].content_hash@
                == tests[j].content_hash@,
    ensures
        first_changed(tests, id_hash_table(tests), edited) is None,
{
    let occ = id_hash_pairs(tests);
    let table = id_hash_table(tests);
    crate::hash_laws::lemma_sorted_set_members(first_occurrences_of(occ));
    crate::subject_laws::lemma_first_occurrences_members(occurrence_keys(occ));
    assert forall|i: int| 0 <= i < table.len() implies first_hash(tests, #[trigger] table[i].0) == Some(
        table[i].1,
    ) by {
        let k = group_keys(occ)[i];
        assert(group_keys(occ).contains(k));
        assert(occurrence_keys(occ).contains(k));
        let m = choose|m: int| 0 <= m < occurrence_keys(occ).len() && occurrence_keys(occ)[m] == k;
        vstd::utf8::encode_utf8_decode_utf8(tests[m].id@);
        assert(table[i].0 == tests[m].id@);
        lemma_values_for_last(tests, k);
        let j = choose|j: int|
            0 <= j < tests.len() && encode_utf8(tests[j].id@) == k && values_for(id_hash_pairs(tests), k).last()
                == tests[j].content_hash;
        vstd::utf8::encode_utf8_decode_utf8(tests[j].id@);
        lemma_first_hash_exists(tests, tests[m].id@, m);
        let j2 = choose|j2: int|
            0 <= j2 < tests.len() && tests[j2].id@ == tests[m].id@ && first_hash(tests, tests[m].id@) == Some(
                tests[j2].content_hash@,
            );
        assert(tests[j].id@ == tests[j2].id@);
    }
}

proof fn lemma_values_for_last(tests: Seq<TestEntity>, k: Seq<u8>)
    requires
        occurrence_keys(id_hash_pairs(tests)).contains(k),
    ensures
        exists|j: int|
            0 <= j < tests.len() && encode_utf8(tests[j].id@) == k && values_for(id_hash_pairs(tests), k).last()
                == tests[j].content_hash,
    decreases tests.len(),
{
    let occ = id_hash_pairs(tests);
    let n = tests.len() - 1;
    assert(occ.drop_last() =~= id_hash_pairs(tests.drop_last()));
    if encode_utf8(tests[n].id@) == k {
        assert(occ.last() == (tests[n].id.0, tests[n].content_hash));
    } else {
        let i = choose|i: int| 0 <= i < occurrence_keys(occ).len() && occurrence_keys(occ)[i] == k;
        assert(i < n);
        assert(occurrence_keys(id_hash_pairs(tests.drop_last()))[i] == k);
        lemma_values_for_last(tests.drop_last(), k);
        let j = choose|j: int|
            0 <= j < tests.drop_last().len() && encode_utf8(tests.drop_last()[j].id@) == k && values_for(
                id_hash_pairs(tests.drop_last()),
                k,
            ).last() == tests.drop_last()[j].content_hash;
        assert(tests[j] == tests.drop_last()[j]);
    }
}

proof fn lemma_first_hash_exists(tests: Seq<TestEntity>, id: Seq<char>, m: int)
    requires
        0 <= m < tests.len(),
        tests[m].id@ == id,
    ensures
        exists|j: int| 0 <= j < tests.len() && tests[j].id@ == id && first_hash(tests, id) == Some(tests[j].content_hash@),
    decreases m,
{
    if tests[0].id@ != id {
        assert(tests.drop_first()[m - 1] == tests[m]);
        lemma_first_hash_exists(tests.drop_first(), id, m - 1);
        let j = choose|j: int|
            0 <= j < tests.drop_first().len() && tests.drop_first()[j].id@ == id && first_hash(tests.drop_first(), id)
                == Some(tests.drop_first()[j].content_hash@);
        assert(tests[j + 1] == tests.drop_first()[j]);
    } else {
        assert(tests[0].id@ == id);
    }
}

} // verus!
