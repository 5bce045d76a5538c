//! Rust source locators: `<path>.rs::<item path>`, and small helpers for
//! locating constructs in source text.

use vstd::prelude::*;

use crate::ids::AdapterId;
use crate::operations::separator_at;
use crate::source::{SourceLocation, TargetRef};
use crate::text::{chars_of, push_text, string_from_chars};

verus! {

/// The id of the Rust adapter.
pub const RUST_ADAPTER_ID: &'static str = "rust-cargo";

/// A Rust source locator: a file path ending in `.rs` and an item path
/// within it.
#[derive(Clone, Debug, Eq, PartialEq)]
pub struct Locator {
    pub path: String,
    pub item_path: String,
}

/// The first position where `::` starts, if any.
pub open spec fn first_separator(s: Seq<char>) -> Option<int> {
    if exists|i: int| separator_at(s, i) {
        Some(choose|i: int| separator_at(s, i) && forall|j: int| 0 <= j < i ==> !separator_at(s, j))
    } else {
        None
    }
}

/// `s` ends with `.rs`.
pub open spec fn ends_with_rs(s: Seq<char>) -> bool {
    s.len() >= 3 && s[s.len() - 3] == '.' && s[s.len() - 2] == 'r' && s[s.len() - 1] == 's'
}

/// Backslashes replaced by slashes.
pub open spec fn forward_slashes(s: Seq<char>) -> Seq<char> {
    s.map_values(|c: char| if c == '\\' { '/' } else { c })
}

/// What a locator text parses to: the path (with forward slashes) and the
/// item path, split at the first `::`, when the path is non-empty and
/// ends in `.rs` and the item path is non-empty.
pub open spec fn parse_locator(s: Seq<char>) -> Option<(Seq<char>, Seq<char>)> {
    match first_separator(s) {
        None => None,
        Some(i) => {
            let path = s.subrange(0, i);
            let item = s.subrange(i + 2, s.len() as int);
            if path.len() == 0 || item.len() == 0 || !ends_with_rs(path) {
                None
            } else {
                Some((forward_slashes(path), item))
            }
        },
    }
}

proof fn lemma_first_separator_is(t: Seq<char>, n: int)
    requires
        separator_at(t, n),
        forall|j: int| 0 <= j < n ==> !separator_at(t, j),
    ensures
        first_separator(t) == Some(n),
{
    let c = choose|q: int| separator_at(t, q) && forall|j: int| 0 <= j < q ==> !separator_at(t, j);
    if c < n {
        assert(!separator_at(t, c));
    }
    if c > n {
        assert(!separator_at(t, n));
    }
}

/// Below a separator at `w` there is a first one.
proof fn lemma_least_separator(s: Seq<char>, w: int)
    requires
        separator_at(s, w),
    ensures
        exists|q: int| separator_at(s, q) && forall|j: int| 0 <= j < q ==> !separator_at(s, j),
    decreases w,
{
    if exists|j: int| 0 <= j < w && separator_at(s, j) {
        let j = choose|j: int| 0 <= j < w && separator_at(s, j);
        lemma_least_separator(s, j);
    } else {
        assert(separator_at(s, w) && forall|j: int| 0 <= j < w ==> !separator_at(s, j));
    }
}

proof fn lemma_first_separator_facts(s: Seq<char>)
    requires
        first_separator(s) is Some,
    ensures
        separator_at(s, first_separator(s)->Some_0),
        forall|j: int| 0 <= j < first_separator(s)->Some_0 ==> !separator_at(s, j),
{
    let w = choose|i: int| separator_at(s, i);
    lemma_least_separator(s, w);
}

proof fn lemma_written_back_separator(s: Seq<char>, i: int, item: Seq<char>)
    requires
        0 < i,
        separator_at(s, i),
        forall|j: int| 0 <= j < i ==> !separator_at(s, j),
        s[i - 1] == 's',
    ensures
        ({
            let t = forward_slashes(s.subrange(0, i)) + seq![':', ':'] + item;
            forall|j: int| 0 <= j < i ==> !separator_at(t, j)
        }),
{
    let path = s.subrange(0, i);
    let p = forward_slashes(path);
    let t = p + seq![':', ':'] + item;
    assert forall|j: int| 0 <= j < i implies !separator_at(t, j) by {
        if j + 1 < i {
            assert(t[j] == p[j] && t[j + 1] == p[j + 1]);
            assert(p[j] == (if s[j] == '\\' { '/' } else { s[j] }));
            assert(p[j + 1] == (if s[j + 1] == '\\' { '/' } else { s[j + 1] }));
            assert(!separator_at(s, j));
        } else {
            assert(t[j] == p[i - 1]);
        }
    }
}

/// A parsed locator written back out parses to itself: when `s` parses
/// to the path `p` and item path `item`, the text `p::item` parses to the
/// same `p` and `item`.
pub proof fn lemma_locator_round_trip(s: Seq<char>, p: Seq<char>, item: Seq<char>)
    requires
        parse_locator(s) == Some((p, item)),
    ensures
        parse_locator(p + "::"@ + item) == Some((p, item)),
{
    reveal_strlit("::");
    assert("::"@ =~= seq![':', ':']);
    lemma_first_separator_facts(s);
    let i = first_separator(s)->Some_0;
    let path = s.subrange(0, i);
    assert(p == forward_slashes(path));
    assert(ends_with_rs(path));
    let n = p.len() as int;
    let t = p + "::"@ + item;
    assert(separator_at(t, n));
    lemma_written_back_separator(s, i, item);
    lemma_first_separator_is(t, n);
    assert(t.subrange(0, n) =~= p);
    assert(t.subrange(n + 2, t.len() as int) =~= item);
    assert(ends_with_rs(p)) by {
        assert(p[n - 3] == path[n - 3] && p[n - 2] == path[n - 2] && p[n - 1] == path[n - 1]);
    }
    assert(forward_slashes(p) =~= p);
}

impl Locator {
    /// Parses `<path>.rs::<item path>` (see `parse_locator`).
    pub fn parse(value: &str) -> (r: Option<Locator>)
        ensures
            match r {
                None => parse_locator(value@) is None,
                Some(l) => parse_locator(value@) == Some((l.path@, l.item_path@)),
            },
    {
        let chars = chars_of(value);
        let n = chars.len();
        let mut i: usize = 0;
        let mut found = false;
        while i < n && i + 1 < n && !found
            invariant
                i <= n,
                chars@ == value@,
                n == chars@.len(),
                found ==> separator_at(value@, i as int),
                forall|j: int| 0 <= j < i ==> !separator_at(value@, j),
            decreases n - i + (if found { 0int } else { 1int }),
        {
            if chars[i] == ':' && chars[i + 1] == ':' {
                found = true;
            } else {
                i = i + 1;
            }
        }
        if !found {
            proof {
                assert forall|j: int| !separator_at(value@, j) by {
                    if separator_at(value@, j) {
                        assert(j < i);
                    }
                }
            }
            return None;
        }
        proof {
            let c = choose|q: int| separator_at(value@, q) && forall|j: int| 0 <= j < q ==> !separator_at(value@, j);
            if c < i {
                assert(!separator_at(value@, c));
            }
            if c > i {
                assert(!separator_at(value@, i as int));
            }
            assert(c == i);
        }
        let mut path: Vec<char> = Vec::new();
        let mut k: usize = 0;
        while k < i
            invariant
                k <= i,
                i + 1 < n,
                chars@ == value@,
                n == chars@.len(),
                path@ == forward_slashes(value@.subrange(0, k as int)),
            decreases i - k,
        {
            let c = if chars[k] == '\\' { '/' } else { chars[k] };
            path.push(c);
            assert(forward_slashes(value@.subrange(0, k as int + 1)) =~= forward_slashes(value@.subrange(0, k as int)).push(c));
            k = k + 1;
        }
        let mut item: Vec<char> = Vec::new();
        let mut k: usize = i + 2;
        while k < n
            invariant
                i + 2 <= k <= n,
                chars@ == value@,
                n == chars@.len(),
                item@ == value@.subrange(i as int + 2, k as int),
            decreases n - k,
        {
            item.push(chars[k]);
            assert(item@ =~= value@.subrange(i as int + 2, k as int + 1));
            k = k + 1;
        }
        let ends_rs = i >= 3 && chars[i - 3] == '.' && chars[i - 2] == 'r' && chars[i - 1] == 's';
        if i == 0 || item.len() == 0 || !ends_rs {
            return None;
        }
        proof {
            let p = value@.subrange(0, i as int);
            assert(ends_with_rs(p) == ends_rs);
        }
        Some(Locator { path: string_from_chars(&path), item_path: string_from_chars(&item) })
    }

    /// The locator text: `<path>::<item path>`.
    pub fn as_string(&self) -> (s: String)
        ensures
            s@ == self.path@ + "::"@ + self.item_path@,
    {
        let mut s = String::new();
        push_text(&mut s, self.path.as_str());
        push_text(&mut s, "::");
        push_text(&mut s, self.item_path.as_str());
        assert(s@ =~= self.path@ + "::"@ + self.item_path@);
        s
    }

    /// The locator as a target of the Rust adapter.
    pub fn as_target(&self) -> (t: TargetRef)
        ensures
            t matches TargetRef::Locator(l) && l.adapter@ == RUST_ADAPTER_ID@ && l.value@ == self.path@ + "::"@
                + self.item_path@,
    {
        TargetRef::Locator(crate::source::Locator { adapter: AdapterId::new(RUST_ADAPTER_ID), value: self.as_string() })
    }
}

/// An item path under a module prefix: `prefix::item`, or the item path
/// alone when the prefix is empty.
pub fn join_module_path(prefix: &str, item_path: &str) -> (s: String)
    ensures
        s@ == if prefix@.len() == 0 {
            item_path@
        } else {
            prefix@ + "::"@ + item_path@
        },
{
    let mut s = String::new();
    if chars_of(prefix).len() == 0 {
        push_text(&mut s, item_path);
        assert(s@ =~= item_path@);
    } else {
        push_text(&mut s, prefix);
        push_text(&mut s, "::");
        push_text(&mut s, item_path);
        assert(s@ =~= prefix@ + "::"@ + item_path@);
    }
    s
}

/// The byte offsets at which lines start: 0, then one past each newline.
pub open spec fn line_starts(bytes: Seq<u8>) -> Seq<usize>
    decreases bytes.len(),
{
    if bytes.len() == 0 {
        seq![0usize]
    } else {
        let earlier = line_starts(bytes.drop_last());
        if bytes.last() == 10u8 {
            earlier.push(bytes.len() as usize)
        } else {
            earlier
        }
    }
}

/// The byte offsets at which the lines of `source` start.
pub fn line_offsets(source: &str) -> (offsets: Vec<usize>)
    ensures
        offsets@ == line_starts(vstd::utf8::encode_utf8(source@)),
{
    let bytes = source.as_bytes();
    let mut offsets: Vec<usize> = Vec::new();
    offsets.push(0);
    let mut i: usize = 0;
    assert(offsets@ =~= line_starts(bytes@.take(0)));
    while i < bytes.len()
        invariant
            i <= bytes@.len(),
            offsets@ == line_starts(bytes@.take(i as int)),
        decreases bytes.len() - i,
    {
        let ghost t = bytes@.take(i as int + 1);
        assert(t.drop_last() =~= bytes@.take(i as int));
        if bytes[i] == 10u8 {
            offsets.push(i + 1);
        }
        i = i + 1;
    }
    assert(bytes@.take(i as int) =~= bytes@);
    offsets
}

/// The byte offset at which 1-based line `line` starts, by `offsets` (see
/// `line_offsets`), or `default` for a line past the end.
pub open spec fn line_start_or(offsets: Seq<usize>, line: int, default: int) -> int {
    if 0 <= line - 1 < offsets.len() {
        offsets[line - 1] as int
    } else {
        default
    }
}

/// The location of a construct in a source file from the line and column
/// (1-based line, 0-based byte column) of its start and end: a line below 1
/// counts as line 1, the end line is at least the start line, and the end
/// byte is at most the source length.
pub fn make_location(
    relative: &str,
    function: &str,
    start: (usize, usize),
    end: (usize, usize),
    source_len: usize,
    offsets: &Vec<usize>,
) -> (l: SourceLocation)
    requires
        forall|i: int| 0 <= i < offsets@.len() ==> offsets@[i] + start.1 <= usize::MAX && offsets@[i] + end.1 <= usize::MAX,
        source_len + end.1 <= usize::MAX,
    ensures
        l.file@ == relative@,
        l.function@ == function@,
        l.start_line == if start.0 < 1 { 1 } else { start.0 },
        l.end_line == if end.0 < l.start_line { l.start_line as int } else { end.0 as int },
        l.start_byte == line_start_or(offsets@, l.start_line as int, 0) + start.1,
        l.end_byte == if line_start_or(offsets@, l.end_line as int, source_len as int) + end.1 < source_len {
            line_start_or(offsets@, l.end_line as int, source_len as int) + end.1
        } else {
            source_len as int
        },
{
    let start_line: usize = if start.0 < 1 { 1 } else { start.0 };
    let end_line: usize = if end.0 < start_line { start_line } else { end.0 };
    let start_base: usize = if start_line - 1 < offsets.len() { offsets[start_line - 1] } else { 0 };
    let end_base: usize = if end_line - 1 < offsets.len() { offsets[end_line - 1] } else { source_len };
    let start_byte = start_base + start.1;
    let raw_end = end_base + end.1;
    let end_byte = if raw_end < source_len { raw_end } else { source_len };
    SourceLocation {
        file: relative.to_owned(),
        function: function.to_owned(),
        start_line: start_line as u64,
        end_line: end_line as u64,
        start_byte: start_byte as u64,
        end_byte: end_byte as u64,
    }
}

} // verus!
