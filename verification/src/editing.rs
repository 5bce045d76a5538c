//! Text helpers of the test-editing operations: locating a line and column
//! in a source file, re-indenting a rendered body, and finding a template
//! placeholder left unfilled.

use vstd::prelude::*;
use vstd::utf8::{decode_utf8, encode_utf8, is_char_boundary};

use crate::discovery::{line_offsets, line_starts};
use crate::forms::split_on;
use crate::scan_documents::{join_names, join_with};
use crate::source::SourceLocation;
use crate::text::{chars_of, push_text, string_from_chars};

verus! {

/// The byte offset of `column` bytes into the 1-based line `line` of the
/// bytes `b`: lines are the pieces that end with a newline, and a last
/// piece without one; the column may reach the end of the line's text but
/// not its newline. None for a line that does not exist or a column past
/// the line's end.
pub open spec fn line_column_offset(b: Seq<u8>, line: int, column: int) -> Option<int> {
    let starts = line_starts(b);
    let k = line - 1;
    if 0 <= k < starts.len() && starts[k] < b.len() {
        let end = if k + 1 < starts.len() {
            starts[k + 1] - 1
        } else {
            b.len() as int
        };
        if column <= end - starts[k] {
            Some(starts[k] + column)
        } else {
            None
        }
    } else {
        None
    }
}

proof fn lemma_line_starts_ascend(b: Seq<u8>)
    requires
        b.len() <= usize::MAX,
    ensures
        line_starts(b).len() >= 1,
        line_starts(b)[0] == 0,
        forall|k: int| 0 <= k < line_starts(b).len() ==> #[trigger] line_starts(b)[k] <= b.len(),
        forall|i: int, j: int| 0 <= i < j < line_starts(b).len() ==> line_starts(b)[i] < line_starts(b)[j],
    decreases b.len(),
{
    if b.len() > 0 {
        let e = line_starts(b.drop_last());
        lemma_line_starts_ascend(b.drop_last());
        if b.last() == 10u8 {
            let n = line_starts(b);
            assert(n == e.push(b.len() as usize));
            assert forall|i: int, j: int| 0 <= i < j < n.len() implies n[i] < n[j] by {
                if j == n.len() - 1 {
                    assert(n[i] == e[i]);
                    assert(e[i] <= b.drop_last().len());
                } else {
                    assert(n[i] == e[i] && n[j] == e[j]);
                }
            }
        }
    }
}

/// The byte offset of a 1-based line and a byte column in `source` (see
/// `line_column_offset`).
pub fn source_offset(source: &str, line: usize, column: usize) -> (r: Option<usize>)
    ensures
        match r {
            Some(o) => line_column_offset(encode_utf8(source@), line as int, column as int) == Some(o as int),
            None => line_column_offset(encode_utf8(source@), line as int, column as int) is None,
        },
{
    let offsets = line_offsets(source);
    let bytes = source.as_bytes();
    let len = bytes.len();
    proof {
        lemma_line_starts_ascend(encode_utf8(source@));
    }
    if line == 0 || line > offsets.len() {
        return None;
    }
    let start = offsets[line - 1];
    if start >= len {
        return None;
    }
    let end = if line < offsets.len() {
        assert(offsets@[line as int - 1] < offsets@[line as int]);
        offsets[line] - 1
    } else {
        len
    };
    if column <= end - start {
        Some(start + column)
    } else {
        None
    }
}

/// `s` with `indent` inserted after every newline.
pub open spec fn indent_after_newlines(s: Seq<char>, indent: Seq<char>) -> Seq<char>
    decreases s.len(),
{
    if s.len() == 0 {
        Seq::empty()
    } else {
        let earlier = indent_after_newlines(s.drop_last(), indent);
        if s.last() == '\n' {
            earlier.push('\n') + indent
        } else {
            earlier.push(s.last())
        }
    }
}

/// `source` with `indent` inserted after every newline.
pub fn indent_multiline(source: &str, indent: &str) -> (out: String)
    ensures
        out@ == indent_after_newlines(source@, indent@),
{
    let chars = chars_of(source);
    let mut out = String::new();
    let mut i: usize = 0;
    while i < chars.len()
        invariant
            i <= chars@.len(),
            chars@ == source@,
            out@ == indent_after_newlines(chars@.take(i as int), indent@),
        decreases chars.len() - i,
    {
        let ghost t = chars@.take(i as int + 1);
        assert(t.drop_last() =~= chars@.take(i as int));
        assert(t.last() == chars@[i as int]);
        if chars[i] == '\n' {
            push_text(&mut out, "\n");
            proof {
                reveal_strlit("\n");
            }
            push_text(&mut out, indent);
        } else {
            crate::text::push_char(&mut out, chars[i]);
        }
        i = i + 1;
    }
    assert(chars@.take(i as int) =~= chars@);
    out
}

/// A piece without one trailing carriage return.
pub open spec fn strip_cr(p: Seq<char>) -> Seq<char> {
    if p.len() > 0 && p.last() == '\r' {
        p.drop_last()
    } else {
        p
    }
}

/// The lines of `s` as `str::lines` gives them: split at each newline, a
/// carriage return before the newline dropped, and no empty last line
/// after a final newline.
pub open spec fn text_lines(s: Seq<char>) -> Seq<Seq<char>> {
    let pieces = split_on(s, '\n');
    let ended = pieces.drop_last().map_values(|p: Seq<char>| strip_cr(p));
    if pieces.last().len() == 0 {
        ended
    } else {
        ended.push(pieces.last())
    }
}

/// `line` without the prefix `p`, or `line` unchanged if it does not start
/// with it.
pub open spec fn strip_prefix_or_same(line: Seq<char>, p: Seq<char>) -> Seq<char> {
    if line.len() >= p.len() && line.take(p.len() as int) == p {
        line.skip(p.len() as int)
    } else {
        line
    }
}

/// The lines of `s` after the first, each without the prefix `indent` where
/// it has it, joined again with newlines.
pub open spec fn deindented(s: Seq<char>, indent: Seq<char>) -> Seq<char> {
    let ls = text_lines(s);
    join_with(
        Seq::new(ls.len(), |i: int| if i == 0 { ls[0] } else { strip_prefix_or_same(ls[i], indent) }),
        seq!['\n'],
    )
}

fn split_pieces(chars: &Vec<char>, sep: char) -> (out: Vec<Vec<char>>)
    ensures
        out@.map_values(|p: Vec<char>| p@) == split_on(chars@, sep),
{
    let mut out: Vec<Vec<char>> = Vec::new();
    let mut current: Vec<char> = Vec::new();
    let mut i: usize = 0;
    assert(chars@.take(0) =~= Seq::<char>::empty());
    while i < chars.len()
        invariant
            i <= chars@.len(),
            split_on(chars@.take(i as int), sep).len() >= 1,
            current@ == split_on(chars@.take(i as int), sep).last(),
            out@.map_values(|p: Vec<char>| p@) == split_on(chars@.take(i as int), sep).drop_last(),
        decreases chars.len() - i,
    {
        let ghost t = chars@.take(i as int + 1);
        assert(t.drop_last() =~= chars@.take(i as int));
        assert(t.last() == chars@[i as int]);
        let ghost p = split_on(chars@.take(i as int), sep);
        if chars[i] == sep {
            let ghost before = out@;
            out.push(current);
            current = Vec::new();
            assert(out@.map_values(|q: Vec<char>| q@) =~= before.map_values(|q: Vec<char>| q@).push(p.last()));
            assert(p =~= p.drop_last().push(p.last()));
            assert(split_on(t, sep).drop_last() =~= p);
        } else {
            current.push(chars[i]);
            assert(split_on(t, sep).drop_last() =~= p.drop_last());
        }
        i = i + 1;
    }
    assert(chars@.take(i as int) =~= chars@);
    let ghost p = split_on(chars@, sep);
    let ghost before = out@;
    out.push(current);
    assert(out@.map_values(|q: Vec<char>| q@) =~= before.map_values(|q: Vec<char>| q@).push(p.last()));
    assert(p =~= p.drop_last().push(p.last()));
    out
}

fn strip_cr_exec(p: &Vec<char>) -> (out: Vec<char>)
    ensures
        out@ == strip_cr(p@),
{
    let n = p.len();
    let keep = if n > 0 && p[n - 1] == '\r' {
        n - 1
    } else {
        n
    };
    let mut out: Vec<char> = Vec::new();
    let mut k: usize = 0;
    while k < keep
        invariant
            k <= keep <= p@.len(),
            out@ == p@.take(k as int),
        decreases keep - k,
    {
        out.push(p[k]);
        assert(out@ =~= p@.take(k as int + 1));
        k = k + 1;
    }
    assert(p@.take(keep as int) =~= strip_cr(p@));
    out
}

pub(crate) fn lines_of(source: &str) -> (out: Vec<Vec<char>>)
    ensures
        out@.map_values(|p: Vec<char>| p@) == text_lines(source@),
{
    let chars = chars_of(source);
    let pieces = split_pieces(&chars, '\n');
    let ghost pv = pieces@.map_values(|p: Vec<char>| p@);
    let n = pieces.len();
    assert(n >= 1) by {
        crate::forms::lemma_split_on_nonempty(chars@, '\n');
    }
    let mut out: Vec<Vec<char>> = Vec::new();
    let mut i: usize = 0;
    while i + 1 < n
        invariant
            n == pieces@.len(),
            n >= 1,
            i + 1 <= n,
            pv == pieces@.map_values(|p: Vec<char>| p@),
            out@.map_values(|p: Vec<char>| p@) == pv.drop_last().take(i as int).map_values(
                |p: Seq<char>| strip_cr(p),
            ),
        decreases n - i,
    {
        let s = strip_cr_exec(&pieces[i]);
        let ghost before = out@;
        out.push(s);
        assert(pv.drop_last().take(i as int + 1) =~= pv.drop_last().take(i as int).push(pv[i as int]));
        assert(out@.map_values(|p: Vec<char>| p@) =~= before.map_values(|p: Vec<char>| p@).push(strip_cr(pv[i as int])));
        i = i + 1;
    }
    assert(pv.drop_last().take(i as int) =~= pv.drop_last());
    if pieces[n - 1].len() > 0 {
        let last = pieces[n - 1].clone();
        let ghost before = out@;
        assert(last@ == pv.last());
        out.push(last);
        assert(out@.map_values(|p: Vec<char>| p@) =~= before.map_values(|p: Vec<char>| p@).push(pv.last()));
    }
    out
}

fn strip_prefix_exec(line: &Vec<char>, p: &Vec<char>) -> (out: Vec<char>)
    ensures
        out@ == strip_prefix_or_same(line@, p@),
{
    let mut matches = line.len() >= p.len();
    let mut k: usize = 0;
    while matches && k < p.len()
        invariant
            k <= p@.len(),
            matches ==> line@.len() >= p@.len(),
            matches ==> forall|q: int| 0 <= q < k ==> line@[q] == p@[q],
            !matches ==> !(line@.len() >= p@.len() && line@.take(p@.len() as int) == p@),
        decreases p@.len() - k + (if matches { 1int } else { 0int }),
    {
        if line[k] != p[k] {
            assert(line@.take(p@.len() as int)[k as int] != p@[k as int]);
            matches = false;
        } else {
            k = k + 1;
        }
    }
    if matches {
        assert(line@.take(p@.len() as int) =~= p@);
        let mut out: Vec<char> = Vec::new();
        let mut j: usize = p.len();
        while j < line.len()
            invariant
                p@.len() <= j <= line@.len(),
                out@ == line@.subrange(p@.len() as int, j as int),
            decreases line.len() - j,
        {
            out.push(line[j]);
            assert(out@ =~= line@.subrange(p@.len() as int, j as int + 1));
            j = j + 1;
        }
        assert(out@ =~= line@.skip(p@.len() as int));
        out
    } else {
        line.clone()
    }
}

/// The lines of `source` after the first, each without the prefix `indent`
/// where it has it, joined with newlines (see `deindented`).
pub fn deindent(source: &str, indent: &str) -> (out: String)
    ensures
        out@ == deindented(source@, indent@),
{
    let ls = lines_of(source);
    let ghost lv = ls@.map_values(|p: Vec<char>| p@);
    let prefix = chars_of(indent);
    let ghost items = Seq::new(lv.len(), |i: int| if i == 0 { lv[0] } else { strip_prefix_or_same(lv[i], indent@) });
    let mut kept: Vec<String> = Vec::new();
    let mut i: usize = 0;
    while i < ls.len()
        invariant
            i <= ls@.len(),
            lv == ls@.map_values(|p: Vec<char>| p@),
            lv == text_lines(source@),
            prefix@ == indent@,
            items == Seq::new(lv.len(), |i: int| if i == 0 { lv[0] } else { strip_prefix_or_same(lv[i], indent@) }),
            kept@.map_values(|s: String| s@) == items.take(i as int),
        decreases ls.len() - i,
    {
        let line = if i == 0 {
            string_from_chars(&ls[0])
        } else {
            string_from_chars(&strip_prefix_exec(&ls[i], &prefix))
        };
        let ghost before = kept@;
        kept.push(line);
        assert(items.take(i as int + 1) =~= items.take(i as int).push(items[i as int]));
        assert(kept@.map_values(|s: String| s@) =~= before.map_values(|s: String| s@).push(line@));
        i = i + 1;
    }
    assert(items.take(i as int) =~= items);
    let out = join_names(&kept, "\n");
    proof {
        reveal_strlit("\n");
        assert("\n"@ =~= seq!['\n']);
    }
    out
}

/// The position of the first `c` in `s`, or the length.
pub open spec fn first_index_of(s: Seq<char>, c: char) -> int
    decreases s.len(),
{
    if s.len() == 0 {
        0
    } else if s[0] == c {
        0
    } else {
        1 + first_index_of(s.drop_first(), c)
    }
}

/// A character a placeholder name may use: an ASCII letter or digit, or
/// `_`.
pub open spec fn is_placeholder_char(c: char) -> bool {
    ('a' <= c && c <= 'z') || ('A' <= c && c <= 'Z') || ('0' <= c && c <= '9') || c == '_'
}

/// The first `{name}` in `s` whose name is non-empty and made of
/// placeholder characters, scanning braces left to right; none when an
/// opening brace has no closing one after it.
pub open spec fn placeholder_in(s: Seq<char>) -> Option<Seq<char>>
    decreases s.len(),
{
    let open = first_index_of(s, '{');
    if open >= s.len() {
        None
    } else {
        let after = s.skip(open + 1);
        let close = first_index_of(after, '}');
        if close >= after.len() {
            None
        } else {
            let candidate = after.take(close);
            proof {
                lemma_first_index_of(s, '{');
                lemma_first_index_of(after, '}');
            }
            if candidate.len() > 0 && forall|i: int| 0 <= i < candidate.len() ==> is_placeholder_char(
                #[trigger] candidate[i],
            ) {
                Some(candidate)
            } else {
                placeholder_in(after.skip(close + 1))
            }
        }
    }
}

/// `first_index_of` is the position of the first `c`, or the length when
/// there is none.
pub proof fn lemma_first_index_of(s: Seq<char>, c: char)
    ensures
        0 <= first_index_of(s, c) <= s.len(),
        first_index_of(s, c) < s.len() ==> s[first_index_of(s, c)] == c,
        forall|i: int| 0 <= i < first_index_of(s, c) ==> s[i] != c,
    decreases s.len(),
{
    if s.len() > 0 && s[0] != c {
        lemma_first_index_of(s.drop_first(), c);
        assert forall|i: int| 0 <= i < first_index_of(s, c) implies s[i] != c by {
            if i > 0 {
                assert(s[i] == s.drop_first()[i - 1]);
            }
        }
    }
}

fn find_char(s: &Vec<char>, from: usize, c: char) -> (r: usize)
    requires
        from <= s@.len(),
    ensures
        r == from + first_index_of(s@.skip(from as int), c),
{
    let mut k: usize = from;
    assert(s@.skip(from as int) =~= s@.skip(from as int));
    while k < s.len() && s[k] != c
        invariant
            from <= k <= s@.len(),
            first_index_of(s@.skip(from as int), c) == (k - from) + first_index_of(s@.skip(k as int), c),
        decreases s.len() - k,
    {
        assert(s@.skip(k as int).drop_first() =~= s@.skip(k as int + 1));
        k = k + 1;
    }
    k
}

fn placeholder_char(c: char) -> (r: bool)
    ensures
        r == is_placeholder_char(c),
{
    ('a' <= c && c <= 'z') || ('A' <= c && c <= 'Z') || ('0' <= c && c <= '9') || c == '_'
}

/// The name of the first template placeholder `{name}` left in `line` (see
/// `placeholder_in`).
pub fn unresolved_placeholder(line: &str) -> (r: Option<String>)
    ensures
        match r {
            Some(name) => placeholder_in(line@) == Some(name@),
            None => placeholder_in(line@) is None,
        },
{
    let chars = chars_of(line);
    let mut pos: usize = 0;
    assert(chars@.skip(0) =~= chars@);
    while pos <= chars.len()
        invariant
            pos <= chars@.len(),
            chars@ == line@,
            placeholder_in(line@) == placeholder_in(chars@.skip(pos as int)),
        decreases chars.len() - pos,
    {
        let ghost rest = chars@.skip(pos as int);
        proof {
            lemma_first_index_of(rest, '{');
        }
        let open = find_char(&chars, pos, '{');
        if open >= chars.len() {
            return None;
        }
        let ghost after = rest.skip(open - pos + 1);
        assert(after =~= chars@.skip(open as int + 1));
        proof {
            lemma_first_index_of(after, '}');
        }
        let close = find_char(&chars, open + 1, '}');
        if close >= chars.len() {
            return None;
        }
        let mut ok = close > open + 1;
        let mut k: usize = open + 1;
        while ok && k < close
            invariant
                open + 1 <= k <= close < chars@.len(),
                ok ==> close > open + 1,
                ok ==> forall|q: int| open + 1 <= q < k ==> is_placeholder_char(chars@[q]),
                !ok ==> !(close > open + 1 && forall|q: int| open + 1 <= q < close ==> is_placeholder_char(chars@[q])),
            decreases close - k + (if ok { 1int } else { 0int }),
        {
            if !placeholder_char(chars[k]) {
                ok = false;
            } else {
                k = k + 1;
            }
        }
        let ghost candidate = after.take(close - open - 1);
        assert(candidate =~= chars@.subrange(open as int + 1, close as int));
        if ok {
            assert forall|i: int| 0 <= i < candidate.len() implies is_placeholder_char(#[trigger] candidate[i]) by {
                assert(candidate[i] == chars@[open + 1 + i]);
            }
            let mut name: Vec<char> = Vec::new();
            let mut j: usize = open + 1;
            while j < close
                invariant
                    open + 1 <= j <= close < chars@.len(),
                    name@ == chars@.subrange(open as int + 1, j as int),
                decreases close - j,
            {
                name.push(chars[j]);
                assert(name@ =~= chars@.subrange(open as int + 1, j as int + 1));
                j = j + 1;
            }
            assert(name@ =~= candidate);
            proof {
                let o = first_index_of(rest, '{');
                assert(o == open - pos);
                let a2 = rest.skip(o + 1);
                assert(a2 =~= after);
                let c2 = first_index_of(a2, '}');
                assert(c2 == close - open - 1);
                assert(a2.take(c2) =~= candidate);
            }
            assert(placeholder_in(rest) == Some(candidate));
            return Some(string_from_chars(&name));
        }
        proof {
            if candidate.len() > 0 {
                let bad = choose|q: int| open + 1 <= q < close && !is_placeholder_char(chars@[q]);
                assert(!is_placeholder_char(candidate[bad - open - 1]));
            }
        }
        assert(after.skip(close - open) =~= chars@.skip(close as int + 1));
        pos = close + 1;
    }
    None
}

/// The characters of `cs` after its last newline (all of them when it has
/// none).
pub open spec fn after_last_newline(cs: Seq<char>) -> Seq<char>
    decreases cs.len(),
{
    if cs.len() == 0 {
        cs
    } else if cs.last() == '\n' {
        Seq::empty()
    } else {
        after_last_newline(cs.drop_last()).push(cs.last())
    }
}

/// The text from the start of the line that byte `byte` of `source` falls
/// on up to that byte: the indentation before a construct that starts
/// there.
pub fn line_indent(source: &str, byte: usize) -> (indent: String)
    requires
        is_char_boundary(encode_utf8(source@), byte as int),
    ensures
        indent@ == after_last_newline(decode_utf8(encode_utf8(source@).subrange(0, byte as int))),
{
    let (head, _) = source.split_at(byte);
    proof {
        vstd::utf8::encode_utf8_decode_utf8(head@);
    }
    let chars = chars_of(head);
    let mut start: usize = chars.len();
    assert(chars@.take(start as int) =~= chars@);
    assert(chars@.skip(start as int) =~= Seq::<char>::empty());
    assert(after_last_newline(chars@) =~= after_last_newline(chars@.take(start as int)) + chars@.skip(start as int));
    while start > 0 && chars[start - 1] != '\n'
        invariant
            start <= chars@.len(),
            after_last_newline(chars@) == after_last_newline(chars@.take(start as int)) + chars@.skip(start as int),
        decreases start,
    {
        let ghost t = chars@.take(start as int);
        assert(t.drop_last() =~= chars@.take(start as int - 1));
        assert(t.last() == chars@[start - 1]);
        assert(chars@.skip(start as int - 1) =~= seq![chars@[start - 1]] + chars@.skip(start as int));
        assert(after_last_newline(chars@.take(start as int - 1)).push(chars@[start - 1]) + chars@.skip(start as int)
            =~= after_last_newline(chars@.take(start as int - 1)) + chars@.skip(start as int - 1));
        start = start - 1;
    }
    proof {
        assert(chars@.take(chars@.len() as int) =~= chars@);
        if start > 0 {
            assert(chars@.take(start as int).last() == '\n');
        }
        assert(after_last_newline(chars@.take(start as int)) =~= Seq::<char>::empty());
        assert(after_last_newline(chars@) =~= chars@.skip(start as int));
    }
    let mut out: Vec<char> = Vec::new();
    let mut k: usize = start;
    while k < chars.len()
        invariant
            start <= k <= chars@.len(),
            out@ == chars@.subrange(start as int, k as int),
        decreases chars.len() - k,
    {
        out.push(chars[k]);
        assert(out@ =~= chars@.subrange(start as int, k as int + 1));
        k = k + 1;
    }
    assert(out@ =~= chars@.skip(start as int));
    string_from_chars(&out)
}

/// The text a location covers in `source`, or nothing when its byte range
/// is not a range of whole characters of `source`.
pub open spec fn location_text(source: Seq<char>, start: int, end: int) -> Seq<char> {
    let b = encode_utf8(source);
    if start <= end && end <= b.len() && is_char_boundary(b, start) && is_char_boundary(b, end) {
        decode_utf8(b.subrange(start, end))
    } else {
        Seq::empty()
    }
}

pub(crate) proof fn lemma_boundary_in_prefix(b: Seq<u8>, start: int, end: int)
    requires
        vstd::utf8::valid_utf8(b),
        is_char_boundary(b, start),
        is_char_boundary(b, end),
        0 <= start <= end <= b.len(),
    ensures
        is_char_boundary(b.subrange(0, end), start),
{
    let p = b.subrange(0, end);
    vstd::utf8::valid_utf8_split(b, end);
    if start == end {
        vstd::utf8::is_char_boundary_start_end_of_seq(p);
        assert(p.len() == end);
    } else {
        vstd::utf8::is_char_boundary_iff_not_is_continuation_byte(b, start);
        vstd::utf8::is_char_boundary_iff_not_is_continuation_byte(p, start);
        assert(p[start] == b[start]);
    }
}

/// The source text of a location (see `location_text`).
pub fn source_slice(source: &str, location: &SourceLocation) -> (text: String)
    ensures
        text@ == location_text(source@, location.start_byte as int, location.end_byte as int),
{
    let len = source.as_bytes().len();
    if location.start_byte > location.end_byte || location.end_byte > len as u64 {
        return String::new();
    }
    let start = location.start_byte as usize;
    let end = location.end_byte as usize;
    if !source.is_char_boundary(start) || !source.is_char_boundary(end) {
        return String::new();
    }
    let (head, _) = source.split_at(end);
    proof {
        vstd::utf8::encode_utf8_valid_utf8(source@);
        vstd::utf8::valid_utf8_split(encode_utf8(source@), end as int);
        assert(encode_utf8(head@) =~= encode_utf8(source@).subrange(0, end as int));
        lemma_boundary_in_prefix(encode_utf8(source@), start as int, end as int);
    }
    let (_, middle) = head.split_at(start);
    proof {
        vstd::utf8::encode_utf8_decode_utf8(middle@);
        assert(encode_utf8(middle@) =~= encode_utf8(source@).subrange(start as int, end as int));
    }
    middle.to_owned()
}

} // verus!
