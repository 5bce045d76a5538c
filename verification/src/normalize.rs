//! Text normalization applied before content hashing: CRLF and lone CR
//! line endings become LF, and spaces and tabs at the end of every line
//! are removed. Nothing else changes: leading whitespace and whether the
//! text ends with a newline are kept.

use vstd::prelude::*;

use crate::scan_documents::join_with;

verus! {

/// `s` with every CRLF pair, and then every remaining CR, replaced by LF.
pub open spec fn lf_endings(s: Seq<char>) -> Seq<char>
    decreases s.len(),
{
    if s.len() == 0 {
        Seq::empty()
    } else if s[0] == '\r' {
        if s.len() >= 2 && s[1] == '\n' {
            seq!['\n'] + lf_endings(s.skip(2))
        } else {
            seq!['\n'] + lf_endings(s.skip(1))
        }
    } else {
        seq![s[0]] + lf_endings(s.skip(1))
    }
}

/// A space or a tab: the whitespace that normalization trims at line ends.
pub open spec fn is_blank(c: char) -> bool {
    c == ' ' || c == '\t'
}

/// `s` without its trailing spaces and tabs.
pub open spec fn trim_end_blanks(s: Seq<char>) -> Seq<char>
    decreases s.len(),
{
    if s.len() > 0 && is_blank(s.last()) {
        trim_end_blanks(s.drop_last())
    } else {
        s
    }
}

/// The number of characters before the first LF of `s` (all of `s` when
/// it holds none).
pub open spec fn line_len(s: Seq<char>) -> nat
    decreases s.len(),
{
    if s.len() == 0 {
        0
    } else if s[0] == '\n' {
        0
    } else {
        1 + line_len(s.skip(1))
    }
}

pub proof fn lemma_line_len(s: Seq<char>)
    ensures
        line_len(s) <= s.len(),
        forall|k: int| 0 <= k < line_len(s) ==> s[k] != '\n',
        line_len(s) < s.len() ==> s[line_len(s) as int] == '\n',
    decreases s.len(),
{
    if s.len() > 0 && s[0] != '\n' {
        lemma_line_len(s.skip(1));
        assert forall|k: int| 0 <= k < line_len(s) implies s[k] != '\n' by {
            if k > 0 {
                assert(s[k] == s.skip(1)[k - 1]);
            }
        }
    }
}

/// The line length is the position of the first LF.
pub proof fn lemma_line_len_at(s: Seq<char>, m: int)
    requires
        0 <= m <= s.len(),
        forall|k: int| 0 <= k < m ==> s[k] != '\n',
        m == s.len() || s[m] == '\n',
    ensures
        line_len(s) == m,
    decreases s.len(),
{
    if s.len() > 0 && s[0] != '\n' {
        lemma_line_len_at(s.skip(1), m - 1);
    }
}

/// Every line of `s` (split at LF) with its trailing spaces and tabs
/// removed; the LFs themselves are kept.
pub open spec fn strip_line_ends(s: Seq<char>) -> Seq<char>
    decreases s.len(),
{
    let k = line_len(s);
    if k >= s.len() {
        trim_end_blanks(s)
    } else {
        proof {
            lemma_line_len(s);
        }
        trim_end_blanks(s.take(k as int)) + seq!['\n'] + strip_line_ends(s.skip(k as int + 1))
    }
}

/// The normalized form of a text, as hashed: LF line endings and no
/// trailing spaces or tabs on any line.
pub open spec fn normalized_text(s: Seq<char>) -> Seq<char> {
    strip_line_ends(lf_endings(s))
}

fn lf_endings_exec(s: &Vec<char>) -> (out: Vec<char>)
    ensures
        out@ == lf_endings(s@),
{
    let mut out: Vec<char> = Vec::new();
    let mut i: usize = 0;
    assert(s@.skip(0) =~= s@);
    while i < s.len()
        invariant
            i <= s.len(),
            lf_endings(s@) == out@ + lf_endings(s@.skip(i as int)),
        decreases s.len() - i,
    {
        let ghost rest = s@.skip(i as int);
        let c = s[i];
        if c == '\r' {
            out.push('\n');
            if i + 1 < s.len() && s[i + 1] == '\n' {
                assert(rest.skip(2) =~= s@.skip(i as int + 2));
                i = i + 2;
            } else {
                assert(rest.skip(1) =~= s@.skip(i as int + 1));
                i = i + 1;
            }
        } else {
            out.push(c);
            assert(rest.skip(1) =~= s@.skip(i as int + 1));
            i = i + 1;
        }
    }
    assert(s@.skip(i as int) =~= Seq::<char>::empty());
    assert(out@ + Seq::<char>::empty() =~= out@);
    out
}

proof fn lemma_trim_end_not_blank(s: Seq<char>)
    requires
        s.len() == 0 || !is_blank(s.last()),
    ensures
        trim_end_blanks(s) == s,
{
}

fn strip_line_ends_exec(t: &Vec<char>) -> (out: String)
    ensures
        out@ == strip_line_ends(t@),
{
    let mut out = String::new();
    let mut i: usize = 0;
    assert(t@.skip(0) =~= t@);
    while i < t.len()
        invariant
            i <= t.len(),
            strip_line_ends(t@) == out@ + strip_line_ends(t@.skip(i as int)),
        decreases t.len() - i,
    {
        let ghost rest = t@.skip(i as int);
        let mut j: usize = i;
        while j < t.len() && t[j] != '\n'
            invariant
                i <= j <= t.len(),
                forall|k: int| i <= k < j ==> t@[k] != '\n',
            decreases t.len() - j,
        {
            j = j + 1;
        }
        proof {
            assert forall|k: int| 0 <= k < j - i implies rest[k] != '\n' by {
                assert(rest[k] == t@[i + k]);
            }
            lemma_line_len_at(rest, j - i);
        }
        let mut e: usize = j;
        while e > i && (t[e - 1] == ' ' || t[e - 1] == '\t')
            invariant
                i <= e <= j,
                j <= t.len(),
                trim_end_blanks(t@.subrange(i as int, j as int)) == trim_end_blanks(
                    t@.subrange(i as int, e as int),
                ),
            decreases e,
        {
            assert(t@.subrange(i as int, e as int).drop_last() =~= t@.subrange(
                i as int,
                e as int - 1,
            ));
            e = e - 1;
        }
        proof {
            lemma_trim_end_not_blank(t@.subrange(i as int, e as int));
        }
        let mut k: usize = i;
        let ghost start = out@;
        while k < e
            invariant
                i <= k <= e,
                e <= t.len(),
                out@ == start + t@.subrange(i as int, k as int),
            decreases e - k,
        {
            crate::text::push_char(&mut out, t[k]);
            assert(t@.subrange(i as int, k as int + 1) =~= t@.subrange(i as int, k as int).push(
                t@[k as int],
            ));
            k = k + 1;
        }
        if j < t.len() {
            crate::text::push_char(&mut out, '\n');
            assert(rest.take(j - i) =~= t@.subrange(i as int, j as int));
            assert(rest.skip(j - i + 1) =~= t@.skip(j as int + 1));
            i = j + 1;
        } else {
            assert(rest =~= t@.subrange(i as int, j as int));
            assert(t@.skip(j as int) =~= Seq::<char>::empty());
            i = j;
        }
    }
    assert(t@.skip(i as int) =~= Seq::<char>::empty());
    assert(strip_line_ends(Seq::<char>::empty()) =~= Seq::<char>::empty());
    assert(out@ + Seq::<char>::empty() =~= out@);
    out
}

/// Normalizes text before content hashing: CRLF and CR line endings become
/// LF, and trailing spaces and tabs are removed from each line. Leading
/// whitespace and the presence of the final newline are preserved.
pub fn normalize_hashed_text(text: &str) -> (out: String)
    ensures
        out@ == normalized_text(text@),
{
    let chars = crate::text::chars_of(text);
    let unified = lf_endings_exec(&chars);
    strip_line_ends_exec(&unified)
}


/// Text in normalized form: it holds no CR, and no space or tab stands
/// right before an LF or at the very end.
pub open spec fn is_normalized(s: Seq<char>) -> bool {
    &&& forall|i: int| 0 <= i < s.len() ==> s[i] != '\r'
    &&& forall|i: int|
        0 <= i < s.len() && is_blank(#[trigger] s[i]) ==> i + 1 < s.len() && s[i + 1] != '\n'
}

proof fn lemma_lf_endings_no_cr(s: Seq<char>)
    ensures
        forall|i: int| 0 <= i < lf_endings(s).len() ==> lf_endings(s)[i] != '\r',
    decreases s.len(),
{
    if s.len() > 0 {
        if s[0] == '\r' && s.len() >= 2 && s[1] == '\n' {
            lemma_lf_endings_no_cr(s.skip(2));
        } else {
            lemma_lf_endings_no_cr(s.skip(1));
        }
        let r = lf_endings(s);
        assert forall|i: int| 0 <= i < r.len() implies r[i] != '\r' by {
            if i > 0 {
                if s[0] == '\r' && s.len() >= 2 && s[1] == '\n' {
                    assert(r[i] == lf_endings(s.skip(2))[i - 1]);
                } else {
                    assert(r[i] == lf_endings(s.skip(1))[i - 1]);
                }
            }
        }
    }
}

proof fn lemma_lf_endings_identity(s: Seq<char>)
    requires
        forall|i: int| 0 <= i < s.len() ==> s[i] != '\r',
    ensures
        lf_endings(s) == s,
    decreases s.len(),
{
    if s.len() > 0 {
        assert(s[0] != '\r');
        lemma_lf_endings_identity(s.skip(1));
        assert(s =~= seq![s[0]] + s.skip(1));
    }
}

proof fn lemma_trim_end_blanks(s: Seq<char>)
    ensures
        trim_end_blanks(s).len() <= s.len(),
        trim_end_blanks(s) == s.take(trim_end_blanks(s).len() as int),
        trim_end_blanks(s).len() == 0 || !is_blank(trim_end_blanks(s).last()),
    decreases s.len(),
{
    if s.len() > 0 && is_blank(s.last()) {
        lemma_trim_end_blanks(s.drop_last());
        assert(s.drop_last().take(trim_end_blanks(s).len() as int) =~= s.take(
            trim_end_blanks(s).len() as int,
        ));
    } else {
        assert(s.take(s.len() as int) =~= s);
    }
}

proof fn lemma_strip_line_ends_normalized(t: Seq<char>)
    requires
        forall|i: int| 0 <= i < t.len() ==> t[i] != '\r',
    ensures
        is_normalized(strip_line_ends(t)),
    decreases t.len(),
{
    lemma_line_len(t);
    let k = line_len(t) as int;
    let w = strip_line_ends(t);
    if k >= t.len() {
        lemma_trim_end_blanks(t);
        let u = trim_end_blanks(t);
        assert forall|i: int| 0 <= i < w.len() implies w[i] != '\r' by {
            assert(w[i] == t[i]);
        }
        assert forall|i: int| 0 <= i < w.len() && is_blank(#[trigger] w[i]) implies i + 1 < w.len()
            && w[i + 1] != '\n' by {
            if i + 1 < w.len() {
                assert(w[i + 1] == t[i + 1]);
            }
        }
    } else {
        let line = t.take(k);
        lemma_trim_end_blanks(line);
        let u = trim_end_blanks(line);
        let rest = t.skip(k + 1);
        assert forall|i: int| 0 <= i < rest.len() implies rest[i] != '\r' by {
            assert(rest[i] == t[k + 1 + i]);
        }
        lemma_strip_line_ends_normalized(rest);
        let r = strip_line_ends(rest);
        assert(w =~= u + seq!['\n'] + r);
        assert forall|i: int| 0 <= i < w.len() implies w[i] != '\r' by {
            if i < u.len() {
                assert(w[i] == line[i]);
            } else if i > u.len() {
                assert(w[i] == r[i - u.len() - 1]);
            }
        }
        assert forall|i: int| 0 <= i < w.len() && is_blank(#[trigger] w[i]) implies i + 1 < w.len()
            && w[i + 1] != '\n' by {
            if i < u.len() {
                if i + 1 < u.len() {
                    assert(w[i + 1] == line[i + 1]);
                    assert(line[i + 1] == t[i + 1]);
                } else {
                    assert(w[i] == u.last());
                }
            } else if i > u.len() {
                let j = i - u.len() - 1;
                assert(w[i] == r[j]);
                assert(is_blank(r[j]));
                assert(w[i + 1] == r[j + 1]);
            }
        }
    }
}

proof fn lemma_strip_line_ends_fixes(t: Seq<char>)
    requires
        is_normalized(t),
    ensures
        strip_line_ends(t) == t,
    decreases t.len(),
{
    lemma_line_len(t);
    let k = line_len(t) as int;
    if k >= t.len() {
        if t.len() > 0 {
            assert(!is_blank(t[t.len() - 1]));
        }
    } else {
        let line = t.take(k);
        if k > 0 {
            assert(!is_blank(t[k - 1]));
            assert(line.last() == t[k - 1]);
        }
        let rest = t.skip(k + 1);
        assert forall|i: int| 0 <= i < rest.len() && is_blank(#[trigger] rest[i]) implies i + 1
            < rest.len() && rest[i + 1] != '\n' by {
            assert(rest[i] == t[k + 1 + i]);
            assert(is_blank(t[k + 1 + i]));
        }
        assert forall|i: int| 0 <= i < rest.len() implies rest[i] != '\r' by {
            assert(rest[i] == t[k + 1 + i]);
        }
        lemma_strip_line_ends_fixes(rest);
        assert(t =~= line + seq!['\n'] + rest);
    }
}

/// Normalization always yields normalized text: no CR remains, and no line
/// ends in a space or a tab.
pub proof fn lemma_normalized_text_is_normalized(s: Seq<char>)
    ensures
        is_normalized(normalized_text(s)),
{
    lemma_lf_endings_no_cr(s);
    lemma_strip_line_ends_normalized(lf_endings(s));
}

/// Normalization leaves text that is already normalized unchanged: it
/// touches only line endings and trailing spaces and tabs, never leading
/// whitespace or whether the text ends with a newline.
pub proof fn lemma_normalized_text_fixes_normalized(s: Seq<char>)
    requires
        is_normalized(s),
    ensures
        normalized_text(s) == s,
{
    lemma_lf_endings_identity(s);
    lemma_strip_line_ends_fixes(s);
}

/// Normalizing twice is the same as normalizing once.
pub proof fn lemma_normalized_text_idempotent(s: Seq<char>)
    ensures
        normalized_text(normalized_text(s)) == normalized_text(s),
{
    lemma_normalized_text_is_normalized(s);
    lemma_normalized_text_fixes_normalized(normalized_text(s));
}

/// The lines of `s`: the pieces between its LFs, in order (one piece more
/// than there are LFs, so a text ending in LF ends with an empty line).
pub open spec fn split_lines(s: Seq<char>) -> Seq<Seq<char>>
    decreases s.len(),
{
    let k = line_len(s);
    if k >= s.len() {
        seq![s]
    } else {
        proof {
            lemma_line_len(s);
        }
        seq![s.take(k as int)] + split_lines(s.skip(k as int + 1))
    }
}

proof fn lemma_join_first(a: Seq<char>, rest: Seq<Seq<char>>, sep: Seq<char>)
    requires
        rest.len() > 0,
    ensures
        join_with(seq![a] + rest, sep) == a + sep + join_with(rest, sep),
    decreases rest.len(),
{
    let t = seq![a] + rest;
    if rest.len() == 1 {
        assert(t.drop_last() =~= seq![a]);
        assert(t.last() == rest[0]);
        assert(join_with(seq![a], sep) == a);
        assert(join_with(rest, sep) == rest[0]);
        assert(join_with(t, sep) == join_with(t.drop_last(), sep) + sep + t.last());
    } else {
        assert(t.drop_last() =~= seq![a] + rest.drop_last());
        lemma_join_first(a, rest.drop_last(), sep);
        assert(join_with(t, sep) =~= a + sep + join_with(rest, sep));
    }
}

/// Stripping the line ends is the same as splitting the text at its LFs,
/// removing the trailing spaces and tabs of each line, and joining the
/// lines with LFs again.
pub proof fn lemma_strip_line_ends_is_split_trim_join(s: Seq<char>)
    ensures
        strip_line_ends(s) == join_with(split_lines(s).map_values(|l: Seq<char>| trim_end_blanks(l)), seq!['\n']),
    decreases s.len(),
{
    let k = line_len(s);
    lemma_line_len(s);
    if k >= s.len() {
        assert(split_lines(s).map_values(|l: Seq<char>| trim_end_blanks(l)) =~= seq![trim_end_blanks(s)]);
    } else {
        let rest = s.skip(k as int + 1);
        lemma_strip_line_ends_is_split_trim_join(rest);
        let tail = split_lines(rest).map_values(|l: Seq<char>| trim_end_blanks(l));
        assert(split_lines(rest).len() > 0) by {
            reveal_with_fuel(split_lines, 1);
        }
        assert(split_lines(s).map_values(|l: Seq<char>| trim_end_blanks(l)) =~= seq![trim_end_blanks(s.take(k as int))]
            + tail);
        lemma_join_first(trim_end_blanks(s.take(k as int)), tail, seq!['\n']);
    }
}

/// The normalized form of a text, as its hashing is documented: with
/// CRLF, then lone CR, replaced by LF, the text split at its LFs, the
/// trailing spaces and tabs of each line removed, and the lines joined
/// with LFs again.
pub proof fn lemma_normalized_text_is_split_trim_join(s: Seq<char>)
    ensures
        normalized_text(s) == join_with(
            split_lines(lf_endings(s)).map_values(|l: Seq<char>| trim_end_blanks(l)),
            seq!['\n'],
        ),
{
    lemma_strip_line_ends_is_split_trim_join(lf_endings(s));
}

} // verus!
