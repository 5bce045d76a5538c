//! Re-indenting a rendered test and taking the indentation off again.

use vstd::prelude::*;

use crate::editing::{deindented, indent_after_newlines, strip_cr, strip_prefix_or_same, text_lines};
use crate::forms::{lemma_split_on_nonempty, split_on};
use crate::scan_documents::join_with;

verus! {

/// `c` does not occur in `s`.
pub open spec fn lacks(s: Seq<char>, c: char) -> bool {
    forall|i: int| 0 <= i < s.len() ==> #[trigger] s[i] != c
}

/// The pieces with `indent` put before all but the first.
pub open spec fn indented_pieces(pieces: Seq<Seq<char>>, indent: Seq<char>) -> Seq<Seq<char>> {
    Seq::new(pieces.len(), |i: int| if i == 0 { pieces[0] } else { indent + pieces[i] })
}

proof fn lemma_split_append_plain(x: Seq<char>, t: Seq<char>, sep: char)
    requires
        lacks(t, sep),
    ensures
        split_on(x + t, sep) == split_on(x, sep).update(
            split_on(x, sep).len() - 1,
            split_on(x, sep).last() + t,
        ),
    decreases t.len(),
{
    lemma_split_on_nonempty(x, sep);
    if t.len() == 0 {
        assert(x + t =~= x);
        let p = split_on(x, sep);
        assert(p.update(p.len() - 1, p.last() + t) =~= p);
    } else {
        let t1 = t.drop_last();
        assert(lacks(t1, sep)) by {
            assert forall|i: int| 0 <= i < t1.len() implies #[trigger] t1[i] != sep by {
                assert(t1[i] == t[i]);
            }
        }
        lemma_split_append_plain(x, t1, sep);
        assert((x + t).drop_last() =~= x + t1);
        assert((x + t).last() == t.last());
        assert(t.last() != sep);
        let p = split_on(x, sep);
        let q = split_on(x + t1, sep);
        assert(q.len() == p.len());
        assert(q.last() == p.last() + t1);
        assert(split_on(x + t, sep) == q.update(q.len() - 1, q.last().push(t.last())));
        assert(q.last().push(t.last()) =~= p.last() + t);
        assert(split_on(x + t, sep) =~= p.update(p.len() - 1, p.last() + t));
    }
}

/// The pieces between the newlines of an indented text are the pieces of
/// the text, each but the first behind the indentation.
proof fn lemma_indented_split(s: Seq<char>, indent: Seq<char>)
    requires
        lacks(indent, '\n'),
    ensures
        split_on(indent_after_newlines(s, indent), '\n') == indented_pieces(split_on(s, '\n'), indent),
    decreases s.len(),
{
    lemma_split_on_nonempty(s, '\n');
    if s.len() == 0 {
        assert(indented_pieces(split_on(s, '\n'), indent) =~= seq![Seq::<char>::empty()]);
    } else {
        let s1 = s.drop_last();
        lemma_indented_split(s1, indent);
        lemma_split_on_nonempty(s1, '\n');
        let e = indent_after_newlines(s1, indent);
        let p1 = split_on(s1, '\n');
        if s.last() == '\n' {
            assert(indent_after_newlines(s, indent) == e.push('\n') + indent);
            lemma_split_append_plain(e.push('\n'), indent, '\n');
            assert(e.push('\n').drop_last() =~= e);
            let q = split_on(e.push('\n'), '\n');
            assert(q == split_on(e, '\n').push(Seq::empty()));
            assert(split_on(s, '\n') == p1.push(Seq::empty()));
            assert(split_on(indent_after_newlines(s, indent), '\n') =~= indented_pieces(split_on(s, '\n'), indent));
        } else {
            assert(indent_after_newlines(s, indent) == e.push(s.last()));
            assert(e.push(s.last()).drop_last() =~= e);
            let q = split_on(e, '\n');
            assert(split_on(e.push(s.last()), '\n') == q.update(q.len() - 1, q.last().push(s.last())));
            assert(split_on(s, '\n') == p1.update(p1.len() - 1, p1.last().push(s.last())));
            let r = indented_pieces(split_on(s, '\n'), indent);
            assert forall|i: int| 0 <= i < r.len() implies #[trigger] split_on(indent_after_newlines(s, indent), '\n')[i] == r[i] by {
                if i == p1.len() - 1 && i > 0 {
                    assert(indent + p1.last().push(s.last()) =~= (indent + p1.last()).push(s.last()));
                }
            }
            assert(split_on(indent_after_newlines(s, indent), '\n') =~= r);
        }
    }
}

/// Joining the pieces between the separators gives the text back.
proof fn lemma_join_split(s: Seq<char>, sep: char)
    ensures
        join_with(split_on(s, sep), seq![sep]) == s,
    decreases s.len(),
{
    lemma_split_on_nonempty(s, sep);
    if s.len() == 0 {
    } else {
        let s1 = s.drop_last();
        lemma_join_split(s1, sep);
        lemma_split_on_nonempty(s1, sep);
        let p = split_on(s1, sep);
        if s.last() == sep {
            let q = p.push(Seq::empty());
            assert(q.drop_last() =~= p);
            assert(join_with(q, seq![sep]) =~= s1 + seq![sep]);
            assert(s =~= s1.push(sep));
        } else {
            let q = p.update(p.len() - 1, p.last().push(s.last()));
            lemma_join_last_grows(p, seq![sep], s.last());
            assert(s =~= s1.push(s.last()));
        }
    }
}

proof fn lemma_join_last_grows(p: Seq<Seq<char>>, sep: Seq<char>, c: char)
    requires
        p.len() > 0,
    ensures
        join_with(p.update(p.len() - 1, p.last().push(c)), sep) == join_with(p, sep).push(c),
{
    let q = p.update(p.len() - 1, p.last().push(c));
    if p.len() == 1 {
        assert(q[0] == p[0].push(c));
    } else {
        assert(q.drop_last() =~= p.drop_last());
        assert(join_with(q, sep) == join_with(p.drop_last(), sep) + sep + p.last().push(c));
        assert(join_with(p.drop_last(), sep) + sep + p.last().push(c) =~= (join_with(p.drop_last(), sep) + sep
            + p.last()).push(c));
    }
}

proof fn lemma_pieces_lack(s: Seq<char>, sep: char, c: char)
    requires
        lacks(s, c),
    ensures
        forall|i: int| 0 <= i < split_on(s, sep).len() ==> lacks(#[trigger] split_on(s, sep)[i], c),
    decreases s.len(),
{
    if s.len() > 0 {
        let s1 = s.drop_last();
        assert(lacks(s1, c)) by {
            assert forall|i: int| 0 <= i < s1.len() implies #[trigger] s1[i] != c by {
                assert(s1[i] == s[i]);
            }
        }
        lemma_pieces_lack(s1, sep, c);
        lemma_split_on_nonempty(s1, sep);
        let p = split_on(s1, sep);
        if s.last() != sep {
            let q = split_on(s, sep);
            assert forall|i: int| 0 <= i < q.len() implies lacks(#[trigger] q[i], c) by {
                if i == p.len() - 1 {
                    assert(q[i] == p.last().push(s.last()));
                    assert(s.last() == s[s.len() - 1]);
                    assert forall|j: int| 0 <= j < q[i].len() implies #[trigger] q[i][j] != c by {
                        if j < p.last().len() {
                            assert(q[i][j] == p.last()[j]);
                        }
                    }
                } else {
                    assert(q[i] == p[i]);
                }
            }
        } else {
            let q = split_on(s, sep);
            assert forall|i: int| 0 <= i < q.len() implies lacks(#[trigger] q[i], c) by {
                if i < p.len() {
                    assert(q[i] == p[i]);
                }
            }
        }
    }
}

/// Indenting a text and taking the indentation off again gives the text
/// back, when the text has no carriage return, the indentation no line
/// break, and (for an empty indentation) the text does not end with a
/// newline, which the line reading would drop.
pub proof fn lemma_deindent_undoes_indent(s: Seq<char>, indent: Seq<char>)
    requires
        lacks(s, '\r'),
        lacks(indent, '\n'),
        lacks(indent, '\r'),
        indent.len() > 0 || !(s.len() > 0 && s.last() == '\n'),
    ensures
        deindented(indent_after_newlines(s, indent), indent) == s,
{
    let x = indent_after_newlines(s, indent);
    let p = split_on(s, '\n');
    lemma_split_on_nonempty(s, '\n');
    lemma_indented_split(s, indent);
    lemma_pieces_lack(s, '\n', '\r');
    lemma_join_split(s, '\n');
    let q = indented_pieces(p, indent);
    assert(split_on(x, '\n') == q);
    assert forall|i: int| 0 <= i < q.len() implies strip_cr(#[trigger] q[i]) == q[i] by {
        assert(lacks(p[i], '\r'));
        if i > 0 && q[i].len() > 0 {
            let l = q[i].len() - 1;
            if l < indent.len() {
                assert(q[i][l] == indent[l]);
            } else {
                assert(q[i][l] == p[i][l - indent.len()]);
            }
        }
    }
    let ls = text_lines(x);
    let items = Seq::new(ls.len(), |i: int| if i == 0 { ls[0] } else { strip_prefix_or_same(ls[i], indent) });
    if q.last().len() == 0 {
        if p.len() > 1 {
            assert(indent.len() == 0);
            assert(p.last() =~= q.last());
            assert(s.len() > 0 && s.last() == '\n');
        } else {
            assert(p[0].len() == 0);
            assert(join_with(p, seq!['\n']) == p[0]);
            assert(ls =~= Seq::<Seq<char>>::empty());
            assert(items =~= Seq::<Seq<char>>::empty());
        }
    } else {
        assert(ls =~= q);
        assert forall|i: int| 0 <= i < items.len() implies #[trigger] items[i] == p[i] by {
            if i > 0 {
                assert(ls[i] == indent + p[i]);
                assert((indent + p[i]).take(indent.len() as int) =~= indent);
                assert((indent + p[i]).skip(indent.len() as int) =~= p[i]);
            }
        }
        assert(items =~= p);
    }
}

} // verus!
