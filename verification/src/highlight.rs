use vstd::prelude::*;

use crate::matching::find_next;
use crate::matching::lemma_next_match;
use crate::matching::next_match;
use crate::matching::norm;

verus! {

/// The characters used to delimit a matched span in display output.
pub open spec fn is_mark(c: char) -> bool {
    c == '[' || c == ']'
}

/// A matched span as it is displayed: the span between the two
/// highlight markers.
pub open spec fn marked(span: Seq<char>) -> Seq<char> {
    seq!['['] + span + seq![']']
}

#[via_fn]
proof fn hl_from_decreases(line: Seq<char>, nq: Seq<char>, ignore_case: bool, from: int) {
    lemma_next_match(norm(line, ignore_case), nq, from);
}

/// The tail of `line` from position `from` on, with every remaining
/// match of the (already case-normalised) query `nq` marked: matches
/// are taken leftmost first and never overlap, the marked span is cut
/// from the original line, and scanning resumes right after it.
pub open spec fn hl_from(line: Seq<char>, nq: Seq<char>, ignore_case: bool, from: int) -> Seq<char>
    decreases line.len() - from
        when 0 <= from <= line.len() && nq.len() > 0
        via hl_from_decreases
{
    let m = next_match(norm(line, ignore_case), nq, from);
    if m < 0 {
        line.subrange(from, line.len() as int)
    } else {
        line.subrange(from, m) + marked(line.subrange(m, m + nq.len() as int)) + hl_from(
            line,
            nq,
            ignore_case,
            m + nq.len() as int,
        )
    }
}

/// The highlighted form of a line: every non-overlapping occurrence
/// of the query, found leftmost first under the chosen case mode, is
/// wrapped in highlight markers; an empty query leaves the line
/// unchanged.
pub open spec fn spec_highlight(line: Seq<char>, query: Seq<char>, ignore_case: bool) -> Seq<
    char,
> {
    if query.len() == 0 {
        line
    } else {
        hl_from(line, norm(query, ignore_case), ignore_case, 0)
    }
}

/// Mark every occurrence of `query` in `line`, matching under the
/// chosen case mode while keeping the line's original casing.
pub fn highlight(line: &str, query: &str, ignore_case: bool) -> (r: String)
    ensures
        r@ == spec_highlight(line@, query@, ignore_case),
{
    let n = line.unicode_len();
    let qn = query.unicode_len();
    if qn == 0 {
        return line.to_owned();
    }
    let ghost nq = norm(query@, ignore_case);
    let mut out = String::new();
    let mut pos: usize = 0;
    proof {
        assert(out@ + hl_from(line@, nq, ignore_case, 0) =~= hl_from(line@, nq, ignore_case, 0));
    }
    loop
        invariant
            n == line@.len(),
            qn == query@.len(),
            qn > 0,
            pos <= n,
            nq == norm(query@, ignore_case),
            spec_highlight(line@, query@, ignore_case) == out@ + hl_from(
                line@,
                nq,
                ignore_case,
                pos as int,
            ),
        decreases n - pos,
    {
        match find_next(line, query, pos, ignore_case) {
            None => {
                let tail = line.substring_char(pos, n);
                out.append(tail);
                proof {
                    assert(hl_from(line@, nq, ignore_case, pos as int) == line@.subrange(
                        pos as int,
                        n as int,
                    ));
                }
                return out;
            },
            Some(m) => {
                let before = line.substring_char(pos, m);
                let span = line.substring_char(m, m + qn);
                let ghost entry = out@;
                out.append(before);
                out.append("[");
                out.append(span);
                out.append("]");
                proof {
                    reveal_strlit("[");
                    reveal_strlit("]");
                    assert("["@ =~= seq!['[']);
                    assert("]"@ =~= seq![']']);
                    assert(hl_from(line@, nq, ignore_case, pos as int) == line@.subrange(
                        pos as int,
                        m as int,
                    ) + marked(line@.subrange(m as int, m + qn as int)) + hl_from(
                        line@,
                        nq,
                        ignore_case,
                        m + qn as int,
                    ));
                    assert(out@ + hl_from(line@, nq, ignore_case, m + qn as int) =~= entry
                        + hl_from(line@, nq, ignore_case, pos as int));
                }
                pos = m + qn;
            },
        }
    }
}

/// Everything but the highlight markers.
pub open spec fn strip_marks(s: Seq<char>) -> Seq<char>
    decreases s.len(),
{
    if s.len() == 0 {
        seq![]
    } else if is_mark(s[0]) {
        strip_marks(s.drop_first())
    } else {
        seq![s[0]] + strip_marks(s.drop_first())
    }
}

/// No character of `s` is a highlight marker.
pub open spec fn no_marks(s: Seq<char>) -> bool {
    forall|i: int| 0 <= i < s.len() ==> !is_mark(s[i])
}

proof fn lemma_strip_marks_add(a: Seq<char>, b: Seq<char>)
    ensures
        strip_marks(a + b) == strip_marks(a) + strip_marks(b),
    decreases a.len(),
{
    if a.len() == 0 {
        assert(a + b =~= b);
        assert(strip_marks(a) + strip_marks(b) =~= strip_marks(b));
    } else {
        assert((a + b)[0] == a[0]);
        assert((a + b).drop_first() =~= a.drop_first() + b);
        lemma_strip_marks_add(a.drop_first(), b);
        if is_mark(a[0]) {
        } else {
            assert(seq![a[0]] + (strip_marks(a.drop_first()) + strip_marks(b)) =~= (seq![a[0]]
                + strip_marks(a.drop_first())) + strip_marks(b));
        }
    }
}

proof fn lemma_strip_marks_id(s: Seq<char>)
    requires
        no_marks(s),
    ensures
        strip_marks(s) == s,
    decreases s.len(),
{
    if s.len() == 0 {
        assert(strip_marks(s) =~= s);
    } else {
        lemma_strip_marks_id(s.drop_first());
        assert(seq![s[0]] + s.drop_first() =~= s);
    }
}

proof fn lemma_strip_marks_mark(span: Seq<char>)
    requires
        no_marks(span),
    ensures
        strip_marks(marked(span)) == span,
{
    lemma_strip_marks_add(seq!['['] + span, seq![']']);
    lemma_strip_marks_add(seq!['['], span);
    lemma_strip_marks_id(span);
    assert(strip_marks(Seq::<char>::empty()) =~= Seq::<char>::empty());
    assert(seq!['['].drop_first() =~= Seq::<char>::empty());
    assert(seq![']'].drop_first() =~= Seq::<char>::empty());
    assert(strip_marks(seq!['[']) =~= Seq::<char>::empty());
    assert(strip_marks(seq![']']) =~= Seq::<char>::empty());
    assert((seq!['['] + span) + seq![']'] =~= marked(span));
    assert(Seq::<char>::empty() + span + Seq::<char>::empty() =~= span);
}

proof fn lemma_hl_from_strip(line: Seq<char>, nq: Seq<char>, ignore_case: bool, from: int)
    requires
        0 <= from <= line.len(),
        nq.len() > 0,
        no_marks(line),
    ensures
        strip_marks(hl_from(line, nq, ignore_case, from)) == line.subrange(
            from,
            line.len() as int,
        ),
    decreases line.len() - from,
{
    let m = next_match(norm(line, ignore_case), nq, from);
    lemma_next_match(norm(line, ignore_case), nq, from);
    if m < 0 {
        assert(no_marks(line.subrange(from, line.len() as int)));
        lemma_strip_marks_id(line.subrange(from, line.len() as int));
    } else {
        let before = line.subrange(from, m);
        let span = line.subrange(m, m + nq.len() as int);
        let rest = hl_from(line, nq, ignore_case, m + nq.len() as int);
        lemma_hl_from_strip(line, nq, ignore_case, m + nq.len() as int);
        lemma_strip_marks_add(before + marked(span), rest);
        lemma_strip_marks_add(before, marked(span));
        assert(no_marks(before));
        assert(no_marks(span));
        lemma_strip_marks_id(before);
        lemma_strip_marks_mark(span);
        assert(before + span + line.subrange(m + nq.len() as int, line.len() as int)
            =~= line.subrange(from, line.len() as int));
    }
}

/// Law: highlighting only inserts markers — with the markers removed,
/// the highlighted line is the original line again, for any line that
/// carries no marker characters of its own.
pub proof fn lemma_highlight_roundtrip(line: Seq<char>, query: Seq<char>, ignore_case: bool)
    requires
        no_marks(line),
    ensures
        strip_marks(spec_highlight(line, query, ignore_case)) == line,
{
    if query.len() == 0 {
        lemma_strip_marks_id(line);
    } else {
        lemma_hl_from_strip(line, norm(query, ignore_case), ignore_case, 0);
        assert(line.subrange(0, line.len() as int) =~= line);
    }
}

} // verus!
