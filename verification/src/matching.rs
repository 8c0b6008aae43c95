use vstd::prelude::*;

use crate::ascii::lower_char;
use crate::ascii::lower_seq;
use crate::ascii::to_lower;

verus! {

/// The sequence a comparison is made on: the text itself for
/// case-sensitive matching, its ASCII-lowercased form otherwise.
pub open spec fn norm(s: Seq<char>, ignore_case: bool) -> Seq<char> {
    if ignore_case {
        lower_seq(s)
    } else {
        s
    }
}

/// `needle` occurs in `hay` starting exactly at position `i`.
pub open spec fn occurs_at(hay: Seq<char>, needle: Seq<char>, i: int) -> bool {
    &&& 0 <= i
    &&& i + needle.len() <= hay.len()
    &&& hay.subrange(i, i + needle.len() as int) == needle
}

/// `needle` occurs somewhere in `hay`.
pub open spec fn occurs(hay: Seq<char>, needle: Seq<char>) -> bool {
    exists|i: int| occurs_at(hay, needle, i)
}

/// A line matches a query when the query occurs in it, both sides
/// lowercased first when `ignore_case` is set.
pub open spec fn line_matches(line: Seq<char>, query: Seq<char>, ignore_case: bool) -> bool {
    occurs(norm(line, ignore_case), norm(query, ignore_case))
}

/// Position of the first occurrence of `needle` in `hay` at or after
/// `from`, or -1 when there is none.
pub open spec fn next_match(hay: Seq<char>, needle: Seq<char>, from: int) -> int
    decreases hay.len() - from
        when 0 <= from && needle.len() > 0
{
    if from + needle.len() > hay.len() {
        -1
    } else if occurs_at(hay, needle, from) {
        from
    } else {
        next_match(hay, needle, from + 1)
    }
}

/// `next_match` returns -1 exactly when there is no occurrence at or
/// after `from`, and otherwise the leftmost such occurrence.
pub proof fn lemma_next_match(hay: Seq<char>, needle: Seq<char>, from: int)
    requires
        0 <= from,
        needle.len() > 0,
    ensures
        next_match(hay, needle, from) == -1 ==> forall|k: int|
            from <= k ==> !occurs_at(hay, needle, k),
        next_match(hay, needle, from) != -1 ==> {
            let m = next_match(hay, needle, from);
            &&& from <= m
            &&& occurs_at(hay, needle, m)
            &&& m + needle.len() <= hay.len()
            &&& forall|k: int| from <= k < m ==> !occurs_at(hay, needle, k)
        },
    decreases hay.len() - from,
{
    if from + needle.len() > hay.len() {
        assert(forall|k: int| from <= k ==> !occurs_at(hay, needle, k));
    } else if occurs_at(hay, needle, from) {
    } else {
        lemma_next_match(hay, needle, from + 1);
    }
}

/// If the query occurs in a line outright, it still occurs once both
/// sides are ASCII-lowercased.
pub proof fn lemma_occurs_lower(hay: Seq<char>, needle: Seq<char>)
    requires
        occurs(hay, needle),
    ensures
        occurs(lower_seq(hay), lower_seq(needle)),
{
    let i = choose|i: int| occurs_at(hay, needle, i);
    assert(lower_seq(hay).subrange(i, i + needle.len() as int) =~= lower_seq(needle)) by {
        assert forall|j: int| 0 <= j < needle.len() implies lower_seq(hay)[i + j] == lower_seq(
            needle,
        )[j] by {
            assert(hay.subrange(i, i + needle.len() as int)[j] == hay[i + j]);
        }
    }
    assert(occurs_at(lower_seq(hay), lower_seq(needle), i));
}

/// Does `needle`, case-normalised, occur in `hay` exactly at `at`?
fn match_at(hay: &str, needle: &str, at: usize, ignore_case: bool) -> (b: bool)
    requires
        at + needle@.len() <= hay@.len(),
        hay@.len() <= usize::MAX,
    ensures
        b == occurs_at(norm(hay@, ignore_case), norm(needle@, ignore_case), at as int),
{
    let nlen = needle.unicode_len();
    let ghost nh = norm(hay@, ignore_case);
    let ghost nn = norm(needle@, ignore_case);
    let mut j: usize = 0;
    while j < nlen
        invariant
            nlen == needle@.len(),
            at + nlen <= hay@.len(),
            hay@.len() <= usize::MAX,
            0 <= j <= nlen,
            nh == norm(hay@, ignore_case),
            nn == norm(needle@, ignore_case),
            forall|t: int| 0 <= t < j ==> nh[at + t] == nn[t],
        decreases nlen - j,
    {
        let a = hay.get_char(at + j);
        let b = needle.get_char(j);
        let eq = if ignore_case {
            to_lower(a) == to_lower(b)
        } else {
            a == b
        };
        if !eq {
            proof {
                assert(nh[at + j] != nn[j as int]);
                if occurs_at(nh, nn, at as int) {
                    assert(nh.subrange(at as int, at + nn.len() as int)[j as int] == nh[at + j]);
                }
            }
            return false;
        }
        j += 1;
    }
    proof {
        assert(nh.subrange(at as int, at + nn.len() as int) =~= nn);
    }
    true
}

/// Leftmost occurrence of `needle` in `hay` at or after `from`, under
/// the chosen case mode; `None` when there is none.
pub fn find_next(hay: &str, needle: &str, from: usize, ignore_case: bool) -> (r: Option<usize>)
    requires
        needle@.len() > 0,
        from <= hay@.len(),
    ensures
        ({
            let m = next_match(norm(hay@, ignore_case), norm(needle@, ignore_case), from as int);
            match r {
                Some(p) => {
                    &&& p == m
                    &&& from <= p
                    &&& p + needle@.len() <= hay@.len()
                },
                None => m == -1,
            }
        }),
{
    let hlen = hay.unicode_len();
    let nlen = needle.unicode_len();
    let ghost nh = norm(hay@, ignore_case);
    let ghost nn = norm(needle@, ignore_case);
    if nlen > hlen || from > hlen - nlen {
        proof {
            assert(next_match(nh, nn, from as int) == -1);
        }
        return None;
    }
    let mut i = from;
    while i <= hlen - nlen
        invariant
            hlen == hay@.len(),
            nlen == needle@.len(),
            0 < nlen <= hlen,
            nh == norm(hay@, ignore_case),
            nn == norm(needle@, ignore_case),
            from <= i <= hlen - nlen + 1,
            next_match(nh, nn, from as int) == next_match(nh, nn, i as int),
        decreases hlen - i,
    {
        if match_at(hay, needle, i, ignore_case) {
            return Some(i);
        }
        proof {
            assert(next_match(nh, nn, i as int) == next_match(nh, nn, i + 1 as int));
        }
        i += 1;
    }
    None
}

/// Does the query occur in the line at all, under the chosen case
/// mode? An empty query occurs in every line.
pub fn contains_query(line: &str, query: &str, ignore_case: bool) -> (b: bool)
    ensures
        b == line_matches(line@, query@, ignore_case),
{
    let n = line.unicode_len();
    let qn = query.unicode_len();
    let ghost nl = norm(line@, ignore_case);
    let ghost nq = norm(query@, ignore_case);
    if qn == 0 {
        proof {
            assert(nl.subrange(0, 0) =~= nq);
            assert(occurs_at(nl, nq, 0));
        }
        return true;
    }
    match find_next(line, query, 0, ignore_case) {
        Some(m) => {
            proof {
                lemma_next_match(nl, nq, 0);
                assert(occurs_at(nl, nq, m as int));
            }
            true
        },
        None => {
            proof {
                lemma_next_match(nl, nq, 0);
                assert forall|k: int| !occurs_at(nl, nq, k) by {
                    if k < 0 {
                    }
                }
            }
            false
        },
    }
}

} // verus!
