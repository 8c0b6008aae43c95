use vstd::prelude::*;

use crate::ascii::lower_seq;
use crate::lines::spec_lines;
use crate::lines::split_lines;
use crate::matching::contains_query;
use crate::matching::line_matches;
use crate::matching::lemma_occurs_lower;
use crate::matching::norm;
use crate::matching::occurs;
use crate::matching::occurs_at;

verus! {

/// The lines that match the query, in their original order, each kept
/// in its original casing.
pub open spec fn matching_lines(lines: Seq<Seq<char>>, query: Seq<char>, ignore_case: bool) -> Seq<
    Seq<char>,
>
    decreases lines.len(),
{
    if lines.len() == 0 {
        seq![]
    } else {
        let rest = matching_lines(lines.drop_first(), query, ignore_case);
        if line_matches(lines[0], query, ignore_case) {
            seq![lines[0]] + rest
        } else {
            rest
        }
    }
}

/// The lines of `contents` in which `query` occurs, under the chosen
/// case mode, in file order and with their original casing.
pub fn search_lines<'a>(query: &str, contents: &'a str, ignore_case: bool) -> (r: Vec<&'a str>)
    ensures
        r.deep_view() == matching_lines(spec_lines(contents@), query@, ignore_case),
{
    let lines = split_lines(contents);
    let ghost ls = lines.deep_view();
    let mut r: Vec<&'a str> = Vec::new();
    let mut i: usize = 0;
    proof {
        assert(ls.skip(0) =~= ls);
        assert(r.deep_view() =~= Seq::<Seq<char>>::empty());
        assert(r.deep_view() + matching_lines(ls, query@, ignore_case) =~= matching_lines(
            ls,
            query@,
            ignore_case,
        ));
    }
    while i < lines.len()
        invariant
            ls == lines.deep_view(),
            0 <= i <= lines.len(),
            r.deep_view() + matching_lines(ls.skip(i as int), query@, ignore_case)
                == matching_lines(ls, query@, ignore_case),
        decreases lines.len() - i,
    {
        let ghost suffix = ls.skip(i as int);
        proof {
            assert(suffix[0] == ls[i as int]);
            assert(suffix.drop_first() =~= ls.skip(i + 1 as int));
            assert(lines[i as int]@ == ls[i as int]);
        }
        let line = lines[i];
        if contains_query(line, query, ignore_case) {
            let ghost prev = r.deep_view();
            r.push(line);
            proof {
                assert(r.deep_view() =~= prev.push(line@));
                assert(prev.push(line@) + matching_lines(ls.skip(i + 1 as int), query@, ignore_case)
                    =~= prev + (seq![ls[i as int]] + matching_lines(
                    ls.skip(i + 1 as int),
                    query@,
                    ignore_case,
                )));
            }
        }
        i += 1;
    }
    proof {
        assert(ls.skip(ls.len() as int) =~= Seq::<Seq<char>>::empty());
        assert(r.deep_view() + Seq::<Seq<char>>::empty() =~= r.deep_view());
    }
    r
}

/// Case-sensitive search: the lines of `contents` that contain
/// `query` as an exact character sequence, in file order.
pub fn search<'a>(query: &str, contents: &'a str) -> (r: Vec<&'a str>)
    ensures
        r.deep_view() == matching_lines(spec_lines(contents@), query@, false),
{
    search_lines(query, contents, false)
}

/// Case-insensitive search: the lines of `contents` that contain
/// `query` once both are ASCII-lowercased, in file order and in their
/// original casing.
pub fn search_case_insensitive<'a>(query: &str, contents: &'a str) -> (r: Vec<&'a str>)
    ensures
        r.deep_view() == matching_lines(spec_lines(contents@), query@, true),
{
    search_lines(query, contents, true)
}

/// Any matching line of the input is in the result.
proof fn lemma_matching_lines_complete(
    lines: Seq<Seq<char>>,
    query: Seq<char>,
    ignore_case: bool,
    i: int,
)
    requires
        0 <= i < lines.len(),
        line_matches(lines[i], query, ignore_case),
    ensures
        matching_lines(lines, query, ignore_case).contains(lines[i]),
    decreases lines.len(),
{
    let r = matching_lines(lines, query, ignore_case);
    if i == 0 {
        assert(r[0] == lines[0]);
    } else {
        lemma_matching_lines_complete(lines.drop_first(), query, ignore_case, i - 1);
        let rest = matching_lines(lines.drop_first(), query, ignore_case);
        let j = choose|j: int| 0 <= j < rest.len() && rest[j] == lines.drop_first()[i - 1];
        if line_matches(lines[0], query, ignore_case) {
            assert(r[j + 1] == rest[j]);
        } else {
            assert(r[j] == rest[j]);
        }
    }
}

/// Law: a line of the content in which the query occurs is included
/// in the case-sensitive search result.
pub proof fn lemma_search_finds_line(content: Seq<char>, query: Seq<char>, i: int)
    requires
        0 <= i < spec_lines(content).len(),
        occurs(spec_lines(content)[i], query),
    ensures
        matching_lines(spec_lines(content), query, false).contains(spec_lines(content)[i]),
{
    lemma_matching_lines_complete(spec_lines(content), query, false, i);
}

/// Law: a line of the content in which the query occurs — outright or
/// in any casing, i.e. once both sides are lowercased — is included in
/// the case-insensitive search result.
pub proof fn lemma_search_ci_finds_line(content: Seq<char>, query: Seq<char>, i: int)
    requires
        0 <= i < spec_lines(content).len(),
        occurs(spec_lines(content)[i], query) || occurs(
            lower_seq(spec_lines(content)[i]),
            lower_seq(query),
        ),
    ensures
        matching_lines(spec_lines(content), query, true).contains(spec_lines(content)[i]),
{
    if occurs(spec_lines(content)[i], query) {
        lemma_occurs_lower(spec_lines(content)[i], query);
    }
    lemma_matching_lines_complete(spec_lines(content), query, true, i);
}

/// An empty query matches every line.
proof fn lemma_matching_lines_empty_query(lines: Seq<Seq<char>>, ignore_case: bool)
    ensures
        matching_lines(lines, Seq::<char>::empty(), ignore_case) == lines,
    decreases lines.len(),
{
    if lines.len() == 0 {
        assert(matching_lines(lines, Seq::<char>::empty(), ignore_case) =~= lines);
    } else {
        let nl = norm(lines[0], ignore_case);
        assert(nl.subrange(0, 0) =~= norm(Seq::<char>::empty(), ignore_case));
        assert(occurs_at(nl, norm(Seq::<char>::empty(), ignore_case), 0));
        lemma_matching_lines_empty_query(lines.drop_first(), ignore_case);
        assert(seq![lines[0]] + lines.drop_first() =~= lines);
    }
}

/// Law: an empty query matches every line, so either search returns
/// all lines of the content, unchanged and in order.
pub proof fn lemma_empty_query_returns_all_lines(content: Seq<char>, ignore_case: bool)
    ensures
        matching_lines(spec_lines(content), Seq::<char>::empty(), ignore_case) == spec_lines(
            content,
        ),
{
    lemma_matching_lines_empty_query(spec_lines(content), ignore_case);
}

} // verus!
