use vstd::prelude::*;

verus! {

/// A carriage return just before a line break is part of the
/// terminator: drop it from the line.
pub open spec fn strip_cr(line: Seq<char>) -> Seq<char> {
    if line.len() > 0 && line.last() == '\r' {
        line.drop_last()
    } else {
        line
    }
}

/// The lines of `rest`, with `partial` the line fragment read so far:
/// a line break ends the current line (its terminator excluded), and a
/// final non-empty fragment forms a last line of its own.
pub open spec fn lines_from(partial: Seq<char>, rest: Seq<char>) -> Seq<Seq<char>>
    decreases rest.len(),
{
    if rest.len() == 0 {
        if partial.len() == 0 {
            seq![]
        } else {
            seq![partial]
        }
    } else if rest[0] == '\n' {
        seq![strip_cr(partial)] + lines_from(seq![], rest.drop_first())
    } else {
        lines_from(partial.push(rest[0]), rest.drop_first())
    }
}

/// The lines of a text: split on line breaks, terminators excluded,
/// no trailing empty line for a text that ends in a line break.
pub open spec fn spec_lines(content: Seq<char>) -> Seq<Seq<char>> {
    lines_from(seq![], content)
}

/// Split a text into its lines, each borrowed from the text.
pub fn split_lines<'a>(content: &'a str) -> (lines: Vec<&'a str>)
    ensures
        lines.deep_view() == spec_lines(content@),
{
    let n = content.unicode_len();
    let mut lines: Vec<&'a str> = Vec::new();
    let mut start: usize = 0;
    let mut i: usize = 0;
    proof {
        assert(content@.subrange(0, n as int) =~= content@);
        assert(content@.subrange(0, 0) =~= Seq::<char>::empty());
        assert(lines.deep_view() =~= Seq::<Seq<char>>::empty());
        assert(lines.deep_view() + spec_lines(content@) =~= spec_lines(content@));
    }
    while i < n
        invariant
            n == content@.len(),
            start <= i <= n,
            spec_lines(content@) == lines.deep_view() + lines_from(
                content@.subrange(start as int, i as int),
                content@.subrange(i as int, n as int),
            ),
        decreases n - i,
    {
        let ghost partial = content@.subrange(start as int, i as int);
        let ghost rest = content@.subrange(i as int, n as int);
        proof {
            assert(rest[0] == content@[i as int]);
            assert(rest.drop_first() =~= content@.subrange(i + 1 as int, n as int));
        }
        let c = content.get_char(i);
        if c == '\n' {
            let end = if i > start && content.get_char(i - 1) == '\r' {
                i - 1
            } else {
                i
            };
            proof {
                if end < i {
                    assert(partial.last() == content@[i - 1 as int]);
                    assert(strip_cr(partial) =~= content@.subrange(start as int, end as int));
                } else {
                    assert(strip_cr(partial) =~= content@.subrange(start as int, end as int));
                }
            }
            let line = content.substring_char(start, end);
            let ghost prev = lines.deep_view();
            lines.push(line);
            proof {
                assert(lines.deep_view() =~= prev.push(line@));
                assert(content@.subrange(i + 1 as int, i + 1 as int) =~= Seq::<char>::empty());
                assert(prev.push(line@) + lines_from(
                    Seq::<char>::empty(),
                    rest.drop_first(),
                ) =~= prev + lines_from(partial, rest));
            }
            start = i + 1;
        } else {
            proof {
                assert(partial.push(rest[0]) =~= content@.subrange(start as int, i + 1 as int));
            }
        }
        i += 1;
    }
    proof {
        assert(content@.subrange(n as int, n as int) =~= Seq::<char>::empty());
    }
    if start < n {
        let line = content.substring_char(start, n);
        let ghost prev = lines.deep_view();
        lines.push(line);
        proof {
            assert(lines.deep_view() =~= prev.push(line@));
            assert(prev.push(line@) =~= prev + seq![line@]);
        }
    }
    lines
}

} // verus!
