//! Splitting the input into lines, with the semantics of `str::lines`:
//! pieces are cut at every newline, a carriage return directly before a cut
//! newline is dropped, and a trailing newline does not open a final empty
//! line.

use vstd::prelude::*;
use crate::chartext::spec_find;
use crate::chartext::lemma_find;
use crate::chartext::push_range;
use crate::inline::find_in;

verus! {

/// A line piece with the carriage return before the cut newline removed.
pub open spec fn strip_cr(l: Seq<char>) -> Seq<char> {
    if l.len() > 0 && l[l.len() - 1] == '\r' {
        l.subrange(0, l.len() - 1)
    } else {
        l
    }
}

/// The lines of `s[k..]`.
pub open spec fn spec_lines_from(s: Seq<char>, k: int) -> Seq<Seq<char>>
    decreases s.len() - k,
        via spec_lines_from_dec
{
    if k < 0 || k >= s.len() {
        seq![]
    } else {
        let j = spec_find(s, '\n', k);
        if j < s.len() {
            seq![strip_cr(s.subrange(k, j))] + spec_lines_from(s, j + 1)
        } else {
            seq![s.subrange(k, s.len() as int)]
        }
    }
}

#[via_fn]
proof fn spec_lines_from_dec(s: Seq<char>, k: int) {
    if 0 <= k < s.len() {
        lemma_find(s, '\n', k);
    }
}

/// The lines of the whole input.
pub open spec fn spec_lines(s: Seq<char>) -> Seq<Seq<char>> {
    spec_lines_from(s, 0)
}

/// The sequence of character sequences a vector of lines stands for.
pub open spec fn lines_view(lines: Seq<Vec<char>>) -> Seq<Seq<char>> {
    Seq::new(lines.len(), |i: int| lines[i]@)
}

/// Splits the input into its lines.
pub fn split_lines(t: &Vec<char>) -> (r: Vec<Vec<char>>)
    ensures
        lines_view(r@) == spec_lines(t@),
{
    let n = t.len();
    let mut r: Vec<Vec<char>> = Vec::new();
    let mut k: usize = 0;
    proof {
        assert(lines_view(r@) + spec_lines_from(t@, 0) =~= spec_lines_from(t@, 0));
    }
    while k < n
        invariant
            k <= n == t@.len(),
            spec_lines(t@) == lines_view(r@) + spec_lines_from(t@, k as int),
        decreases n - k,
    {
        let ghost pre = lines_view(r@);
        let j = find_in(t, 0, n, k, '\n');
        proof {
            assert(t@.subrange(0, n as int) =~= t@);
        }
        if j < n {
            let end: usize = if j > k && t[j - 1] == '\r' {
                j - 1
            } else {
                j
            };
            let mut line: Vec<char> = Vec::new();
            push_range(&mut line, t, k, end);
            proof {
                assert(line@ =~= t@.subrange(k as int, end as int));
                assert(strip_cr(t@.subrange(k as int, j as int)) =~= line@);
            }
            r.push(line);
            proof {
                assert(lines_view(r@) =~= pre + seq![strip_cr(t@.subrange(k as int, j as int))]);
                assert(pre + (seq![strip_cr(t@.subrange(k as int, j as int))] + spec_lines_from(
                    t@,
                    j + 1,
                )) =~= lines_view(r@) + spec_lines_from(t@, j + 1));
            }
            k = j + 1;
        } else {
            let mut line: Vec<char> = Vec::new();
            push_range(&mut line, t, k, n);
            proof {
                assert(line@ =~= t@.subrange(k as int, n as int));
            }
            r.push(line);
            proof {
                assert(lines_view(r@) =~= pre + seq![t@.subrange(k as int, n as int)]);
                assert(spec_lines_from(t@, k as int) =~= seq![t@.subrange(k as int, n as int)]);
                assert(pre + spec_lines_from(t@, k as int) =~= lines_view(r@) + spec_lines_from(
                    t@,
                    n as int,
                ));
            }
            k = n;
        }
    }
    proof {
        assert(lines_view(r@) + spec_lines_from(t@, k as int) =~= lines_view(r@));
    }
    r
}

} // verus!
