//! Buffered input: all lines of a run, with the length of the longest.
use vstd::prelude::*;

verus! {

/// The length in characters of the longest line; 0 without lines.
pub open spec fn max_len(lines: Seq<Seq<char>>) -> nat
    decreases lines.len(),
{
    if lines.len() == 0 {
        0
    } else {
        let m = max_len(lines.drop_last());
        if lines.last().len() > m {
            lines.last().len()
        } else {
            m
        }
    }
}

/// The views of a sequence of lines.
pub open spec fn line_views(v: Seq<String>) -> Seq<Seq<char>> {
    v.map_values(|s: String| s@)
}

proof fn lemma_max_len(lines: Seq<Seq<char>>)
    ensures
        forall|i: int| 0 <= i < lines.len() ==> (#[trigger] lines[i]).len() <= max_len(lines),
        lines.len() > 0 ==> exists|i: int| 0 <= i < lines.len() && (#[trigger] lines[i]).len() == max_len(lines),
    decreases lines.len(),
{
    if lines.len() > 0 {
        let t = lines.drop_last();
        lemma_max_len(t);
        assert forall|i: int| 0 <= i < lines.len() implies (#[trigger] lines[i]).len() <= max_len(lines) by {
            if i < t.len() {
                assert(t[i] == lines[i]);
            }
        }
        if t.len() > 0 && lines.last().len() <= max_len(t) {
            let j = choose|j: int| 0 <= j < t.len() && (#[trigger] t[j]).len() == max_len(t);
            assert(lines[j] == t[j]);
        } else {
            assert(lines[lines.len() - 1] == lines.last());
        }
    }
}

/// The lines, and the length in characters of the longest one.
pub fn read_lines_max(lines: Vec<String>) -> (r: (Vec<String>, usize))
    ensures
        r.0@ == lines@,
        r.1 == max_len(line_views(lines@)),
        forall|i: int| 0 <= i < lines@.len() ==> (#[trigger] lines@[i])@.len() <= r.1,
{
    let ghost ls = line_views(lines@);
    let mut max_line: usize = 0;
    let mut i: usize = 0;
    while i < lines.len()
        invariant
            i <= lines@.len(),
            ls == line_views(lines@),
            max_line == max_len(ls.take(i as int)),
        decreases lines@.len() - i,
    {
        assert(ls.take(i + 1).drop_last() =~= ls.take(i as int));
        assert(ls[i as int] == lines@[i as int]@);
        let n = lines[i].as_str().unicode_len();
        if n > max_line {
            max_line = n;
        }
        i = i + 1;
    }
    proof {
        assert(ls.take(i as int) =~= ls);
        lemma_max_len(ls);
        assert forall|i: int| 0 <= i < lines@.len() implies (#[trigger] lines@[i])@.len() <= max_line by {
            assert(ls[i] == lines@[i]@);
        }
    }
    (lines, max_line)
}

} // verus!
