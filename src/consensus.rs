//! The consensus engine: the most frequent styled character of each column
//! of buffered lines, and the emphasis of the cells that show it.
use vstd::prelude::*;

use yansi::{Attribute, Color};

use crate::charmap::CharMap;
use crate::render::{cell_rows, char_styled, char_value, Char};
use crate::styles::Style;

verus! {

broadcast use vstd::seq_lib::lemma_seq_contains_after_push, vstd::prelude::Seq::lemma_push_to_set_commute,
    vstd::utf8::char_u32_cast;

/// Whether a cell of a row at column `col` is styled and shows `c`.
pub open spec fn shows(row: Seq<Char>, col: int, c: char) -> bool {
    0 <= col < row.len() && char_styled(row[col]) && char_value(row[col]) == c
}

/// How many rows have a styled cell showing `c` at column `col`.
pub open spec fn count_at(lines: Seq<Seq<Char>>, col: int, c: char) -> nat
    decreases lines.len(),
{
    if lines.len() == 0 {
        0
    } else {
        count_at(lines.drop_last(), col, c) + if shows(lines.last(), col, c) {
            1nat
        } else {
            0nat
        }
    }
}

proof fn lemma_count_bound(lines: Seq<Seq<Char>>, col: int, c: char)
    ensures
        count_at(lines, col, c) <= lines.len(),
    decreases lines.len(),
{
    if lines.len() > 0 {
        lemma_count_bound(lines.drop_last(), col, c);
    }
}

/// `c` is the consensus of column `col`: it has the highest count among the
/// styled cells there, and among equally frequent characters the lowest code point.
pub open spec fn is_consensus(lines: Seq<Seq<Char>>, col: int, c: char) -> bool {
    &&& count_at(lines, col, c) > 0
    &&& forall|d: char|
        d != c ==> #[trigger] count_at(lines, col, d) < count_at(lines, col, c) || (count_at(lines, col, d)
            == count_at(lines, col, c) && (c as u32) < (d as u32))
}

/// A column has at most one consensus.
proof fn lemma_consensus_unique(lines: Seq<Seq<Char>>, col: int, a: char, b: char)
    requires
        is_consensus(lines, col, a),
        is_consensus(lines, col, b),
    ensures
        a == b,
{
    if a != b {
        assert(count_at(lines, col, b) < count_at(lines, col, a) || (count_at(lines, col, b) == count_at(
            lines,
            col,
            a,
        ) && (a as u32) < (b as u32)));
        assert(count_at(lines, col, a) < count_at(lines, col, b) || (count_at(lines, col, a) == count_at(
            lines,
            col,
            b,
        ) && (b as u32) < (a as u32)));
    }
}

/// The consensus of column `j` below `width`, if the column has one.
pub open spec fn consensus_entry(lines: Seq<Seq<Char>>, j: int, width: int) -> Option<char> {
    if 0 <= j < width && exists|c: char| is_consensus(lines, j, c) {
        Some(choose|c: char| is_consensus(lines, j, c))
    } else {
        None
    }
}

/// The count of each character among the styled cells of column `col`.
pub fn column_counts(lines: &Vec<Vec<Char>>, col: usize) -> (m: CharMap<usize>)
    ensures
        forall|c: char| #[trigger] m@.contains_key(c) <==> count_at(cell_rows(lines@), col as int, c) > 0,
        forall|c: char| #[trigger] m@.contains_key(c) ==> m@[c] == count_at(cell_rows(lines@), col as int, c),
{
    let ghost ls = cell_rows(lines@);
    let mut m: CharMap<usize> = CharMap::new();
    let mut l: usize = 0;
    while l < lines.len()
        invariant
            l <= lines@.len(),
            ls == cell_rows(lines@),
            forall|c: char| #[trigger] m@.contains_key(c) <==> count_at(ls.take(l as int), col as int, c) > 0,
            forall|c: char| #[trigger] m@.contains_key(c) ==> m@[c] == count_at(ls.take(l as int), col as int, c),
        decreases lines@.len() - l,
    {
        let row = &lines[l];
        assert(row@ == ls[l as int]);
        let ghost t = ls.take(l as int);
        let ghost t1 = ls.take(l + 1);
        assert(t1.drop_last() =~= t);
        assert(t1.last() == row@);
        if col < row.len() && row[col].is_styled() {
            let v = row[col].value();
            let n = match m.get(v) {
                Some(n) => n,
                None => 0,
            };
            proof {
                lemma_count_bound(t, col as int, v);
            }
            m.insert(v, n + 1);
            assert forall|c: char| c != v implies count_at(t1, col as int, c) == count_at(t, col as int, c) by {}
        } else {
            assert forall|c: char| count_at(t1, col as int, c) == count_at(t, col as int, c) by {}
        }
        l = l + 1;
    }
    assert(ls.take(l as int) =~= ls);
    m
}

/// The consensus of column `col`, if any styled cell lies in it.
pub fn consensus_at(lines: &Vec<Vec<Char>>, col: usize) -> (r: Option<char>)
    ensures
        match r {
            Some(c) => is_consensus(cell_rows(lines@), col as int, c),
            None => forall|c: char| count_at(cell_rows(lines@), col as int, c) == 0,
        },
{
    let ghost ls = cell_rows(lines@);
    let counts = column_counts(lines, col);
    let keys = counts.keys();
    let mut best: Option<(char, usize)> = None;
    let mut i: usize = 0;
    while i < keys.len()
        invariant
            i <= keys@.len(),
            keys@.no_duplicates(),
            keys@.to_set() == counts@.dom(),
            forall|c: char| #[trigger] counts@.contains_key(c) <==> count_at(ls, col as int, c) > 0,
            forall|c: char| #[trigger] counts@.contains_key(c) ==> counts@[c] == count_at(ls, col as int, c),
            best is None ==> i == 0,
            best matches Some((bc, bn)) ==> {
                &&& bn == count_at(ls, col as int, bc)
                &&& bn > 0
                &&& keys@.take(i as int).contains(bc)
                &&& forall|d: char|
                    d != bc && #[trigger] keys@.take(i as int).contains(d) ==> count_at(ls, col as int, d) < bn || (
                    count_at(ls, col as int, d) == bn && (bc as u32) < (d as u32))
            },
        decreases keys@.len() - i,
    {
        let k = keys[i];
        assert(keys@.to_set().contains(k));
        let n = counts.get(k).unwrap();
        let better = match best {
            None => true,
            Some((bc, bn)) => n > bn || (n == bn && (k as u32) < (bc as u32)),
        };
        proof {
            assert(keys@.take(i + 1) =~= keys@.take(i as int).push(k));
            assert(!keys@.take(i as int).contains(k)) by {
                if keys@.take(i as int).contains(k) {
                    let q = choose|q: int| 0 <= q < i && #[trigger] keys@.take(i as int)[q] == k;
                    assert(keys@[q] == keys@[i as int]);
                }
            }
        }
        let ghost old_best = best;
        if better {
            best = Some((k, n));
        }
        proof {
            let (bc, bn) = best.unwrap();
            assert(keys@.take(i + 1).contains(bc));
            assert forall|d: char|
                d != bc && #[trigger] keys@.take(i + 1).contains(d) implies count_at(ls, col as int, d) < bn || (
            count_at(ls, col as int, d) == bn && (bc as u32) < (d as u32)) by {
                assert(keys@.take(i as int).contains(d) || d == k);
                if d == k {
                    let (oc, on) = old_best.unwrap();
                    assert(oc != k);
                    assert(n == count_at(ls, col as int, k));
                    assert(!better);
                    assert(n <= on);
                    assert(n < on || (k as u32) >= (oc as u32));
                    vstd::utf8::char_u32_cast(k, k as u32);
                    vstd::utf8::char_u32_cast(oc, oc as u32);
                    assert((k as u32) != (oc as u32));
                } else if better && old_best is Some {
                    let (oc, on) = old_best.unwrap();
                    if d != oc {
                        assert(count_at(ls, col as int, d) < on || (count_at(ls, col as int, d) == on && (oc as u32) < (d as u32)));
                    }
                }
            }
        }
        i = i + 1;
    }
    assert(keys@.take(i as int) =~= keys@);
    match best {
        Some((bc, _)) => {
            assert forall|d: char| d != bc implies #[trigger] count_at(ls, col as int, d) < count_at(
                ls,
                col as int,
                bc,
            ) || (count_at(ls, col as int, d) == count_at(ls, col as int, bc) && (bc as u32) < (d as u32)) by {
                if count_at(ls, col as int, d) > 0 {
                    assert(counts@.contains_key(d));
                    assert(keys@.to_set().contains(d));
                }
            }
            Some(bc)
        },
        None => {
            assert forall|c: char| count_at(ls, col as int, c) == 0 by {
                if count_at(ls, col as int, c) > 0 {
                    assert(counts@.contains_key(c));
                    assert(keys@.to_set().contains(c));
                }
            }
            None
        },
    }
}

/// The consensus of each column below `width`.
pub fn consensus(lines: &Vec<Vec<Char>>, width: usize) -> (r: Vec<Option<char>>)
    ensures
        r@.len() == width,
        forall|j: int|
            0 <= j < width ==> match #[trigger] r@[j] {
                Some(c) => is_consensus(cell_rows(lines@), j, c),
                None => forall|c: char| count_at(cell_rows(lines@), j, c) == 0,
            },
{
    let mut r: Vec<Option<char>> = Vec::new();
    let mut j: usize = 0;
    while j < width
        invariant
            j <= width,
            r@.len() == j,
            forall|m: int|
                0 <= m < j ==> match #[trigger] r@[m] {
                    Some(c) => is_consensus(cell_rows(lines@), m, c),
                    None => forall|c: char| count_at(cell_rows(lines@), m, c) == 0,
                },
        decreases width - j,
    {
        r.push(consensus_at(lines, j));
        j = j + 1;
    }
    r
}

/// How the cells that show their column's consensus are marked.
#[derive(Debug, Clone, Copy, PartialEq)]
pub enum Emphasis {
    Bold,
    Underline,
    Background(Color),
}

/// A style with an emphasis applied.
pub open spec fn emphasized(s: Style, e: Emphasis) -> Style {
    match e {
        Emphasis::Bold => Style { attr: Some(Attribute::Bold), ..s },
        Emphasis::Underline => Style { attr: Some(Attribute::Underline), ..s },
        Emphasis::Background(c) => Style { bg: Some(c), ..s },
    }
}

/// A style with an emphasis applied.
pub fn emphasize_style(s: Style, e: Emphasis) -> (r: Style)
    ensures
        r == emphasized(s, e),
{
    match e {
        Emphasis::Bold => Style { attr: Some(Attribute::Bold), ..s },
        Emphasis::Underline => Style { attr: Some(Attribute::Underline), ..s },
        Emphasis::Background(c) => Style { bg: Some(c), ..s },
    }
}

/// A cell after marking: a styled cell showing its column's consensus gets the
/// emphasis, every other cell stays as it is.
pub open spec fn marked(cell: Char, cons: Option<char>, e: Emphasis) -> Char {
    match cell {
        Char::Styled(v, s) => if !s.is_plain() && cons == Some(v) {
            Char::Styled(v, emphasized(s, e))
        } else {
            cell
        },
        Char::Unstyled(_) => cell,
    }
}

/// The consensus entry of column `j`, none beyond the known columns.
pub open spec fn consensus_of(cons: Seq<Option<char>>, j: int) -> Option<char> {
    if 0 <= j < cons.len() {
        cons[j]
    } else {
        None
    }
}

/// The cells after marking with the consensus of each column below `width`.
pub open spec fn marked_lines(lines: Seq<Seq<Char>>, width: int, e: Emphasis) -> Seq<Seq<Char>> {
    Seq::new(
        lines.len(),
        |l: int| Seq::new(lines[l].len(), |j: int| marked(lines[l][j], consensus_entry(lines, j, width), e)),
    )
}

/// The consensus of each column below `width` is its consensus entry.
pub proof fn consensus_entries(lines: Seq<Seq<Char>>, cons: Seq<Option<char>>, width: int)
    requires
        cons.len() == width,
        forall|j: int|
            0 <= j < width ==> match #[trigger] cons[j] {
                Some(c) => is_consensus(lines, j, c),
                None => forall|c: char| count_at(lines, j, c) == 0,
            },
    ensures
        forall|j: int| #[trigger] consensus_of(cons, j) == consensus_entry(lines, j, width),
{
    assert forall|j: int| #[trigger] consensus_of(cons, j) == consensus_entry(lines, j, width) by {
        if 0 <= j < width {
            match cons[j] {
                Some(c) => {
                    let d = choose|d: char| is_consensus(lines, j, d);
                    lemma_consensus_unique(lines, j, c, d);
                },
                None => {
                    if exists|c: char| is_consensus(lines, j, c) {
                        let c = choose|c: char| is_consensus(lines, j, c);
                        assert(count_at(lines, j, c) == 0);
                    }
                },
            }
        }
    }
}

/// The buffered lines with every styled cell that shows its column's
/// consensus marked by the emphasis.
pub fn mark_consensus(lines: &Vec<Vec<Char>>, cons: &Vec<Option<char>>, e: Emphasis) -> (r: Vec<Vec<Char>>)
    ensures
        r@.len() == lines@.len(),
        forall|l: int|
            0 <= l < r@.len() ==> (#[trigger] r@[l])@.len() == lines@[l]@.len() && forall|j: int|
                0 <= j < r@[l]@.len() ==> #[trigger] r@[l]@[j] == marked(lines@[l]@[j], consensus_of(cons@, j), e),
{
    let mut r: Vec<Vec<Char>> = Vec::new();
    let mut l: usize = 0;
    while l < lines.len()
        invariant
            l <= lines@.len(),
            r@.len() == l,
            forall|m: int|
                0 <= m < l ==> (#[trigger] r@[m])@.len() == lines@[m]@.len() && forall|j: int|
                    0 <= j < r@[m]@.len() ==> #[trigger] r@[m]@[j] == marked(lines@[m]@[j], consensus_of(cons@, j), e),
        decreases lines@.len() - l,
    {
        let line = &lines[l];
        let mut row: Vec<Char> = Vec::new();
        let mut j: usize = 0;
        while j < line.len()
            invariant
                j <= line@.len(),
                line == lines@[l as int],
                row@.len() == j,
                forall|q: int| 0 <= q < j ==> #[trigger] row@[q] == marked(line@[q], consensus_of(cons@, q), e),
            decreases line@.len() - j,
        {
            let cell = line[j];
            let c = if j < cons.len() {
                cons[j]
            } else {
                None
            };
            let out = match cell {
                Char::Styled(v, s) => {
                    let hit = match c {
                        Some(x) => x == v,
                        None => false,
                    };
                    if s.is_styled() && hit {
                        Char::Styled(v, emphasize_style(s, e))
                    } else {
                        cell
                    }
                },
                Char::Unstyled(_) => cell,
            };
            row.push(out);
            j = j + 1;
        }
        r.push(row);
        l = l + 1;
    }
    r
}

} // verus!
