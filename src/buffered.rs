//! The buffered path, used for consensus and transposition: every line held
//! as styled cells, then marked and written by rows or by columns.
use vstd::prelude::*;

use crate::consensus::{consensus, consensus_entries, mark_consensus, marked_lines, Emphasis};
use crate::inout::{line_views, max_len, read_lines_max};
use crate::render::{cell_rows, cells_text, column_text, paint_selected, painted, render_cells, transpose, Char};
use crate::select::{selected, SpanSelector};
use crate::styles::StyleTable;

verus! {

/// Each line as cells, with the selection that the patterns make in it.
pub open spec fn painted_lines(
    table: Map<char, crate::styles::Style>,
    patterns: Seq<Seq<char>>,
    lines: Seq<Seq<char>>,
) -> Seq<Seq<Char>> {
    Seq::new(lines.len(), |i: int| painted(table, lines[i], selected(patterns, lines[i])))
}

/// The rows written for buffered cells: each line's cells, or each column
/// below `width` when transposing, with the consensus marked if an emphasis is given.
pub open spec fn buffered_rows(cells: Seq<Seq<Char>>, width: int, emphasis: Option<Emphasis>, transposed: bool) -> Seq<Seq<char>> {
    let fin = match emphasis {
        Some(e) => marked_lines(cells, width, e),
        None => cells,
    };
    if transposed {
        Seq::new(width as nat, |j: int| column_text(fin, j) + seq!['\n'])
    } else {
        Seq::new(fin.len(), |i: int| cells_text(fin[i]) + seq!['\n'])
    }
}

/// Every line as cells, with the selection of `selector` styled.
pub fn materialize(lines: &Vec<String>, styles: &StyleTable, selector: &SpanSelector) -> (cells: Vec<
    Vec<Char>,
>)
    ensures
        cell_rows(cells@) == painted_lines(styles@, selector.pattern_texts(), line_views(lines@)),
{
    let mut cells: Vec<Vec<Char>> = Vec::new();
    let mut i: usize = 0;
    while i < lines.len()
        invariant
            i <= lines@.len(),
            cells@.len() == i,
            forall|j: int|
                0 <= j < i ==> #[trigger] cells@[j]@ == painted(
                    styles@,
                    lines@[j]@,
                    selected(selector.pattern_texts(), lines@[j]@),
                ),
        decreases lines@.len() - i,
    {
        cells.push(paint_selected(styles, selector, lines[i].as_str()));
        i = i + 1;
    }
    assert forall|j: int| 0 <= j < cells@.len() implies #[trigger] cell_rows(cells@)[j] == painted_lines(
        styles@,
        selector.pattern_texts(),
        line_views(lines@),
    )[j] by {
        assert(cell_rows(cells@)[j] == cells@[j]@);
        assert(line_views(lines@)[j] == lines@[j]@);
    }
    assert(cell_rows(cells@) =~= painted_lines(styles@, selector.pattern_texts(), line_views(lines@)));
    cells
}

/// The output of the buffered path: the lines as cells, the cells showing
/// their column's consensus marked if an emphasis is given, written line by
/// line, or column by column (shorter lines padded with spaces) when transposing.
pub fn render_buffered(
    lines: Vec<String>,
    styles: &StyleTable,
    selector: &SpanSelector,
    emphasis: Option<Emphasis>,
    transposed: bool,
) -> (out: Vec<String>)
    ensures
        out@.map_values(|s: String| s@) == buffered_rows(
            painted_lines(styles@, selector.pattern_texts(), line_views(lines@)),
            max_len(line_views(lines@)) as int,
            emphasis,
            transposed,
        ),
{
    let (lines, width) = read_lines_max(lines);
    let cells = materialize(&lines, styles, selector);
    let ghost painted_cells = cell_rows(cells@);
    let fin = match emphasis {
        Some(e) => {
            let cons = consensus(&cells, width);
            let m = mark_consensus(&cells, &cons, e);
            proof {
                consensus_entries(painted_cells, cons@, width as int);
                assert forall|l: int| 0 <= l < m@.len() implies #[trigger] cell_rows(m@)[l] == marked_lines(
                    painted_cells,
                    width as int,
                    e,
                )[l] by {
                    assert(cell_rows(m@)[l] =~= marked_lines(painted_cells, width as int, e)[l]);
                }
                assert(cell_rows(m@) =~= marked_lines(painted_cells, width as int, e));
            }
            m
        },
        None => cells,
    };
    let ghost fin_rows = cell_rows(fin@);
    assert(fin_rows == match emphasis {
        Some(e) => marked_lines(painted_cells, width as int, e),
        None => painted_cells,
    });
    let out = if transposed {
        transpose(&fin, width)
    } else {
        let mut out: Vec<String> = Vec::new();
        let mut i: usize = 0;
        while i < fin.len()
            invariant
                i <= fin@.len(),
                fin_rows == cell_rows(fin@),
                out@.len() == i,
                forall|j: int| 0 <= j < i ==> #[trigger] out@[j]@ == cells_text(fin_rows[j]) + seq!['\n'],
            decreases fin@.len() - i,
        {
            assert(fin_rows[i as int] == fin@[i as int]@);
            out.push(render_cells(&fin[i]));
            i = i + 1;
        }
        out
    };
    assert(out@.map_values(|s: String| s@) =~= buffered_rows(painted_cells, width as int, emphasis, transposed));
    out
}

} // verus!
