use vstd::prelude::*;
use crate::buffer::{Buffer, LineBr, CellV, LineV, width_prefix, line_content, lemma_cell_text_take};
use vstd::string::*;
use vstd::arithmetic::div_mod::{
    lemma_fundamental_div_mod,
    lemma_fundamental_div_mod_converse,
    lemma_mod_division_less_than_divisor,
};

verus! {

/// Wrap arithmetic for a single cell of display width `w` on a grid of
/// `width` columns: the position reached after placing the cell at column
/// `col` of row `row`. Zero-width cells do not move; a cell whose end
/// would meet or pass the right edge wraps to the start of the next row.
pub open spec fn advance_spec(col: int, row: int, w: int, width: int) -> (int, int) {
    if w == 0 {
        (col, row)
    } else if w >= width - col {
        (0, row + 1)
    } else {
        (col + w, row)
    }
}

/// Executable wrap arithmetic; see `advance_spec`.
pub fn advance(col: usize, row: usize, w: usize, width: usize) -> (r: (usize, usize))
    requires
        col < width || col == 0,
        row < usize::MAX,
    ensures
        (r.0 as int, r.1 as int) == advance_spec(col as int, row as int, w as int, width as int),
        r.0 < width || r.0 == 0,
        row <= r.1 <= row + 1,
{
    if w == 0 {
        (col, row)
    } else if w >= width - col {
        (0, row + 1)
    } else {
        (col + w, row)
    }
}

/// The position at which cell `i` of a line starts, relative to the line's
/// own first row: the widths of the cells before it folded through
/// `advance_spec` from the line's origin.
pub open spec fn place_spec(cs: Seq<CellV>, i: int, width: int) -> (int, int)
    decreases i,
{
    if i <= 0 {
        (0, 0)
    } else {
        let p = place_spec(cs, i - 1, width);
        advance_spec(p.0, p.1, cs[i - 1].width as int, width)
    }
}

pub proof fn lemma_place_bounds(cs: Seq<CellV>, i: int, width: int)
    requires
        0 <= i,
    ensures
        ({
            let p = place_spec(cs, i, width);
            &&& p.0 == 0 || p.0 < width
            &&& 0 <= p.0
            &&& 0 <= p.1 <= i
        }),
    decreases i,
{
    if i > 0 {
        lemma_place_bounds(cs, i - 1, width);
    }
}

/// The content width of a line: its real cells' widths summed, the
/// sentinel excluded.
pub open spec fn content_width(cs: Seq<CellV>) -> int {
    width_prefix(cs, cs.len() - 1)
}

/// Whether the position after the first `i` cells was reached by a wrap
/// whose cell ended precisely at the right edge, `w == width - col` —
/// zero-width cells after it keep the fact. Exactly then the terminal is
/// left in its pending-wrap state and eats the following line break. A
/// cell that merely straddles the edge (`w > width - col`) also lands the
/// walk at column zero of a fresh row, but leaves no pending wrap.
pub open spec fn place_exact(cs: Seq<CellV>, i: int, width: int) -> bool
    decreases i,
{
    if i <= 0 {
        false
    } else if cs[i - 1].width == 0 {
        place_exact(cs, i - 1, width)
    } else {
        cs[i - 1].width as int == width - place_spec(cs, i - 1, width).0
    }
}

/// An exact fill leaves the walk at column zero of a row it has already
/// advanced to.
pub proof fn lemma_place_exact(cs: Seq<CellV>, i: int, width: int)
    requires
        0 <= i,
    ensures
        place_exact(cs, i, width) ==> place_spec(cs, i, width).0 == 0 && place_spec(
            cs,
            i,
            width,
        ).1 >= 1,
    decreases i,
{
    if i > 0 {
        lemma_place_bounds(cs, i - 1, width);
        lemma_place_exact(cs, i - 1, width);
    }
}

/// The number of grid rows a line claims before the next line starts. The
/// sentinel rests at the position after the last real cell; when nonzero
/// content ends precisely at the last column, the wrap already moved to a
/// fresh row and the terminal eats the line break, so the closing row
/// advance is suppressed (the eat-newline glitch) and the resting row is
/// shared with the next line. Content that overshoots the edge gets no
/// suppression: its closing advance stands.
pub open spec fn line_rows_spec(cs: Seq<CellV>, width: int) -> int {
    let p = place_spec(cs, cs.len() - 1, width);
    if place_exact(cs, cs.len() - 1, width) {
        p.1
    } else {
        p.1 + 1
    }
}

pub proof fn lemma_line_rows_pos(cs: Seq<CellV>, width: int)
    requires
        cs.len() >= 1,
    ensures
        1 <= line_rows_spec(cs, width) <= cs.len(),
{
    lemma_place_bounds(cs, cs.len() - 1, width);
    lemma_place_exact(cs, cs.len() - 1, width);
}

/// Computes the physical start position of cell `i` within its line; see
/// `place_spec`.
pub fn cell_pos(l: &LineBr, i: usize, width: usize) -> (r: (usize, usize))
    requires
        i <= l@.cell.len(),
    ensures
        (r.0 as int, r.1 as int) == place_spec(l@.cell, i as int, width as int),
        r.0 < width || r.0 == 0,
        r.1 <= i,
{
    let mut col: usize = 0;
    let mut row: usize = 0;
    for j in 0..i
        invariant
            i <= l@.cell.len(),
            l@.cell.len() == l.cell.len(),
            (col as int, row as int) == place_spec(l@.cell, j as int, width as int),
            col < width || col == 0,
            row <= j,
    {
        let w = l.cell[j].width;
        assert(w as nat == l@.cell[j as int].width);
        let p = advance(col, row, w, width);
        col = p.0;
        row = p.1;
    }
    (col, row)
}

/// Computes `line_rows_spec` for one line.
pub fn line_rows(l: &LineBr, width: usize) -> (r: usize)
    requires
        l@.cell.len() >= 1,
    ensures
        r as int == line_rows_spec(l@.cell, width as int),
        1 <= r <= l@.cell.len(),
{
    let n = l.cell.len();
    let mut col: usize = 0;
    let mut row: usize = 0;
    let mut exact: bool = false;
    assert(l@.cell.len() == l.cell.len());
    for j in 0..n - 1
        invariant
            n == l.cell.len(),
            n == l@.cell.len(),
            n >= 1,
            (col as int, row as int) == place_spec(l@.cell, j as int, width as int),
            col < width || col == 0,
            row <= j,
            exact == place_exact(l@.cell, j as int, width as int),
    {
        let w = l.cell[j].width;
        assert(w as nat == l@.cell[j as int].width);
        if w > 0 {
            exact = w == width - col;
        }
        let p = advance(col, row, w, width);
        col = p.0;
        row = p.1;
    }
    proof {
        lemma_line_rows_pos(l@.cell, width as int);
    }
    if exact {
        row
    } else {
        row + 1
    }
}

/// Ceiling division, for positive divisors.
pub open spec fn div_ceil(a: int, b: int) -> int {
    (a + b - 1) / b
}

/// Under cells at most one column wide, placement is plain division: cell
/// `i` starts at column `S % width`, row `S / width`, where `S` is the
/// total width of the cells before it; and the walk sits on an exact fill
/// precisely when `S` is a nonzero multiple of the width.
proof fn lemma_place_div_mod(cs: Seq<CellV>, i: int, width: int)
    requires
        width >= 1,
        0 <= i,
        forall|j: int| 0 <= j < i ==> (#[trigger] cs[j]).width <= 1,
    ensures
        place_spec(cs, i, width).0 == width_prefix(cs, i) % width,
        place_spec(cs, i, width).1 == width_prefix(cs, i) / width,
        place_exact(cs, i, width) <==> width_prefix(cs, i) > 0 && width_prefix(cs, i) % width
            == 0,
    decreases i,
{
    if i == 0 {
        lemma_fundamental_div_mod_converse(0, width, 0, 0);
    } else {
        lemma_place_div_mod(cs, i - 1, width);
        crate::buffer::lemma_width_prefix_mono(cs, 0, i - 1);
        let s = width_prefix(cs, i - 1);
        let w = cs[i - 1].width as int;
        lemma_mod_division_less_than_divisor(s, width);
        lemma_fundamental_div_mod(s, width);
        if w == 1 {
            if s % width == width - 1 {
                assert(s + 1 == (s / width + 1) * width + 0) by (nonlinear_arith)
                    requires
                        s == width * (s / width) + s % width,
                        s % width == width - 1,
                ;
                lemma_fundamental_div_mod_converse(s + 1, width, s / width + 1, 0);
            } else {
                assert(s + 1 == (s / width) * width + (s % width + 1)) by (nonlinear_arith)
                    requires
                        s == width * (s / width) + s % width,
                ;
                lemma_fundamental_div_mod_converse(s + 1, width, s / width, s % width + 1);
            }
        }
    }
}

/// Wrap row count: a line whose real cells are each at most one column
/// wide and sum to content width `s` — so its cells, sentinel included,
/// sum to `s + 1` — claims `ceil((s + 1) / width)` rows, except when
/// nonzero content ends exactly at the right edge: there the eat-newline
/// glitch suppresses the closing advance and the line claims one row
/// fewer. (A wider cell can straddle the right edge; the columns lost to
/// the straddle are not displayed, and the line claims fewer rows than
/// the formula — widths 1, 2, 1 on a two-column grid claim two rows, not
/// three — so such lines are left out.)
pub proof fn lemma_wrap_row_count(cs: Seq<CellV>, width: int)
    requires
        width >= 1,
        cs.len() >= 1,
        forall|j: int| 0 <= j < cs.len() - 1 ==> (#[trigger] cs[j]).width <= 1,
    ensures
        ({
            let s = content_width(cs);
            let rows = line_rows_spec(cs, width);
            if s > 0 && s % width == 0 {
                rows == div_ceil(s + 1, width) - 1
            } else {
                rows == div_ceil(s + 1, width)
            }
        }),
{
    let s = content_width(cs);
    lemma_place_div_mod(cs, cs.len() - 1, width);
    crate::buffer::lemma_width_prefix_mono(cs, 0, cs.len() - 1);
    lemma_mod_division_less_than_divisor(s, width);
    lemma_fundamental_div_mod(s, width);
    assert(s + width == (s / width + 1) * width + s % width) by (nonlinear_arith)
        requires
            s == width * (s / width) + s % width,
    ;
    lemma_fundamental_div_mod_converse(s + width, width, s / width + 1, s % width);
    assert(div_ceil(s + 1, width) == s / width + 1);
}

/// Rows claimed by the lines `[from, to)` of a buffer together.
pub open spec fn sum_rows(b: Seq<LineV>, from: int, to: int, width: int) -> int
    decreases to - from,
{
    if from >= to {
        0
    } else {
        line_rows_spec(b[from].cell, width) + sum_rows(b, from + 1, to, width)
    }
}

pub proof fn lemma_sum_rows_nonneg(b: Seq<LineV>, from: int, to: int, width: int)
    requires
        0 <= from,
        forall|i: int| 0 <= i < b.len() ==> (#[trigger] b[i]).cell.len() >= 1,
        to <= b.len(),
    ensures
        sum_rows(b, from, to, width) >= 0,
    decreases to - from,
{
    if from < to {
        lemma_line_rows_pos(b[from].cell, width);
        lemma_sum_rows_nonneg(b, from + 1, to, width);
    }
}

/// Dropping lines from the front of a viewport can only reduce the rows
/// before a given line.
pub proof fn lemma_sum_rows_mono(b: Seq<LineV>, x: int, y: int, to: int, width: int)
    requires
        0 <= x <= y <= to <= b.len(),
        forall|i: int| 0 <= i < b.len() ==> (#[trigger] b[i]).cell.len() >= 1,
    ensures
        sum_rows(b, x, to, width) >= sum_rows(b, y, to, width),
    decreases y - x,
{
    if x < y {
        lemma_line_rows_pos(b[x].cell, width);
        lemma_sum_rows_mono(b, x + 1, y, to, width);
    }
}

/// Every line claims at least one row: the rows of a line span bound the
/// number of lines it covers from below.
pub proof fn lemma_sum_rows_lb(b: Seq<LineV>, from: int, to: int, width: int)
    requires
        0 <= from <= to <= b.len(),
        forall|i: int| 0 <= i < b.len() ==> (#[trigger] b[i]).cell.len() >= 1,
    ensures
        sum_rows(b, from, to, width) >= to - from,
    decreases to - from,
{
    if from < to {
        lemma_line_rows_pos(b[from].cell, width);
        lemma_sum_rows_lb(b, from + 1, to, width);
    }
}

/// Finds the viewport offset from which the cursor is visible: the
/// smallest offset at or after `o0` such that the rows of the lines from
/// the offset up to the cursor's line, plus the cursor's row within its
/// own line, stay above the bottom of the screen. Returns that offset and
/// the cursor's final screen row.
pub fn search_offset(
    buf: &Buffer,
    cline: usize,
    rowc: usize,
    o0: usize,
    width: usize,
    height: usize,
) -> (r: (usize, usize))
    requires
        o0 <= cline < buf@.len(),
        forall|i: int| 0 <= i < buf@.len() ==> (#[trigger] buf@[i]).cell.len() >= 1,
        rowc < height,
    ensures
        o0 <= r.0 <= cline,
        r.1 as int == sum_rows(buf@, r.0 as int, cline as int, width as int) + rowc,
        r.1 < height,
        r.0 > o0 ==> sum_rows(buf@, r.0 as int - 1, cline as int, width as int) + rowc >= height,
{
    let mut o: usize = cline;
    let mut acc: usize = rowc;
    while o > o0
        invariant
            o0 <= o <= cline < buf@.len(),
            buf@.len() == buf.line.len(),
            rowc < height,
            forall|i: int| 0 <= i < buf@.len() ==> (#[trigger] buf@[i]).cell.len() >= 1,
            acc as int == sum_rows(buf@, o as int, cline as int, width as int) + rowc,
            acc < height,
        ensures
            o0 <= o <= cline,
            acc as int == sum_rows(buf@, o as int, cline as int, width as int) + rowc,
            acc < height,
            o > o0 ==> sum_rows(buf@, o as int - 1, cline as int, width as int) + rowc >= height,
        decreases o,
    {
        let lb = &buf.line[o - 1];
        assert(lb@ == buf@[o - 1]);
        let lr = line_rows(lb, width);
        if lr >= height - acc {
            break;
        }
        acc = acc + lr;
        o = o - 1;
    }
    (o, acc)
}

/// The state of the repaint walk over one line's cells.
#[verifier::ext_equal]
pub struct CellWalk {
    pub out: Seq<char>,
    pub col: int,
    pub row: int,
    pub stopped: bool,
}

/// Folds one line's real cells into the repaint walk: a cell whose
/// placement stays above the bottom of the screen is emitted; a cell whose
/// wrap reaches the bottom row is withheld and stops the whole repaint, as
/// the terminal's auto-wrap would scroll on the bottom-right corner.
pub open spec fn render_cells_spec(
    cs: Seq<CellV>,
    i: int,
    st: CellWalk,
    width: int,
    height: int,
) -> CellWalk
    decreases cs.len() - i,
{
    if st.stopped || i < 0 || i >= cs.len() - 1 {
        st
    } else {
        let p = advance_spec(st.col, st.row, cs[i].width as int, width);
        if p.1 >= height {
            CellWalk { stopped: true, ..st }
        } else {
            render_cells_spec(
                cs,
                i + 1,
                CellWalk { out: st.out + cs[i].text, col: p.0, row: p.1, stopped: false },
                width,
                height,
            )
        }
    }
}

/// The state of the repaint walk over the viewport's lines.
#[verifier::ext_equal]
pub struct LineWalk {
    pub out: Seq<char>,
    pub row: int,
    pub done: bool,
}

/// Folds the lines from `i` on into the repaint walk: each line's visible
/// cells are emitted, then the walk closes the line by moving to the next
/// row, separating lines with CR LF; it ends when the rows run out. The
/// closing advance is not suppressed here: the terminal itself eats the
/// line break after a row that was filled exactly.
pub open spec fn render_lines_spec(
    b: Seq<LineV>,
    i: int,
    st: LineWalk,
    width: int,
    height: int,
) -> LineWalk
    decreases b.len() - i,
{
    if st.done || i < 0 || i >= b.len() {
        st
    } else {
        let cw = render_cells_spec(
            b[i].cell,
            0,
            CellWalk { out: st.out, col: 0, row: st.row, stopped: false },
            width,
            height,
        );
        if cw.stopped {
            LineWalk { out: cw.out, row: cw.row, done: true }
        } else if cw.row + 1 >= height {
            LineWalk { out: cw.out, row: cw.row + 1, done: true }
        } else {
            render_lines_spec(
                b,
                i + 1,
                LineWalk { out: cw.out + seq!['\r', '\n'], row: cw.row + 1, done: false },
                width,
                height,
            )
        }
    }
}

/// The text of a full repaint: the visible prefix of each line from
/// `offset` on, joined by CR LF.
pub open spec fn render_full_spec(b: Seq<LineV>, offset: int, width: int, height: int) -> Seq<
    char,
> {
    render_lines_spec(
        b,
        offset,
        LineWalk { out: Seq::empty(), row: 0, done: false },
        width,
        height,
    ).out
}

/// Materializes a full repaint of the viewport; see `render_full_spec`.
pub fn render_full(buf: &Buffer, offset: usize, width: usize, height: usize) -> (r: String)
    requires
        forall|i: int| 0 <= i < buf@.len() ==> (#[trigger] buf@[i]).cell.len() >= 1,
    ensures
        r@ == render_full_spec(buf@, offset as int, width as int, height as int),
{
    let ghost full = render_full_spec(buf@, offset as int, width as int, height as int);
    let mut out = String::new();
    if height == 0 {
        proof {
            if offset < buf@.len() {
                let cs = buf@[offset as int].cell;
                let st0 = CellWalk { out: Seq::empty(), col: 0, row: 0, stopped: false };
                if cs.len() >= 2 {
                    assert(render_cells_spec(cs, 0, st0, width as int, 0).stopped);
                }
            }
        }
        return out;
    }
    let mut row: usize = 0;
    let nl = buf.line.len();
    let mut i = offset;
    while i < nl
        invariant_except_break
            full == render_lines_spec(
                buf@,
                i as int,
                LineWalk { out: out@, row: row as int, done: false },
                width as int,
                height as int,
            ).out,
        invariant
            offset <= i,
            nl == buf.line.len(),
            nl == buf@.len(),
            1 <= height,
            row < height,
            forall|k: int| 0 <= k < buf@.len() ==> (#[trigger] buf@[k]).cell.len() >= 1,
        ensures
            full == out@,
        decreases nl - i,
    {
        let lb = &buf.line[i];
        assert(lb@ == buf@[i as int]);
        let nc = lb.cell.len();
        let ghost st_entry = LineWalk { out: out@, row: row as int, done: false };
        let ghost cst0 = CellWalk { out: out@, col: 0, row: row as int, stopped: false };
        let ghost cw = render_cells_spec(lb@.cell, 0, cst0, width as int, height as int);
        let mut col: usize = 0;
        let mut j: usize = 0;
        let mut stopped = false;
        while j < nc - 1
            invariant_except_break
                !stopped,
            invariant
                j < nc,
                nc == lb.cell.len(),
                nc == lb@.cell.len(),
                nc >= 1,
                col < width || col == 0,
                row < height,
                1 <= height,
                cw == render_cells_spec(
                    lb@.cell,
                    j as int,
                    CellWalk { out: out@, col: col as int, row: row as int, stopped: false },
                    width as int,
                    height as int,
                ),
            ensures
                nc == lb.cell.len(),
                col < width || col == 0,
                row < height,
                stopped ==> cw == (CellWalk {
                    out: out@,
                    col: col as int,
                    row: row as int,
                    stopped: true,
                }),
                !stopped ==> j >= nc - 1 && cw == (CellWalk {
                    out: out@,
                    col: col as int,
                    row: row as int,
                    stopped: false,
                }),
            decreases nc - 1 - j,
        {
            let w = lb.cell[j].width;
            assert(w as nat == lb@.cell[j as int].width);
            let p = advance(col, row, w, width);
            if p.1 >= height {
                stopped = true;
                break;
            }
            out.append(lb.cell[j].text.as_str());
            col = p.0;
            row = p.1;
            j = j + 1;
        }
        proof {
            assert(render_lines_spec(buf@, i as int, st_entry, width as int, height as int)
                == ({
                let cwx = render_cells_spec(lb@.cell, 0, cst0, width as int, height as int);
                if cwx.stopped {
                    LineWalk { out: cwx.out, row: cwx.row, done: true }
                } else if cwx.row + 1 >= height {
                    LineWalk { out: cwx.out, row: cwx.row + 1, done: true }
                } else {
                    render_lines_spec(
                        buf@,
                        i + 1,
                        LineWalk { out: cwx.out + seq!['\r', '\n'], row: cwx.row + 1, done: false },
                        width as int,
                        height as int,
                    )
                }
            }));
        }
        if stopped {
            proof {
                assert(full == out@);
            }
            break;
        }
        if row >= height - 1 {
            proof {
                assert(full == out@);
            }
            break;
        }
        out.append("\r\n");
        proof {
            reveal_strlit("\r\n");
            assert("\r\n"@ =~= seq!['\r', '\n']);
            assert(out@ == cw.out + seq!['\r', '\n']);
        }
        row = row + 1;
        i = i + 1;
    }
    out
}

/// The whole text of one line's real cells, together with the rows the
/// line spans when painted alone (plain wrap arithmetic, no height cap and
/// no glitch), as the one-line scroll repaint needs them.
pub fn line_scroll(l: &LineBr, width: usize) -> (r: (String, usize))
    requires
        l@.cell.len() >= 1,
        l@.cell.last().text.len() == 0,
    ensures
        r.0@ == line_content(l@),
        r.1 as int == place_spec(l@.cell, l@.cell.len() - 1, width as int).1 + 1,
        1 <= r.1 <= l@.cell.len(),
{
    let n = l.cell.len();
    let mut out = String::new();
    let mut col: usize = 0;
    let mut row: usize = 0;
    proof {
        assert(l@.cell.take(0) =~= Seq::<CellV>::empty());
        assert(Seq::<CellV>::empty().map_values(|c: CellV| c.text) =~= Seq::<Seq<char>>::empty());
    }
    for j in 0..n - 1
        invariant
            n == l.cell.len(),
            n == l@.cell.len(),
            n >= 1,
            (col as int, row as int) == place_spec(l@.cell, j as int, width as int),
            col < width || col == 0,
            row <= j,
            out@ == l@.cell.take(j as int).map_values(|c: CellV| c.text).flatten(),
    {
        let w = l.cell[j].width;
        assert(w as nat == l@.cell[j as int].width);
        out.append(l.cell[j].text.as_str());
        proof {
            lemma_cell_text_take(l@.cell, j as int);
        }
        let p = advance(col, row, w, width);
        col = p.0;
        row = p.1;
    }
    proof {
        lemma_cell_text_take(l@.cell, n - 1 as int);
        assert(l@.cell.take(n as int) =~= l@.cell);
        assert(l@.cell[n - 1].text =~= Seq::<char>::empty());
        assert(out@ =~= line_content(l@));
    }
    (out, row + 1)
}

} // verus!
