use vstd::prelude::*;
use vstd::string::*;
use vstd::seq_lib::*;
use crate::segment::{width_of, is_linebreak_spec, grapheme_split, split_graphemes, is_linebreak, measure_width, is_breaking_char, has_breaking_char};

verus! {

/// One display cell: a grapheme cluster together with its display width in
/// terminal columns. The last cell of every line is a synthetic sentinel
/// (empty text, width one) on which the cursor rests "past the last
/// character".
pub struct Cell {
    pub text: String,
    pub width: usize,
}

/// The mathematical model of a cell.
#[verifier::ext_equal]
pub struct CellV {
    pub text: Seq<char>,
    pub width: nat,
}

impl View for Cell {
    type V = CellV;

    open spec fn view(&self) -> CellV {
        CellV { text: self.text@, width: self.width as nat }
    }
}

impl DeepView for Cell {
    type V = CellV;

    open spec fn deep_view(&self) -> CellV {
        self@
    }
}

/// One logical line: its display cells (ending with the sentinel) and the
/// line-terminator text that closed it (empty for the final line of a
/// buffer). The terminator is stored as raw text only; the sentinel is its
/// navigable stand-in among the cells.
pub struct LineBr {
    pub cell: Vec<Cell>,
    pub brk: String,
}

/// The mathematical model of a line.
#[verifier::ext_equal]
pub struct LineV {
    pub cell: Seq<CellV>,
    pub brk: Seq<char>,
}

impl View for LineBr {
    type V = LineV;

    open spec fn view(&self) -> LineV {
        LineV { cell: self.cell.deep_view(), brk: self.brk@ }
    }
}

impl DeepView for LineBr {
    type V = LineV;

    open spec fn deep_view(&self) -> LineV {
        self@
    }
}

/// A document: a never-empty ordered sequence of lines, built once from a
/// text and never mutated by navigation.
pub struct Buffer {
    pub line: Vec<LineBr>,
}

impl View for Buffer {
    type V = Seq<LineV>;

    open spec fn view(&self) -> Seq<LineV> {
        self.line.deep_view()
    }
}

/// The model of the sentinel cell: empty text, display width one.
pub open spec fn sentinel() -> CellV {
    CellV { text: Seq::empty(), width: 1nat }
}

/// A well-formed line: at least the sentinel cell, which comes last; every
/// cell before it is a nonempty, non-terminator grapheme cluster carrying
/// its true display width; the terminator text is empty or a line break.
pub open spec fn line_wf(l: LineV) -> bool {
    &&& l.cell.len() >= 1
    &&& l.cell.last() == sentinel()
    &&& forall|i: int|
        0 <= i < l.cell.len() - 1 ==> {
            &&& (#[trigger] l.cell[i]).text.len() > 0
            &&& l.cell[i].width == width_of(l.cell[i].text)
            &&& !is_linebreak_spec(l.cell[i].text)
        }
    &&& l.brk.len() == 0 || is_linebreak_spec(l.brk)
}

/// A well-formed buffer: at least one line, all lines well formed, every
/// line but the last closed by a terminator, the last one open.
pub open spec fn buffer_wf(b: Seq<LineV>) -> bool {
    &&& b.len() >= 1
    &&& forall|i: int| 0 <= i < b.len() ==> line_wf(#[trigger] b[i])
    &&& forall|i: int| 0 <= i < b.len() - 1 ==> is_linebreak_spec((#[trigger] b[i]).brk)
    &&& b.last().brk.len() == 0
}

/// The text a line contributes before its terminator: its graphemes in
/// order (the sentinel contributes nothing).
pub open spec fn line_content(l: LineV) -> Seq<char> {
    l.cell.map_values(|c: CellV| c.text).flatten()
}

/// The full raw text of a line, terminator included.
pub open spec fn line_text(l: LineV) -> Seq<char> {
    line_content(l) + l.brk
}

/// The full raw text of a buffer: its lines' texts in order.
pub open spec fn buffer_text(b: Seq<LineV>) -> Seq<char> {
    b.map_values(|l: LineV| line_text(l)).flatten()
}

/// A fresh line holding only the sentinel, closed by `brk`.
pub open spec fn blank_line(brk: Seq<char>) -> LineV {
    LineV { cell: seq![sentinel()], brk }
}

/// The first line of `lines` with the cell for grapheme `g` put in front of
/// its cells.
pub open spec fn prepend_cell(g: Seq<char>, lines: Seq<LineV>) -> Seq<LineV>
    recommends
        lines.len() >= 1,
{
    lines.update(
        0,
        LineV { cell: seq![CellV { text: g, width: width_of(g) }] + lines[0].cell, brk: lines[0].brk },
    )
}

/// How a grapheme sequence folds into lines: a terminator grapheme closes
/// the current line and opens the next; every other grapheme becomes a cell
/// of the current line; the end of input leaves one final open line.
pub open spec fn lines_of(gs: Seq<Seq<char>>) -> Seq<LineV>
    decreases gs.len(),
{
    if gs.len() == 0 {
        seq![blank_line(Seq::empty())]
    } else if is_linebreak_spec(gs[0]) {
        seq![blank_line(gs[0])] + lines_of(gs.drop_first())
    } else {
        prepend_cell(gs[0], lines_of(gs.drop_first()))
    }
}

/// The first line of `lines` with the cells `cs` put in front of its own.
pub open spec fn prepend_cells(cs: Seq<CellV>, lines: Seq<LineV>) -> Seq<LineV>
    recommends
        lines.len() >= 1,
{
    lines.update(0, LineV { cell: cs + lines[0].cell, brk: lines[0].brk })
}

pub proof fn lemma_lines_of_len(gs: Seq<Seq<char>>)
    ensures
        lines_of(gs).len() >= 1,
    decreases gs.len(),
{
    if gs.len() > 0 {
        lemma_lines_of_len(gs.drop_first());
    }
}

/// Folding graphemes into lines yields a well-formed buffer, provided every
/// grapheme is nonempty.
pub proof fn lemma_lines_of_wf(gs: Seq<Seq<char>>)
    requires
        forall|i: int| 0 <= i < gs.len() ==> (#[trigger] gs[i]).len() > 0,
    ensures
        buffer_wf(lines_of(gs)),
    decreases gs.len(),
{
    if gs.len() == 0 {
    } else {
        assert(forall|i: int|
            0 <= i < gs.drop_first().len() ==> (#[trigger] gs.drop_first()[i]).len() > 0);
        lemma_lines_of_wf(gs.drop_first());
        lemma_lines_of_len(gs.drop_first());
        let rest = lines_of(gs.drop_first());
        if is_linebreak_spec(gs[0]) {
            let b = seq![blank_line(gs[0])] + rest;
            assert(forall|i: int| 0 <= i < b.len() ==> line_wf(#[trigger] b[i])) by {
                assert(forall|i: int| 1 <= i < b.len() ==> b[i] == rest[i - 1]);
                assert(line_wf(b[0]));
            }
            assert(b.last() == rest.last());
        } else {
            let b = prepend_cell(gs[0], rest);
            let c0 = CellV { text: gs[0], width: width_of(gs[0]) };
            assert(line_wf(b[0])) by {
                assert(b[0].cell == seq![c0] + rest[0].cell);
                assert(b[0].cell.last() == rest[0].cell.last());
                assert(forall|i: int|
                    1 <= i < b[0].cell.len() - 1 ==> #[trigger] b[0].cell[i] == rest[0].cell[i - 1]);
            }
            assert(forall|i: int| 1 <= i < b.len() ==> b[i] == rest[i]);
            assert(b[0].brk == rest[0].brk);
            assert(b.last().brk == rest.last().brk);
        }
    }
}

/// The number of terminator clusters in a grapheme sequence.
pub open spec fn break_count(gs: Seq<Seq<char>>) -> int
    decreases gs.len(),
{
    if gs.len() == 0 {
        0
    } else {
        (if is_linebreak_spec(gs[0]) {
            1int
        } else {
            0int
        }) + break_count(gs.drop_first())
    }
}

/// Each terminator cluster closes one line: a grapheme sequence folds
/// into one line more than it has terminator clusters.
pub proof fn lemma_lines_of_count(gs: Seq<Seq<char>>)
    ensures
        lines_of(gs).len() == 1 + break_count(gs),
    decreases gs.len(),
{
    if gs.len() > 0 {
        lemma_lines_of_count(gs.drop_first());
        lemma_lines_of_len(gs.drop_first());
    }
}

/// A line-ending character in one cluster stands in the concatenation of
/// them all.
proof fn lemma_flatten_breaking(gs: Seq<Seq<char>>, i: int)
    requires
        0 <= i < gs.len(),
        has_breaking_char(gs[i]),
    ensures
        has_breaking_char(gs.flatten()),
    decreases gs.len(),
{
    if i == 0 {
        let k = choose|k: int| 0 <= k < gs[0].len() && #[trigger] is_breaking_char(gs[0][k]);
        assert(gs.flatten()[k] == gs[0][k]);
        assert(is_breaking_char(gs.flatten()[k]));
    } else {
        lemma_flatten_breaking(gs.drop_first(), i - 1);
        let rest = gs.drop_first().flatten();
        let k = choose|k: int| 0 <= k < rest.len() && #[trigger] is_breaking_char(rest[k]);
        assert(gs.flatten()[gs.first().len() + k] == rest[k]);
        assert(is_breaking_char(gs.flatten()[gs.first().len() + k]));
    }
}

/// A text holding no line-ending character anywhere folds into a single
/// line: every terminator cluster holds such a character, so none occurs.
pub proof fn lemma_no_terminator_single_line(gs: Seq<Seq<char>>)
    requires
        !has_breaking_char(gs.flatten()),
    ensures
        lines_of(gs).len() == 1,
{
    assert forall|i: int| 0 <= i < gs.len() implies !is_linebreak_spec(#[trigger] gs[i]) by {
        if is_linebreak_spec(gs[i]) {
            assert(is_breaking_char(gs[i][0]));
            assert(has_breaking_char(gs[i]));
            lemma_flatten_breaking(gs, i);
        }
    }
    lemma_lines_of_count(gs);
    lemma_break_count_zero(gs);
}

proof fn lemma_break_count_zero(gs: Seq<Seq<char>>)
    requires
        forall|i: int| 0 <= i < gs.len() ==> !is_linebreak_spec(#[trigger] gs[i]),
    ensures
        break_count(gs) == 0,
    decreases gs.len(),
{
    if gs.len() > 0 {
        assert(forall|i: int|
            0 <= i < gs.drop_first().len() ==> !is_linebreak_spec(#[trigger] gs.drop_first()[i]));
        lemma_break_count_zero(gs.drop_first());
    }
}

/// Saving after loading restores the text: the lines a grapheme sequence
/// folds into hold, in order, exactly the graphemes' text.
pub proof fn lemma_lines_of_text(gs: Seq<Seq<char>>)
    ensures
        buffer_text(lines_of(gs)) == gs.flatten(),
    decreases gs.len(),
{
    broadcast use vstd::seq_lib::group_seq_properties;

    if gs.len() == 0 {
        let b = lines_of(gs);
        assert(line_content(b[0]) == seq![sentinel()].map_values(|c: CellV| c.text).flatten());
        assert(seq![sentinel()].map_values(|c: CellV| c.text) == seq![Seq::<char>::empty()]);
        seq![Seq::<char>::empty()].lemma_flatten_one_element();
        assert(line_text(b[0]) =~= Seq::<char>::empty());
        assert(b.map_values(|l: LineV| line_text(l)) == seq![line_text(b[0])]);
        seq![line_text(b[0])].lemma_flatten_one_element();
        assert(buffer_text(b) =~= gs.flatten());
    } else {
        lemma_lines_of_text(gs.drop_first());
        lemma_lines_of_len(gs.drop_first());
        let rest = lines_of(gs.drop_first());
        if is_linebreak_spec(gs[0]) {
            let b = seq![blank_line(gs[0])] + rest;
            assert(line_content(blank_line(gs[0])) =~= Seq::<char>::empty()) by {
                assert(seq![sentinel()].map_values(|c: CellV| c.text) == seq![Seq::<char>::empty()]);
                seq![Seq::<char>::empty()].lemma_flatten_one_element();
            }
            assert(line_text(blank_line(gs[0])) =~= gs[0]);
            assert(b.map_values(|l: LineV| line_text(l)) =~= seq![gs[0]]
                + rest.map_values(|l: LineV| line_text(l)));
            lemma_flatten_concat(seq![gs[0]], rest.map_values(|l: LineV| line_text(l)));
            seq![gs[0]].lemma_flatten_one_element();
            assert(buffer_text(b) =~= gs[0] + buffer_text(rest));
            assert(gs =~= seq![gs[0]] + gs.drop_first());
            lemma_flatten_concat(seq![gs[0]], gs.drop_first());
            assert(gs.flatten() =~= gs[0] + gs.drop_first().flatten());
        } else {
            let b = prepend_cell(gs[0], rest);
            let c0 = CellV { text: gs[0], width: width_of(gs[0]) };
            assert(line_content(b[0]) =~= gs[0] + line_content(rest[0])) by {
                assert(b[0].cell =~= seq![c0] + rest[0].cell);
                assert(b[0].cell.map_values(|c: CellV| c.text) =~= seq![gs[0]]
                    + rest[0].cell.map_values(|c: CellV| c.text));
                lemma_flatten_concat(
                    seq![gs[0]],
                    rest[0].cell.map_values(|c: CellV| c.text),
                );
                seq![gs[0]].lemma_flatten_one_element();
            }
            assert(line_text(b[0]) =~= gs[0] + line_text(rest[0]));
            let bt = b.map_values(|l: LineV| line_text(l));
            let rt = rest.map_values(|l: LineV| line_text(l));
            assert(bt =~= seq![line_text(b[0])] + rt.drop_first());
            assert(rt =~= seq![line_text(rest[0])] + rt.drop_first());
            lemma_flatten_concat(seq![line_text(b[0])], rt.drop_first());
            lemma_flatten_concat(seq![line_text(rest[0])], rt.drop_first());
            seq![line_text(b[0])].lemma_flatten_one_element();
            seq![line_text(rest[0])].lemma_flatten_one_element();
            assert(buffer_text(b) =~= gs[0] + buffer_text(rest));
            assert(gs =~= seq![gs[0]] + gs.drop_first());
            lemma_flatten_concat(seq![gs[0]], gs.drop_first());
            assert(gs.flatten() =~= gs[0] + gs.drop_first().flatten());
        }
    }
}

impl Buffer {
    /// Builds the document for a text: one cell per grapheme cluster, a
    /// terminator closing each line, a sentinel ending every line's cells.
    pub fn from_text(text: &str) -> (r: Buffer)
        ensures
            r@ == lines_of(grapheme_split(text@)),
            buffer_wf(r@),
            buffer_text(r@) == text@,
    {
        let gs = split_graphemes(text);
        let ghost gsv = gs.deep_view();
        let mut done: Vec<LineBr> = Vec::new();
        let mut cur: Vec<Cell> = Vec::new();
        let n = gs.len();
        proof {
            lemma_lines_of_len(gsv);
            assert(gsv.skip(0) =~= gsv);
            assert(done.deep_view() + prepend_cells(cur.deep_view(), lines_of(gsv)) =~~= lines_of(
                gsv,
            ));
        }
        for i in 0..n
            invariant
                n == gs.len(),
                gsv == gs.deep_view(),
                forall|k: int| 0 <= k < gsv.len() ==> (#[trigger] gsv[k]).len() > 0,
                lines_of(gsv) == done.deep_view() + prepend_cells(
                    cur.deep_view(),
                    lines_of(gsv.skip(i as int)),
                ),
        {
            proof {
                assert(gsv.skip(i as int).drop_first() =~= gsv.skip(i + 1));
                lemma_lines_of_len(gsv.skip(i + 1));
                assert(gsv.skip(i as int)[0] == gsv[i as int]);
            }
            let ghost rest = lines_of(gsv.skip(i + 1));
            let ghost pre_done = done.deep_view();
            let ghost pre_cur = cur.deep_view();
            let g = &gs[i];
            assert(g@ == gsv[i as int]);
            if is_linebreak(g.as_str()) {
                cur.push(Cell { text: String::new(), width: 1 });
                done.push(LineBr { cell: cur, brk: g.clone() });
                cur = Vec::new();
                proof {
                    let closed = LineV { cell: pre_cur + seq![sentinel()], brk: gsv[i as int] };
                    assert(done.deep_view() =~~= pre_done.push(closed));
                    assert(prepend_cells(pre_cur, lines_of(gsv.skip(i as int))) =~~= seq![closed]
                        + rest);
                    assert(cur.deep_view() =~= Seq::<CellV>::empty());
                    assert(prepend_cells(cur.deep_view(), rest) =~~= rest);
                    assert(pre_done.push(closed) + rest =~~= pre_done + (seq![closed] + rest));
                }
            } else {
                let w = measure_width(g.as_str());
                cur.push(Cell { text: g.clone(), width: w });
                proof {
                    let cg = CellV { text: gsv[i as int], width: width_of(gsv[i as int]) };
                    assert(cur.deep_view() =~~= pre_cur.push(cg));
                    assert(prepend_cells(pre_cur, lines_of(gsv.skip(i as int)))
                        =~~= prepend_cells(pre_cur.push(cg), rest));
                }
            }
        }
        let ghost end_cur = cur.deep_view();
        let ghost end_done = done.deep_view();
        cur.push(Cell { text: String::new(), width: 1 });
        done.push(LineBr { cell: cur, brk: String::new() });
        let r = Buffer { line: done };
        proof {
            assert(gsv.skip(n as int) =~= Seq::<Seq<char>>::empty());
            assert(lines_of(gsv) == end_done + prepend_cells(
                end_cur,
                lines_of(Seq::<Seq<char>>::empty()),
            ));
            let closed = LineV { cell: end_cur + seq![sentinel()], brk: Seq::empty() };
            assert(prepend_cells(end_cur, lines_of(Seq::<Seq<char>>::empty())) =~~= seq![closed]);
            assert(r@ =~~= end_done.push(closed));
            assert(end_done.push(closed) =~~= end_done + seq![closed]);
            lemma_lines_of_wf(gsv);
            lemma_lines_of_text(gsv);
        }
        r
    }

    /// Serializes the document back to raw text: each line's graphemes,
    /// then its terminator, in order. For a buffer built by `from_text`
    /// this restores the loaded text exactly.
    pub fn text(&self) -> (r: String)
        ensures
            r@ == buffer_text(self@),
    {
        let mut out = String::new();
        let nl = self.line.len();
        proof {
            assert(self@.take(0) =~= Seq::<LineV>::empty());
            assert(buffer_text(self@.take(0)) =~= Seq::<char>::empty()) by {
                assert(Seq::<LineV>::empty().map_values(|l: LineV| line_text(l))
                    =~= Seq::<Seq<char>>::empty());
            }
        }
        for i in 0..nl
            invariant
                nl == self.line.len(),
                out@ == buffer_text(self@.take(i as int)),
        {
            let lb = &self.line[i];
            let nc = lb.cell.len();
            proof {
                assert(lb@.cell.take(0) =~= Seq::<CellV>::empty());
                assert(Seq::<CellV>::empty().map_values(|c: CellV| c.text)
                    =~= Seq::<Seq<char>>::empty());
            }
            for j in 0..nc
                invariant
                    nl == self.line.len(),
                    i < nl,
                    nc == lb.cell.len(),
                    lb@ == self@[i as int],
                    out@ == buffer_text(self@.take(i as int)) + lb@.cell.take(
                        j as int,
                    ).map_values(|c: CellV| c.text).flatten(),
            {
                out.append(lb.cell[j].text.as_str());
                proof {
                    lemma_cell_text_take(lb@.cell, j as int);
                }
            }
            out.append(lb.brk.as_str());
            proof {
                assert(lb@.cell.take(nc as int) =~= lb@.cell);
                lemma_buffer_text_take(self@, i as int);
            }
        }
        proof {
            assert(self@.take(nl as int) =~= self@);
        }
        out
    }

    /// The number of logical lines.
    pub fn rows(&self) -> (r: usize)
        ensures
            r == self@.len(),
    {
        self.line.len()
    }
}

/// The total character count of the first `i` cells of a line.
pub open spec fn len_prefix(cs: Seq<CellV>, i: int) -> int
    decreases i,
{
    if i <= 0 {
        0
    } else {
        len_prefix(cs, i - 1) + cs[i - 1].text.len()
    }
}

/// The total display width of the first `i` cells of a line.
pub open spec fn width_prefix(cs: Seq<CellV>, i: int) -> int
    decreases i,
{
    if i <= 0 {
        0
    } else {
        width_prefix(cs, i - 1) + cs[i - 1].width
    }
}

pub proof fn lemma_len_prefix_mono(cs: Seq<CellV>, i: int, j: int)
    requires
        0 <= i <= j,
    ensures
        len_prefix(cs, i) <= len_prefix(cs, j),
    decreases j - i,
{
    if i < j {
        lemma_len_prefix_mono(cs, i, j - 1);
    }
}

pub proof fn lemma_width_prefix_mono(cs: Seq<CellV>, i: int, j: int)
    requires
        0 <= i <= j,
    ensures
        width_prefix(cs, i) <= width_prefix(cs, j),
    decreases j - i,
{
    if i < j {
        lemma_width_prefix_mono(cs, i, j - 1);
    }
}

/// The character and column extent of one cell within its line.
pub struct CellSpan {
    pub text_start: usize,
    pub text_end: usize,
    pub col_start: usize,
    pub col_end: usize,
}

impl LineBr {
    /// The cells' cumulative extents: cell `i` covers characters
    /// `len_prefix(i) .. len_prefix(i + 1)` and columns
    /// `width_prefix(i) .. width_prefix(i + 1)` of its line.
    pub fn span(&self) -> (r: Vec<CellSpan>)
        requires
            len_prefix(self@.cell, self@.cell.len() as int) <= usize::MAX,
            width_prefix(self@.cell, self@.cell.len() as int) <= usize::MAX,
        ensures
            r@.len() == self@.cell.len(),
            forall|i: int|
                0 <= i < r@.len() ==> {
                    &&& (#[trigger] r@[i]).text_start == len_prefix(self@.cell, i)
                    &&& r@[i].text_end == len_prefix(self@.cell, i + 1)
                    &&& r@[i].col_start == width_prefix(self@.cell, i)
                    &&& r@[i].col_end == width_prefix(self@.cell, i + 1)
                },
    {
        let mut r: Vec<CellSpan> = Vec::new();
        let mut ts: usize = 0;
        let mut cs: usize = 0;
        let n = self.cell.len();
        for i in 0..n
            invariant
                n == self.cell.len(),
                len_prefix(self@.cell, n as int) <= usize::MAX,
                width_prefix(self@.cell, n as int) <= usize::MAX,
                ts == len_prefix(self@.cell, i as int),
                cs == width_prefix(self@.cell, i as int),
                r@.len() == i,
                forall|k: int|
                    0 <= k < i ==> {
                        &&& (#[trigger] r@[k]).text_start == len_prefix(self@.cell, k)
                        &&& r@[k].text_end == len_prefix(self@.cell, k + 1)
                        &&& r@[k].col_start == width_prefix(self@.cell, k)
                        &&& r@[k].col_end == width_prefix(self@.cell, k + 1)
                    },
        {
            let tl = self.cell[i].text.unicode_len();
            let w = self.cell[i].width;
            proof {
                lemma_len_prefix_mono(self@.cell, i + 1, n as int);
                lemma_width_prefix_mono(self@.cell, i + 1, n as int);
            }
            let te = ts + tl;
            let ce = cs + w;
            r.push(CellSpan { text_start: ts, text_end: te, col_start: cs, col_end: ce });
            ts = te;
            cs = ce;
        }
        r
    }

    /// The number of navigable columns of this line: the widths of all its
    /// cells summed, the sentinel's single column included.
    pub fn total_width(&self) -> (r: usize)
        requires
            width_prefix(self@.cell, self@.cell.len() as int) <= usize::MAX,
        ensures
            r == width_prefix(self@.cell, self@.cell.len() as int),
    {
        let mut cs: usize = 0;
        let n = self.cell.len();
        for i in 0..n
            invariant
                n == self.cell.len(),
                width_prefix(self@.cell, n as int) <= usize::MAX,
                cs == width_prefix(self@.cell, i as int),
        {
            proof {
                lemma_width_prefix_mono(self@.cell, i + 1, n as int);
            }
            cs = cs + self.cell[i].width;
        }
        cs
    }
}

pub proof fn lemma_cell_text_take(cs: Seq<CellV>, j: int)
    requires
        0 <= j < cs.len(),
    ensures
        cs.take(j + 1).map_values(|c: CellV| c.text).flatten() == cs.take(j).map_values(
            |c: CellV| c.text,
        ).flatten() + cs[j].text,
{
    assert(cs.take(j + 1) =~= cs.take(j).push(cs[j]));
    assert(cs.take(j + 1).map_values(|c: CellV| c.text) =~= cs.take(j).map_values(
        |c: CellV| c.text,
    ).push(cs[j].text));
    cs.take(j).map_values(|c: CellV| c.text).lemma_flatten_push(cs[j].text);
}

proof fn lemma_buffer_text_take(b: Seq<LineV>, i: int)
    requires
        0 <= i < b.len(),
    ensures
        buffer_text(b.take(i + 1)) == buffer_text(b.take(i)) + line_text(b[i]),
{
    assert(b.take(i + 1) =~= b.take(i).push(b[i]));
    assert(b.take(i + 1).map_values(|l: LineV| line_text(l)) =~= b.take(i).map_values(
        |l: LineV| line_text(l),
    ).push(line_text(b[i])));
    b.take(i).map_values(|l: LineV| line_text(l)).lemma_flatten_push(line_text(b[i]));
}

impl Default for Buffer {
    /// The empty document: a single line holding only the sentinel.
    fn default() -> (r: Buffer)
        ensures
            r@ == lines_of(Seq::<Seq<char>>::empty()),
            buffer_wf(r@),
    {
        let mut cell: Vec<Cell> = Vec::new();
        cell.push(Cell { text: String::new(), width: 1 });
        let mut line: Vec<LineBr> = Vec::new();
        line.push(LineBr { cell, brk: String::new() });
        let r = Buffer { line };
        proof {
            assert(r@ =~~= lines_of(Seq::<Seq<char>>::empty()));
            lemma_lines_of_wf(Seq::<Seq<char>>::empty());
        }
        r
    }
}

} // verus!
