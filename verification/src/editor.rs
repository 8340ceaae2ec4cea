use vstd::prelude::*;
use crate::buffer::{Buffer, LineV, buffer_wf, buffer_text, lines_of, line_content};
use crate::segment::grapheme_split;
use crate::layout::{
    place_spec, sum_rows, render_full_spec, cell_pos, search_offset, render_full, line_scroll,
    lemma_sum_rows_lb, lemma_sum_rows_mono, lemma_sum_rows_nonneg, lemma_place_bounds,
};

verus! {

/// A viewport size: columns and rows of the character grid.
#[derive(PartialEq, Eq, Structural, Clone, Copy, Debug)]
pub struct Size {
    pub width: usize,
    pub height: usize,
}

/// The logical cursor: a line index and a cell index within that line.
/// The cell index may point at the line's sentinel, meaning "past the
/// last character".
#[derive(PartialEq, Eq, Structural, Clone, Copy, Debug)]
pub struct Cursor {
    pub line: usize,
    pub cell: usize,
}

/// A physical screen position, 0-based column and row.
#[derive(PartialEq, Eq, Structural, Clone, Copy, Debug)]
pub struct Point {
    pub col: usize,
    pub row: usize,
}

/// One decoded input event: a forced repaint, a viewport resize, or a
/// cursor movement.
#[derive(PartialEq, Eq, Structural, Clone, Copy, Debug)]
pub enum Action {
    Redraw,
    Resize(Size),
    Up,
    Down,
    Left,
    Right,
}

/// The repaint a step owes the terminal, smallest first: move the cursor
/// alone; scroll one line and paint only what was exposed; or repaint the
/// whole viewport.
#[derive(Debug)]
pub enum Repaint {
    /// No action was given; nothing to do.
    Idle,
    /// Only the terminal cursor moves.
    CursorOnly { cursor: Point },
    /// The viewport offset shrank by one: scroll the screen contents down
    /// by the exposed line's rows and paint it at the top.
    ScrollDown { amount: usize, text: String, cursor: Point },
    /// The viewport offset grew by one: scroll the screen contents up by
    /// the exposed line's rows and paint it at `paint_row`.
    ScrollUp { amount: usize, text: String, paint_row: usize, cursor: Point },
    /// Repaint the whole viewport.
    Full { text: String, cursor: Point },
}

/// Layout failure: the cursor's cell sits so deep in a wrapped line that
/// no viewport offset brings it onto the grid. A bug-free caller can meet
/// it only when a single line wraps over more rows than the screen has.
#[derive(PartialEq, Eq, Structural, Clone, Copy, Debug)]
pub enum ExecError {
    CursorLost,
}

/// The cursor points at an existing cell of an existing line.
pub open spec fn cursor_wf(b: Seq<LineV>, c: Cursor) -> bool {
    &&& (c.line as int) < b.len()
    &&& (c.cell as int) < b[c.line as int].cell.len()
}

/// The cursor placed on line `line`, its cell index clamped to the line's
/// last navigable position.
pub open spec fn clamp_cell(b: Seq<LineV>, line: usize, cell: usize) -> Cursor {
    let n = b[line as int].cell.len();
    if (cell as int) < n {
        Cursor { line, cell }
    } else {
        Cursor { line, cell: (n - 1) as usize }
    }
}

/// One navigation step. Up and Down move between lines, clamping the cell
/// index to the target line; Left and Right move within the line. Each is
/// a no-op at its edge: Up on the first line, Down on the last, Left at
/// cell zero, Right on the sentinel.
pub open spec fn step_spec(b: Seq<LineV>, c: Cursor, a: Action) -> Cursor {
    match a {
        Action::Up => if c.line > 0 {
            clamp_cell(b, (c.line - 1) as usize, c.cell)
        } else {
            c
        },
        Action::Down => if (c.line + 1) < b.len() {
            clamp_cell(b, (c.line + 1) as usize, c.cell)
        } else {
            c
        },
        Action::Left => if c.cell > 0 {
            Cursor { line: c.line, cell: (c.cell - 1) as usize }
        } else {
            c
        },
        Action::Right => if (c.cell + 1) < b[c.line as int].cell.len() {
            Cursor { line: c.line, cell: (c.cell + 1) as usize }
        } else {
            c
        },
        _ => c,
    }
}

/// The smallest offset adjustment that brings the cursor's line into the
/// viewport's line window: pull the top down to the cursor's line, then
/// push it up just enough that the line is within `height` lines of the
/// top. No recentering.
pub open spec fn clamp_offset_spec(offset: int, line: int, height: int) -> int {
    let o1 = if offset <= line {
        offset
    } else {
        line
    };
    if line + 1 >= height {
        if o1 >= line + 1 - height {
            o1
        } else {
            line + 1 - height
        }
    } else {
        o1
    }
}

/// The viewport size after an action.
pub open spec fn size_after(sz: Size, a: Action) -> Size {
    match a {
        Action::Resize(s2) => s2,
        _ => sz,
    }
}

/// Whether an action forces a full repaint: an explicit redraw request,
/// or a resize that changed the viewport.
pub open spec fn forces_redraw(sz: Size, a: Action) -> bool {
    match a {
        Action::Redraw => true,
        Action::Resize(s2) => s2 != sz,
        _ => false,
    }
}

/// The repaint owed for a step: the decision table over the redraw flag
/// and the offset change, each payload pinned. `oo` and `o2` are the old
/// and new offsets, `cline` the cursor's line, `col`/`row` its physical
/// position.
pub open spec fn repaint_post(
    b: Seq<LineV>,
    oo: int,
    o2: int,
    cline: int,
    w: int,
    h: int,
    redraw: bool,
    col: int,
    row: int,
    rp: Repaint,
) -> bool {
    if redraw || o2 - oo > 1 || oo - o2 > 1 {
        rp matches Repaint::Full { text, cursor } && text@ == render_full_spec(b, o2, w, h)
            && cursor.col == col && cursor.row == row
    } else if o2 == oo {
        rp matches Repaint::CursorOnly { cursor } && cursor.col == col && cursor.row == row
    } else if o2 + 1 == oo {
        rp matches Repaint::ScrollDown { amount, text, cursor } && amount == place_spec(
            b[o2].cell,
            b[o2].cell.len() - 1,
            w,
        ).1 + 1 && text@ == line_content(b[o2]) && cursor.col == col && cursor.row == row
    } else {
        rp matches Repaint::ScrollUp { amount, text, paint_row, cursor } && amount == place_spec(
            b[cline].cell,
            b[cline].cell.len() - 1,
            w,
        ).1 + 1 && text@ == line_content(b[cline]) && (paint_row == if amount <= h {
            h - amount
        } else {
            0
        }) && cursor.col == col && cursor.row == row
    }
}

/// Everything one editor step guarantees. With no action, nothing
/// happens. Otherwise the document never changes; the size follows a
/// resize; the cursor takes one navigation step; the step fails exactly
/// when the stepped cursor's row within its own wrapped line is off the
/// grid, and then moves nothing. On success the offset is corrected by
/// the smallest step that keeps the cursor visible — both by physical
/// rows and by line count — and the owed repaint follows the decision
/// table of `repaint_post`.
pub open spec fn exec_post(
    pre: Editor,
    post: Editor,
    acts: Seq<Action>,
    r: Result<Repaint, ExecError>,
) -> bool {
    let b = pre.spec_buffer();
    if acts.len() == 0 {
        &&& r == Ok::<Repaint, ExecError>(Repaint::Idle)
        &&& post == pre
    } else {
        let a = acts[0];
        let sz = size_after(pre.spec_size(), a);
        let w = sz.width as int;
        let h = sz.height as int;
        let c2 = step_spec(b, pre.spec_cursor(), a);
        let pos = place_spec(b[c2.line as int].cell, c2.cell as int, w);
        let o1 = clamp_offset_spec(pre.spec_offset(), c2.line as int, h);
        &&& post.spec_buffer() == b
        &&& post.spec_size() == sz
        &&& cursor_wf(b, post.spec_cursor())
        &&& (r is Err <==> pos.1 >= h)
        &&& (r is Err ==> r == Err::<Repaint, ExecError>(ExecError::CursorLost)
            && post.spec_cursor() == pre.spec_cursor() && post.spec_offset() == pre.spec_offset())
        &&& (r is Ok ==> {
            let o2 = post.spec_offset();
            let crow = sum_rows(b, o2, c2.line as int, w) + pos.1;
            &&& post.spec_cursor() == c2
            &&& o1 <= o2 <= c2.line as int
            &&& crow < h
            &&& 0 <= crow
            &&& (pos.0 < w || pos.0 == 0)
            &&& (o2 > o1 ==> sum_rows(b, o2 - 1, c2.line as int, w) + pos.1 >= h)
            &&& o2 <= c2.line as int
            &&& (c2.line as int) < o2 + h
            &&& repaint_post(
                b,
                pre.spec_offset(),
                o2,
                c2.line as int,
                w,
                h,
                forces_redraw(pre.spec_size(), a),
                pos.0,
                crow,
                r->Ok_0,
            )
        })
    }
}

/// The whole viewer state: the document, the viewport size, the logical
/// cursor, and the index of the first visible line. Navigation never
/// mutates the document.
pub struct Editor {
    buffer: Buffer,
    size: Size,
    cursor: Cursor,
    offset: usize,
}

impl Editor {
    /// Every editor value keeps a well-formed document and a cursor on an
    /// existing cell of an existing line.
    #[verifier::type_invariant]
    spec fn inv(self) -> bool {
        &&& buffer_wf(self.buffer@)
        &&& cursor_wf(self.buffer@, self.cursor)
    }

    /// The document's model.
    pub closed spec fn spec_buffer(self) -> Seq<LineV> {
        self.buffer@
    }

    /// The logical cursor.
    pub closed spec fn spec_cursor(self) -> Cursor {
        self.cursor
    }

    /// The index of the first visible line.
    pub closed spec fn spec_offset(self) -> int {
        self.offset as int
    }

    /// The viewport size.
    pub closed spec fn spec_size(self) -> Size {
        self.size
    }

    /// Opens a document: the text split into lines and cells, the cursor
    /// at the origin, the viewport not yet sized.
    pub fn open(text: &str) -> (e: Editor)
        ensures
            e.spec_buffer() == lines_of(grapheme_split(text@)),
            buffer_wf(e.spec_buffer()),
            buffer_text(e.spec_buffer()) == text@,
            e.spec_cursor() == (Cursor { line: 0, cell: 0 }),
            e.spec_offset() == 0,
            e.spec_size() == (Size { width: 0, height: 0 }),
    {
        let buffer = Buffer::from_text(text);
        assert(buffer@[0].cell.len() >= 1);
        Editor {
            buffer,
            size: Size { width: 0, height: 0 },
            cursor: Cursor { line: 0, cell: 0 },
            offset: 0,
        }
    }

    /// Serializes the document for saving. Opening a text and saving it
    /// with no intervening edit restores it exactly.
    pub fn save_text(&self) -> (r: String)
        ensures
            r@ == buffer_text(self.spec_buffer()),
    {
        self.buffer.text()
    }

    /// The document. Cursor bounds hold of every editor value: its line
    /// and cell indices are in range.
    pub fn buffer(&self) -> (r: &Buffer)
        ensures
            r@ == self.spec_buffer(),
            buffer_wf(r@),
    {
        proof {
            use_type_invariant(self);
        }
        &self.buffer
    }

    /// The logical cursor. Cursor bounds hold of every editor value: the
    /// returned indices point at an existing cell of an existing line.
    pub fn cursor(&self) -> (c: Cursor)
        ensures
            c == self.spec_cursor(),
            cursor_wf(self.spec_buffer(), c),
    {
        proof {
            use_type_invariant(self);
        }
        self.cursor
    }

    /// The index of the first visible line.
    pub fn offset(&self) -> (o: usize)
        ensures
            o as int == self.spec_offset(),
    {
        self.offset
    }

    /// The viewport size.
    pub fn size(&self) -> (s: Size)
        ensures
            s == self.spec_size(),
    {
        self.size
    }

    /// The cursor placed on `line` with its cell index clamped to the
    /// line's cell count; see `clamp_cell`.
    fn clamp(buf: &Buffer, line: usize, cell: usize) -> (c: Cursor)
        requires
            buffer_wf(buf@),
            (line as int) < buf@.len(),
        ensures
            c == clamp_cell(buf@, line, cell),
            cursor_wf(buf@, c),
    {
        let lb = &buf.line[line];
        assert(lb@ == buf@[line as int]);
        let n = lb.cell.len();
        assert(n == buf@[line as int].cell.len());
        if cell < n {
            Cursor { line, cell }
        } else {
            Cursor { line, cell: n - 1 }
        }
    }

    /// Runs one step of the viewer: applies the first action, resolves
    /// the cursor on the grid, corrects the viewport offset, and plans
    /// the repaint; see `exec_post` for the full guarantee.
    pub fn exec(&mut self, action: Vec<Action>) -> (r: Result<Repaint, ExecError>)
        ensures
            exec_post(*old(self), *final(self), action@, r),
    {
        proof {
            use_type_invariant(&*self);
        }
        let ghost pre = *self;
        if action.len() == 0 {
            return Ok(Repaint::Idle);
        }
        let a = action[0];
        let mut redraw = matches!(a, Action::Redraw);
        if let Action::Resize(sz) = a {
            if self.size != sz {
                self.size = sz;
                redraw = true;
            }
        }
        assert(self.size == size_after(pre.spec_size(), a));
        assert(redraw == forces_redraw(pre.spec_size(), a));
        let width = self.size.width;
        let height = self.size.height;
        let ghost b = self.buffer@;
        let nlines = self.buffer.line.len();
        assert(b.len() == nlines);

        // One navigation step on the logical cursor.
        let c0 = self.cursor;
        let c1 = match a {
            Action::Up => if c0.line > 0 {
                Self::clamp(&self.buffer, c0.line - 1, c0.cell)
            } else {
                c0
            },
            Action::Down => if c0.line + 1 < nlines {
                Self::clamp(&self.buffer, c0.line + 1, c0.cell)
            } else {
                c0
            },
            Action::Left => if c0.cell > 0 {
                Cursor { line: c0.line, cell: c0.cell - 1 }
            } else {
                c0
            },
            Action::Right => {
                let lb = &self.buffer.line[c0.line];
                assert(lb@ == b[c0.line as int]);
                let n = lb.cell.len();
                if c0.cell + 1 < n {
                    Cursor { line: c0.line, cell: c0.cell + 1 }
                } else {
                    c0
                }
            },
            _ => c0,
        };
        assert(c1 == step_spec(b, c0, a));
        assert(cursor_wf(b, c1));

        // The line-window clamp of the offset.
        let mut o1 = if self.offset < c1.line {
            self.offset
        } else {
            c1.line
        };
        if c1.line + 1 >= height {
            let lo = c1.line + 1 - height;
            if o1 < lo {
                o1 = lo;
            }
        }
        assert(o1 as int == clamp_offset_spec(pre.spec_offset(), c1.line as int, height as int));

        // The cursor's position within its own wrapped line.
        let lb = &self.buffer.line[c1.line];
        assert(lb@ == b[c1.line as int]);
        let (colc, rowc) = cell_pos(lb, c1.cell, width);
        if rowc >= height {
            return Err(ExecError::CursorLost);
        }

        // The search for an offset that shows the cursor.
        assert(forall|i: int| 0 <= i < b.len() ==> (#[trigger] b[i]).cell.len() >= 1);
        let (o2, crow) = search_offset(&self.buffer, c1.line, rowc, o1, width, height);
        proof {
            lemma_sum_rows_lb(b, o2 as int, c1.line as int, width as int);
            lemma_place_bounds(b[c1.line as int].cell, c1.cell as int, width as int);
        }

        let oo = self.offset;
        self.cursor = c1;
        self.offset = o2;
        let cpt = Point { col: colc, row: crow };

        // The repaint decision table.
        let rp = if redraw || o2 > oo && o2 - oo > 1 || oo > o2 && oo - o2 > 1 {
            Repaint::Full { text: render_full(&self.buffer, o2, width, height), cursor: cpt }
        } else if o2 == oo {
            Repaint::CursorOnly { cursor: cpt }
        } else if o2 < oo {
            let lb2 = &self.buffer.line[o2];
            assert(lb2@ == b[o2 as int]);
            let (text, amount) = line_scroll(lb2, width);
            Repaint::ScrollDown { amount, text, cursor: cpt }
        } else {
            let lb2 = &self.buffer.line[c1.line];
            assert(lb2@ == b[c1.line as int]);
            let (text, amount) = line_scroll(lb2, width);
            let paint_row = if amount <= height {
                height - amount
            } else {
                0
            };
            Repaint::ScrollUp { amount, text, paint_row, cursor: cpt }
        };
        Ok(rp)
    }
}

/// No-op edges: Left at cell zero, Right on the sentinel, Up on the
/// first line and Down on the last line move nothing. From a state whose
/// cursor is visible at the current offset, a step on such an action
/// succeeds, keeps the cursor, the offset and the size, and owes only a
/// bare cursor move to the position the cursor already had.
pub proof fn lemma_noop_edges(
    pre: Editor,
    post: Editor,
    a: Action,
    r: Result<Repaint, ExecError>,
)
    requires
        exec_post(pre, post, seq![a], r),
        buffer_wf(pre.spec_buffer()),
        cursor_wf(pre.spec_buffer(), pre.spec_cursor()),
        0 <= pre.spec_offset() <= pre.spec_cursor().line as int,
        sum_rows(
            pre.spec_buffer(),
            pre.spec_offset(),
            pre.spec_cursor().line as int,
            pre.spec_size().width as int,
        ) + place_spec(
            pre.spec_buffer()[pre.spec_cursor().line as int].cell,
            pre.spec_cursor().cell as int,
            pre.spec_size().width as int,
        ).1 < pre.spec_size().height as int,
        match a {
            Action::Left => pre.spec_cursor().cell == 0,
            Action::Right => pre.spec_cursor().cell as int + 1 == pre.spec_buffer()[
                pre.spec_cursor().line as int
            ].cell.len(),
            Action::Up => pre.spec_cursor().line == 0,
            Action::Down => pre.spec_cursor().line as int + 1 == pre.spec_buffer().len(),
            _ => false,
        },
    ensures
        r is Ok,
        post.spec_cursor() == pre.spec_cursor(),
        post.spec_offset() == pre.spec_offset(),
        post.spec_size() == pre.spec_size(),
        r->Ok_0 matches Repaint::CursorOnly { cursor } && cursor.col == place_spec(
            pre.spec_buffer()[pre.spec_cursor().line as int].cell,
            pre.spec_cursor().cell as int,
            pre.spec_size().width as int,
        ).0 && cursor.row == sum_rows(
            pre.spec_buffer(),
            pre.spec_offset(),
            pre.spec_cursor().line as int,
            pre.spec_size().width as int,
        ) + place_spec(
            pre.spec_buffer()[pre.spec_cursor().line as int].cell,
            pre.spec_cursor().cell as int,
            pre.spec_size().width as int,
        ).1,
{
    let b = pre.spec_buffer();
    let c = pre.spec_cursor();
    let w = pre.spec_size().width as int;
    let h = pre.spec_size().height as int;
    let off = pre.spec_offset();
    assert(step_spec(b, c, a) == c);
    assert(size_after(pre.spec_size(), a) == pre.spec_size());
    assert(!forces_redraw(pre.spec_size(), a));
    assert(forall|i: int| 0 <= i < b.len() ==> (#[trigger] b[i]).cell.len() >= 1);
    let pos = place_spec(b[c.line as int].cell, c.cell as int, w);
    lemma_place_bounds(b[c.line as int].cell, c.cell as int, w);
    lemma_sum_rows_nonneg(b, off, c.line as int, w);
    assert(pos.1 < h);
    assert(r is Ok);
    lemma_sum_rows_lb(b, off, c.line as int, w);
    assert(clamp_offset_spec(off, c.line as int, h) == off);
    let o2 = post.spec_offset();
    if o2 > off {
        lemma_sum_rows_mono(b, off, o2 - 1, c.line as int, w);
        assert(false);
    }
    assert(o2 == off);
}

} // verus!
