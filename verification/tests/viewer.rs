use textview::buffer::Buffer;
use textview::editor::{Action, Cursor, Editor, ExecError, Point, Repaint, Size};
use textview::layout::{cell_pos, line_rows};
use textview::segment::is_linebreak;

fn resize(e: &mut Editor, w: usize, h: usize) -> Repaint {
    e.exec(vec![Action::Resize(Size { width: w, height: h })]).unwrap()
}

fn step(e: &mut Editor, a: Action) -> Repaint {
    e.exec(vec![a]).unwrap()
}

fn round_trip(input: &str) {
    let e = Editor::open(input);
    let out = e.save_text();
    assert_eq!(out.as_bytes(), input.as_bytes());
    assert_eq!(out, input);
}

#[test]
fn round_trip_empty() {
    round_trip("");
}

#[test]
fn round_trip_plain() {
    round_trip("ab\ncd");
}

#[test]
fn round_trip_trailing_newline() {
    round_trip("ab\ncd\n");
}

#[test]
fn round_trip_crlf() {
    round_trip("a\r\nb");
}

#[test]
fn round_trip_mixed_terminators() {
    round_trip("one\u{000B}two\u{000C}three\u{0085}four\u{2028}five\u{2029}six\r\n\n\r");
}

#[test]
fn round_trip_unicode() {
    round_trip("h\u{00E9}llo w\u{00F6}rld \u{5BBD}\u{5B57} e\u{0301}\n");
}

#[test]
fn round_trip_survives_navigation() {
    let mut e = Editor::open("ab\ncd\n");
    resize(&mut e, 10, 5);
    step(&mut e, Action::Down);
    step(&mut e, Action::Right);
    step(&mut e, Action::Up);
    assert_eq!(e.save_text(), "ab\ncd\n");
}

#[test]
fn linebreak_variants() {
    assert!(is_linebreak("\n"));
    assert!(is_linebreak("\u{000B}"));
    assert!(is_linebreak("\u{000C}"));
    assert!(is_linebreak("\r"));
    assert!(is_linebreak("\u{0085}"));
    assert!(is_linebreak("\u{2028}"));
    assert!(is_linebreak("\u{2029}"));
    assert!(is_linebreak("\r\n"));
    assert!(!is_linebreak(""));
    assert!(!is_linebreak("a"));
    assert!(!is_linebreak("ab"));
    assert!(!is_linebreak("\n\n"));
    assert!(!is_linebreak("\u{2030}"));
}

#[test]
fn buffer_lines() {
    assert_eq!(Buffer::from_text("").rows(), 1);
    assert_eq!(Buffer::from_text("ab").rows(), 1);
    assert_eq!(Buffer::from_text("ab\ncd").rows(), 2);
    assert_eq!(Buffer::from_text("ab\ncd\n").rows(), 3);
    assert_eq!(Buffer::from_text("\r\n").rows(), 2);
    assert_eq!(Buffer::default().rows(), 1);
    assert_eq!(Buffer::default().text(), "");
}

#[test]
fn span_extents() {
    // 'a' and 'b' are single-width; U+5BBD is one double-width character;
    // the sentinel closes the line with one column and no text.
    let b = Buffer::from_text("ab\u{5BBD}");
    let l = &b.line[0];
    let spans = l.span();
    assert_eq!(spans.len(), 4);
    let got: Vec<(usize, usize, usize, usize)> =
        spans.iter().map(|s| (s.text_start, s.text_end, s.col_start, s.col_end)).collect();
    assert_eq!(got, vec![(0, 1, 0, 1), (1, 2, 1, 2), (2, 3, 2, 4), (3, 3, 4, 5)]);
    assert_eq!(l.total_width(), 5);
}

#[test]
fn span_combining_cluster() {
    // "e" plus a combining acute is one two-character cell of width one.
    let b = Buffer::from_text("e\u{0301}x");
    let l = &b.line[0];
    let spans = l.span();
    assert_eq!(spans.len(), 3);
    assert_eq!((spans[0].text_start, spans[0].text_end), (0, 2));
    assert_eq!((spans[0].col_start, spans[0].col_end), (0, 1));
    assert_eq!((spans[1].text_start, spans[1].text_end), (2, 3));
}

#[test]
fn wrap_row_counts() {
    let b = Buffer::from_text("abcd");
    let l = &b.line[0];
    // Content width 4 plus the sentinel: ceil(5/5) = 1 row at width 5;
    // at width 4 the content ends exactly at the right edge, and the
    // eat-newline glitch keeps it at ceil(5/4) - 1 = 1 row; at width 2 it
    // is ceil(5/2) - 1 = 2.
    assert_eq!(line_rows(l, 5), 1);
    assert_eq!(line_rows(l, 4), 1);
    assert_eq!(line_rows(l, 2), 2);
    assert_eq!(line_rows(l, 3), 2);
    assert_eq!(line_rows(l, 1), 4);

    let b2 = Buffer::from_text("abcde");
    assert_eq!(line_rows(&b2.line[0], 4), 2);

    let b3 = Buffer::from_text("");
    assert_eq!(line_rows(&b3.line[0], 4), 1);
    assert_eq!(line_rows(&b3.line[0], 1), 1);
}

#[test]
fn wrap_row_counts_wide_cells() {
    // Two double-width cells: on a three-column grid the second straddles
    // the edge; the walk lands at column zero of a fresh row, but nothing
    // filled the last column, the terminal eats no line break, and the
    // line keeps its closing advance: two rows. On a four-column grid the
    // same cells fill the row exactly, and the glitch claims one.
    let b = Buffer::from_text("\u{5BBD}\u{5BBD}");
    let l = &b.line[0];
    assert_eq!(line_rows(l, 3), 2);
    assert_eq!(line_rows(l, 4), 1);
    assert_eq!(line_rows(l, 2), 2);
    // A single cell wider than the whole screen.
    let b2 = Buffer::from_text("\u{5BBD}");
    assert_eq!(line_rows(&b2.line[0], 1), 2);
}

#[test]
fn straddle_keeps_cursor_and_paint_in_step() {
    // The first line's second wide cell straddles a three-column grid, so
    // the line claims two rows and the second line is painted at row 2 —
    // and the cursor lands on that same row when it moves there.
    let mut e = Editor::open("\u{5BBD}\u{5BBD}\nx");
    let rp = resize(&mut e, 3, 24);
    match rp {
        Repaint::Full { text, cursor } => {
            assert_eq!(text, "\u{5BBD}\u{5BBD}\r\nx\r\n");
            assert_eq!(cursor, Point { col: 0, row: 0 });
        }
        _ => panic!("expected a full repaint"),
    }
    let rp = step(&mut e, Action::Down);
    assert_eq!(e.cursor(), Cursor { line: 1, cell: 0 });
    match rp {
        Repaint::CursorOnly { cursor } => assert_eq!(cursor, Point { col: 0, row: 2 }),
        _ => panic!("expected a bare cursor move"),
    }
}

#[test]
fn cell_positions() {
    let b = Buffer::from_text("abcd\u{5BBD}");
    let l = &b.line[0];
    assert_eq!(cell_pos(l, 0, 4), (0, 0));
    assert_eq!(cell_pos(l, 3, 4), (3, 0));
    // The fourth cell ends exactly at the right edge: the next cell
    // starts on a fresh row, with no blank row in between.
    assert_eq!(cell_pos(l, 4, 4), (0, 1));
    // The double-width cell then occupies two columns of that row.
    assert_eq!(cell_pos(l, 5, 4), (2, 1));
}

#[test]
fn scenario_empty_file() {
    // An empty file is one line holding only the sentinel; the first
    // frame is a full repaint with the cursor at the origin.
    let mut e = Editor::open("");
    assert_eq!(e.buffer().rows(), 1);
    assert_eq!(e.buffer().line[0].span().len(), 1);
    let rp = resize(&mut e, 80, 24);
    match rp {
        Repaint::Full { text, cursor } => {
            assert_eq!(text, "\r\n");
            assert_eq!(cursor, Point { col: 0, row: 0 });
        }
        _ => panic!("expected a full repaint"),
    }
    assert_eq!(e.cursor(), Cursor { line: 0, cell: 0 });
    assert_eq!(e.offset(), 0);
}

#[test]
fn scenario_wrap_per_character() {
    // Width 1 forces a wrap after every character: "ab" occupies rows 0
    // and 1, and the line claims both, so moving down lands the cursor on
    // physical row 2.
    let mut e = Editor::open("ab\ncd");
    let rp = resize(&mut e, 1, 24);
    match rp {
        Repaint::Full { text, cursor } => {
            assert_eq!(text, "ab\r\ncd\r\n");
            assert_eq!(cursor, Point { col: 0, row: 0 });
        }
        _ => panic!("expected a full repaint"),
    }
    let rp = step(&mut e, Action::Down);
    assert_eq!(e.cursor(), Cursor { line: 1, cell: 0 });
    assert_eq!(e.offset(), 0);
    match rp {
        Repaint::CursorOnly { cursor } => assert_eq!(cursor, Point { col: 0, row: 2 }),
        _ => panic!("expected a bare cursor move"),
    }
}

#[test]
fn scenario_wrap_per_character_short_screen() {
    // With only two rows the first line fills the screen, so moving down
    // scrolls the view by one line.
    let mut e = Editor::open("ab\ncd");
    let rp = resize(&mut e, 1, 2);
    match rp {
        Repaint::Full { text, .. } => assert_eq!(text, "a"),
        _ => panic!("expected a full repaint"),
    }
    let rp = step(&mut e, Action::Down);
    assert_eq!(e.cursor(), Cursor { line: 1, cell: 0 });
    assert_eq!(e.offset(), 1);
    match rp {
        Repaint::ScrollUp { amount, text, paint_row, cursor } => {
            assert_eq!(amount, 3);
            assert_eq!(text, "cd");
            assert_eq!(paint_row, 0);
            assert_eq!(cursor, Point { col: 0, row: 0 });
        }
        _ => panic!("expected a one-line scroll"),
    }
}

#[test]
fn scenario_glitch_before_wide_cell() {
    // A line of exactly `width` single-width cells followed by a
    // double-width cell: the wrap lands the wide cell at the start of the
    // next row, with no spurious blank row in between.
    let mut e = Editor::open("abcd\u{5BBD}");
    resize(&mut e, 4, 24);
    for _ in 0..3 {
        step(&mut e, Action::Right);
    }
    let rp = step(&mut e, Action::Right);
    assert_eq!(e.cursor(), Cursor { line: 0, cell: 4 });
    match rp {
        Repaint::CursorOnly { cursor } => assert_eq!(cursor, Point { col: 0, row: 1 }),
        _ => panic!("expected a bare cursor move"),
    }
    // One more step rests on the sentinel, after the two-column cell.
    let rp = step(&mut e, Action::Right);
    assert_eq!(e.cursor(), Cursor { line: 0, cell: 5 });
    match rp {
        Repaint::CursorOnly { cursor } => assert_eq!(cursor, Point { col: 2, row: 1 }),
        _ => panic!("expected a bare cursor move"),
    }
    // And a further step past the sentinel does nothing.
    let rp = step(&mut e, Action::Right);
    assert_eq!(e.cursor(), Cursor { line: 0, cell: 5 });
    match rp {
        Repaint::CursorOnly { cursor } => assert_eq!(cursor, Point { col: 2, row: 1 }),
        _ => panic!("expected a bare cursor move"),
    }
}

#[test]
fn noop_edges_leave_state() {
    let mut e = Editor::open("ab\ncd");
    resize(&mut e, 80, 24);
    // Up on the first line.
    let rp = step(&mut e, Action::Up);
    assert_eq!(e.cursor(), Cursor { line: 0, cell: 0 });
    assert_eq!(e.offset(), 0);
    assert!(matches!(rp, Repaint::CursorOnly { cursor: Point { col: 0, row: 0 } }));
    // Left at cell zero.
    let rp = step(&mut e, Action::Left);
    assert_eq!(e.cursor(), Cursor { line: 0, cell: 0 });
    assert!(matches!(rp, Repaint::CursorOnly { cursor: Point { col: 0, row: 0 } }));
    // Down on the last line.
    step(&mut e, Action::Down);
    let rp = step(&mut e, Action::Down);
    assert_eq!(e.cursor(), Cursor { line: 1, cell: 0 });
    assert_eq!(e.offset(), 0);
    assert!(matches!(rp, Repaint::CursorOnly { cursor: Point { col: 0, row: 1 } }));
    // Right on the sentinel.
    step(&mut e, Action::Right);
    step(&mut e, Action::Right);
    assert_eq!(e.cursor(), Cursor { line: 1, cell: 2 });
    let rp = step(&mut e, Action::Right);
    assert_eq!(e.cursor(), Cursor { line: 1, cell: 2 });
    assert!(matches!(rp, Repaint::CursorOnly { cursor: Point { col: 2, row: 1 } }));
}

#[test]
fn cursor_bounds_hold_under_command_storm() {
    let mut e = Editor::open("ab\n\u{5BBD}cd\n\ne\u{0301}fg");
    resize(&mut e, 3, 4);
    let cmds = [
        Action::Down, Action::Right, Action::Right, Action::Down, Action::Left, Action::Up,
        Action::Right, Action::Down, Action::Down, Action::Down, Action::Right, Action::Right,
        Action::Up, Action::Left, Action::Up, Action::Up, Action::Left, Action::Down,
    ];
    for (i, a) in cmds.iter().cycle().take(100).enumerate() {
        let r = e.exec(vec![*a]);
        assert!(r.is_ok(), "step {} failed", i);
        let c = e.cursor();
        let b = e.buffer();
        assert!(c.line < b.rows());
        assert!(c.cell < b.line[c.line].span().len());
        // Viewport containment.
        assert!(e.offset() <= c.line);
        assert!(c.line < e.offset() + 4);
    }
}

#[test]
fn scroll_down_and_up_one_line() {
    let mut e = Editor::open("a\nb\nc");
    resize(&mut e, 80, 2);
    let rp = step(&mut e, Action::Down);
    assert!(matches!(rp, Repaint::CursorOnly { cursor: Point { col: 0, row: 1 } }));
    let rp = step(&mut e, Action::Down);
    assert_eq!(e.offset(), 1);
    match rp {
        Repaint::ScrollUp { amount, text, paint_row, cursor } => {
            assert_eq!(amount, 1);
            assert_eq!(text, "c");
            assert_eq!(paint_row, 1);
            assert_eq!(cursor, Point { col: 0, row: 1 });
        }
        _ => panic!("expected a one-line scroll up"),
    }
    let rp = step(&mut e, Action::Up);
    assert_eq!(e.offset(), 1);
    assert!(matches!(rp, Repaint::CursorOnly { cursor: Point { col: 0, row: 0 } }));
    let rp = step(&mut e, Action::Up);
    assert_eq!(e.offset(), 0);
    match rp {
        Repaint::ScrollDown { amount, text, cursor } => {
            assert_eq!(amount, 1);
            assert_eq!(text, "a");
            assert_eq!(cursor, Point { col: 0, row: 0 });
        }
        _ => panic!("expected a one-line scroll down"),
    }
}

#[test]
fn offset_jump_repaints_fully() {
    // Stepping onto a line below a tall wrapped line pushes the offset by
    // two at once, which demands a full repaint rather than a scroll.
    let mut e = Editor::open("a\ndddd\nx");
    resize(&mut e, 1, 3);
    let rp = step(&mut e, Action::Down);
    assert!(matches!(rp, Repaint::CursorOnly { cursor: Point { col: 0, row: 1 } }));
    let rp = step(&mut e, Action::Down);
    assert_eq!(e.offset(), 2);
    match rp {
        Repaint::Full { text, cursor } => {
            assert_eq!(text, "x\r\n");
            assert_eq!(cursor, Point { col: 0, row: 0 });
        }
        _ => panic!("expected a full repaint"),
    }
}

#[test]
fn column_clamps_on_vertical_move() {
    let mut e = Editor::open("abcd\nx\nefgh");
    resize(&mut e, 80, 24);
    for _ in 0..4 {
        step(&mut e, Action::Right);
    }
    assert_eq!(e.cursor(), Cursor { line: 0, cell: 4 });
    // The short middle line clamps the cell index to its sentinel.
    step(&mut e, Action::Down);
    assert_eq!(e.cursor(), Cursor { line: 1, cell: 1 });
    // Moving on down keeps the clamped index; no remembered column.
    step(&mut e, Action::Down);
    assert_eq!(e.cursor(), Cursor { line: 2, cell: 1 });
}

#[test]
fn cursor_lost_when_line_outgrows_screen() {
    let mut e = Editor::open("abcdefgh");
    resize(&mut e, 4, 1);
    for _ in 0..3 {
        assert!(e.exec(vec![Action::Right]).is_ok());
    }
    assert_eq!(e.cursor(), Cursor { line: 0, cell: 3 });
    // The next cell sits on the second wrapped row, below a one-row
    // screen: no offset can show it.
    let r = e.exec(vec![Action::Right]);
    assert_eq!(r.unwrap_err(), ExecError::CursorLost);
    // The failed step moved nothing.
    assert_eq!(e.cursor(), Cursor { line: 0, cell: 3 });
    assert_eq!(e.offset(), 0);
}

#[test]
fn zero_height_screen_loses_cursor() {
    let mut e = Editor::open("x");
    let r = e.exec(vec![Action::Resize(Size { width: 5, height: 0 })]);
    assert_eq!(r.unwrap_err(), ExecError::CursorLost);
}

#[test]
fn idle_and_redraw() {
    let mut e = Editor::open("ab");
    resize(&mut e, 80, 24);
    assert!(matches!(e.exec(vec![]).unwrap(), Repaint::Idle));
    // An equal resize is no redraw: just the cursor.
    let rp = resize(&mut e, 80, 24);
    assert!(matches!(rp, Repaint::CursorOnly { .. }));
    // An explicit redraw repaints everything.
    let rp = step(&mut e, Action::Redraw);
    match rp {
        Repaint::Full { text, cursor } => {
            assert_eq!(text, "ab\r\n");
            assert_eq!(cursor, Point { col: 0, row: 0 });
        }
        _ => panic!("expected a full repaint"),
    }
}

#[test]
fn full_repaint_clips_to_viewport() {
    let mut e = Editor::open("abcdefgh\nzz");
    let rp = resize(&mut e, 4, 2);
    match rp {
        Repaint::Full { text, .. } => {
            // Rows 0 and 1 hold "abcd" and "efgh"; the cell that would
            // land in the bottom-right corner is withheld, and no second
            // line fits.
            assert_eq!(text, "abcdefg");
        }
        _ => panic!("expected a full repaint"),
    }
}
