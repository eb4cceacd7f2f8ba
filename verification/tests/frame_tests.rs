use tuinix::{
    EstimateCharWidth, TerminalChar, TerminalColor, TerminalError, TerminalFrame,
    TerminalPosition, TerminalSize, TerminalStyle,
};
use unicode_width::UnicodeWidthChar;

struct UnicodeCharWidthEstimator;

impl EstimateCharWidth for UnicodeCharWidthEstimator {
    fn estimate_char_width(&self, c: char) -> usize {
        c.width().unwrap_or_default()
    }
}

fn real_cells<W>(frame: &TerminalFrame<W>) -> Vec<(TerminalPosition, TerminalChar)> {
    frame
        .chars()
        .into_iter()
        .filter(|(_, c)| c.value != ' ')
        .collect()
}

#[test]
fn unicode_char_width() {
    let size = TerminalSize::rows_cols(10, 20);
    let mut frame = TerminalFrame::with_char_width_estimator(size, UnicodeCharWidthEstimator);

    // Write Japanese characters "おはよう" (good morning)
    frame.write_str("おはよう").unwrap();

    // Check the cursor position - each character should take 2 columns
    assert_eq!(frame.cursor().col, 8); // 4 characters × 2 columns each = 8

    // Verify each character is stored correctly with proper width
    let chars: Vec<_> = frame
        .chars()
        .into_iter()
        .filter(|(_, c)| c.value != ' ')
        .collect();

    assert_eq!(chars.len(), 4);
    assert_eq!(chars[0].1.value, 'お');
    assert_eq!(chars[0].1.width, 2);
    assert_eq!(chars[1].1.value, 'は');
    assert_eq!(chars[1].1.width, 2);
    assert_eq!(chars[2].1.value, 'よ');
    assert_eq!(chars[2].1.width, 2);
    assert_eq!(chars[3].1.value, 'う');
    assert_eq!(chars[3].1.width, 2);

    // Check positions of each character
    assert_eq!(chars[0].0, TerminalPosition::row_col(0, 0));
    assert_eq!(chars[1].0, TerminalPosition::row_col(0, 2));
    assert_eq!(chars[2].0, TerminalPosition::row_col(0, 4));
    assert_eq!(chars[3].0, TerminalPosition::row_col(0, 6));
}

#[test]
fn wide_cells_shadow_the_columns_behind_them() {
    let size = TerminalSize::rows_cols(10, 20);
    let mut frame = TerminalFrame::with_char_width_estimator(size, UnicodeCharWidthEstimator);
    frame.write_str("おはよう").unwrap();
    assert_eq!(frame.cursor(), TerminalPosition::row_col(0, 8));
    for col in [0, 2, 4, 6] {
        let cell = frame.get_char(TerminalPosition::row_col(0, col)).unwrap();
        assert_eq!(cell.width, 2);
    }
    for col in [1, 3, 5, 7] {
        assert_eq!(frame.get_char(TerminalPosition::row_col(0, col)), None);
    }
    assert_eq!(
        frame.get_char(TerminalPosition::row_col(0, 8)),
        Some(TerminalChar::blank(TerminalStyle::new()))
    );
    // 4 wide cells, 12 blanks on the first row, 20 blanks on each other row
    assert_eq!(frame.chars().len(), 4 + 12 + 9 * 20);
}

#[test]
fn every_cell_lies_inside_the_frame() {
    let size = TerminalSize::rows_cols(2, 3);
    let mut frame: TerminalFrame = TerminalFrame::new(size);
    frame.write_str("abcdef\nghijkl\nmnopqr").unwrap();
    let cells = real_cells(&frame);
    assert_eq!(cells.len(), 6);
    for (position, _) in &cells {
        assert!(size.contains(*position));
        assert!(size.to_region().contains(*position));
    }
    let values: String = cells.iter().map(|(_, c)| c.value).collect();
    assert_eq!(values, "abcghi");
    assert_eq!(frame.cursor(), TerminalPosition::row_col(2, 6));
}

#[test]
fn newlines_move_the_cursor_down() {
    let mut frame: TerminalFrame = TerminalFrame::new(TerminalSize::rows_cols(5, 10));
    frame.write_str("ab").unwrap();
    assert_eq!(frame.cursor(), TerminalPosition::row_col(0, 2));
    frame.write_str("cd\n\nef\n").unwrap();
    assert_eq!(frame.cursor(), TerminalPosition::row_col(3, 0));
    frame.write_str("xyz").unwrap();
    assert_eq!(frame.cursor(), TerminalPosition::row_col(3, 3));
}

#[test]
fn a_newline_inside_an_escape_sequence_is_not_a_line_break() {
    let mut frame: TerminalFrame = TerminalFrame::new(TerminalSize::rows_cols(5, 10));
    assert_eq!(
        frame.write_str("ab\x1b\nm"),
        Err(TerminalError::InvalidStyleEscape)
    );
    assert_eq!(frame.cursor(), TerminalPosition::row_col(0, 2));
    // the sink is usable again
    frame.write_str("c\n").unwrap();
    assert_eq!(frame.cursor(), TerminalPosition::row_col(1, 0));
}

#[test]
fn a_fitting_character_becomes_one_cell() {
    let mut frame: TerminalFrame = TerminalFrame::new(TerminalSize::rows_cols(2, 4));
    frame.write_with_width('a', 1).unwrap();
    frame.write_with_width('W', 3).unwrap();
    assert_eq!(frame.cursor(), TerminalPosition::row_col(0, 4));
    let cells = real_cells(&frame);
    assert_eq!(cells.len(), 2);
    assert_eq!(cells[1].0, TerminalPosition::row_col(0, 1));
    assert_eq!(cells[1].1.width, 3);
    // no room is left on the row: the cursor moves on, no cell is made
    frame.write_with_width('x', 1).unwrap();
    assert_eq!(frame.cursor(), TerminalPosition::row_col(0, 5));
    assert_eq!(real_cells(&frame).len(), 2);
}

#[test]
fn a_character_of_no_width_is_dropped() {
    let mut frame: TerminalFrame = TerminalFrame::new(TerminalSize::rows_cols(2, 4));
    frame.write_str("a\u{7}b\tc").unwrap();
    assert_eq!(frame.cursor(), TerminalPosition::row_col(0, 3));
    frame.write_with_width('z', 0).unwrap();
    assert_eq!(frame.cursor(), TerminalPosition::row_col(0, 3));
    let values: String = real_cells(&frame).iter().map(|(_, c)| c.value).collect();
    assert_eq!(values, "abc");
}

#[test]
fn escape_sequences_set_the_style_of_what_follows() {
    let bold = TerminalStyle::new().bold().fg_color(TerminalColor::green());
    let mut frame: TerminalFrame = TerminalFrame::new(TerminalSize::rows_cols(2, 10));
    let text = format!("a{}b{}c", bold.to_string(), TerminalStyle::reset().to_string());
    frame.write_str(&text).unwrap();
    let cells = real_cells(&frame);
    assert_eq!(cells.len(), 3);
    assert_eq!(cells[0].1.style, TerminalStyle::new());
    assert_eq!(cells[1].1.style, bold);
    assert_eq!(cells[2].1.style, TerminalStyle::new());
    assert_eq!(frame.cursor(), TerminalPosition::row_col(0, 3));
}

#[test]
fn blanks_take_the_style_around_them() {
    let bold = TerminalStyle::new().bold();
    let mut frame: TerminalFrame = TerminalFrame::new(TerminalSize::rows_cols(2, 3));
    frame
        .write_str(&format!("{}a\nb{}", bold.to_string(), TerminalStyle::new().underline().to_string()))
        .unwrap();
    let cells = frame.chars();
    assert_eq!(cells.len(), 6);
    // before the cursor a blank has the style of the last cell
    assert_eq!(cells[1].1, TerminalChar::blank(bold));
    assert_eq!(cells[2].1, TerminalChar::blank(bold));
    // from the cursor on a blank has the current style
    assert_eq!(cells[4].0, TerminalPosition::row_col(1, 1));
    assert_eq!(cells[4].1, TerminalChar::blank(TerminalStyle::new().underline()));
}

#[test]
fn drawing_copies_the_cells_of_the_other_frame() {
    let mut main: TerminalFrame = TerminalFrame::new(TerminalSize::rows_cols(4, 8));
    main.write_str("........\n........\n........\n........").unwrap();
    let mut sub: TerminalFrame = TerminalFrame::new(TerminalSize::rows_cols(2, 3));
    sub.write_str("ab\ncde").unwrap();
    main.draw(TerminalPosition::row_col(1, 6), &sub);
    // the cursor is not touched
    assert_eq!(main.cursor(), TerminalPosition::row_col(3, 8));
    let row = |r: usize| -> String {
        (0..8)
            .map(|c| main.get_char(TerminalPosition::row_col(r, c)).unwrap().value)
            .collect()
    };
    assert_eq!(row(0), "........");
    assert_eq!(row(1), "......ab");
    assert_eq!(row(2), "......cd");
    assert_eq!(row(3), "........");
}

#[test]
fn drawing_takes_out_a_wide_cell_that_it_overlaps() {
    let size = TerminalSize::rows_cols(1, 6);
    let mut main = TerminalFrame::with_char_width_estimator(size, UnicodeCharWidthEstimator);
    main.write_str("おは").unwrap();
    let mut sub: TerminalFrame = TerminalFrame::new(TerminalSize::rows_cols(1, 1));
    sub.write_str("x").unwrap();
    main.draw(TerminalPosition::row_col(0, 1), &sub);
    assert_eq!(
        main.get_char(TerminalPosition::row_col(0, 0)),
        Some(TerminalChar::blank(TerminalStyle::new()))
    );
    assert_eq!(main.get_char(TerminalPosition::row_col(0, 1)).unwrap().value, 'x');
    assert_eq!(main.get_char(TerminalPosition::row_col(0, 2)).unwrap().value, 'は');
    assert_eq!(main.get_char(TerminalPosition::row_col(0, 3)), None);
}

#[test]
fn finish_keeps_the_frame() {
    let size = TerminalSize::rows_cols(3, 9);
    let mut frame = TerminalFrame::with_char_width_estimator(size, UnicodeCharWidthEstimator);
    frame.write_str("おa\nb").unwrap();
    let cells = frame.chars();
    let cursor = frame.cursor();
    let finished = frame.finish();
    assert_eq!(finished.size(), size);
    assert_eq!(finished.cursor(), cursor);
    assert_eq!(finished.chars(), cells);
}

#[test]
fn a_cell_under_an_overwritten_wide_cell_is_passed_over() {
    let size = TerminalSize::rows_cols(1, 4);
    let mut frame: TerminalFrame = TerminalFrame::new(size);
    let mut sub: TerminalFrame = TerminalFrame::new(TerminalSize::rows_cols(1, 1));
    sub.write_str("x").unwrap();
    // drawn ahead of the cursor, then written over by a wide character
    frame.draw(TerminalPosition::row_col(0, 1), &sub);
    frame.write_with_width('W', 2).unwrap();
    let cells = frame.chars();
    assert_eq!(cells.len(), 3);
    assert_eq!(cells[0].0, TerminalPosition::row_col(0, 0));
    assert_eq!(cells[0].1.value, 'W');
    assert_eq!(cells[1].0, TerminalPosition::row_col(0, 2));
    assert_eq!(cells[2].0, TerminalPosition::row_col(0, 3));
    // the cell is still there, under the wide one
    assert_eq!(frame.get_char(TerminalPosition::row_col(0, 1)).unwrap().value, 'x');
    // drawing onto its position replaces it and leaves the wide cell
    let mut other: TerminalFrame = TerminalFrame::new(TerminalSize::rows_cols(1, 1));
    other.write_str("y").unwrap();
    frame.draw(TerminalPosition::row_col(0, 1), &other);
    assert_eq!(frame.get_char(TerminalPosition::row_col(0, 0)).unwrap().value, 'W');
    assert_eq!(frame.get_char(TerminalPosition::row_col(0, 1)).unwrap().value, 'y');
}

#[test]
fn the_cursor_stops_at_the_largest_position() {
    let mut frame: TerminalFrame = TerminalFrame::new(TerminalSize::rows_cols(1, 2));
    frame.write_with_width('a', usize::MAX).unwrap();
    assert_eq!(frame.cursor(), TerminalPosition::row_col(0, usize::MAX));
    frame.write_with_width('b', 1).unwrap();
    assert_eq!(frame.cursor(), TerminalPosition::row_col(0, usize::MAX));
    assert_eq!(real_cells(&frame).len(), 0);
}
