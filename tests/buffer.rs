use unskk::buffer::Buffer;

fn typed(s: &str) -> Buffer {
    let mut b = Buffer::new();
    b.insert_str(s);
    b
}

#[test]
fn insert_and_document() {
    let b = typed("ab\ncd");
    assert_eq!(b.as_string(), "ab\ncd");
    assert_eq!(b.line_count(), 2);
    assert_eq!(b.cursor(), (1, 2));
    assert!(b.is_dirty());
    assert_eq!(b.line(0), &['a', 'b']);
    assert!(b.has_more_line(0));
    assert!(!b.has_more_line(1));
}

#[test]
fn backspace_and_delete() {
    let mut b = typed("abc");
    b.backspace();
    assert_eq!(b.as_string(), "ab");
    b.to_line_head();
    b.delete();
    assert_eq!(b.as_string(), "b");
    b.backspace();
    assert_eq!(b.as_string(), "b");
    assert_eq!(b.cursor(), (0, 0));
    b.to_line_tail();
    b.delete();
    assert_eq!(b.as_string(), "b");
}

#[test]
fn delete_at_row_end_joins_rows() {
    let mut b = typed("ab\ncd");
    assert!(b.move_up());
    b.to_line_tail();
    b.delete();
    assert_eq!(b.as_string(), "abcd");
    assert_eq!(b.cursor(), (0, 2));
}

#[test]
fn left_then_right_returns() {
    let mut b = typed("ab\ncd");
    b.to_line_head();
    assert!(b.move_left());
    assert_eq!(b.cursor(), (0, 2));
    assert!(b.move_right());
    assert_eq!(b.cursor(), (1, 0));
    assert!(b.move_left());
    assert!(b.move_left());
    assert!(b.move_right());
    assert_eq!(b.cursor(), (0, 2));
}

#[test]
fn moves_stop_at_document_boundaries() {
    let mut b = typed("ab");
    assert!(!b.move_right());
    assert!(!b.move_right());
    assert_eq!(b.cursor(), (0, 2));
    b.to_line_head();
    assert!(!b.move_left());
    assert!(!b.move_left());
    assert_eq!(b.cursor(), (0, 0));
    assert!(!b.move_up());
    assert!(!b.move_down());
}

#[test]
fn newline_then_backspace_rejoins() {
    let mut b = typed("abcd");
    b.move_left();
    b.move_left();
    b.insert_char('\n');
    assert_eq!(b.as_string(), "ab\ncd");
    assert_eq!(b.cursor(), (1, 0));
    b.backspace();
    assert_eq!(b.as_string(), "abcd");
    assert_eq!(b.cursor(), (0, 2));
}

#[test]
fn vertical_moves_clamp_the_column() {
    let mut b = typed("abcdef\nxy");
    assert!(b.move_up());
    b.to_line_tail();
    assert_eq!(b.cursor(), (0, 6));
    assert!(b.move_down());
    assert_eq!(b.cursor(), (1, 2));
}

#[test]
fn selection_replace_and_query() {
    let mut b = typed("hello");
    b.to_line_head();
    b.select_right();
    b.select_right();
    let sel = b.selection();
    assert_eq!((sel.0, sel.1), (0, 2));
    assert_eq!(b.selected_as_string(), Some("hel".to_string()));
    assert_eq!(b.cursor_as_char(), None);
    assert_eq!(b.status_as_string(), "(1/1,1:3)");
    b.insert_char('J');
    assert_eq!(b.as_string(), "Jlo");
    assert_eq!(b.cursor(), (0, 1));
    assert_eq!(b.cursor_as_char(), Some(&'l'));
}

#[test]
fn selection_from_row_end_and_delete() {
    let mut b = typed("abc");
    b.select_left();
    let sel = b.selection();
    assert_eq!((sel.0, sel.1), (2, 2));
    b.select_left();
    assert_eq!(b.selected_as_string(), Some("bc".to_string()));
    b.backspace();
    assert_eq!(b.as_string(), "a");
    assert_eq!(b.cursor(), (0, 1));
}

#[test]
fn select_right_stays_within_row_content() {
    let mut b = typed("ab");
    b.to_line_head();
    b.select_right();
    b.select_right();
    b.select_right();
    assert_eq!(b.cursor(), (0, 1));
    assert_eq!(b.selected_as_string(), Some("ab".to_string()));
    b.delete();
    assert_eq!(b.as_string(), "");
}

#[test]
fn newline_replaces_the_selection() {
    let mut b = typed("abcd");
    b.to_line_head();
    b.move_right();
    b.select_right();
    b.insert_char('\n');
    assert_eq!(b.as_string(), "a\nd");
    assert_eq!(b.cursor(), (1, 0));
}

#[test]
fn rapid_moves_and_status() {
    let mut b = Buffer::new();
    for _ in 0..30 {
        b.insert_char('\n');
    }
    assert_eq!(b.cursor(), (30, 0));
    b.rapid_up();
    assert_eq!(b.cursor(), (25, 0));
    b.rapid_down();
    assert_eq!(b.cursor(), (30, 0));
    assert_eq!(b.status_as_string(), "(31/31,1)");
    for _ in 0..70 {
        b.insert_char('\n');
    }
    b.rapid_up();
    assert_eq!(b.cursor(), (90, 0));
}

#[test]
fn clear_and_dirty_flag() {
    let mut b = typed("xyz\nw");
    b.clear_dirty();
    assert!(!b.is_dirty());
    let _ = b.cursor();
    assert!(!b.is_dirty());
    b.move_left();
    assert!(b.is_dirty());
    b.clear();
    assert_eq!(b.as_string(), "");
    assert_eq!(b.cursor(), (0, 0));
    assert_eq!(b.line_count(), 1);
}

#[test]
fn cursor_char_and_delete_range() {
    let mut b = typed("abc");
    b.to_line_head();
    assert_eq!(b.cursor_as_char(), Some(&'a'));
    b.to_line_tail();
    assert_eq!(b.cursor_as_char(), None);
    assert_eq!(b.selected_as_string(), None);
    b.select_left();
    b.select_left();
    b.delete_range();
    assert_eq!(b.as_string(), "a");
}

#[test]
fn edits_match_a_flat_string() {
    // the same edits on a plain string with a cursor offset
    let mut b = Buffer::new();
    let mut text: Vec<char> = Vec::new();
    let mut pos = 0usize;
    let script = "ab\ncd<<x>D\n<B>>>>Dy";
    for c in script.chars() {
        match c {
            '<' => {
                b.move_left();
                pos = pos.saturating_sub(1);
            }
            '>' => {
                b.move_right();
                if pos < text.len() {
                    pos += 1;
                }
            }
            'B' => {
                b.backspace();
                if pos > 0 {
                    text.remove(pos - 1);
                    pos -= 1;
                }
            }
            'D' => {
                b.delete();
                if pos < text.len() {
                    text.remove(pos);
                }
            }
            _ => {
                b.insert_char(c);
                text.insert(pos, c);
                pos += 1;
            }
        }
        assert_eq!(b.as_string(), text.iter().collect::<String>());
    }
    assert_eq!(b.as_string(), "ab\nx\ny");
}
