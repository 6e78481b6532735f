use unskk::buffer::Buffer;
use unskk::key::{KeyEvent, Move};
use unskk::keymap::{
    to_front_cmd, to_key_event_abbrev, to_key_event_conversion, to_key_event_global,
    to_key_event_kana, to_key_event_latin, to_key_event_with_state, FrontCmd, RawKey,
};
use unskk::state::{InputState, KanaState};
use unskk::util::ClosedInterval;
use unskk::view::{
    calc_offset, char_width, handle_push_character, handle_selection, is_terminal_too_small,
    prepare_line_to_buffer, prepare_status_line, prepare_view_to_buffer, push_cursor_goto,
    push_fmt_ch, push_str_until, SelectionState, ViewState, DIM, RESET,
};

#[test]
fn widths() {
    assert_eq!(char_width('a'), Some(1));
    assert_eq!(char_width('あ'), Some(2));
    assert_eq!(char_width('漢'), Some(2));
    assert_eq!(char_width('ｱ'), Some(1));
    assert_eq!(char_width('Ａ'), Some(2));
    assert_eq!(char_width('\t'), None);
    assert_eq!(char_width('😀'), None);
    assert_eq!(char_width('é'), Some(1));
}

#[test]
fn offsets_for_a_scroll() {
    let line: Vec<char> = "aあbい".chars().collect();
    assert_eq!(calc_offset(&line, 0), 0);
    assert_eq!(calc_offset(&line, 2), 1);
    assert_eq!(calc_offset(&line, 3), 2);
    assert_eq!(calc_offset(&line, 100), 4);
}

#[test]
fn cursor_goto_bytes() {
    let mut v = Vec::new();
    push_cursor_goto(&mut v, 12, 1);
    assert_eq!(v, b"\x1b[12;1H");
}

#[test]
fn strings_cut_to_cells() {
    let mut v = Vec::new();
    let mut cells = 5;
    push_str_until(&mut v, "abあい", &mut cells);
    assert_eq!(v, "abあ".as_bytes());
    assert_eq!(cells, 1);
    let mut v = Vec::new();
    let mut cells = 10;
    push_str_until(&mut v, "a\tb", &mut cells);
    assert_eq!(v, b"a\\tb");
    assert_eq!(cells, 6);
    let mut cells = 0;
    push_str_until(&mut v, "x", &mut cells);
    assert_eq!(v, b"a\\tb");
}

#[test]
fn highlight_switching() {
    let mut v = Vec::new();
    let mut ss = SelectionState::Pre;
    handle_selection(&mut v, &mut ss, true);
    assert_eq!(ss, SelectionState::In);
    handle_push_character(&mut v, 'x', false, true);
    handle_selection(&mut v, &mut ss, false);
    assert_eq!(ss, SelectionState::Post);
    handle_push_character(&mut v, '\u{7}', true, false);
    push_fmt_ch(&mut v, DIM, '~');
    let want = format!("\x1b[7mx{RESET}{DIM}\\?{RESET}{DIM}~{RESET}");
    assert_eq!(v, want.as_bytes());
}

#[test]
fn small_terminals() {
    assert!(is_terminal_too_small((35, 10)));
    assert!(!is_terminal_too_small((36, 2)));
    assert!(is_terminal_too_small((80, 1)));
}

#[test]
fn row_drawing() {
    let line: Vec<char> = "abc".chars().collect();
    let mut v = Vec::new();
    prepare_line_to_buffer(&mut v, &line, 0, 40, None, true);
    assert_eq!(v, format!("abc{DIM}¶{RESET}").as_bytes());
    let mut v = Vec::new();
    prepare_line_to_buffer(&mut v, &line, 1, 40, Some(ClosedInterval(1, 1)), false);
    assert_eq!(v, format!("{DIM}<{RESET}c\x1b[7m {RESET}").as_bytes());
    let long: Vec<char> = "abcdef".chars().collect();
    let mut v = Vec::new();
    prepare_line_to_buffer(&mut v, &long, 0, 4, Some(ClosedInterval(0, 1)), false);
    assert_eq!(v, format!("\x1b[7mab{RESET}c{DIM}>{RESET}").as_bytes());
}

#[test]
fn status_line_drawing() {
    let mut v = Vec::new();
    let b = Buffer::new();
    prepare_status_line(&mut v, (40, 5), Some("[U+3042]"), &InputState::new_latin(), Some(&b), true);
    let want = format!("\x1b[5;1H\x1b[97m\x1b[44m\x1b[2K[U+3042] 無変換/半角 (1/1,1) +undo{RESET}");
    assert_eq!(String::from_utf8(v).unwrap(), want);
}

#[test]
fn text_area_drawing() {
    let mut b = Buffer::new();
    b.insert_str("ab\ncd");
    let mut vs = ViewState::default();
    let mut v = Vec::new();
    prepare_view_to_buffer(&mut v, (40, 4), &mut vs, &b);
    let want = format!(
        "\x1b[1;1H\x1b[2K{DIM}~{RESET}\x1b[2;1H\x1b[2Kab{DIM}¶{RESET}\x1b[3;1H\x1b[2Kcd\x1b[7m {RESET}"
    );
    assert_eq!(String::from_utf8(v).unwrap(), want);
    assert_eq!(vs.active_line, 1);
    assert_eq!(vs.cursor_col, 2);
    let mut v = Vec::new();
    b.move_left();
    prepare_view_to_buffer(&mut v, (40, 4), &mut vs, &b);
    assert_eq!(String::from_utf8(v).unwrap(), format!("\x1b[3;1H\x1b[2Kc\x1b[7md{RESET}\x1b[2m \x1b[0m"));
}

#[test]
fn view_state_scrolls_with_the_cursor() {
    let mut b = Buffer::new();
    b.insert_str(&"x".repeat(100));
    let mut vs = ViewState::default();
    vs.update(&b, 40);
    assert_eq!(vs.left_cells, 80);
    assert_eq!(vs.active_line_offset, 80);
    assert!(vs.should_redraw_all(&ViewState::default()));
    assert!(ViewState::is_sampling_point(8));
    assert!(!ViewState::is_sampling_point(9));
    let line: Vec<char> = "x".repeat(100).chars().collect();
    assert_eq!(ViewState::get_left_cells(80, 40, &line, 90), 80);
    assert_eq!(ViewState::get_left_cells(80, 40, &line, 10), 0);
}

#[test]
fn commands_and_global_keys() {
    assert_eq!(to_front_cmd(&RawKey::Ctrl('q')), Some(FrontCmd::Quit));
    assert_eq!(to_front_cmd(&RawKey::Esc), Some(FrontCmd::Undo));
    assert_eq!(to_front_cmd(&RawKey::Char('q')), None);
    assert_eq!(to_key_event_global(&RawKey::ShiftLeft), Some(KeyEvent::Navigation(Move::SelectLeft)));
    assert_eq!(to_key_event_global(&RawKey::Ctrl('g')), Some(KeyEvent::CancelConversion));
    assert_eq!(to_key_event_global(&RawKey::Char('a')), None);
}

#[test]
fn keys_by_mode() {
    assert_eq!(to_key_event_latin(&RawKey::Char('Q')), Some(KeyEvent::Char('Q')));
    assert_eq!(to_key_event_abbrev(&RawKey::Char(' ')), Some(KeyEvent::StartConversion));
    assert_eq!(to_key_event_abbrev(&RawKey::Char('\n')), Some(KeyEvent::CommitUnconverted));
    let hira = KanaState::new_hiragana();
    let yomi = KanaState::ToBeConverted("か".to_string());
    assert_eq!(to_key_event_kana(&hira, &RawKey::Char(' ')), Some(KeyEvent::Char(' ')));
    assert_eq!(to_key_event_kana(&yomi, &RawKey::Char(' ')), Some(KeyEvent::StartConversion));
    assert_eq!(to_key_event_kana(&yomi, &RawKey::Char('\n')), Some(KeyEvent::CommitUnconverted));
    assert_eq!(to_key_event_kana(&hira, &RawKey::Char('K')), Some(KeyEvent::StartYomiOrOkuri('k')));
    assert_eq!(to_key_event_kana(&hira, &RawKey::Char('>')), Some(KeyEvent::Setsuji));
    assert_eq!(to_key_event_conversion(&RawKey::Char('x')), Some(KeyEvent::PrevCandidate));
    assert_eq!(
        to_key_event_conversion(&RawKey::Char('S')),
        Some(KeyEvent::CommitCandidateWithStartYomi('s'))
    );
    assert_eq!(to_key_event_conversion(&RawKey::Char('a')), Some(KeyEvent::CommitCandidateWithChar('a')));
    let conv = InputState::Converting { yomi: "か".to_string(), candidates: vec!["家".to_string()], selected_index: 0 };
    assert_eq!(to_key_event_with_state(&conv, &RawKey::Char(' ')), Some(KeyEvent::NextCandidate));
    assert_eq!(to_key_event_with_state(&conv, &RawKey::Backspace), Some(KeyEvent::Backspace));
    assert_eq!(to_key_event_with_state(&InputState::new_abbrev(), &RawKey::Other), None);
}
