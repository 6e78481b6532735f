use unskk::buffer::Buffer;
use unskk::engine::Tables;
use unskk::jisyo::Jisyo;
use unskk::kana::HalfwidthTable;
use unskk::keymap::RawKey;
use unskk::romaji::RomajiTable;
use unskk::session::{Action, Session};

fn tables() -> Tables {
    let pairs = vec![("a".to_string(), "あ".to_string()), ("ka".to_string(), "か".to_string())];
    Tables { romaji: RomajiTable::new(&pairs).unwrap(), halfwidth: HalfwidthTable::new(Vec::new()).unwrap() }
}

fn kinds(actions: &[Action]) -> Vec<&'static str> {
    actions
        .iter()
        .map(|a| match a {
            Action::Quit => "quit",
            Action::QueryTerminalSize => "size",
            Action::DrawTooSmall => "small",
            Action::Send(_) => "send",
            Action::RequestPaste => "paste",
            Action::Redraw { .. } => "redraw",
        })
        .collect()
}

#[test]
fn typing_send_and_undo() {
    let j = Jisyo::load(&Vec::new());
    let t = tables();
    let mut s = Session::new((80, 24));
    assert_eq!(kinds(&s.start()), vec!["redraw"]);
    assert_eq!(kinds(&s.on_key(&j, &t, RawKey::Char('k'))), vec!["redraw"]);
    s.on_key(&j, &t, RawKey::Char('a'));
    assert_eq!(s.buffer.as_string(), "か");
    let actions = s.on_key(&j, &t, RawKey::Ctrl('s'));
    assert_eq!(kinds(&actions), vec!["send", "redraw"]);
    assert!(matches!(&actions[0], Action::Send(text) if text == "か"));
    assert_eq!(s.buffer.as_string(), "");
    assert!(s.has_ss);
    s.on_key(&j, &t, RawKey::Esc);
    assert_eq!(s.buffer.as_string(), "か");
    assert_eq!(kinds(&s.on_key(&j, &t, RawKey::Ctrl('q'))), vec!["quit"]);
}

#[test]
fn paste_refresh_and_small_terminal() {
    let j = Jisyo::load(&Vec::new());
    let t = tables();
    let mut s = Session::new((10, 2));
    assert_eq!(kinds(&s.start()), vec!["small"]);
    assert!(s.on_key(&j, &t, RawKey::Char('a')).is_empty());
    assert_eq!(s.buffer.as_string(), "");
    assert_eq!(kinds(&s.on_key(&j, &t, RawKey::Ctrl('r'))), vec!["size"]);
    assert_eq!(kinds(&s.refresh((80, 24))), vec!["redraw"]);
    assert_eq!(kinds(&s.on_key(&j, &t, RawKey::Ctrl('v'))), vec!["paste"]);
    assert_eq!(kinds(&s.paste("xy\nz")), vec!["redraw"]);
    assert_eq!(s.buffer.as_string(), "xy\nz");
    s.on_key(&j, &t, RawKey::Ctrl('d'));
    assert_eq!(s.buffer.as_string(), "");
    s.on_key(&j, &t, RawKey::Esc);
    assert_eq!(s.buffer.as_string(), "xy\nz");
}

#[test]
fn snapshot_copies_the_buffer() {
    let mut b = Buffer::new();
    b.insert_str("ab\nc");
    let s = b.snapshot();
    b.clear();
    assert_eq!(s.as_string(), "ab\nc");
    assert_eq!(s.cursor(), (1, 1));
}

#[test]
fn copy_cut_and_code_point() {
    let j = Jisyo::load(&Vec::new());
    let t = tables();
    let mut s = Session::new((80, 24));
    s.paste("abc");
    s.buffer.to_line_head();
    let actions = s.on_key(&j, &t, RawKey::Ctrl('b'));
    assert_eq!(kinds(&actions), vec!["redraw"]);
    match &actions[0] {
        Action::Redraw { view, status: Some(st), .. } => {
            assert!(view.is_none());
            assert!(String::from_utf8(st.clone()).unwrap().contains("[U+61] "));
        }
        _ => panic!("no status"),
    }
    s.buffer.select_right();
    let actions = s.on_key(&j, &t, RawKey::Ctrl('c'));
    assert!(matches!(&actions[..], [Action::Send(x)] if x == "ab"));
    assert_eq!(s.buffer.as_string(), "abc");
    let actions = s.on_key(&j, &t, RawKey::Ctrl('x'));
    assert_eq!(kinds(&actions), vec!["send", "redraw"]);
    assert!(matches!(&actions[0], Action::Send(x) if x == "ab"));
    assert_eq!(s.buffer.as_string(), "c");
    s.on_key(&j, &t, RawKey::Esc);
    assert_eq!(s.buffer.as_string(), "abc");
    s.buffer.to_line_tail();
    assert!(s.on_key(&j, &t, RawKey::Ctrl('c')).is_empty());
    assert!(s.on_key(&j, &t, RawKey::Ctrl('b')).is_empty());
}
