use unskk::buffer::Buffer;
use unskk::engine::{handle_key, Tables};
use unskk::jisyo::Jisyo;
use unskk::kana::HalfwidthTable;
use unskk::key::{KeyEvent, Move};
use unskk::romaji::RomajiTable;
use unskk::state::{InputState, KanaState};

fn tables() -> Tables {
    let pairs: Vec<(String, String)> = [
        ("a", "あ"),
        ("ka", "か"),
        ("ki", "き"),
        ("kk", "っk"),
        ("ku", "く"),
        ("n", "ん"),
        ("ta", "た"),
        ("u", "う"),
    ]
    .iter()
    .map(|(a, b)| (a.to_string(), b.to_string()))
    .collect();
    let half = vec![('か', "ｶ".to_string()), ('が', "ｶﾞ".to_string()), ('た', "ﾀ".to_string())];
    Tables {
        romaji: RomajiTable::new(&pairs).unwrap(),
        halfwidth: HalfwidthTable::new(half).unwrap(),
    }
}

fn dict() -> Jisyo {
    Jisyo::load(&vec!["か /家/下;below/\nかk /書/\nai /AI/\n".to_string()])
}

fn feed(keys: &[KeyEvent]) -> (InputState, Buffer) {
    let t = tables();
    let j = dict();
    let mut b = Buffer::new();
    let mut s = InputState::new_kana();
    for k in keys {
        s = handle_key(s, &mut b, &j, &t, *k);
    }
    (s, b)
}

fn is_default_kana(s: &InputState) -> bool {
    matches!(s, InputState::Kana { romaji, state: KanaState::Hiragana(false) } if romaji.is_empty())
}

#[test]
fn romaji_commits_kana_to_the_buffer() {
    let (s, b) = feed(&[KeyEvent::Char('k'), KeyEvent::Char('a')]);
    assert_eq!(b.as_string(), "か");
    assert!(is_default_kana(&s));
}

#[test]
fn partial_romaji_waits() {
    let (s, b) = feed(&[KeyEvent::Char('k')]);
    assert_eq!(b.as_string(), "");
    assert!(matches!(s, InputState::Kana { romaji, .. } if romaji == "k"));
}

#[test]
fn convert_and_commit_a_reading() {
    let (s, b) = feed(&[KeyEvent::StartYomiOrOkuri('k'), KeyEvent::Char('a'), KeyEvent::StartConversion]);
    match &s {
        InputState::Converting { yomi, candidates, selected_index } => {
            assert_eq!(yomi, "か");
            assert_eq!(candidates, &vec!["家".to_string(), "下;below".to_string()]);
            assert_eq!(*selected_index, 0);
        }
        _ => panic!("not converting"),
    }
    assert_eq!(b.as_string(), "");
    let t = tables();
    let j = dict();
    let mut b = b;
    let s = handle_key(s, &mut b, &j, &t, KeyEvent::CommitCandidate);
    assert_eq!(b.as_string(), "家");
    assert!(is_default_kana(&s));
}

#[test]
fn candidate_cycling_is_clamped() {
    let keys = [
        KeyEvent::StartYomiOrOkuri('k'),
        KeyEvent::Char('a'),
        KeyEvent::StartConversion,
        KeyEvent::NextCandidate,
        KeyEvent::NextCandidate,
    ];
    let (s, _) = feed(&keys);
    assert!(matches!(s, InputState::Converting { selected_index: 1, .. }));
    assert_eq!(s.status_as_string(), "かな ▼下 [2/2] 註:below");
    let mut more = keys.to_vec();
    more.extend([KeyEvent::PrevCandidate, KeyEvent::PrevCandidate, KeyEvent::CommitCandidateWithChar('a')]);
    let (s, b) = feed(&more);
    assert_eq!(b.as_string(), "家あ");
    assert!(is_default_kana(&s));
}

#[test]
fn okurigana_converts_and_is_replayed() {
    let keys = [
        KeyEvent::StartYomiOrOkuri('k'),
        KeyEvent::Char('a'),
        KeyEvent::StartYomiOrOkuri('k'),
    ];
    let (s, _) = feed(&keys);
    assert!(matches!(&s, InputState::Converting { yomi, .. } if yomi == "かk"));
    assert_eq!(s.status_as_string(), "かな ▼書*k [1/1]");
    let mut more = keys.to_vec();
    more.extend([KeyEvent::CommitCandidateWithChar('u')]);
    let (s, b) = feed(&more);
    assert_eq!(b.as_string(), "書く");
    assert!(is_default_kana(&s));
}

#[test]
fn cancel_restores_the_reading() {
    let keys = [
        KeyEvent::StartYomiOrOkuri('k'),
        KeyEvent::Char('a'),
        KeyEvent::StartYomiOrOkuri('k'),
        KeyEvent::CancelConversion,
    ];
    let (s, b) = feed(&keys);
    assert!(matches!(&s, InputState::Kana { romaji, state: KanaState::ToBeConverted(y) } if romaji.is_empty() && y == "か"));
    assert_eq!(b.as_string(), "");
}

#[test]
fn backspace_in_conversion_unwinds_the_reading() {
    let keys = [
        KeyEvent::StartYomiOrOkuri('k'),
        KeyEvent::Char('a'),
        KeyEvent::StartConversion,
        KeyEvent::Backspace,
    ];
    let (s, b) = feed(&keys);
    assert!(matches!(&s, InputState::Kana { state: KanaState::ToBeConverted(y), .. } if y.is_empty()));
    assert_eq!(b.as_string(), "");
}

#[test]
fn missed_okurigana_is_rolled_back() {
    let keys = [KeyEvent::StartYomiOrOkuri('k'), KeyEvent::Char('a'), KeyEvent::StartYomiOrOkuri('t')];
    let (s, _) = feed(&keys);
    assert!(matches!(&s, InputState::Kana { state: KanaState::ToBeConverted(y), .. } if y == "か"));
}

#[test]
fn unconverted_reading_is_committed_as_kana_or_katakana() {
    let (s, b) = feed(&[KeyEvent::StartYomiOrOkuri('k'), KeyEvent::Char('a'), KeyEvent::CommitUnconverted]);
    assert_eq!(b.as_string(), "か");
    assert!(is_default_kana(&s));
    let (s, b) = feed(&[KeyEvent::StartYomiOrOkuri('k'), KeyEvent::Char('a'), KeyEvent::ToggleKatakana]);
    assert_eq!(b.as_string(), "カ");
    assert!(is_default_kana(&s));
}

#[test]
fn katakana_and_halfwidth_modes() {
    let (_, b) = feed(&[KeyEvent::ToggleKatakana, KeyEvent::Char('k'), KeyEvent::Char('a')]);
    assert_eq!(b.as_string(), "カ");
    let (s, b) = feed(&[
        KeyEvent::ToggleKatakana,
        KeyEvent::ToggleHankakuZenkaku,
        KeyEvent::Char('k'),
        KeyEvent::Char('a'),
        KeyEvent::Char('k'),
        KeyEvent::Char('k'),
        KeyEvent::Char('u'),
    ]);
    assert_eq!(b.as_string(), "ｶック");
    assert_eq!(s.status_as_string(), "カナ/半角 ");
}

#[test]
fn symbols_and_digits_pass_through() {
    let (_, b) = feed(&[KeyEvent::Char('1'), KeyEvent::Char('!'), KeyEvent::Char('q')]);
    assert_eq!(b.as_string(), "1!");
    let (s, b) = feed(&[KeyEvent::ToggleHankakuZenkaku, KeyEvent::Char('1'), KeyEvent::Char(' ')]);
    assert_eq!(b.as_string(), "１");
    assert_eq!(s.status_as_string(), "かな/全角記号 ");
}

#[test]
fn latin_mode_inserts_literally() {
    let (s, b) = feed(&[
        KeyEvent::ToggleLatin,
        KeyEvent::Char('k'),
        KeyEvent::ToggleHankakuZenkaku,
        KeyEvent::Char('a'),
        KeyEvent::Char(' '),
        KeyEvent::Backspace,
    ]);
    assert_eq!(b.as_string(), "kａ");
    assert_eq!(s.status_as_string(), "無変換/全角");
    let (s, _) = feed(&[KeyEvent::ToggleLatin, KeyEvent::ToggleLatin]);
    assert!(is_default_kana(&s));
}

#[test]
fn abbreviation_lookup_and_commit() {
    let keys = [KeyEvent::StartAbbrev, KeyEvent::Char('a'), KeyEvent::Char('i')];
    let (s, _) = feed(&keys);
    assert_eq!(s.status_as_string(), " aあ ▽ai");
    let mut conv = keys.to_vec();
    conv.push(KeyEvent::StartConversion);
    let (s, _) = feed(&conv);
    assert!(matches!(&s, InputState::Converting { yomi, .. } if yomi == "ai"));
    conv.push(KeyEvent::CancelConversion);
    let (s, _) = feed(&conv);
    assert!(matches!(&s, InputState::Abbrev(t) if t == "ai"));
    let mut commit = keys.to_vec();
    commit.push(KeyEvent::CommitUnconverted);
    let (s, b) = feed(&commit);
    assert_eq!(b.as_string(), "ai");
    assert!(is_default_kana(&s));
}

#[test]
fn boundary_marker_starts_a_suffix_reading() {
    let (s, _) = feed(&[KeyEvent::Setsuji, KeyEvent::Char('k'), KeyEvent::Char('a')]);
    assert!(matches!(&s, InputState::Kana { state: KanaState::ToBeConverted(y), .. } if y == ">か"));
    assert_eq!(s.status_as_string(), "かな ▽>か");
    let (s, b) = feed(&[KeyEvent::Setsuji, KeyEvent::Char('k'), KeyEvent::Char('a'), KeyEvent::CommitUnconverted]);
    assert_eq!(b.as_string(), "か");
    assert!(is_default_kana(&s));
}

#[test]
fn backspace_unwinds_romaji_then_reading() {
    let (s, _) = feed(&[KeyEvent::StartYomiOrOkuri('k'), KeyEvent::Char('a'), KeyEvent::Char('k'), KeyEvent::Backspace]);
    assert!(matches!(&s, InputState::Kana { romaji, state: KanaState::ToBeConverted(y) } if romaji.is_empty() && y == "か"));
    let (s, _) = feed(&[KeyEvent::StartYomiOrOkuri('a'), KeyEvent::Backspace, KeyEvent::Backspace]);
    assert!(is_default_kana(&s));
    let (_, b) = feed(&[KeyEvent::Char('a'), KeyEvent::Char('a'), KeyEvent::Backspace]);
    assert_eq!(b.as_string(), "あ");
}

#[test]
fn navigation_keys_keep_the_mode() {
    let (s, b) = feed(&[
        KeyEvent::Char('a'),
        KeyEvent::Char('k'),
        KeyEvent::Navigation(Move::Left),
        KeyEvent::Navigation(Move::LineTail),
    ]);
    assert!(matches!(&s, InputState::Kana { romaji, .. } if romaji == "k"));
    assert_eq!(b.cursor(), (0, 1));
    let (_, b) = feed(&[KeyEvent::Char('a'), KeyEvent::Char('u'), KeyEvent::Navigation(Move::LineHead), KeyEvent::Delete]);
    assert_eq!(b.as_string(), "う");
}

#[test]
fn empty_reading_is_not_converted() {
    let t = tables();
    let j = Jisyo::load(&vec![" /空/\n".to_string()]);
    assert_eq!(j.lookup(""), Some(vec!["空".to_string()]));
    let mut b = Buffer::new();
    let s = InputState::Kana { romaji: String::new(), state: KanaState::ToBeConverted(String::new()) };
    let s = handle_key(s, &mut b, &j, &t, KeyEvent::StartConversion);
    assert!(matches!(&s, InputState::Kana { state: KanaState::ToBeConverted(y), .. } if y.is_empty()));
    let s = InputState::Kana { romaji: String::new(), state: KanaState::ToBeConverted(">".to_string()) };
    let s = handle_key(s, &mut b, &j, &t, KeyEvent::StartConversion);
    assert!(matches!(&s, InputState::Kana { state: KanaState::ToBeConverted(y), .. } if y == ">"));
}

#[test]
fn katakana_commit_feeds_okurigana_before_toggling() {
    let t = tables();
    let j = Jisyo::load(&vec!["あu /会/\n".to_string()]);
    let mut b = Buffer::new();
    let mut s = InputState::new_kana();
    for k in [KeyEvent::StartYomiOrOkuri('a'), KeyEvent::StartYomiOrOkuri('u')] {
        s = handle_key(s, &mut b, &j, &t, k);
    }
    assert!(matches!(&s, InputState::Converting { yomi, .. } if yomi == "あu"));
    let s = handle_key(s, &mut b, &j, &t, KeyEvent::ToggleKatakana);
    assert_eq!(b.as_string(), "会う");
    assert!(matches!(&s, InputState::Kana { romaji, state: KanaState::Katakana(false) } if romaji.is_empty()));
}

#[test]
fn backspace_in_conversion_keeps_okurigana_then_unwinds_one() {
    let keys = [
        KeyEvent::StartYomiOrOkuri('k'),
        KeyEvent::Char('a'),
        KeyEvent::StartYomiOrOkuri('k'),
        KeyEvent::Backspace,
    ];
    let (s, b) = feed(&keys);
    assert!(matches!(&s, InputState::Kana { romaji, state: KanaState::ToBeConverted(y) } if romaji.is_empty() && y == "か"));
    assert_eq!(b.as_string(), "");
    let keys = [KeyEvent::StartAbbrev, KeyEvent::Char('a'), KeyEvent::Char('i'), KeyEvent::StartConversion, KeyEvent::Backspace];
    let (s, _) = feed(&keys);
    assert!(matches!(&s, InputState::Abbrev(t) if t == "a"));
}
