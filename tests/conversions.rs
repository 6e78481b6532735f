use unskk::kana::{
    convert_to_halfwidth_katakana, convert_to_katakana, convert_to_zenkaku_ascii, delete_setsuji,
    HalfwidthTable,
};
use unskk::state::{InputState, KanaState};
use unskk::util::{
    itoa_usize, push_char_to_vec_u8, push_itoa_usize_to_string, push_itoa_usize_to_vec_u8,
    push_str_to_vec_u8, ClosedInterval,
};

#[test]
fn katakana_conversion() {
    assert_eq!(convert_to_katakana("ひらがなabc"), "ヒラガナabc");
    assert_eq!(convert_to_katakana("ぁゖー"), "ァヶー");
    assert_eq!(convert_to_katakana(""), "");
}

#[test]
fn halfwidth_conversion() {
    let t = HalfwidthTable::new(vec![('が', "ｶﾞ".to_string()), ('な', "ﾅ".to_string())]).unwrap();
    assert_eq!(convert_to_halfwidth_katakana(&t, "ながの"), "ﾅｶﾞノ");
    assert!(HalfwidthTable::new(vec![('な', "ﾅ".to_string()), ('が', "ｶﾞ".to_string())]).is_none());
}

#[test]
fn zenkaku_ascii() {
    assert_eq!(convert_to_zenkaku_ascii('a'), 'ａ');
    assert_eq!(convert_to_zenkaku_ascii('!'), '！');
    assert_eq!(convert_to_zenkaku_ascii('~'), '～');
    assert_eq!(convert_to_zenkaku_ascii(' '), '　');
    assert_eq!(convert_to_zenkaku_ascii('あ'), 'あ');
}

#[test]
fn setsuji_markers_removed() {
    assert_eq!(delete_setsuji(">か>"), "か");
    assert_eq!(delete_setsuji("abc"), "abc");
}

#[test]
fn candidate_text_and_annotation() {
    let c = vec!["家".to_string(), "感じ;feeling;x".to_string()];
    assert_eq!(InputState::candidate(&c, 0), ("家", None));
    assert_eq!(InputState::candidate(&c, 1), ("感じ", Some("feeling;x")));
}

#[test]
fn okurigana_letter() {
    assert_eq!(InputState::okuri("かk"), Some('k'));
    assert_eq!(InputState::okuri("か"), None);
    assert_eq!(InputState::okuri("abc"), None);
    assert_eq!(InputState::okuri(""), None);
}

#[test]
fn status_strings() {
    assert_eq!(KanaState::new_hiragana().status_as_string(), "かな/半角記号 ");
    assert_eq!(KanaState::new_katakana().status_as_string(), "カナ/全角 ");
    assert_eq!(KanaState::ToBeConverted("か".to_string()).status_as_string(), "かな ▽か");
    assert_eq!(InputState::new_latin().status_as_string(), "無変換/半角");
    assert_eq!(InputState::new_abbrev().status_as_string(), " aあ ▽");
    let k = InputState::Kana { romaji: "k".to_string(), state: KanaState::new_hiragana() };
    assert_eq!(k.status_as_string(), "かな/半角記号 k");
}

#[test]
fn digits() {
    let mut buf = [0u8; 20];
    let i = itoa_usize(&mut buf, 1234, 10);
    assert_eq!(&buf[i..], b"1234");
    let i = itoa_usize(&mut buf, 0, 10);
    assert_eq!(&buf[i..], b"0");
    let i = itoa_usize(&mut buf, usize::MAX, 10);
    assert_eq!(&buf[i..], usize::MAX.to_string().as_bytes());
    let i = itoa_usize(&mut buf, 0x3042, 16);
    assert_eq!(&buf[i..], b"3042");
    let mut s = String::from("[U+");
    push_itoa_usize_to_string(&mut s, 0xFF9E, 16);
    assert_eq!(s, "[U+FF9E");
    let mut v = Vec::new();
    push_itoa_usize_to_vec_u8(&mut v, 907, 10);
    assert_eq!(v, b"907");
}

#[test]
fn utf8_bytes() {
    let mut v = Vec::new();
    push_char_to_vec_u8(&mut v, 'a');
    push_char_to_vec_u8(&mut v, 'é');
    push_char_to_vec_u8(&mut v, 'あ');
    push_char_to_vec_u8(&mut v, '😀');
    push_str_to_vec_u8(&mut v, "\x1b[2J");
    let mut want = "aéあ😀".as_bytes().to_vec();
    want.extend_from_slice(b"\x1b[2J");
    assert_eq!(v, want);
}

#[test]
fn closed_interval() {
    let c = ClosedInterval(3, 5);
    assert!(c.contains(3) && c.contains(5) && !c.contains(2) && !c.contains(6));
}
