use unskk::jisyo::Jisyo;

fn load(texts: &[&str]) -> Jisyo {
    Jisyo::load(&texts.iter().map(|s| s.to_string()).collect())
}

fn strings(v: &[&str]) -> Vec<String> {
    v.iter().map(|s| s.to_string()).collect()
}

#[test]
fn sources_are_merged_in_order() {
    let j = load(&["あい /愛/相/\n", "あい /合/\n"]);
    assert_eq!(j.lookup("あい"), Some(strings(&["愛", "相", "合"])));
    assert_eq!(j.lookup("xyz"), None);
}

#[test]
fn unsorted_source_with_comments_and_blanks() {
    let text = ";; okuri-nasi entries\n\nかんじ /漢字/感じ;feeling/\nあ /亜/阿/\n   \n  ; indented comment\nい /胃/\n";
    let j = load(&[text]);
    assert_eq!(j.lookup("かんじ"), Some(strings(&["漢字", "感じ;feeling"])));
    assert_eq!(j.lookup("あ"), Some(strings(&["亜", "阿"])));
    assert_eq!(j.lookup("い"), Some(strings(&["胃"])));
    assert_eq!(j.lookup(";;"), None);
    assert_eq!(j.lookup(""), None);
}

#[test]
fn malformed_lines_give_no_candidates() {
    let j = load(&["nospace\nbad xyz\nok /x//y/\n"]);
    assert_eq!(j.lookup("nospace"), None);
    assert_eq!(j.lookup("bad"), None);
    assert_eq!(j.lookup("ok"), Some(strings(&["x", "y"])));
}

#[test]
fn first_entry_of_a_source_wins() {
    let j = load(&["か /家/\nか /下/\n"]);
    assert_eq!(j.lookup("か"), Some(strings(&["家"])));
}

#[test]
fn empty_dictionary_finds_nothing() {
    let j = load(&[]);
    assert_eq!(j.lookup("あ"), None);
    let j = load(&[""]);
    assert_eq!(j.lookup("あ"), None);
}
