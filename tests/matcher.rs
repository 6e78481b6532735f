use unskk::romaji::{search_lookup_table, KanaMatch, RomajiTable};

fn table(pairs: &[(&str, &str)]) -> RomajiTable {
    let v: Vec<(String, String)> = pairs.iter().map(|(a, b)| (a.to_string(), b.to_string())).collect();
    RomajiTable::new(&v).expect("sorted table")
}

fn sample() -> RomajiTable {
    table(&[("a", "あ"), ("ka", "か"), ("kk", "っk"), ("kya", "きゃ"), ("tsu", "つ"), ("tt", "っt")])
}

fn success(m: KanaMatch) -> (String, String) {
    match m {
        KanaMatch::Success(k) => (k.commit, k.pushback),
        KanaMatch::PrefixMatch => panic!("prefix match"),
        KanaMatch::Failure => panic!("failure"),
    }
}

#[test]
fn prefix_then_success() {
    let t = sample();
    assert!(matches!(search_lookup_table(&t, "k"), KanaMatch::PrefixMatch));
    assert_eq!(success(search_lookup_table(&t, "ka")), ("か".to_string(), String::new()));
}

#[test]
fn trailing_letter_is_pushed_back() {
    let t = sample();
    assert_eq!(success(search_lookup_table(&t, "kk")), ("っ".to_string(), "k".to_string()));
    assert_eq!(success(search_lookup_table(&t, "tt")), ("っ".to_string(), "t".to_string()));
}

#[test]
fn multi_key_fragment_resolves_incrementally() {
    let t = sample();
    assert!(matches!(search_lookup_table(&t, "t"), KanaMatch::PrefixMatch));
    assert!(matches!(search_lookup_table(&t, "ts"), KanaMatch::PrefixMatch));
    assert_eq!(success(search_lookup_table(&t, "tsu")), ("つ".to_string(), String::new()));
    assert!(matches!(search_lookup_table(&t, "ky"), KanaMatch::PrefixMatch));
}

#[test]
fn unknown_and_empty_fragments_fail() {
    let t = sample();
    assert!(matches!(search_lookup_table(&t, "q"), KanaMatch::Failure));
    assert!(matches!(search_lookup_table(&t, "kaa"), KanaMatch::Failure));
    assert!(matches!(search_lookup_table(&t, ""), KanaMatch::Failure));
    assert!(matches!(search_lookup_table(&t, "z"), KanaMatch::Failure));
}

#[test]
fn unsorted_or_empty_tables_are_refused() {
    let unsorted = vec![("ka".to_string(), "か".to_string()), ("a".to_string(), "あ".to_string())];
    assert!(RomajiTable::new(&unsorted).is_none());
    let duplicate = vec![("a".to_string(), "あ".to_string()), ("a".to_string(), "ア".to_string())];
    assert!(RomajiTable::new(&duplicate).is_none());
    let empty_value = vec![("a".to_string(), String::new())];
    assert!(RomajiTable::new(&empty_value).is_none());
    assert!(RomajiTable::new(&Vec::new()).is_some());
}
