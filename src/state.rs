use vstd::prelude::*;
use vstd::string::StrSliceExecFns;

use crate::jisyo::{dict_lookup, index_of, strings_view, Jisyo};
use crate::text::{chars_of, is_lower, push_char, push_str};
use vstd::utf8::is_ascii_chars;
use crate::util::{digit_chars, push_itoa_usize_to_string};

verus! {

pub const HANKAKU: &'static str = "半角";

pub const ZENKAKU: &'static str = "全角";

/// The sub-mode of kana input.
#[derive(Debug, Clone)]
pub enum KanaState {
    /// Hiragana; the flag asks for full-width ASCII symbols.
    Hiragana(bool),
    /// Katakana; the flag asks for half-width katakana.
    Katakana(bool),
    /// A reading being composed before an explicit conversion request.
    ToBeConverted(String),
}

/// The input mode.
#[derive(Debug, Clone)]
pub enum InputState {
    /// Raw ASCII passthrough; the flag asks for full-width forms.
    Latin(bool),
    Kana { romaji: String, state: KanaState },
    Converting { yomi: String, candidates: Vec<String>, selected_index: usize },
    Abbrev(String),
}

/// The abstract kana sub-mode.
pub enum KanaMode {
    Hiragana(bool),
    Katakana(bool),
    ToBeConverted(Seq<char>),
}

/// The abstract input mode.
pub enum Mode {
    Latin(bool),
    Kana { romaji: Seq<char>, state: KanaMode },
    Converting { yomi: Seq<char>, candidates: Seq<Seq<char>>, selected_index: int },
    Abbrev(Seq<char>),
}

impl View for KanaState {
    type V = KanaMode;

    open spec fn view(&self) -> KanaMode {
        match self {
            KanaState::Hiragana(z) => KanaMode::Hiragana(*z),
            KanaState::Katakana(h) => KanaMode::Katakana(*h),
            KanaState::ToBeConverted(y) => KanaMode::ToBeConverted(y@),
        }
    }
}

impl View for InputState {
    type V = Mode;

    open spec fn view(&self) -> Mode {
        match self {
            InputState::Latin(z) => Mode::Latin(*z),
            InputState::Kana { romaji, state } => Mode::Kana { romaji: romaji@, state: state@ },
            InputState::Converting { yomi, candidates, selected_index } => Mode::Converting {
                yomi: yomi@,
                candidates: strings_view(candidates@),
                selected_index: *selected_index as int,
            },
            InputState::Abbrev(s) => Mode::Abbrev(s@),
        }
    }
}

/// Default kana mode: nothing pending, hiragana with half-width symbols.
pub open spec fn default_kana() -> Mode {
    Mode::Kana { romaji: seq![], state: KanaMode::Hiragana(false) }
}

impl Mode {
    /// A candidate is selected whenever candidates are browsed.
    pub open spec fn wf(self) -> bool {
        match self {
            Mode::Converting { candidates, selected_index, .. } => 0 <= selected_index
                < candidates.len(),
            _ => true,
        }
    }
}

/// The text of a candidate: what stands before its first `;`.
pub open spec fn cand_text(c: Seq<char>) -> Seq<char> {
    c.take(index_of(c, ';', 0))
}

/// The annotation of a candidate: what follows its first `;`, if it has one.
pub open spec fn cand_annotation(c: Seq<char>) -> Option<Seq<char>> {
    if index_of(c, ';', 0) < c.len() {
        Some(c.skip(index_of(c, ';', 0) + 1))
    } else {
        None
    }
}

/// The trailing okurigana letter of a reading: its last character when that is an ASCII
/// lower-case letter and the reading is not all ASCII.
pub open spec fn okuri_of(y: Seq<char>) -> Option<char> {
    if is_ascii_chars(y) {
        None
    } else if y.len() > 0 && is_lower(y.last()) {
        Some(y.last())
    } else {
        None
    }
}

pub open spec fn kana_status(k: KanaMode) -> Seq<char> {
    match k {
        KanaMode::Hiragana(z) => "かな/"@ + (if z {
            ZENKAKU@
        } else {
            HANKAKU@
        }) + "記号 "@,
        KanaMode::Katakana(h) => "カナ/"@ + (if h {
            HANKAKU@
        } else {
            ZENKAKU@
        }) + " "@,
        KanaMode::ToBeConverted(y) => "かな ▽"@ + y,
    }
}

pub open spec fn mode_status(m: Mode) -> Seq<char> {
    match m {
        Mode::Abbrev(s) => " aあ ▽"@ + s,
        Mode::Latin(z) => "無変換/"@ + (if z {
            ZENKAKU@
        } else {
            HANKAKU@
        }),
        Mode::Kana { romaji, state } => kana_status(state) + romaji,
        Mode::Converting { yomi, candidates, selected_index } => {
            let c = candidates[selected_index];
            "かな ▼"@ + cand_text(c) + match okuri_of(yomi) {
                Some(o) => seq!['*', o],
                None => seq![],
            } + " ["@ + digit_chars((selected_index + 1) as nat, 10) + seq!['/'] + digit_chars(
                candidates.len(),
                10,
            ) + seq![']'] + match cand_annotation(c) {
                Some(a) => " 註:"@ + a,
                None => seq![],
            }
        },
    }
}

impl KanaState {
    pub fn new_hiragana() -> (r: Self)
        ensures
            r@ == KanaMode::Hiragana(false),
    {
        KanaState::Hiragana(false)
    }

    pub fn new_katakana() -> (r: Self)
        ensures
            r@ == KanaMode::Katakana(false),
    {
        KanaState::Katakana(false)
    }

    /// The status-line text of the sub-mode.
    pub fn status_as_string(&self) -> (r: String)
        ensures
            r@ == kana_status(self@),
    {
        let mut out = String::new();
        match self {
            KanaState::Hiragana(zenkaku) => {
                push_str(&mut out, "かな/");
                push_str(
                    &mut out,
                    if *zenkaku {
                        ZENKAKU
                    } else {
                        HANKAKU
                    },
                );
                push_str(&mut out, "記号 ");
            },
            KanaState::Katakana(hankaku) => {
                push_str(&mut out, "カナ/");
                push_str(
                    &mut out,
                    if *hankaku {
                        HANKAKU
                    } else {
                        ZENKAKU
                    },
                );
                push_str(&mut out, " ");
            },
            KanaState::ToBeConverted(yomi) => {
                push_str(&mut out, "かな ▽");
                push_str(&mut out, yomi.as_str());
            },
        }
        out
    }
}

impl InputState {
    pub fn new_latin() -> (r: Self)
        ensures
            r@ == Mode::Latin(false),
    {
        InputState::Latin(false)
    }

    pub fn new_kana() -> (r: Self)
        ensures
            r@ == default_kana(),
    {
        InputState::Kana { romaji: String::new(), state: KanaState::new_hiragana() }
    }

    pub fn new_abbrev() -> (r: Self)
        ensures
            r@ == Mode::Abbrev(seq![]),
    {
        InputState::Abbrev(String::new())
    }

    /// Candidate browsing for `yomi`, when the dictionary has candidates for it.
    pub fn new_converting(yomi: &str, jisyo: &Jisyo) -> (r: Option<Self>)
        requires
            jisyo.wf(),
        ensures
            r is Some <==> dict_lookup(jisyo@, yomi@) is Some,
            r is Some ==> r->0@ == (Mode::Converting {
                yomi: yomi@,
                candidates: dict_lookup(jisyo@, yomi@)->0,
                selected_index: 0,
            }),
            r is Some ==> r->0@.wf(),
    {
        match jisyo.lookup(yomi) {
            Some(candidates) => Some(
                InputState::Converting {
                    yomi: yomi.to_owned(),
                    candidates,
                    selected_index: 0,
                },
            ),
            None => None,
        }
    }

    /// The selected candidate's text and its annotation, split at the first `;`.
    pub fn candidate(candidates: &[String], selected_index: usize) -> (r: (&str, Option<&str>))
        requires
            selected_index < candidates@.len(),
        ensures
            r.0@ == cand_text(candidates@[selected_index as int]@),
            r.1 is Some <==> cand_annotation(candidates@[selected_index as int]@) is Some,
            r.1 is Some ==> r.1->0@ == cand_annotation(candidates@[selected_index as int]@)->0,
    {
        let cand = candidates[selected_index].as_str();
        let v = chars_of(cand);
        let ghost c = cand@;
        let mut k: usize = 0;
        while k < v.len() && v[k] != ';'
            invariant
                k <= v@.len(),
                v@ == c,
                index_of(c, ';', k as int) == index_of(c, ';', 0),
            decreases v@.len() - k,
        {
            k = k + 1;
        }
        let n = v.len();
        if k < n {
            (cand.substring_char(0, k), Some(cand.substring_char(k + 1, n)))
        } else {
            proof {
                assert(c.take(n as int) == c);
            }
            (cand, None)
        }
    }

    /// The trailing okurigana letter of `yomi`, if any.
    pub fn okuri(yomi: &str) -> (r: Option<char>)
        ensures
            r == okuri_of(yomi@),
    {
        if yomi.is_ascii() {
            return None;
        }
        let n = yomi.unicode_len();
        if n == 0 {
            return None;
        }
        let c = yomi.get_char(n - 1);
        if 'a' <= c && c <= 'z' {
            Some(c)
        } else {
            None
        }
    }

    /// The status-line text of the mode.
    pub fn status_as_string(&self) -> (r: String)
        requires
            self@.wf(),
        ensures
            r@ == mode_status(self@),
    {
        let mut out = String::new();
        match self {
            InputState::Abbrev(s) => {
                push_str(&mut out, " aあ ▽");
                push_str(&mut out, s.as_str());
            },
            InputState::Latin(zenkaku) => {
                push_str(&mut out, "無変換/");
                push_str(
                    &mut out,
                    if *zenkaku {
                        ZENKAKU
                    } else {
                        HANKAKU
                    },
                );
            },
            InputState::Kana { romaji, state } => {
                let st = state.status_as_string();
                push_str(&mut out, st.as_str());
                push_str(&mut out, romaji.as_str());
            },
            InputState::Converting { yomi, candidates, selected_index } => {
                let (cand, annotation) = InputState::candidate(candidates.as_slice(), *selected_index);
                push_str(&mut out, "かな ▼");
                push_str(&mut out, cand);
                let ghost a = out@;
                if let Some(c) = InputState::okuri(yomi.as_str()) {
                    push_char(&mut out, '*');
                    push_char(&mut out, c);
                }
                let ghost b = out@;
                push_str(&mut out, " [");
                let n = candidates.len();
                push_itoa_usize_to_string(&mut out, *selected_index + 1, 10);
                push_char(&mut out, '/');
                push_itoa_usize_to_string(&mut out, candidates.len(), 10);
                push_char(&mut out, ']');
                let ghost d = out@;
                if let Some(annotation) = annotation {
                    push_str(&mut out, " 註:");
                    push_str(&mut out, annotation);
                }
                proof {
                    let c = strings_view(candidates@)[*selected_index as int];
                    assert(c == candidates@[*selected_index as int]@);
                    let mid: Seq<char> = match okuri_of(yomi@) {
                        Some(o) => seq!['*', o],
                        None => seq![],
                    };
                    assert(b == a + mid);
                    let tail: Seq<char> = match cand_annotation(c) {
                        Some(x) => " 註:"@ + x,
                        None => seq![],
                    };
                    assert(out@ == d + tail);
                    assert(out@ =~= mode_status(self@));
                }
            },
        }
        out
    }
}

} // verus!
