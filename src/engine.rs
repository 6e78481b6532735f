use vstd::prelude::*;

use crate::buffer::{Buffer, BufferModel};
use crate::jisyo::{dict_lookup, strings_view, Jisyo};
use crate::kana::{
    convert_to_halfwidth_katakana, convert_to_katakana, convert_to_zenkaku_ascii, delete_setsuji,
    halfwidth_of, katakana_of, without_setsuji, zenkaku_char, HalfwidthTable,
};
use crate::key::{KeyEvent, Move};
use crate::romaji::{key_value, match_kind, search_lookup_table, split_value, KanaMatch, RomajiTable};
use crate::state::{cand_text, default_kana, okuri_of, InputState, KanaMode, KanaState, Mode};
use crate::text::{
    is_digit, is_lower, is_lower_char, is_punct, is_punct_or_digit, pop_char, push_char, push_str,
};
use vstd::string::StrSliceExecFns;
use vstd::utf8::is_ascii_chars;

verus! {

/// The static data that input consults besides the dictionary.
pub struct Tables {
    pub romaji: RomajiTable,
    pub halfwidth: HalfwidthTable,
}

impl Tables {
    pub open spec fn wf(&self) -> bool {
        self.romaji.wf() && self.halfwidth.wf()
    }
}

/// What a keystroke is interpreted against: the transliteration table, the half-width table
/// and the dictionary's sources.
pub struct Env {
    pub table: Seq<(Seq<char>, Seq<char>)>,
    pub half: Seq<(char, Seq<char>)>,
    pub dict: Seq<Seq<char>>,
}

pub open spec fn env_of(jisyo: &Jisyo, tables: &Tables) -> Env {
    Env { table: tables.romaji@, half: tables.halfwidth@, dict: jisyo@ }
}

/// Keys that act on the buffer alone, whatever the mode.
pub open spec fn is_cursor_key(k: KeyEvent) -> bool {
    k is Navigation || k is Delete
}

pub open spec fn cursor_step(b: BufferModel, k: KeyEvent) -> BufferModel {
    match k {
        KeyEvent::Navigation(Move::Left) => b.move_left(),
        KeyEvent::Navigation(Move::Right) => b.move_right(),
        KeyEvent::Navigation(Move::Up) => b.move_up(),
        KeyEvent::Navigation(Move::Down) => b.move_down(),
        KeyEvent::Navigation(Move::RapidUp) => b.rapid_up(),
        KeyEvent::Navigation(Move::RapidDown) => b.rapid_down(),
        KeyEvent::Navigation(Move::LineHead) => b.to_line_head(),
        KeyEvent::Navigation(Move::LineTail) => b.to_line_tail(),
        KeyEvent::Navigation(Move::SelectLeft) => b.select_left(),
        KeyEvent::Navigation(Move::SelectRight) => b.select_right(),
        KeyEvent::Delete => b.delete(),
        _ => b,
    }
}

pub open spec fn latin_step(z: bool, b: BufferModel, k: KeyEvent) -> (Mode, BufferModel) {
    match k {
        KeyEvent::Char(c) => (Mode::Latin(z), b.insert_char(
            if z {
                zenkaku_char(c)
            } else {
                c
            },
        )),
        KeyEvent::ToggleHankakuZenkaku => (Mode::Latin(!z), b),
        KeyEvent::Backspace => (Mode::Latin(z), b.backspace()),
        KeyEvent::ToggleLatin => (default_kana(), b),
        _ => (Mode::Latin(z), b),
    }
}

/// Candidate browsing for reading `y`, or `otherwise` when the dictionary has nothing for it.
pub open spec fn convert_or(e: Env, y: Seq<char>, otherwise: Mode) -> Mode {
    match dict_lookup(e.dict, y) {
        Some(c) => Mode::Converting { yomi: y, candidates: c, selected_index: 0 },
        None => otherwise,
    }
}

pub open spec fn abbrev_step(s: Seq<char>, b: BufferModel, e: Env, k: KeyEvent) -> (
    Mode,
    BufferModel,
) {
    match k {
        KeyEvent::Char(c) => (Mode::Abbrev(s.push(c)), b),
        KeyEvent::Backspace => if s.len() > 0 {
            (Mode::Abbrev(s.drop_last()), b)
        } else {
            (default_kana(), b)
        },
        KeyEvent::CommitUnconverted => (default_kana(), b.insert_str(s)),
        KeyEvent::StartConversion => (convert_or(e, s, Mode::Abbrev(s)), b),
        _ => (Mode::Abbrev(s), b),
    }
}

/// Kana committed in sub-mode `st`: appended to a pending reading, or written to the buffer
/// (as katakana, or half-width katakana, in the katakana sub-mode).
pub open spec fn commit_kana_step(b: BufferModel, st: KanaMode, e: Env, kana: Seq<char>) -> (
    KanaMode,
    BufferModel,
) {
    match st {
        KanaMode::ToBeConverted(y) => (KanaMode::ToBeConverted(y + kana), b),
        KanaMode::Hiragana(z) => (st, b.insert_str(kana)),
        KanaMode::Katakana(h) => (st, b.insert_str(
            if h {
                halfwidth_of(e.half, kana)
            } else {
                katakana_of(kana)
            },
        )),
    }
}

/// A character typed in kana mode: fed to the transliteration table with the pending romaji.
pub open spec fn char_step(romaji: Seq<char>, st: KanaMode, b: BufferModel, e: Env, c: char) -> (
    Mode,
    BufferModel,
) {
    let r = romaji.push(c);
    let kind = match_kind(e.table, r);
    if kind == 0 {
        let (commit, pushback) = split_value(key_value(e.table, r));
        let (st2, b2) = commit_kana_step(b, st, e, commit);
        (Mode::Kana { romaji: pushback, state: st2 }, b2)
    } else if kind == 1 {
        (Mode::Kana { romaji: r, state: st }, b)
    } else if st is ToBeConverted {
        (Mode::Kana { romaji, state: st }, b)
    } else if (is_punct(c) || is_digit(c)) && romaji.len() == 0 {
        (Mode::Kana { romaji, state: st }, b.insert_char(
            if st == KanaMode::Hiragana(true) {
                zenkaku_char(c)
            } else {
                c
            },
        ))
    } else {
        (Mode::Kana { romaji, state: st }, b)
    }
}

pub open spec fn kana_step(romaji: Seq<char>, st: KanaMode, b: BufferModel, e: Env, k: KeyEvent) -> (
    Mode,
    BufferModel,
) {
    let same = Mode::Kana { romaji, state: st };
    match k {
        KeyEvent::ToggleLatin => (Mode::Latin(false), b),
        KeyEvent::StartAbbrev => (Mode::Abbrev(seq![]), b),
        KeyEvent::ToggleHankakuZenkaku => (Mode::Kana {
            romaji,
            state: match st {
                KanaMode::Katakana(h) => KanaMode::Katakana(!h),
                KanaMode::Hiragana(z) => KanaMode::Hiragana(!z),
                _ => st,
            },
        }, b),
        KeyEvent::ToggleKatakana => match st {
            KanaMode::ToBeConverted(y) => (default_kana(), b.insert_str(
                katakana_of(without_setsuji(y)),
            )),
            KanaMode::Hiragana(_) => (Mode::Kana { romaji, state: KanaMode::Katakana(false) }, b),
            KanaMode::Katakana(_) => (Mode::Kana { romaji, state: KanaMode::Hiragana(false) }, b),
        },
        KeyEvent::StartConversion => match st {
            KanaMode::ToBeConverted(y) => if y.len() > 0 && y != seq!['>'] {
                (convert_or(e, y, same), b)
            } else {
                (same, b)
            },
            _ => (same, b),
        },
        KeyEvent::Backspace => if romaji.len() > 0 {
            (Mode::Kana { romaji: romaji.drop_last(), state: st }, b)
        } else {
            match st {
                KanaMode::ToBeConverted(y) => if y.len() > 0 {
                    (Mode::Kana { romaji, state: KanaMode::ToBeConverted(y.drop_last()) }, b)
                } else {
                    (Mode::Kana { romaji, state: KanaMode::Hiragana(false) }, b)
                },
                _ => (same, b.backspace()),
            }
        },
        KeyEvent::CommitUnconverted => match st {
            KanaMode::ToBeConverted(y) => (default_kana(), b.insert_str(without_setsuji(y))),
            _ => (same, b),
        },
        KeyEvent::Setsuji => if romaji.len() == 0 {
            match st {
                KanaMode::ToBeConverted(y) => if y.len() > 0 {
                    let y2 = y.push('>');
                    (convert_or(e, y2, Mode::Kana { romaji, state: KanaMode::ToBeConverted(y2) }), b)
                } else {
                    (Mode::Kana { romaji, state: KanaMode::ToBeConverted(seq!['>']) }, b)
                },
                _ => (Mode::Kana { romaji, state: KanaMode::ToBeConverted(seq!['>']) }, b),
            }
        } else {
            (same, b)
        },
        // An okurigana letter is tried at once: on a dictionary hit conversion starts; on a
        // miss the letter is dropped again and the reading stays as it was.
        KeyEvent::StartYomiOrOkuri(c) => if romaji.len() == 0 {
            match st {
                KanaMode::ToBeConverted(y) => if y.len() > 0 {
                    (convert_or(e, y.push(c), same), b)
                } else {
                    char_step(seq![], KanaMode::ToBeConverted(seq![]), b, e, c)
                },
                _ => char_step(seq![], KanaMode::ToBeConverted(seq![]), b, e, c),
            }
        } else {
            (same, b)
        },
        KeyEvent::Char(c) => char_step(romaji, st, b, e, c),
        _ => (same, b),
    }
}

/// The mode that cancelling a conversion of reading `y` returns to: abbreviation input for
/// an ASCII reading; otherwise the pending reading, without a trailing okurigana letter.
pub open spec fn cancel_mode(y: Seq<char>) -> Mode {
    if is_ascii_chars(y) {
        Mode::Abbrev(y)
    } else {
        Mode::Kana {
            romaji: seq![],
            state: KanaMode::ToBeConverted(
                if y.len() > 0 && is_lower(y.last()) {
                    y.drop_last()
                } else {
                    y
                },
            ),
        }
    }
}

/// The mode that Backspace during a conversion of reading `y` returns to before deleting:
/// abbreviation input for an ASCII reading; otherwise the pending reading, whole.
pub open spec fn restored_mode(y: Seq<char>) -> Mode {
    if is_ascii_chars(y) {
        Mode::Abbrev(y)
    } else {
        Mode::Kana { romaji: seq![], state: KanaMode::ToBeConverted(y) }
    }
}

/// Order of the mutual recursion between a keystroke and the keystrokes that it replays.
pub open spec fn rank(m: Mode, k: KeyEvent) -> nat {
    match m {
        Mode::Converting { .. } => 3,
        Mode::Kana { .. } => if k is StartYomiOrOkuri {
            2
        } else {
            1
        },
        _ => 1,
    }
}

/// The key that a compound commit replays after committing, if any.
pub open spec fn replayed_key(k: KeyEvent) -> Option<KeyEvent> {
    match k {
        KeyEvent::StartAbbrev => Some(KeyEvent::StartAbbrev),
        KeyEvent::ToggleKatakana => Some(KeyEvent::ToggleKatakana),
        KeyEvent::CommitCandidateWithStartYomi(c) => Some(KeyEvent::StartYomiOrOkuri(c)),
        KeyEvent::CommitCandidateWithSetsubiji => Some(KeyEvent::Setsuji),
        KeyEvent::CommitCandidateWithChar(c) => Some(KeyEvent::Char(c)),
        _ => None,
    }
}

/// One keystroke: the next mode and the buffer after it.
pub open spec fn step(m: Mode, b: BufferModel, e: Env, k: KeyEvent) -> (Mode, BufferModel)
    decreases rank(m, k), 1nat,
{
    if is_cursor_key(k) {
        (m, cursor_step(b, k))
    } else {
        match m {
            Mode::Latin(z) => latin_step(z, b, k),
            Mode::Abbrev(s) => abbrev_step(s, b, e, k),
            Mode::Kana { romaji, state } => kana_step(romaji, state, b, e, k),
            Mode::Converting { yomi, candidates, selected_index } => match k {
                KeyEvent::NextCandidate => (Mode::Converting {
                    yomi,
                    candidates,
                    selected_index: if selected_index + 1 < candidates.len() {
                        selected_index + 1
                    } else {
                        candidates.len() - 1
                    },
                }, b),
                KeyEvent::PrevCandidate => (Mode::Converting {
                    yomi,
                    candidates,
                    selected_index: if selected_index > 0 {
                        selected_index - 1
                    } else {
                        0
                    },
                }, b),
                KeyEvent::CancelConversion => (cancel_mode(yomi), b),
                KeyEvent::CommitCandidate => commit_step(
                    yomi,
                    candidates,
                    selected_index,
                    KanaMode::Hiragana(false),
                    b,
                    e,
                ),
                // Backspace abandons the conversion and then deletes one character of the
                // restored reading.
                KeyEvent::Backspace => step(restored_mode(yomi), b, e, KeyEvent::Backspace),
                _ => match replayed_key(k) {
                    Some(k2) => {
                        let (m1, b1) = commit_step(
                            yomi,
                            candidates,
                            selected_index,
                            KanaMode::Hiragana(false),
                            b,
                            e,
                        );
                        if m1 is Kana {
                            step(m1, b1, e, k2)
                        } else {
                            (m1, b1)
                        }
                    },
                    None => (m, b),
                },
            },
        }
    }
}

/// Committing the selected candidate: its text goes to the buffer, then the reading's
/// okurigana letter, if any, is replayed in the new kana mode.
pub open spec fn commit_step(
    y: Seq<char>,
    cands: Seq<Seq<char>>,
    i: int,
    ks: KanaMode,
    b: BufferModel,
    e: Env,
) -> (Mode, BufferModel)
    decreases 2nat, 0nat,
{
    let b1 = b.insert_str(cand_text(cands[i]));
    let m1 = Mode::Kana { romaji: seq![], state: ks };
    match okuri_of(y) {
        Some(o) => step(m1, b1, e, KeyEvent::Char(o)),
        None => (m1, b1),
    }
}

/// Interprets one keystroke: cursor and deletion keys act on the buffer directly; every other
/// key goes to the handler of the current mode.
pub fn handle_key(
    state: InputState,
    buffer: &mut Buffer,
    jisyo: &Jisyo,
    tables: &Tables,
    key: KeyEvent,
) -> (r: InputState)
    requires
        state@.wf(),
        old(buffer).wf(),
        jisyo.wf(),
        tables.wf(),
    ensures
        (r@, final(buffer)@) == step(state@, old(buffer)@, env_of(jisyo, tables), key),
        r@.wf(),
        final(buffer).wf(),
    decreases rank(state@, key), 2nat,
{
    if handle_key_cursor(buffer, key) {
        state
    } else {
        handle_key_state(state, buffer, jisyo, tables, key)
    }
}

fn handle_key_cursor(buffer: &mut Buffer, key: KeyEvent) -> (r: bool)
    requires
        old(buffer).wf(),
    ensures
        r == is_cursor_key(key),
        r ==> final(buffer)@ == cursor_step(old(buffer)@, key),
        !r ==> final(buffer)@ == old(buffer)@,
        final(buffer).wf(),
{
    match key {
        KeyEvent::Navigation(Move::Left) => {
            buffer.move_left();
        },
        KeyEvent::Navigation(Move::Right) => {
            buffer.move_right();
        },
        KeyEvent::Navigation(Move::Up) => {
            buffer.move_up();
        },
        KeyEvent::Navigation(Move::Down) => {
            buffer.move_down();
        },
        KeyEvent::Navigation(Move::RapidUp) => buffer.rapid_up(),
        KeyEvent::Navigation(Move::RapidDown) => buffer.rapid_down(),
        KeyEvent::Navigation(Move::LineHead) => buffer.to_line_head(),
        KeyEvent::Navigation(Move::LineTail) => buffer.to_line_tail(),
        KeyEvent::Navigation(Move::SelectLeft) => buffer.select_left(),
        KeyEvent::Navigation(Move::SelectRight) => buffer.select_right(),
        KeyEvent::Delete => buffer.delete(),
        _ => {
            return false;
        },
    }
    true
}

fn handle_key_state(
    state: InputState,
    buffer: &mut Buffer,
    jisyo: &Jisyo,
    tables: &Tables,
    key: KeyEvent,
) -> (r: InputState)
    requires
        state@.wf(),
        old(buffer).wf(),
        jisyo.wf(),
        tables.wf(),
        !is_cursor_key(key),
    ensures
        (r@, final(buffer)@) == step(state@, old(buffer)@, env_of(jisyo, tables), key),
        r@.wf(),
        final(buffer).wf(),
    decreases rank(state@, key), 1nat,
{
    match state {
        InputState::Kana { romaji, state } => handle_kana(romaji, state, buffer, jisyo, tables, key),
        InputState::Converting { yomi, candidates, selected_index } => handle_converting(
            yomi,
            candidates,
            selected_index,
            buffer,
            jisyo,
            tables,
            key,
        ),
        InputState::Latin(zenkaku) => handle_latin(zenkaku, buffer, key),
        InputState::Abbrev(s) => handle_abbrev(s, buffer, jisyo, key),
    }
}

// ---- Latin ----

fn handle_latin(is_zenkaku: bool, buffer: &mut Buffer, key: KeyEvent) -> (r: InputState)
    requires
        old(buffer).wf(),
    ensures
        (r@, final(buffer)@) == latin_step(is_zenkaku, old(buffer)@, key),
        final(buffer).wf(),
{
    let mut is_zenkaku = is_zenkaku;
    match key {
        KeyEvent::Char(c) => buffer.insert_char(
            if is_zenkaku {
                convert_to_zenkaku_ascii(c)
            } else {
                c
            },
        ),
        KeyEvent::ToggleHankakuZenkaku => is_zenkaku = !is_zenkaku,
        KeyEvent::Backspace => buffer.backspace(),
        KeyEvent::ToggleLatin => return InputState::new_kana(),
        _ => {},
    }
    InputState::Latin(is_zenkaku)
}

// ---- Abbrev ----

fn handle_abbrev(s: String, buffer: &mut Buffer, jisyo: &Jisyo, key: KeyEvent) -> (r: InputState)
    requires
        old(buffer).wf(),
        jisyo.wf(),
    ensures
        (r@, final(buffer)@) == abbrev_step(s@, old(buffer)@, env_of_dict(jisyo), key),
        r@.wf(),
        final(buffer).wf(),
{
    let mut s = s;
    match key {
        KeyEvent::Char(c) => push_char(&mut s, c),
        KeyEvent::Backspace => {
            if !s.as_str().is_empty() {
                pop_char(&mut s);
            } else {
                return InputState::new_kana();
            }
        },
        KeyEvent::CommitUnconverted => {
            buffer.insert_str(s.as_str());
            return InputState::new_kana();
        },
        KeyEvent::StartConversion => {
            if let Some(c) = InputState::new_converting(s.as_str(), jisyo) {
                return c;
            }
        },
        _ => {},
    }
    InputState::Abbrev(s)
}

/// The part of the environment that abbreviation input reads.
pub open spec fn env_of_dict(jisyo: &Jisyo) -> Env {
    Env { table: seq![], half: seq![], dict: jisyo@ }
}

// ---- Kana ----

/// Whether the reading is the boundary marker alone.
fn is_marker_only(y: &str) -> (r: bool)
    ensures
        r == (y@ == seq!['>']),
{
    let n = y.unicode_len();
    if n != 1 {
        return false;
    }
    let c = y.get_char(0);
    proof {
        if c == '>' {
            assert(y@ =~= seq!['>']);
        }
    }
    c == '>'
}

fn marker() -> (r: String)
    ensures
        r@ == seq!['>'],
{
    let mut s = String::new();
    push_char(&mut s, '>');
    s
}

fn handle_kana(
    romaji: String,
    state: KanaState,
    buffer: &mut Buffer,
    jisyo: &Jisyo,
    tables: &Tables,
    key: KeyEvent,
) -> (r: InputState)
    requires
        old(buffer).wf(),
        jisyo.wf(),
        tables.wf(),
    ensures
        (r@, final(buffer)@) == kana_step(
            romaji@,
            state@,
            old(buffer)@,
            env_of(jisyo, tables),
            key,
        ),
        r@.wf(),
        final(buffer).wf(),
    decreases (if key is StartYomiOrOkuri {
        1nat
    } else {
        0nat
    }),
{
    let ghost r0 = romaji@;
    let mut romaji = romaji;
    let mut state = state;
    match key {
        KeyEvent::ToggleLatin => return InputState::new_latin(),
        KeyEvent::StartAbbrev => return InputState::new_abbrev(),
        KeyEvent::ToggleHankakuZenkaku => {
            state =
            match state {
                KanaState::Katakana(hankaku) => KanaState::Katakana(!hankaku),
                KanaState::Hiragana(zenkaku) => KanaState::Hiragana(!zenkaku),
                other => other,
            };
        },
        KeyEvent::ToggleKatakana => {
            state =
            match state {
                KanaState::ToBeConverted(y) => {
                    let plain = delete_setsuji(y.as_str());
                    let kata = convert_to_katakana(plain.as_str());
                    buffer.insert_str(kata.as_str());
                    return InputState::new_kana();
                },
                KanaState::Hiragana(_) => KanaState::new_katakana(),
                KanaState::Katakana(_) => KanaState::new_hiragana(),
            };
        },
        KeyEvent::StartConversion => {
            if let KanaState::ToBeConverted(y) = &state {
                if !y.as_str().is_empty() && !is_marker_only(y.as_str()) {
                    if let Some(c) = InputState::new_converting(y.as_str(), jisyo) {
                        return c;
                    }
                }
            }
        },
        KeyEvent::Backspace => {
            if !romaji.as_str().is_empty() {
                pop_char(&mut romaji);
            } else {
                state =
                match state {
                    KanaState::ToBeConverted(y) => {
                        let mut y = y;
                        if !y.as_str().is_empty() {
                            pop_char(&mut y);
                            KanaState::ToBeConverted(y)
                        } else {
                            KanaState::new_hiragana()
                        }
                    },
                    other => {
                        buffer.backspace();
                        other
                    },
                };
            }
        },
        KeyEvent::CommitUnconverted => {
            if let KanaState::ToBeConverted(y) = &state {
                let plain = delete_setsuji(y.as_str());
                buffer.insert_str(plain.as_str());
                return InputState::new_kana();
            }
        },
        KeyEvent::Setsuji => {
            if romaji.as_str().is_empty() {
                state =
                match state {
                    KanaState::ToBeConverted(y) => {
                        let mut y = y;
                        if !y.as_str().is_empty() {
                            // a prefix: the marker closes the reading
                            push_char(&mut y, '>');
                            if let Some(c) = InputState::new_converting(y.as_str(), jisyo) {
                                return c;
                            }
                            KanaState::ToBeConverted(y)
                        } else {
                            KanaState::ToBeConverted(marker())
                        }
                    },
                    // a suffix: the marker opens the reading
                    _ => KanaState::ToBeConverted(marker()),
                };
            }
        },
        KeyEvent::StartYomiOrOkuri(c) => {
            if romaji.as_str().is_empty() {
                match &state {
                    KanaState::ToBeConverted(y) => {
                        if !y.as_str().is_empty() {
                            let mut y2 = y.clone();
                            push_char(&mut y2, c);
                            if let Some(conv) = InputState::new_converting(y2.as_str(), jisyo) {
                                return conv;
                            }
                        } else {
                            return handle_kana(
                                String::new(),
                                KanaState::ToBeConverted(String::new()),
                                buffer,
                                jisyo,
                                tables,
                                KeyEvent::Char(c),
                            );
                        }
                    },
                    _ => {
                        return handle_kana(
                            String::new(),
                            KanaState::ToBeConverted(String::new()),
                            buffer,
                            jisyo,
                            tables,
                            KeyEvent::Char(c),
                        );
                    },
                }
            }
        },
        KeyEvent::Char(c) => {
            push_char(&mut romaji, c);
            match search_lookup_table(&tables.romaji, romaji.as_str()) {
                KanaMatch::Success(kana) => {
                    commit_kana(buffer, &mut state, tables, kana.commit.as_str());
                    romaji = kana.pushback;
                },
                KanaMatch::Failure => {
                    pop_char(&mut romaji);
                    assert(romaji@ =~= r0);
                    let composing = matches!(state, KanaState::ToBeConverted(_));
                    if !composing && is_punct_or_digit(c) && romaji.as_str().is_empty() {
                        let zenkaku = match state {
                            KanaState::Hiragana(z) => z,
                            _ => false,
                        };
                        buffer.insert_char(
                            if zenkaku {
                                convert_to_zenkaku_ascii(c)
                            } else {
                                c
                            },
                        );
                    }
                },
                KanaMatch::PrefixMatch => {},
            }
        },
        _ => {},
    }
    InputState::Kana { romaji, state }
}

/// Commits `kana` in the current sub-mode.
fn commit_kana(buffer: &mut Buffer, state: &mut KanaState, tables: &Tables, kana: &str)
    requires
        old(buffer).wf(),
        tables.wf(),
    ensures
        (final(state)@, final(buffer)@) == commit_kana_step(
            old(buffer)@,
            old(state)@,
            Env { table: tables.romaji@, half: tables.halfwidth@, dict: seq![] },
            kana@,
        ),
        final(buffer).wf(),
{
    match state {
        KanaState::ToBeConverted(yomi) => push_str(yomi, kana),
        KanaState::Hiragana(_) => buffer.insert_str(kana),
        KanaState::Katakana(hankaku) => {
            let converted = if *hankaku {
                convert_to_halfwidth_katakana(&tables.halfwidth, kana)
            } else {
                convert_to_katakana(kana)
            };
            buffer.insert_str(converted.as_str());
        },
    }
}

// ---- Converting ----

fn cancel_conversion(yomi: String) -> (r: InputState)
    ensures
        r@ == cancel_mode(yomi@),
{
    if yomi.as_str().is_ascii() {
        return InputState::Abbrev(yomi);
    }
    let mut yomi = yomi;
    let n = yomi.as_str().unicode_len();
    if n > 0 {
        let last = yomi.as_str().get_char(n - 1);
        if is_lower_char(last) {
            pop_char(&mut yomi);
        }
    }
    InputState::Kana { romaji: String::new(), state: KanaState::ToBeConverted(yomi) }
}

fn restore_conversion(yomi: String) -> (r: InputState)
    ensures
        r@ == restored_mode(yomi@),
{
    if yomi.as_str().is_ascii() {
        InputState::Abbrev(yomi)
    } else {
        InputState::Kana { romaji: String::new(), state: KanaState::ToBeConverted(yomi) }
    }
}

fn handle_converting(
    yomi: String,
    candidates: Vec<String>,
    selected_index: usize,
    buffer: &mut Buffer,
    jisyo: &Jisyo,
    tables: &Tables,
    key: KeyEvent,
) -> (r: InputState)
    requires
        selected_index < candidates@.len(),
        old(buffer).wf(),
        jisyo.wf(),
        tables.wf(),
        !is_cursor_key(key),
    ensures
        (r@, final(buffer)@) == step(
            Mode::Converting {
                yomi: yomi@,
                candidates: strings_view(candidates@),
                selected_index: selected_index as int,
            },
            old(buffer)@,
            env_of(jisyo, tables),
            key,
        ),
        r@.wf(),
        final(buffer).wf(),
    decreases 3nat, 0nat,
{
    let mut selected_index = selected_index;
    match key {
        KeyEvent::NextCandidate => {
            let n = candidates.len();
            selected_index = if selected_index + 1 < n {
                selected_index + 1
            } else {
                n - 1
            };
        },
        KeyEvent::PrevCandidate => {
            selected_index = if selected_index > 0 {
                selected_index - 1
            } else {
                0
            };
        },
        KeyEvent::CancelConversion => return cancel_conversion(yomi),
        KeyEvent::CommitCandidate => {
            return commit_candidate(
                yomi.as_str(),
                candidates.as_slice(),
                selected_index,
                KanaState::new_hiragana(),
                buffer,
                jisyo,
                tables,
            );
        },
        KeyEvent::Backspace => {
            let next_state = restore_conversion(yomi);
            return handle_key(next_state, buffer, jisyo, tables, KeyEvent::Backspace);
        },
        KeyEvent::StartAbbrev | KeyEvent::ToggleKatakana | KeyEvent::CommitCandidateWithStartYomi(_)
        | KeyEvent::CommitCandidateWithSetsubiji | KeyEvent::CommitCandidateWithChar(_) => {
            let next_key = match key {
                KeyEvent::CommitCandidateWithStartYomi(c) => KeyEvent::StartYomiOrOkuri(c),
                KeyEvent::CommitCandidateWithSetsubiji => KeyEvent::Setsuji,
                KeyEvent::CommitCandidateWithChar(c) => KeyEvent::Char(c),
                KeyEvent::ToggleKatakana => KeyEvent::ToggleKatakana,
                _ => KeyEvent::StartAbbrev,
            };
            let next_state = commit_candidate(
                yomi.as_str(),
                candidates.as_slice(),
                selected_index,
                KanaState::new_hiragana(),
                buffer,
                jisyo,
                tables,
            );
            return handle_key(next_state, buffer, jisyo, tables, next_key);
        },
        _ => {},
    }
    InputState::Converting { yomi, candidates, selected_index }
}

/// Inserts the selected candidate's text, then replays the reading's okurigana letter in the
/// new kana mode.
fn commit_candidate(
    yomi: &str,
    candidates: &[String],
    selected_index: usize,
    kana_state: KanaState,
    buffer: &mut Buffer,
    jisyo: &Jisyo,
    tables: &Tables,
) -> (r: InputState)
    requires
        selected_index < candidates@.len(),
        old(buffer).wf(),
        jisyo.wf(),
        tables.wf(),
    ensures
        (r@, final(buffer)@) == commit_step(
            yomi@,
            strings_view(candidates@),
            selected_index as int,
            kana_state@,
            old(buffer)@,
            env_of(jisyo, tables),
        ),
        r is Kana,
        final(buffer).wf(),
    decreases 2nat, 3nat,
{
    let (commit, _) = InputState::candidate(candidates, selected_index);
    let mut next_state = InputState::Kana { romaji: String::new(), state: kana_state };
    buffer.insert_str(commit);
    if let Some(okuri) = InputState::okuri(yomi) {
        next_state = handle_key(next_state, buffer, jisyo, tables, KeyEvent::Char(okuri));
    }
    next_state
}

/// Cancelling a conversion of a reading that is not all ASCII returns to kana input with
/// nothing in the romaji accumulator and, as the pending reading, the converted reading less
/// one trailing okurigana letter if it had one; the buffer is untouched.
pub proof fn lemma_cancel_restores_reading(
    y: Seq<char>,
    cands: Seq<Seq<char>>,
    i: int,
    b: BufferModel,
    e: Env,
)
    requires
        !is_ascii_chars(y),
    ensures
        ({
            let (m, b2) = step(
                Mode::Converting { yomi: y, candidates: cands, selected_index: i },
                b,
                e,
                KeyEvent::CancelConversion,
            );
            &&& b2 == b
            &&& m matches Mode::Kana { romaji, state: KanaMode::ToBeConverted(p) }
            &&& romaji.len() == 0
            &&& (y.len() > 0 && is_lower(y.last())) ==> p.push(y.last()) == y
            &&& !(y.len() > 0 && is_lower(y.last())) ==> p == y
        }),
{
    if y.len() > 0 && is_lower(y.last()) {
        assert(y.drop_last().push(y.last()) =~= y);
    }
}


/// A conversion started from reading `y` (the reading that the dictionary was asked for)
/// holds `y`, and cancelling it returns, with the buffer untouched, to abbreviation input
/// for an ASCII reading, and otherwise to kana input whose pending reading is `y` less one
/// trailing okurigana letter if it has one.
pub proof fn lemma_cancel_after_conversion(e: Env, y: Seq<char>, otherwise: Mode, b: BufferModel)
    requires
        dict_lookup(e.dict, y) is Some,
    ensures
        convert_or(e, y, otherwise) is Converting,
        convert_or(e, y, otherwise) matches Mode::Converting { yomi, .. } && yomi == y,
        step(convert_or(e, y, otherwise), b, e, KeyEvent::CancelConversion) == (cancel_mode(y), b),
        is_ascii_chars(y) ==> cancel_mode(y) == Mode::Abbrev(y),
        !is_ascii_chars(y) ==> ({
            &&& cancel_mode(y) matches Mode::Kana { romaji, state: KanaMode::ToBeConverted(p) }
            &&& romaji.len() == 0
            &&& (y.len() > 0 && is_lower(y.last())) ==> p.push(y.last()) == y
            &&& !(y.len() > 0 && is_lower(y.last())) ==> p == y
        }),
{
    if y.len() > 0 && is_lower(y.last()) {
        assert(y.drop_last().push(y.last()) =~= y);
    }
}

} // verus!
