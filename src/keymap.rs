use vstd::prelude::*;

use crate::key::{KeyEvent, Move};
use crate::state::{InputState, KanaMode, KanaState, Mode};

verus! {

/// A key as the terminal reports it.
#[derive(Debug, Clone, Copy, PartialEq, Eq)]
pub enum RawKey {
    Char(char),
    Ctrl(char),
    Left,
    Right,
    Up,
    Down,
    Home,
    End,
    PageUp,
    PageDown,
    ShiftLeft,
    ShiftRight,
    Delete,
    Backspace,
    Esc,
    Other,
}

/// A command for the presentation layer itself rather than for the input engine.
#[derive(Debug, Clone, Copy, PartialEq, Eq)]
pub enum FrontCmd {
    SendAndClear,
    Quit,
    Paste,
    Undo,
    Clear,
    Refresh,
    CopySelected,
    CutSelected,
    PrintCodePoint,
}

pub open spec fn is_upper(c: char) -> bool {
    'A' <= c <= 'Z'
}

/// The lower-case letter of an upper-case ASCII letter.
pub open spec fn lower_of(c: char) -> char {
    ((c as u32) + 32) as char
}

fn to_lower(c: char) -> (r: char)
    requires
        is_upper(c),
    ensures
        r == lower_of(c),
{
    ((c as u8) + 32) as char
}

pub open spec fn front_cmd(k: RawKey) -> Option<FrontCmd> {
    match k {
        RawKey::Ctrl('q') => Some(FrontCmd::Quit),
        RawKey::Ctrl('s') => Some(FrontCmd::SendAndClear),
        RawKey::Ctrl('d') => Some(FrontCmd::Clear),
        RawKey::Ctrl('r') => Some(FrontCmd::Refresh),
        RawKey::Ctrl('x') => Some(FrontCmd::CutSelected),
        RawKey::Ctrl('v') => Some(FrontCmd::Paste),
        RawKey::Ctrl('c') => Some(FrontCmd::CopySelected),
        RawKey::Ctrl('b') => Some(FrontCmd::PrintCodePoint),
        RawKey::Esc => Some(FrontCmd::Undo),
        _ => None,
    }
}

/// Keys with the same meaning in every mode.
pub open spec fn global_event(k: RawKey) -> Option<KeyEvent> {
    match k {
        RawKey::Ctrl('z') => Some(KeyEvent::ToggleHankakuZenkaku),
        RawKey::Ctrl('l') => Some(KeyEvent::ToggleLatin),
        RawKey::Ctrl('g') => Some(KeyEvent::CancelConversion),
        RawKey::Left => Some(KeyEvent::Navigation(Move::Left)),
        RawKey::Right => Some(KeyEvent::Navigation(Move::Right)),
        RawKey::Up => Some(KeyEvent::Navigation(Move::Up)),
        RawKey::Down => Some(KeyEvent::Navigation(Move::Down)),
        RawKey::Home => Some(KeyEvent::Navigation(Move::LineHead)),
        RawKey::End => Some(KeyEvent::Navigation(Move::LineTail)),
        RawKey::PageUp => Some(KeyEvent::Navigation(Move::RapidUp)),
        RawKey::PageDown => Some(KeyEvent::Navigation(Move::RapidDown)),
        RawKey::ShiftLeft => Some(KeyEvent::Navigation(Move::SelectLeft)),
        RawKey::ShiftRight => Some(KeyEvent::Navigation(Move::SelectRight)),
        RawKey::Delete => Some(KeyEvent::Delete),
        RawKey::Backspace => Some(KeyEvent::Backspace),
        _ => None,
    }
}

pub open spec fn latin_event(k: RawKey) -> Option<KeyEvent> {
    match k {
        RawKey::Char(c) => Some(KeyEvent::Char(c)),
        _ => None,
    }
}

pub open spec fn abbrev_event(k: RawKey) -> Option<KeyEvent> {
    match k {
        RawKey::Char(' ') => Some(KeyEvent::StartConversion),
        RawKey::Char('\n') => Some(KeyEvent::CommitUnconverted),
        RawKey::Char(c) => Some(KeyEvent::Char(c)),
        _ => None,
    }
}

/// In kana input, space and enter convert and commit a pending reading, and an upper-case
/// letter starts a reading or marks okurigana.
pub open spec fn kana_event(st: KanaMode, k: RawKey) -> Option<KeyEvent> {
    match k {
        RawKey::Char('q') => Some(KeyEvent::ToggleKatakana),
        RawKey::Char('>') => Some(KeyEvent::Setsuji),
        RawKey::Char('/') => Some(KeyEvent::StartAbbrev),
        RawKey::Char(' ') => if st is ToBeConverted {
            Some(KeyEvent::StartConversion)
        } else {
            Some(KeyEvent::Char(' '))
        },
        RawKey::Char('\n') => if st is ToBeConverted {
            Some(KeyEvent::CommitUnconverted)
        } else {
            Some(KeyEvent::Char('\n'))
        },
        RawKey::Char(c) => if is_upper(c) {
            Some(KeyEvent::StartYomiOrOkuri(lower_of(c)))
        } else {
            Some(KeyEvent::Char(c))
        },
        _ => None,
    }
}

pub open spec fn conversion_event(k: RawKey) -> Option<KeyEvent> {
    match k {
        RawKey::Char(' ') => Some(KeyEvent::NextCandidate),
        RawKey::Char('q') => Some(KeyEvent::ToggleKatakana),
        RawKey::Char('x') => Some(KeyEvent::PrevCandidate),
        RawKey::Char('\n') => Some(KeyEvent::CommitCandidate),
        RawKey::Char('>') => Some(KeyEvent::CommitCandidateWithSetsubiji),
        RawKey::Char('/') => Some(KeyEvent::StartAbbrev),
        RawKey::Char(c) => if is_upper(c) {
            Some(KeyEvent::CommitCandidateWithStartYomi(lower_of(c)))
        } else {
            Some(KeyEvent::CommitCandidateWithChar(c))
        },
        _ => None,
    }
}

/// The event that key `k` means in mode `m`.
pub open spec fn event_in_mode(m: Mode, k: RawKey) -> Option<KeyEvent> {
    if global_event(k) is Some {
        global_event(k)
    } else {
        match m {
            Mode::Latin(_) => latin_event(k),
            Mode::Converting { .. } => conversion_event(k),
            Mode::Kana { state, .. } => kana_event(state, k),
            Mode::Abbrev(_) => abbrev_event(k),
        }
    }
}

pub fn to_front_cmd(k: &RawKey) -> (r: Option<FrontCmd>)
    ensures
        r == front_cmd(*k),
{
    match k {
        RawKey::Ctrl('q') => Some(FrontCmd::Quit),
        RawKey::Ctrl('s') => Some(FrontCmd::SendAndClear),
        RawKey::Ctrl('d') => Some(FrontCmd::Clear),
        RawKey::Ctrl('r') => Some(FrontCmd::Refresh),
        RawKey::Ctrl('x') => Some(FrontCmd::CutSelected),
        RawKey::Ctrl('v') => Some(FrontCmd::Paste),
        RawKey::Ctrl('c') => Some(FrontCmd::CopySelected),
        RawKey::Ctrl('b') => Some(FrontCmd::PrintCodePoint),
        RawKey::Esc => Some(FrontCmd::Undo),
        _ => None,
    }
}

pub fn to_key_event_global(k: &RawKey) -> (r: Option<KeyEvent>)
    ensures
        r == global_event(*k),
{
    match k {
        RawKey::Ctrl('z') => Some(KeyEvent::ToggleHankakuZenkaku),
        RawKey::Ctrl('l') => Some(KeyEvent::ToggleLatin),
        RawKey::Ctrl('g') => Some(KeyEvent::CancelConversion),
        RawKey::Left => Some(KeyEvent::Navigation(Move::Left)),
        RawKey::Right => Some(KeyEvent::Navigation(Move::Right)),
        RawKey::Up => Some(KeyEvent::Navigation(Move::Up)),
        RawKey::Down => Some(KeyEvent::Navigation(Move::Down)),
        RawKey::Home => Some(KeyEvent::Navigation(Move::LineHead)),
        RawKey::End => Some(KeyEvent::Navigation(Move::LineTail)),
        RawKey::PageUp => Some(KeyEvent::Navigation(Move::RapidUp)),
        RawKey::PageDown => Some(KeyEvent::Navigation(Move::RapidDown)),
        RawKey::ShiftLeft => Some(KeyEvent::Navigation(Move::SelectLeft)),
        RawKey::ShiftRight => Some(KeyEvent::Navigation(Move::SelectRight)),
        RawKey::Delete => Some(KeyEvent::Delete),
        RawKey::Backspace => Some(KeyEvent::Backspace),
        _ => None,
    }
}

pub fn to_key_event_latin(k: &RawKey) -> (r: Option<KeyEvent>)
    ensures
        r == latin_event(*k),
{
    match k {
        RawKey::Char(c) => Some(KeyEvent::Char(*c)),
        _ => None,
    }
}

pub fn to_key_event_abbrev(k: &RawKey) -> (r: Option<KeyEvent>)
    ensures
        r == abbrev_event(*k),
{
    match k {
        RawKey::Char(' ') => Some(KeyEvent::StartConversion),
        RawKey::Char('\n') => Some(KeyEvent::CommitUnconverted),
        RawKey::Char(c) => Some(KeyEvent::Char(*c)),
        _ => None,
    }
}

pub fn to_key_event_kana(kana_state: &KanaState, k: &RawKey) -> (r: Option<KeyEvent>)
    ensures
        r == kana_event(kana_state@, *k),
{
    let composing = matches!(kana_state, KanaState::ToBeConverted(_));
    match k {
        RawKey::Char('q') => Some(KeyEvent::ToggleKatakana),
        RawKey::Char('>') => Some(KeyEvent::Setsuji),
        RawKey::Char('/') => Some(KeyEvent::StartAbbrev),
        RawKey::Char(' ') => if composing {
            Some(KeyEvent::StartConversion)
        } else {
            Some(KeyEvent::Char(' '))
        },
        RawKey::Char('\n') => if composing {
            Some(KeyEvent::CommitUnconverted)
        } else {
            Some(KeyEvent::Char('\n'))
        },
        RawKey::Char(c) => if 'A' <= *c && *c <= 'Z' {
            Some(KeyEvent::StartYomiOrOkuri(to_lower(*c)))
        } else {
            Some(KeyEvent::Char(*c))
        },
        _ => None,
    }
}

pub fn to_key_event_conversion(k: &RawKey) -> (r: Option<KeyEvent>)
    ensures
        r == conversion_event(*k),
{
    match k {
        RawKey::Char(' ') => Some(KeyEvent::NextCandidate),
        RawKey::Char('q') => Some(KeyEvent::ToggleKatakana),
        RawKey::Char('x') => Some(KeyEvent::PrevCandidate),
        RawKey::Char('\n') => Some(KeyEvent::CommitCandidate),
        RawKey::Char('>') => Some(KeyEvent::CommitCandidateWithSetsubiji),
        RawKey::Char('/') => Some(KeyEvent::StartAbbrev),
        RawKey::Char(c) => if 'A' <= *c && *c <= 'Z' {
            Some(KeyEvent::CommitCandidateWithStartYomi(to_lower(*c)))
        } else {
            Some(KeyEvent::CommitCandidateWithChar(*c))
        },
        _ => None,
    }
}

/// Translates a terminal key into an engine event for the current mode.
pub fn to_key_event_with_state(state: &InputState, k: &RawKey) -> (r: Option<KeyEvent>)
    ensures
        r == event_in_mode(state@, *k),
{
    if let Some(s) = to_key_event_global(k) {
        Some(s)
    } else {
        match state {
            InputState::Latin(_) => to_key_event_latin(k),
            InputState::Converting { .. } => to_key_event_conversion(k),
            InputState::Kana { state: s, .. } => to_key_event_kana(s, k),
            InputState::Abbrev(_) => to_key_event_abbrev(k),
        }
    }
}

} // verus!
