use vstd::prelude::*;

verus! {

/// A cursor movement or selection step.
#[derive(Debug, Clone, Copy, PartialEq, Eq)]
pub enum Move {
    Left,
    Right,
    Up,
    Down,
    RapidUp,
    RapidDown,
    LineHead,
    LineTail,
    SelectLeft,
    SelectRight,
}

/// A semantic key event, as translated by the presentation layer.
#[derive(Debug, Clone, Copy, PartialEq, Eq)]
pub enum KeyEvent {
    // editing and input
    Char(char),
    Backspace,
    Delete,
    Navigation(Move),
    // mode toggles
    ToggleLatin,
    ToggleKatakana,
    ToggleHankakuZenkaku,
    // kana composition
    CommitUnconverted,
    Setsuji,
    StartYomiOrOkuri(char),
    // conversion
    StartConversion,
    StartAbbrev,
    // candidate selection
    NextCandidate,
    PrevCandidate,
    CommitCandidate,
    CommitCandidateWithChar(char),
    CommitCandidateWithStartYomi(char),
    CommitCandidateWithSetsubiji,
    CancelConversion,
}

} // verus!
