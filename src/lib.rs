//! An SKK-style input-method engine: a text buffer, a romaji-to-kana matcher, a dictionary of
//! readings and the input-state machine that drives conversion.

pub mod buffer;
pub mod engine;
pub mod flat;
pub mod jisyo;
pub mod kana;
pub mod key;
pub mod keymap;
pub mod romaji;
pub mod session;
pub mod state;
pub mod text;
pub mod util;
pub mod view;
