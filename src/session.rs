use vstd::prelude::*;

use crate::buffer::{Buffer, BufferModel};
use crate::engine::{env_of, handle_key, step, Tables};
use crate::jisyo::Jisyo;
use crate::key::KeyEvent;
use crate::keymap::{event_in_mode, front_cmd, to_front_cmd, to_key_event_with_state, FrontCmd, RawKey};
use crate::state::{mode_status, InputState};
use crate::text::push_char;
use crate::util::{digit_chars, push_itoa_usize_to_string};
use crate::view::{
    is_terminal_too_small, prepare_status_line, status_bytes, prepare_view_to_buffer, ViewState, MIN_TERM_H,
    SCROLL_MARGIN,
};

verus! {

/// What the presentation layer has to do after an event, in order.
pub enum Action {
    /// Leave the editor.
    Quit,
    /// Ask the terminal for its size and hand it to [`Session::refresh`].
    QueryTerminalSize,
    /// Tell the user to enlarge the terminal.
    DrawTooSmall,
    /// Hand the text to the copy command.
    Send(String),
    /// Run the paste command and hand its output to [`Session::paste`].
    RequestPaste,
    /// Write the text area (if redrawn) and the status line (if redrawn); hide the terminal
    /// cursor afterwards if asked.
    Redraw { view: Option<Vec<u8>>, status: Option<Vec<u8>>, hide_cursor: bool },
}

/// One editing session: the buffer, its undo snapshot, the input mode and the viewport.
pub struct Session {
    pub buffer: Buffer,
    pub snapshot: Buffer,
    pub has_ss: bool,
    pub state: InputState,
    pub view: ViewState,
    pub term_size: (usize, usize),
    pub too_small: bool,
}

pub open spec fn too_small_for(term_size: (usize, usize)) -> bool {
    term_size.0 < SCROLL_MARGIN * 2 + 20 || term_size.1 < MIN_TERM_H
}

/// Whether a character stands under the cursor (nothing selected, cursor not at row end).
pub open spec fn cursor_char_shown(b: BufferModel) -> bool {
    b.origin is None && b.col < b.line().len()
}

/// The status line that shows the code point under the cursor as `[U+hex]`.
pub open spec fn code_point_status(s: &Session) -> Seq<u8> {
    let b = s.buffer@;
    status_bytes(
        s.term_size.0 as int,
        s.term_size.1 as nat,
        Some(seq!['[', 'U', '+'] + digit_chars((b.line()[b.col] as u32) as nat, 16) + seq![']']),
        mode_status(s.state@),
        Some(b.status()),
        s.has_ss,
    )
}

impl Session {
    pub open spec fn wf(&self) -> bool {
        &&& self.buffer.wf()
        &&& self.snapshot.wf()
        &&& self.state@.wf()
        &&& self.too_small == too_small_for(self.term_size)
    }

    /// A new session: an empty buffer in default kana input.
    pub fn new(term_size: (usize, usize)) -> (r: Session)
        ensures
            r.wf(),
            r.buffer@ == (BufferModel { rows: seq![seq![]], row: 0, col: 0, origin: None }),
            !r.has_ss,
            r.term_size == term_size,
    {
        Session {
            buffer: Buffer::new(),
            snapshot: Buffer::new(),
            has_ss: false,
            state: InputState::new_kana(),
            view: ViewState {
                term_w: 0,
                left_cells: 0,
                active_line: 0,
                cursor_col: 0,
                active_line_offset: 0,
                ignore_inactive_lines: false,
            },
            term_size,
            too_small: is_terminal_too_small(term_size),
        }
    }

    /// The first drawing.
    pub fn start(&mut self) -> (r: Vec<Action>)
        requires
            old(self).wf(),
        ensures
            final(self).wf(),
            final(self).buffer@ == old(self).buffer@,
            old(self).too_small ==> r@.len() == 1 && r@[0] is DrawTooSmall,
            !old(self).too_small ==> r@.len() == 1 && r@[0] is Redraw,
    {
        let mut actions: Vec<Action> = Vec::new();
        if self.too_small {
            actions.push(Action::DrawTooSmall);
        } else {
            let view = self.draw_view();
            let status = self.draw_status(None, false);
            actions.push(Action::Redraw { view, status: Some(status), hide_cursor: false });
        }
        actions
    }

    /// Takes the terminal size that [`Action::QueryTerminalSize`] asked for.
    pub fn refresh(&mut self, term_size: (usize, usize)) -> (r: Vec<Action>)
        requires
            old(self).wf(),
        ensures
            final(self).wf(),
            final(self).term_size == term_size,
            final(self).buffer@ == old(self).buffer@,
            too_small_for(term_size) ==> r@.len() == 1 && r@[0] is DrawTooSmall,
            !too_small_for(term_size) ==> r@.len() == 1 && r@[0] is Redraw,
    {
        self.term_size = term_size;
        self.too_small = is_terminal_too_small(term_size);
        let mut actions: Vec<Action> = Vec::new();
        if self.too_small {
            actions.push(Action::DrawTooSmall);
        } else {
            self.view.ignore_inactive_lines = false;
            let view = self.draw_view();
            let status = self.draw_status(None, true);
            actions.push(Action::Redraw { view, status: Some(status), hide_cursor: true });
        }
        actions
    }

    /// Takes the text that [`Action::RequestPaste`] asked for.
    pub fn paste(&mut self, text: &str) -> (r: Vec<Action>)
        requires
            old(self).wf(),
        ensures
            final(self).wf(),
            final(self).buffer@ == old(self).buffer@.insert_str(text@),
            r@.len() == 1 && r@[0] is Redraw,
    {
        self.buffer.insert_str(text);
        let view = self.draw_view();
        let status = self.draw_status(None, true);
        let mut actions: Vec<Action> = Vec::new();
        actions.push(Action::Redraw { view, status: Some(status), hide_cursor: false });
        actions
    }

    fn take_snapshot(&mut self)
        requires
            old(self).wf(),
        ensures
            final(self).wf(),
            final(self).snapshot@ == old(self).buffer@,
            final(self).buffer == old(self).buffer,
            final(self).has_ss,
            final(self).state == old(self).state,
            final(self).term_size == old(self).term_size,
    {
        self.snapshot = self.buffer.snapshot();
        self.has_ss = true;
    }

    /// Handles one key: the presentation layer's own commands (quit, clear, send, paste,
    /// copy, cut, code point, undo) and, while the terminal is large enough, the input
    /// engine's events.
    pub fn on_key(&mut self, jisyo: &Jisyo, tables: &Tables, k: RawKey) -> (r: Vec<Action>)
        requires
            old(self).wf(),
            jisyo.wf(),
            tables.wf(),
        ensures
            final(self).wf(),
            front_cmd(k) == Some(FrontCmd::Quit) ==> r@.len() == 1 && r@[0] is Quit,
            front_cmd(k) == Some(FrontCmd::Refresh) ==> r@.len() == 1 && r@[0] is QueryTerminalSize,
            front_cmd(k) is Some && old(self).too_small && front_cmd(k) != Some(FrontCmd::Quit)
                && front_cmd(k) != Some(FrontCmd::Refresh) ==> r@.len() == 0 && final(self).buffer@
                == old(self).buffer@,
            !old(self).too_small && front_cmd(k) == Some(FrontCmd::Clear) ==> {
                &&& final(self).snapshot@ == old(self).buffer@
                &&& final(self).has_ss
                &&& final(self).buffer@ == old(self).buffer@.cleared()
            },
            !old(self).too_small && front_cmd(k) == Some(FrontCmd::SendAndClear) ==> {
                &&& final(self).snapshot@ == old(self).buffer@
                &&& final(self).buffer@ == old(self).buffer@.cleared()
                &&& r@.len() == 2
                &&& (r@[0] matches Action::Send(s) && s@ == old(self).buffer@.document())
            },
            !old(self).too_small && front_cmd(k) == Some(FrontCmd::Paste) ==> {
                &&& final(self).snapshot@ == old(self).buffer@
                &&& final(self).buffer@ == old(self).buffer@
                &&& r@.len() == 1 && r@[0] is RequestPaste
            },
            !old(self).too_small && front_cmd(k) == Some(FrontCmd::Undo) && old(self).has_ss ==> {
                &&& final(self).buffer@ == old(self).snapshot@
                &&& final(self).snapshot@ == old(self).buffer@
            },
            !old(self).too_small && front_cmd(k) == Some(FrontCmd::CopySelected) ==> {
                &&& final(self).buffer@ == old(self).buffer@
                &&& old(self).buffer@.selected() is None ==> r@.len() == 0
                &&& old(self).buffer@.selected() is Some ==> r@.len() == 1 && (
                r@[0] matches Action::Send(s) && s@ == old(self).buffer@.selected()->0)
            },
            !old(self).too_small && front_cmd(k) == Some(FrontCmd::CutSelected) ==> {
                &&& old(self).buffer@.selected() is None ==> r@.len() == 0
                    && final(self).buffer@ == old(self).buffer@
                &&& old(self).buffer@.selected() is Some ==> {
                    &&& final(self).snapshot@ == old(self).buffer@
                    &&& final(self).buffer@ == old(self).buffer@.delete()
                    &&& r@.len() == 2
                    &&& (r@[0] matches Action::Send(s) && s@
                        == old(self).buffer@.selected()->0)
                }
            },
            !old(self).too_small && front_cmd(k) == Some(FrontCmd::PrintCodePoint) ==> {
                &&& final(self).buffer@ == old(self).buffer@
                &&& !cursor_char_shown(old(self).buffer@) ==> r@.len() == 0
                &&& cursor_char_shown(old(self).buffer@) ==> r@.len() == 1 && (
                r@[0] matches Action::Redraw { view, status, .. } && view is None
                    && status is Some && status->0@ == code_point_status(old(self)))
            },
            front_cmd(k) is None && (old(self).too_small || event_in_mode(old(self).state@, k) is None)
                ==> r@.len() == 0 && final(self).buffer@ == old(self).buffer@ && final(self).state@
                == old(self).state@,
            front_cmd(k) is None && !old(self).too_small && event_in_mode(old(self).state@, k)
                is Some ==> ({
                let ev = event_in_mode(old(self).state@, k)->0;
                &&& (final(self).state@, final(self).buffer@) == step(
                    old(self).state@,
                    old(self).buffer@,
                    env_of(jisyo, tables),
                    ev,
                )
                &&& !(ev is Navigation) ==> !final(self).has_ss
                &&& ev is Navigation ==> final(self).has_ss == old(self).has_ss
                &&& r@.len() == 1 && r@[0] is Redraw
            }),
    {
        let mut actions: Vec<Action> = Vec::new();
        if let Some(cmd) = to_front_cmd(&k) {
            match cmd {
                FrontCmd::Quit => {
                    actions.push(Action::Quit);
                },
                FrontCmd::Refresh => {
                    actions.push(Action::QueryTerminalSize);
                },
                _ => {
                    if !self.too_small {
                        self.on_command(cmd, &mut actions);
                    }
                },
            }
            return actions;
        }
        if self.too_small {
            return actions;
        }
        if let Some(ev) = to_key_event_with_state(&self.state, &k) {
            self.buffer.clear_dirty();
            let mut st = InputState::new_kana();
            core::mem::swap(&mut st, &mut self.state);
            self.state = handle_key(st, &mut self.buffer, jisyo, tables, ev);
            let view = if self.buffer.is_dirty() {
                self.draw_view()
            } else {
                None
            };
            let status = if matches!(ev, KeyEvent::Navigation(_)) {
                self.draw_status(None, true)
            } else {
                self.drop_snapshot();
                self.draw_status(None, false)
            };
            actions.push(Action::Redraw { view, status: Some(status), hide_cursor: false });
        }
        actions
    }

    fn drop_snapshot(&mut self)
        requires
            old(self).wf(),
        ensures
            final(self).wf(),
            !final(self).has_ss,
            final(self).buffer == old(self).buffer,
            final(self).state == old(self).state,
            final(self).view == old(self).view,
            final(self).term_size == old(self).term_size,
    {
        self.snapshot.clear();
        self.has_ss = false;
    }

    fn on_command(&mut self, cmd: FrontCmd, actions: &mut Vec<Action>)
        requires
            old(self).wf(),
            !old(self).too_small,
            old(actions)@.len() == 0,
        ensures
            final(self).wf(),
            cmd == FrontCmd::Clear ==> {
                &&& final(self).snapshot@ == old(self).buffer@
                &&& final(self).has_ss
                &&& final(self).buffer@ == old(self).buffer@.cleared()
            },
            cmd == FrontCmd::SendAndClear ==> {
                &&& final(self).snapshot@ == old(self).buffer@
                &&& final(self).buffer@ == old(self).buffer@.cleared()
                &&& final(actions)@.len() == 2
                &&& (final(actions)@[0] matches Action::Send(s) && s@ == old(self).buffer@.document())
            },
            cmd == FrontCmd::Paste ==> {
                &&& final(self).snapshot@ == old(self).buffer@
                &&& final(self).buffer@ == old(self).buffer@
                &&& final(actions)@.len() == 1 && final(actions)@[0] is RequestPaste
            },
            cmd == FrontCmd::Undo && old(self).has_ss ==> {
                &&& final(self).buffer@ == old(self).snapshot@
                &&& final(self).snapshot@ == old(self).buffer@
            },
            cmd == FrontCmd::CopySelected ==> {
                &&& final(self).buffer@ == old(self).buffer@
                &&& old(self).buffer@.selected() is None ==> final(actions)@.len() == 0
                &&& old(self).buffer@.selected() is Some ==> final(actions)@.len() == 1 && (
                final(actions)@[0] matches Action::Send(s) && s@ == old(self).buffer@.selected()->0)
            },
            cmd == FrontCmd::CutSelected ==> {
                &&& old(self).buffer@.selected() is None ==> final(actions)@.len() == 0
                    && final(self).buffer@ == old(self).buffer@
                &&& old(self).buffer@.selected() is Some ==> {
                    &&& final(self).snapshot@ == old(self).buffer@
                    &&& final(self).buffer@ == old(self).buffer@.delete()
                    &&& final(actions)@.len() == 2
                    &&& (final(actions)@[0] matches Action::Send(s) && s@
                        == old(self).buffer@.selected()->0)
                }
            },
            cmd == FrontCmd::PrintCodePoint ==> {
                &&& final(self).buffer@ == old(self).buffer@
                &&& !cursor_char_shown(old(self).buffer@) ==> final(actions)@.len() == 0
                &&& cursor_char_shown(old(self).buffer@) ==> final(actions)@.len() == 1 && (
                final(actions)@[0] matches Action::Redraw { view, status, .. } && view is None
                    && status is Some && status->0@ == code_point_status(old(self)))
            },
    {
        match cmd {
            FrontCmd::Clear => {
                self.take_snapshot();
                self.buffer.clear();
                let view = self.draw_view();
                let status = self.draw_status(None, false);
                actions.push(Action::Redraw { view, status: Some(status), hide_cursor: false });
            },
            FrontCmd::SendAndClear => {
                self.take_snapshot();
                actions.push(Action::Send(self.buffer.as_string()));
                self.buffer.clear();
                let view = self.draw_view();
                let status = self.draw_status(None, false);
                actions.push(Action::Redraw { view, status: Some(status), hide_cursor: false });
            },
            FrontCmd::Paste => {
                self.take_snapshot();
                actions.push(Action::RequestPaste);
            },
            FrontCmd::CopySelected => {
                if let Some(s) = self.buffer.selected_as_string() {
                    actions.push(Action::Send(s));
                }
            },
            FrontCmd::CutSelected => {
                if let Some(s) = self.buffer.selected_as_string() {
                    self.take_snapshot();
                    actions.push(Action::Send(s));
                    self.buffer.delete();
                    let view = self.draw_view();
                    let status = self.draw_status(None, true);
                    actions.push(Action::Redraw { view, status: Some(status), hide_cursor: false });
                }
            },
            FrontCmd::PrintCodePoint => {
                if let Some(c) = self.buffer.cursor_as_char() {
                    let mut cp = String::new();
                    push_char(&mut cp, '[');
                    push_char(&mut cp, 'U');
                    push_char(&mut cp, '+');
                    push_itoa_usize_to_string(&mut cp, *c as u32 as usize, 16);
                    push_char(&mut cp, ']');
                    proof {
                        let b = self.buffer@;
                        assert(cp@ =~= seq!['[', 'U', '+'] + digit_chars((b.line()[b.col] as u32) as nat, 16)
                            + seq![']']);
                    }
                    let status = self.draw_status(Some(cp.as_str()), true);
                    actions.push(Action::Redraw { view: None, status: Some(status), hide_cursor: false });
                }
            },
            FrontCmd::Undo => {
                if self.has_ss {
                    core::mem::swap(&mut self.buffer, &mut self.snapshot);
                    let view = self.draw_view();
                    let status = self.draw_status(None, true);
                    actions.push(Action::Redraw { view, status: Some(status), hide_cursor: false });
                }
            },
            _ => {},
        }
    }

    /// The text area, when the sizes involved can be drawn.
    fn draw_view(&mut self) -> (r: Option<Vec<u8>>)
        requires
            old(self).wf(),
        ensures
            final(self).wf(),
            final(self).buffer == old(self).buffer,
            final(self).snapshot == old(self).snapshot,
            final(self).has_ss == old(self).has_ss,
            final(self).state == old(self).state,
            final(self).term_size == old(self).term_size,
    {
        let (row, _) = self.buffer.cursor();
        let (term_w, term_h) = self.term_size;
        if term_h >= 1 && self.buffer.line(row).len() <= usize::MAX / 2 && self.view.left_cells
            <= usize::MAX / 4 && term_w <= usize::MAX / 4 {
            let mut out: Vec<u8> = Vec::new();
            prepare_view_to_buffer(&mut out, self.term_size, &mut self.view, &self.buffer);
            Some(out)
        } else {
            None
        }
    }

    /// The status line, with the buffer's position when asked.
    fn draw_status(&self, code_point: Option<&str>, with_buffer: bool) -> (r: Vec<u8>)
        requires
            self.wf(),
        ensures
            r@ == status_bytes(
                self.term_size.0 as int,
                self.term_size.1 as nat,
                match code_point {
                    Some(p) => Some(p@),
                    None => None,
                },
                mode_status(self.state@),
                if with_buffer {
                    Some(self.buffer@.status())
                } else {
                    None
                },
                self.has_ss,
            ),
    {
        let mut out: Vec<u8> = Vec::new();
        prepare_status_line(
            &mut out,
            self.term_size,
            code_point,
            &self.state,
            if with_buffer {
                Some(&self.buffer)
            } else {
                None
            },
            self.has_ss,
        );
        out
    }
}

} // verus!
