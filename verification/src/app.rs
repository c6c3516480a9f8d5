//! The application state: the collected ideas, the input buffer with its
//! undo/redo history, the history search, the secretary's desk, and the
//! handling of each key in each mode.

use vstd::prelude::*;
use std::time::Instant;
use crate::clock::{format_offset, format_timestamp, instant_now, local_clock, offset_text, timestamp_text, LocalTime};
use crate::config::Config;
use crate::input::{
    EditorView, join_with_next, InputSnapshot, law_edits_keep_lines_single, lines_single, InputState, backspace_spec, delete_forward_spec, empty_editor,
    insert_char_spec, insert_newline_spec, kill_line_spec, line_end_spec, line_start_spec,
    move_down_spec, move_left_spec, move_right_spec, move_up_spec, law_backspace_undoes_insert,
    law_backspace_undoes_newline, law_right_then_left, law_down_keeps_column,
};
use crate::text::{
    byte_len, chars_of, decimal, push_chars, string_of, views, find, find_chars_from, lemma_find_from, lowercase, push_decimal,
    to_lowercase,
};

verus! {

/// One collected idea.
#[derive(Debug, Clone)]
pub struct Entry {
    pub content: String,
    /// The local date and time of capture, `YYYY-MM-DDTHH:MM:SS`.
    pub timestamp: String,
    /// The local offset from UTC at capture, `+HH:MM` or `-HH:MM`.
    pub offset: String,
}

/// The mode the application is in.
#[derive(Debug, Clone, Copy, PartialEq, Eq, Structural)]
pub enum Mode {
    /// Typing ideas.
    Collecting,
    /// After `:`; `q` quits, `h` shows help.
    Command,
    /// Searching the history.
    Searching,
    /// The help overlay.
    Help,
}

// ---------------------------------------------------------------------------
// Keys
// ---------------------------------------------------------------------------

/// The key of a key press.
#[derive(Debug, Clone, Copy, PartialEq, Eq, Structural)]
pub enum KeyCode {
    Backspace,
    Enter,
    Left,
    Right,
    Up,
    Down,
    Tab,
    Delete,
    Esc,
    Char(char),
    /// Any other key (function keys, Home, End, ...), which no mode acts on.
    Other,
}

/// No modifier held.
pub const NONE: u8 = 0b0000_0000;

/// The Shift modifier bit.
pub const SHIFT: u8 = 0b0000_0001;

/// The Control modifier bit.
pub const CONTROL: u8 = 0b0000_0010;

/// The Alt modifier bit.
pub const ALT: u8 = 0b0000_0100;

/// The Super (Command) modifier bit.
pub const SUPER: u8 = 0b0000_1000;

/// The Hyper modifier bit.
pub const HYPER: u8 = 0b0001_0000;

/// The Meta modifier bit.
pub const META: u8 = 0b0010_0000;

/// A key press: the key and the set of modifiers held, as bits.
#[derive(Debug, Clone, Copy, PartialEq, Eq, Structural)]
pub struct KeyEvent {
    pub code: KeyCode,
    pub modifiers: u8,
}

/// An event of the main loop.
#[derive(Debug, Clone, Copy)]
pub enum AppEvent {
    Tick,
    Key(KeyEvent),
}

/// What a key does in the collecting mode.
#[derive(Debug, Clone, Copy, PartialEq, Eq, Structural)]
pub enum EditAction {
    EnterCommand,
    StartSearch,
    Undo,
    Redo,
    Submit,
    Newline,
    Down,
    Up,
    Right,
    Left,
    LineStart,
    LineEnd,
    DeleteForward,
    KillLine,
    Backspace,
    Insert(char),
    Ignore,
}

/// The action of a key in the collecting mode. `:` opens the command line;
/// Ctrl/Cmd+S searches; Ctrl/Cmd+Z undoes and Ctrl/Cmd+Shift+Z redoes; Enter
/// submits and Shift+Enter or Ctrl+J breaks the line; Ctrl+N/P/F/B/A/E move
/// like Emacs; Ctrl+D and Delete delete forward, Ctrl+K kills to the end of
/// the line; a plain or shifted character is typed; the arrows move.
pub open spec fn collecting_action(key: KeyEvent) -> EditAction {
    let m = key.modifiers;
    let ctrl = m == CONTROL;
    let cmd = m == CONTROL || m == SUPER;
    match key.code {
        KeyCode::Char(c) => {
            if c == ':' {
                EditAction::EnterCommand
            } else if c == 's' && cmd {
                EditAction::StartSearch
            } else if c == 'z' && cmd {
                EditAction::Undo
            } else if c == 'Z' && (m == CONTROL | SHIFT || m == SUPER | SHIFT) {
                EditAction::Redo
            } else if c == 'j' && ctrl {
                EditAction::Newline
            } else if c == 'n' && ctrl {
                EditAction::Down
            } else if c == 'p' && ctrl {
                EditAction::Up
            } else if c == 'f' && ctrl {
                EditAction::Right
            } else if c == 'b' && ctrl {
                EditAction::Left
            } else if c == 'a' && ctrl {
                EditAction::LineStart
            } else if c == 'e' && ctrl {
                EditAction::LineEnd
            } else if c == 'd' && ctrl {
                EditAction::DeleteForward
            } else if c == 'k' && ctrl {
                EditAction::KillLine
            } else if m == NONE || m == SHIFT {
                EditAction::Insert(c)
            } else {
                EditAction::Ignore
            }
        },
        KeyCode::Enter => if m == SHIFT {
            EditAction::Newline
        } else {
            EditAction::Submit
        },
        KeyCode::Backspace => EditAction::Backspace,
        KeyCode::Delete => EditAction::DeleteForward,
        KeyCode::Up => EditAction::Up,
        KeyCode::Down => EditAction::Down,
        KeyCode::Left => EditAction::Left,
        KeyCode::Right => EditAction::Right,
        _ => EditAction::Ignore,
    }
}

/// What `collecting_action` gives for a key.
pub fn classify_collecting_key(key: &KeyEvent) -> (a: EditAction)
    ensures
        a == collecting_action(*key),
{
    let m = key.modifiers;
    let ctrl = m == CONTROL;
    let cmd = m == CONTROL || m == SUPER;
    match key.code {
        KeyCode::Char(c) => {
            if c == ':' {
                EditAction::EnterCommand
            } else if c == 's' && cmd {
                EditAction::StartSearch
            } else if c == 'z' && cmd {
                EditAction::Undo
            } else if c == 'Z' && (m == CONTROL | SHIFT || m == SUPER | SHIFT) {
                EditAction::Redo
            } else if c == 'j' && ctrl {
                EditAction::Newline
            } else if c == 'n' && ctrl {
                EditAction::Down
            } else if c == 'p' && ctrl {
                EditAction::Up
            } else if c == 'f' && ctrl {
                EditAction::Right
            } else if c == 'b' && ctrl {
                EditAction::Left
            } else if c == 'a' && ctrl {
                EditAction::LineStart
            } else if c == 'e' && ctrl {
                EditAction::LineEnd
            } else if c == 'd' && ctrl {
                EditAction::DeleteForward
            } else if c == 'k' && ctrl {
                EditAction::KillLine
            } else if m == NONE || m == SHIFT {
                EditAction::Insert(c)
            } else {
                EditAction::Ignore
            }
        },
        KeyCode::Enter => if m == SHIFT {
            EditAction::Newline
        } else {
            EditAction::Submit
        },
        KeyCode::Backspace => EditAction::Backspace,
        KeyCode::Delete => EditAction::DeleteForward,
        KeyCode::Up => EditAction::Up,
        KeyCode::Down => EditAction::Down,
        KeyCode::Left => EditAction::Left,
        KeyCode::Right => EditAction::Right,
        _ => EditAction::Ignore,
    }
}

/// What handling a key leads to.
#[derive(Debug, Clone)]
pub enum KeyOutcome {
    /// Keep running.
    Continue,
    /// Leave the application (`:q`).
    Quit,
    /// File this idea: write it to the capture file, then record it with
    /// `App::record_entry`.
    Submit(Entry),
}

// ---------------------------------------------------------------------------
// The abstract state
// ---------------------------------------------------------------------------

/// The abstract state of the application (everything but its activity
/// instants).
#[verifier::ext_equal]
pub struct AppView {
    pub config: Config,
    pub mode: Mode,
    /// The collected ideas, as (content, timestamp, offset).
    pub history: Seq<(Seq<char>, Seq<char>, Seq<char>)>,
    pub input: EditorView,
    pub secretary: Seq<char>,
    pub ai_pending: bool,
    pub entries_count: int,
    pub undo: Seq<EditorView>,
    pub redo: Seq<EditorView>,
    pub max_undo: int,
    pub query: Seq<char>,
    pub results: Seq<(usize, usize)>,
    pub current: int,
}

/// The views of a stack of snapshots.
pub open spec fn snapshot_views(s: Seq<InputSnapshot>) -> Seq<EditorView> {
    s.map_values(|x: InputSnapshot| x@)
}

/// The views of the collected ideas.
pub open spec fn entry_views(h: Seq<Entry>) -> Seq<(Seq<char>, Seq<char>, Seq<char>)> {
    h.map_values(|e: Entry| (e.content@, e.timestamp@, e.offset@))
}

impl AppView {
    /// The input and every saved snapshot are well formed; the two stacks
    /// together hold at most `max_undo` snapshots; a selected search result
    /// exists whenever there are results; the count of collected ideas is
    /// the length of the history.
    pub open spec fn wf(self) -> bool {
        &&& self.input.wf()
        &&& self.entries_count == self.history.len()
        &&& forall|i: int| 0 <= i < self.undo.len() ==> (#[trigger] self.undo[i]).wf()
        &&& forall|i: int| 0 <= i < self.redo.len() ==> (#[trigger] self.redo[i]).wf()
        &&& self.max_undo >= 1
        &&& self.undo.len() + self.redo.len() <= self.max_undo
        &&& self.results.len() > 0 ==> 0 <= self.current < self.results.len()
        &&& 0 <= self.current
    }
}

/// Saving the input for undo: it goes on the undo stack, whose oldest
/// snapshot is dropped when the stack would exceed `max_undo`; the redo
/// stack is emptied.
pub open spec fn save_undo_spec(a: AppView) -> AppView {
    let u = a.undo.push(a.input);
    AppView {
        undo: if u.len() > a.max_undo { u.drop_first() } else { u },
        redo: Seq::empty(),
        ..a
    }
}

/// Undo: the last undo snapshot becomes the input, the input going on the
/// redo stack. Nothing happens when there is nothing to undo.
pub open spec fn undo_spec(a: AppView) -> AppView {
    if a.undo.len() > 0 {
        AppView { input: a.undo.last(), undo: a.undo.drop_last(), redo: a.redo.push(a.input), ..a }
    } else {
        a
    }
}

/// Redo: the last redo snapshot becomes the input, the input going on the
/// undo stack. Nothing happens when there is nothing to redo.
pub open spec fn redo_spec(a: AppView) -> AppView {
    if a.redo.len() > 0 {
        AppView { input: a.redo.last(), redo: a.redo.drop_last(), undo: a.undo.push(a.input), ..a }
    } else {
        a
    }
}

/// Entering the search mode with an empty query.
pub open spec fn start_search_spec(a: AppView) -> AppView {
    AppView {
        mode: Mode::Searching,
        query: Seq::empty(),
        results: Seq::empty(),
        current: 0,
        ..a
    }
}

/// Leaving the search mode: the query and results are dropped.
pub open spec fn cancel_search_spec(a: AppView) -> AppView {
    AppView { mode: Mode::Collecting, query: Seq::empty(), results: Seq::empty(), ..a }
}

/// Where the query first occurs in an idea, ignoring case: the byte offset
/// in the lowercased content.
pub open spec fn match_position(content: Seq<char>, query: Seq<char>) -> Option<int> {
    let lc = lowercase(content);
    match find(lc, lowercase(query)) {
        Some(i) => Some(vstd::utf8::encode_utf8(lc.take(i)).len() as int),
        None => None,
    }
}

/// The search results among the first `n` ideas: each matching idea's
/// index and match position, in history order.
pub open spec fn search_results(history: Seq<(Seq<char>, Seq<char>, Seq<char>)>, query: Seq<char>, n: int) -> Seq<
    (usize, usize),
>
    decreases n,
{
    if n <= 0 {
        Seq::empty()
    } else {
        let prev = search_results(history, query, n - 1);
        match match_position(history[n - 1].0, query) {
            Some(p) => prev.push(((n - 1) as usize, p as usize)),
            None => prev,
        }
    }
}

/// Rerunning the search: no results for an empty query (the selection is
/// then kept); otherwise every idea that holds the query, ignoring case,
/// with the first result selected.
pub open spec fn update_search_spec(a: AppView) -> AppView {
    if a.query.len() == 0 {
        AppView { results: Seq::empty(), ..a }
    } else {
        AppView {
            results: search_results(a.history, a.query, a.history.len() as int),
            current: 0,
            ..a
        }
    }
}

/// Selecting the next result, wrapping around.
pub open spec fn next_result_spec(a: AppView) -> AppView {
    if a.results.len() > 0 {
        AppView { current: (a.current + 1) % (a.results.len() as int), ..a }
    } else {
        a
    }
}

/// Selecting the previous result, wrapping around.
pub open spec fn prev_result_spec(a: AppView) -> AppView {
    if a.results.len() > 0 {
        AppView {
            current: if a.current == 0 { a.results.len() - 1 } else { a.current - 1 },
            ..a
        }
    } else {
        a
    }
}

/// The secretary's reply arrives.
pub open spec fn update_secretary_spec(a: AppView, text: Seq<char>) -> AppView {
    AppView { secretary: text, ai_pending: false, ..a }
}

/// The desk message after the `n`-th idea is collected.
pub open spec fn collected_message(n: nat) -> Seq<char> {
    "✅ 已收集第 "@ + decimal(n) + " 个想法，秘书思考中..."@
}

/// Recording a filed idea: it joins the history, the count goes up, the
/// input and both stacks are emptied, and the secretary starts thinking.
pub open spec fn record_entry_spec(a: AppView, content: Seq<char>, timestamp: Seq<char>, offset: Seq<char>) -> AppView {
    AppView {
        history: a.history.push((content, timestamp, offset)),
        entries_count: a.entries_count + 1,
        input: empty_editor(),
        undo: Seq::empty(),
        redo: Seq::empty(),
        secretary: collected_message((a.entries_count + 1) as nat),
        ai_pending: true,
        ..a
    }
}

/// The state with another input.
pub open spec fn with_input(a: AppView, v: EditorView) -> AppView {
    AppView { input: v, ..a }
}

/// What a collecting-mode action does to the state (submitting is left to
/// the caller, which files the idea first). Edits save the input for undo
/// first; Backspace does so only when the input is not empty.
pub open spec fn apply_edit(a: AppView, act: EditAction) -> AppView {
    match act {
        EditAction::EnterCommand => AppView { mode: Mode::Command, ..a },
        EditAction::StartSearch => start_search_spec(a),
        EditAction::Undo => undo_spec(a),
        EditAction::Redo => redo_spec(a),
        EditAction::Submit => a,
        EditAction::Newline => {
            let s = save_undo_spec(a);
            with_input(s, insert_newline_spec(s.input))
        },
        EditAction::Down => with_input(a, move_down_spec(a.input)),
        EditAction::Up => with_input(a, move_up_spec(a.input)),
        EditAction::Right => with_input(a, move_right_spec(a.input)),
        EditAction::Left => with_input(a, move_left_spec(a.input)),
        EditAction::LineStart => with_input(a, line_start_spec(a.input)),
        EditAction::LineEnd => with_input(a, line_end_spec(a.input)),
        EditAction::DeleteForward => {
            let s = save_undo_spec(a);
            with_input(s, delete_forward_spec(s.input))
        },
        EditAction::KillLine => {
            let s = save_undo_spec(a);
            with_input(s, kill_line_spec(s.input))
        },
        EditAction::Backspace => {
            let s = if !a.input.is_empty() { save_undo_spec(a) } else { a };
            with_input(s, backspace_spec(s.input))
        },
        EditAction::Insert(c) => {
            let s = save_undo_spec(a);
            with_input(s, insert_char_spec(s.input, c))
        },
        EditAction::Ignore => a,
    }
}

/// A key in the command mode: `q`/`Q` quits (the state is kept), `h`/`H`
/// opens the help, any other key goes back to collecting.
pub open spec fn command_mode_spec(a: AppView, key: KeyEvent) -> AppView {
    match key.code {
        KeyCode::Char(c) => if c == 'q' || c == 'Q' {
            a
        } else if c == 'h' || c == 'H' {
            AppView { mode: Mode::Help, ..a }
        } else {
            AppView { mode: Mode::Collecting, ..a }
        },
        _ => AppView { mode: Mode::Collecting, ..a },
    }
}

/// `q` or `Q` in the command mode quits.
pub open spec fn is_quit_key(key: KeyEvent) -> bool {
    key.code == KeyCode::Char('q') || key.code == KeyCode::Char('Q')
}

/// A key in the search mode: Esc and Enter leave it; a character extends
/// the query and Backspace shortens it, rerunning the search; Tab and Down
/// select the next result, Up the previous one.
pub open spec fn search_mode_spec(a: AppView, key: KeyEvent) -> AppView {
    match key.code {
        KeyCode::Esc => cancel_search_spec(a),
        KeyCode::Enter => cancel_search_spec(a),
        KeyCode::Char(c) => update_search_spec(AppView { query: a.query.push(c), ..a }),
        KeyCode::Backspace => update_search_spec(
            AppView {
                query: if a.query.len() > 0 { a.query.drop_last() } else { a.query },
                ..a
            },
        ),
        KeyCode::Tab => next_result_spec(a),
        KeyCode::Down => next_result_spec(a),
        KeyCode::Up => prev_result_spec(a),
        _ => a,
    }
}

/// The state after a key, in whatever mode. In the help mode every key goes
/// back to collecting.
pub open spec fn key_spec(a: AppView, key: KeyEvent) -> AppView {
    match a.mode {
        Mode::Collecting => apply_edit(a, collecting_action(key)),
        Mode::Command => command_mode_spec(a, key),
        Mode::Help => AppView { mode: Mode::Collecting, ..a },
        Mode::Searching => search_mode_spec(a, key),
    }
}

// ---------------------------------------------------------------------------
// The application
// ---------------------------------------------------------------------------

/// The application state.
pub struct App {
    pub config: Config,
    pub mode: Mode,
    pub history: Vec<Entry>,
    pub input: InputState,
    pub secretary_content: String,
    pub ai_pending: bool,
    pub entries_count: usize,
    pub last_input_time: Instant,
    pub undo_stack: Vec<InputSnapshot>,
    pub redo_stack: Vec<InputSnapshot>,
    pub max_undo_size: usize,
    pub search_query: String,
    /// (entry index, byte offset of the match in the lowercased entry)
    pub search_results: Vec<(usize, usize)>,
    pub current_search_idx: usize,
}

impl View for App {
    type V = AppView;

    open spec fn view(&self) -> AppView {
        AppView {
            config: self.config,
            mode: self.mode,
            history: entry_views(self.history@),
            input: self.input@,
            secretary: self.secretary_content@,
            ai_pending: self.ai_pending,
            entries_count: self.entries_count as int,
            undo: snapshot_views(self.undo_stack@),
            redo: snapshot_views(self.redo_stack@),
            max_undo: self.max_undo_size as int,
            query: self.search_query@,
            results: self.search_results@,
            current: self.current_search_idx as int,
        }
    }
}

/// The desk message of a fresh application.
pub open spec fn ready_message() -> Seq<char> {
    "🤖 秘书已就绪，开始记录你的想法..."@
}

impl App {
    /// The abstract state is consistent.
    pub open spec fn wf(&self) -> bool {
        self@.wf()
    }

    /// A fresh application: collecting, no ideas, an empty input, both
    /// stacks empty (at most 100 snapshots), no search, the ready message.
    pub fn new(config: Config) -> (app: Self)
        ensures
            app.wf(),
            app@ == (AppView {
                config,
                mode: Mode::Collecting,
                history: Seq::empty(),
                input: empty_editor(),
                secretary: ready_message(),
                ai_pending: false,
                entries_count: 0,
                undo: Seq::empty(),
                redo: Seq::empty(),
                max_undo: 100,
                query: Seq::empty(),
                results: Seq::empty(),
                current: 0,
            }),
    {
        let app = App {
            config,
            mode: Mode::Collecting,
            history: Vec::new(),
            input: InputState::new(),
            secretary_content: String::from_str("🤖 秘书已就绪，开始记录你的想法..."),
            ai_pending: false,
            entries_count: 0,
            last_input_time: instant_now(),
            undo_stack: Vec::new(),
            redo_stack: Vec::new(),
            max_undo_size: 100,
            search_query: String::new(),
            search_results: Vec::new(),
            current_search_idx: 0,
        };
        assert(app@.history =~= Seq::<(Seq<char>, Seq<char>, Seq<char>)>::empty());
        assert(app@.undo =~= Seq::<EditorView>::empty());
        assert(app@.redo =~= Seq::<EditorView>::empty());
        app
    }

    /// Saves the input for undo (see `save_undo_spec`).
    pub fn save_undo_state(&mut self)
        requires
            old(self).wf(),
        ensures
            final(self).wf(),
            final(self)@ == save_undo_spec(old(self)@),
    {
        let snapshot = InputSnapshot::from_state(&self.input);
        self.undo_stack.push(snapshot);
        let ghost pushed = self.undo_stack@;
        if self.undo_stack.len() > self.max_undo_size {
            self.undo_stack.remove(0);
            assert(snapshot_views(self.undo_stack@) =~= snapshot_views(pushed).drop_first());
        }
        self.redo_stack.clear();
        assert(snapshot_views(pushed) =~= snapshot_views(old(self).undo_stack@).push(
            old(self).input@,
        ));
        assert(snapshot_views(self.redo_stack@) =~= Seq::<EditorView>::empty());
    }

    /// Undoes the last edit (see `undo_spec`).
    pub fn undo(&mut self)
        requires
            old(self).wf(),
        ensures
            final(self).wf(),
            final(self)@ == undo_spec(old(self)@),
    {
        if let Some(snapshot) = self.undo_stack.pop() {
            let current = InputSnapshot::from_state(&self.input);
            self.redo_stack.push(current);
            snapshot.apply_to(&mut self.input);
            assert(snapshot_views(self.undo_stack@) =~= snapshot_views(old(self).undo_stack@).drop_last());
            assert(snapshot_views(self.redo_stack@) =~= snapshot_views(old(self).redo_stack@).push(
                old(self).input@,
            ));
            assert(snapshot@ == snapshot_views(old(self).undo_stack@).last());
        }
    }

    /// Redoes the last undone edit (see `redo_spec`).
    pub fn redo(&mut self)
        requires
            old(self).wf(),
        ensures
            final(self).wf(),
            final(self)@ == redo_spec(old(self)@),
    {
        if let Some(snapshot) = self.redo_stack.pop() {
            let current = InputSnapshot::from_state(&self.input);
            self.undo_stack.push(current);
            snapshot.apply_to(&mut self.input);
            assert(snapshot_views(self.redo_stack@) =~= snapshot_views(old(self).redo_stack@).drop_last());
            assert(snapshot_views(self.undo_stack@) =~= snapshot_views(old(self).undo_stack@).push(
                old(self).input@,
            ));
            assert(snapshot@ == snapshot_views(old(self).redo_stack@).last());
        }
    }

    /// Enters the search mode (see `start_search_spec`).
    pub fn start_search(&mut self)
        requires
            old(self).wf(),
        ensures
            final(self).wf(),
            final(self)@ == start_search_spec(old(self)@),
    {
        self.mode = Mode::Searching;
        self.search_query = String::new();
        self.search_results.clear();
        self.current_search_idx = 0;
    }

    /// Leaves the search mode (see `cancel_search_spec`).
    pub fn cancel_search(&mut self)
        requires
            old(self).wf(),
        ensures
            final(self).wf(),
            final(self)@ == cancel_search_spec(old(self)@),
    {
        self.mode = Mode::Collecting;
        self.search_query = String::new();
        self.search_results.clear();
    }

    /// Reruns the search over the history (see `update_search_spec`).
    pub fn update_search(&mut self)
        requires
            old(self).wf(),
        ensures
            final(self).wf(),
            final(self)@ == update_search_spec(old(self)@),
    {
        self.search_results.clear();
        if self.search_query.as_str().is_empty() {
            return;
        }
        let n = self.history.len();
        let mut idx: usize = 0;
        while idx < n
            invariant
                n == self.history.len(),
                idx <= n,
                self@ == (AppView { results: self.search_results@, ..old(self)@ }),
                self.history == old(self).history,
                self.search_query == old(self).search_query,
                self.search_results@ == search_results(
                    entry_views(self.history@),
                    self.search_query@,
                    idx as int,
                ),
            decreases n - idx,
        {
            let q = to_lowercase(self.search_query.as_str());
            let qv = chars_of(q.as_str());
            let lc = to_lowercase(self.history[idx].content.as_str());
            let lv = chars_of(lc.as_str());
            match find_chars_from(&lv, &qv, 0) {
                Some(i) => {
                    proof {
                        lemma_find_from(lv@, qv@, 0);
                    }
                    let prefix = lc.as_str().substring_char(0, i);
                    let pos = byte_len(prefix);
                    self.search_results.push((idx, pos));
                },
                None => {},
            }
            idx = idx + 1;
        }
        self.current_search_idx = 0;
    }

    /// Selects the next result (see `next_result_spec`).
    pub fn next_search_result(&mut self)
        requires
            old(self).wf(),
        ensures
            final(self).wf(),
            final(self)@ == next_result_spec(old(self)@),
    {
        if !self.search_results.is_empty() {
            assert(self.current_search_idx < self.search_results.len());
            self.current_search_idx = (self.current_search_idx + 1) % self.search_results.len();
        }
    }

    /// Selects the previous result (see `prev_result_spec`).
    pub fn prev_search_result(&mut self)
        requires
            old(self).wf(),
        ensures
            final(self).wf(),
            final(self)@ == prev_result_spec(old(self)@),
    {
        if !self.search_results.is_empty() {
            if self.current_search_idx == 0 {
                self.current_search_idx = self.search_results.len() - 1;
            } else {
                self.current_search_idx = self.current_search_idx - 1;
            }
        }
    }

    /// Shows the secretary's reply (see `update_secretary_spec`).
    pub fn update_secretary(&mut self, text: String)
        requires
            old(self).wf(),
        ensures
            final(self).wf(),
            final(self)@ == update_secretary_spec(old(self)@, text@),
    {
        self.secretary_content = text;
        self.ai_pending = false;
    }

    /// Notes that the input changed: only the time of the last input moves.
    pub fn on_input_changed(&mut self, _text: &str)
        ensures
            final(self)@ == old(self)@,
    {
        self.last_input_time = instant_now();
    }


    // -----------------------------------------------------------------------
    // Editing the input
    // -----------------------------------------------------------------------

    /// Types `c` at the cursor.
    fn insert_char(&mut self, c: char)
        requires
            old(self).wf(),
            old(self)@.input.cursor_col < usize::MAX,
        ensures
            final(self).wf(),
            final(self)@ == with_input(old(self)@, insert_char_spec(old(self)@.input, c)),
    {
        let cl = self.input.cursor_line;
        let col = self.input.cursor_col;
        let v = chars_of(self.input.lines[cl].as_str());
        let mut line = string_of(&v, 0, col);
        line.push(c);
        push_chars(&mut line, &v, col, v.len());
        self.input.lines.set(cl, line);
        self.input.cursor_col = col + 1;
        proof {
            let l = old(self)@.input.current();
            assert(line@ =~= l.take(col as int) + seq![c] + l.skip(col as int));
            assert(views(self.input.lines@) =~= old(self)@.input.lines.update(cl as int, line@));
        }
    }

    /// Breaks the line at the cursor.
    fn insert_newline(&mut self)
        requires
            old(self).wf(),
        ensures
            final(self).wf(),
            final(self)@ == with_input(old(self)@, insert_newline_spec(old(self)@.input)),
    {
        let cl = self.input.cursor_line;
        let col = self.input.cursor_col;
        let v = chars_of(self.input.lines[cl].as_str());
        let after_cursor = string_of(&v, col, v.len());
        let before_cursor = string_of(&v, 0, col);
        let n = self.input.lines.len();
        assert(cl < n);
        self.input.lines.set(cl, before_cursor);
        self.input.lines.insert(cl + 1, after_cursor);
        self.input.cursor_line = cl + 1;
        self.input.cursor_col = 0;
        proof {
            let ov = old(self)@.input;
            let l = ov.current();
            assert(views(self.input.lines@) =~= ov.lines.take(cl as int) + seq![
                l.take(col as int),
                l.skip(col as int),
            ] + ov.lines.skip(cl + 1));
        }
    }

    /// Backspace at the cursor.
    fn handle_backspace(&mut self)
        requires
            old(self).wf(),
        ensures
            final(self).wf(),
            final(self)@ == with_input(old(self)@, backspace_spec(old(self)@.input)),
    {
        let cl = self.input.cursor_line;
        let col = self.input.cursor_col;
        if col > 0 {
            let v = chars_of(self.input.lines[cl].as_str());
            let mut line = string_of(&v, 0, col - 1);
            push_chars(&mut line, &v, col, v.len());
            self.input.lines.set(cl, line);
            self.input.cursor_col = col - 1;
            proof {
                let l = old(self)@.input.current();
                assert(line@ =~= l.take(col - 1) + l.skip(col as int));
                assert(views(self.input.lines@) =~= old(self)@.input.lines.update(cl as int, line@));
            }
        } else if cl > 0 {
            let current = self.input.lines.remove(cl);
            self.input.cursor_line = cl - 1;
            let mut above = self.input.lines[cl - 1].clone();
            self.input.cursor_col = above.as_str().unicode_len();
            above.append(current.as_str());
            self.input.lines.set(cl - 1, above);
            proof {
                let ov = old(self)@.input;
                assert(views(self.input.lines@) =~= ov.lines.take(cl - 1) + seq![
                    ov.lines[cl - 1] + ov.current(),
                ] + ov.lines.skip(cl + 1));
            }
        }
    }

    /// Deletes the character under the cursor, or joins the next line.
    fn delete_forward(&mut self)
        requires
            old(self).wf(),
        ensures
            final(self).wf(),
            final(self)@ == with_input(old(self)@, delete_forward_spec(old(self)@.input)),
    {
        let cl = self.input.cursor_line;
        let col = self.input.cursor_col;
        let v = chars_of(self.input.lines[cl].as_str());
        if col < v.len() {
            let mut line = string_of(&v, 0, col);
            push_chars(&mut line, &v, col + 1, v.len());
            self.input.lines.set(cl, line);
            proof {
                let l = old(self)@.input.current();
                assert(line@ =~= l.take(col as int) + l.skip(col + 1));
                assert(views(self.input.lines@) =~= old(self)@.input.lines.update(cl as int, line@));
            }
        } else if cl < self.input.lines.len() - 1 {
            self.join_next_line();
        }
    }

    /// Joins the next line to the current one.
    fn join_next_line(&mut self)
        requires
            old(self).wf(),
            old(self)@.input.cursor_line < old(self)@.input.lines.len() - 1,
            old(self)@.input.cursor_col == old(self)@.input.current().len(),
        ensures
            final(self).wf(),
            final(self)@ == with_input(
                old(self)@,
                EditorView { lines: join_with_next(old(self)@.input), ..old(self)@.input },
            ),
    {
        let cl = self.input.cursor_line;
        let n = self.input.lines.len();
        assert(cl + 1 < n);
        let next = self.input.lines.remove(cl + 1);
        let mut line = self.input.lines[cl].clone();
        line.append(next.as_str());
        self.input.lines.set(cl, line);
        proof {
            let ov = old(self)@.input;
            assert(views(self.input.lines@) =~= join_with_next(ov));
        }
    }

    /// Kills the rest of the line, or joins the next line.
    fn kill_line(&mut self)
        requires
            old(self).wf(),
        ensures
            final(self).wf(),
            final(self)@ == with_input(old(self)@, kill_line_spec(old(self)@.input)),
    {
        let cl = self.input.cursor_line;
        let col = self.input.cursor_col;
        let v = chars_of(self.input.lines[cl].as_str());
        if col < v.len() {
            let line = string_of(&v, 0, col);
            self.input.lines.set(cl, line);
            proof {
                assert(views(self.input.lines@) =~= old(self)@.input.lines.update(
                    cl as int,
                    old(self)@.input.current().take(col as int),
                ));
            }
        } else if cl < self.input.lines.len() - 1 {
            self.join_next_line();
        }
    }

    /// Moves the cursor one line up.
    fn move_cursor_up(&mut self)
        requires
            old(self).wf(),
        ensures
            final(self).wf(),
            final(self)@ == with_input(old(self)@, move_up_spec(old(self)@.input)),
    {
        if self.input.cursor_line > 0 {
            self.input.cursor_line = self.input.cursor_line - 1;
            let prev_len = self.input.lines[self.input.cursor_line].as_str().unicode_len();
            if prev_len < self.input.cursor_col {
                self.input.cursor_col = prev_len;
            }
        }
    }

    /// Moves the cursor one line down.
    fn move_cursor_down(&mut self)
        requires
            old(self).wf(),
        ensures
            final(self).wf(),
            final(self)@ == with_input(old(self)@, move_down_spec(old(self)@.input)),
    {
        if self.input.cursor_line < self.input.lines.len() - 1 {
            self.input.cursor_line = self.input.cursor_line + 1;
            let next_len = self.input.lines[self.input.cursor_line].as_str().unicode_len();
            if next_len < self.input.cursor_col {
                self.input.cursor_col = next_len;
            }
        }
    }

    /// Moves the cursor one character left.
    fn move_cursor_left(&mut self)
        requires
            old(self).wf(),
        ensures
            final(self).wf(),
            final(self)@ == with_input(old(self)@, move_left_spec(old(self)@.input)),
    {
        if self.input.cursor_col > 0 {
            self.input.cursor_col = self.input.cursor_col - 1;
        } else if self.input.cursor_line > 0 {
            self.input.cursor_line = self.input.cursor_line - 1;
            self.input.cursor_col = self.input.lines[self.input.cursor_line].as_str().unicode_len();
        }
    }

    /// Moves the cursor one character right.
    fn move_cursor_right(&mut self)
        requires
            old(self).wf(),
        ensures
            final(self).wf(),
            final(self)@ == with_input(old(self)@, move_right_spec(old(self)@.input)),
    {
        let line_len = self.input.lines[self.input.cursor_line].as_str().unicode_len();
        if self.input.cursor_col < line_len {
            self.input.cursor_col = self.input.cursor_col + 1;
        } else if self.input.cursor_line < self.input.lines.len() - 1 {
            self.input.cursor_line = self.input.cursor_line + 1;
            self.input.cursor_col = 0;
        }
    }

    // -----------------------------------------------------------------------
    // Keys
    // -----------------------------------------------------------------------

    /// Handles a key in the current mode (see `key_spec`). `:q` quits; Enter
    /// in the collecting mode, with a non-empty input, asks the caller to
    /// file the input as an idea; the state is then left as it was.
    pub fn handle_key_event(&mut self, key: KeyEvent) -> (out: KeyOutcome)
        requires
            old(self).wf(),
            old(self)@.input.cursor_col < usize::MAX,
        ensures
            final(self).wf(),
            final(self)@ == key_spec(old(self)@, key),
            out is Quit <==> (old(self)@.mode == Mode::Command && is_quit_key(key)),
            out is Submit <==> (old(self)@.mode == Mode::Collecting && collecting_action(key)
                == EditAction::Submit && !old(self)@.input.is_empty()),
            out matches KeyOutcome::Submit(e) ==> e.content@ == old(self)@.input.text() && exists|t: LocalTime|
                t.wf() && e.timestamp@ == timestamp_text(t) && e.offset@ == offset_text(t.offset_seconds as int),
    {
        match self.mode {
            Mode::Collecting => self.handle_collecting_mode(key),
            Mode::Command => self.handle_command_mode(key),
            Mode::Help => self.handle_help_mode(key),
            Mode::Searching => self.handle_search_mode(key),
        }
    }

    /// A key while collecting ideas.
    fn handle_collecting_mode(&mut self, key: KeyEvent) -> (out: KeyOutcome)
        requires
            old(self).wf(),
            old(self)@.mode == Mode::Collecting,
            old(self)@.input.cursor_col < usize::MAX,
        ensures
            final(self).wf(),
            final(self)@ == apply_edit(old(self)@, collecting_action(key)),
            !(out is Quit),
            out is Submit <==> (collecting_action(key) == EditAction::Submit
                && !old(self)@.input.is_empty()),
            out matches KeyOutcome::Submit(e) ==> e.content@ == old(self)@.input.text() && exists|t: LocalTime|
                t.wf() && e.timestamp@ == timestamp_text(t) && e.offset@ == offset_text(t.offset_seconds as int),
    {
        let mut out = KeyOutcome::Continue;
        match classify_collecting_key(&key) {
            EditAction::EnterCommand => {
                self.mode = Mode::Command;
                return KeyOutcome::Continue;
            },
            EditAction::StartSearch => {
                self.start_search();
                return KeyOutcome::Continue;
            },
            EditAction::Undo => self.undo(),
            EditAction::Redo => self.redo(),
            EditAction::Submit => {
                if let Some(entry) = self.prepare_entry() {
                    out = KeyOutcome::Submit(entry);
                }
            },
            EditAction::Newline => {
                self.save_undo_state();
                self.insert_newline();
            },
            EditAction::Down => self.move_cursor_down(),
            EditAction::Up => self.move_cursor_up(),
            EditAction::Right => self.move_cursor_right(),
            EditAction::Left => self.move_cursor_left(),
            EditAction::LineStart => {
                self.input.cursor_col = 0;
            },
            EditAction::LineEnd => {
                self.input.cursor_col = self.input.lines[self.input.cursor_line].as_str().unicode_len();
            },
            EditAction::DeleteForward => {
                self.save_undo_state();
                self.delete_forward();
            },
            EditAction::KillLine => {
                self.save_undo_state();
                self.kill_line();
            },
            EditAction::Backspace => {
                if !self.input.is_empty() {
                    self.save_undo_state();
                }
                self.handle_backspace();
            },
            EditAction::Insert(c) => {
                self.save_undo_state();
                self.insert_char(c);
            },
            EditAction::Ignore => {},
        }
        self.input.last_activity = instant_now();
        let text = self.input.to_string();
        self.on_input_changed(text.as_str());
        out
    }

    /// A key after `:`.
    fn handle_command_mode(&mut self, key: KeyEvent) -> (out: KeyOutcome)
        requires
            old(self).wf(),
            old(self)@.mode == Mode::Command,
        ensures
            final(self).wf(),
            final(self)@ == command_mode_spec(old(self)@, key),
            out is Quit <==> is_quit_key(key),
            !(out is Submit),
    {
        match key.code {
            KeyCode::Char(c) => {
                if c == 'q' || c == 'Q' {
                    return KeyOutcome::Quit;
                } else if c == 'h' || c == 'H' {
                    self.mode = Mode::Help;
                } else {
                    self.mode = Mode::Collecting;
                }
            },
            _ => {
                self.mode = Mode::Collecting;
            },
        }
        KeyOutcome::Continue
    }

    /// A key while the help is shown: any key goes back to collecting.
    fn handle_help_mode(&mut self, key: KeyEvent) -> (out: KeyOutcome)
        requires
            old(self).wf(),
            old(self)@.mode == Mode::Help,
        ensures
            final(self).wf(),
            final(self)@ == (AppView { mode: Mode::Collecting, ..old(self)@ }),
            out is Continue,
    {
        self.mode = Mode::Collecting;
        KeyOutcome::Continue
    }

    /// A key while searching the history.
    fn handle_search_mode(&mut self, key: KeyEvent) -> (out: KeyOutcome)
        requires
            old(self).wf(),
            old(self)@.mode == Mode::Searching,
        ensures
            final(self).wf(),
            final(self)@ == search_mode_spec(old(self)@, key),
            out is Continue,
    {
        match key.code {
            KeyCode::Esc => self.cancel_search(),
            KeyCode::Enter => self.cancel_search(),
            KeyCode::Char(c) => {
                self.search_query.push(c);
                self.update_search();
            },
            KeyCode::Backspace => {
                let v = chars_of(self.search_query.as_str());
                if v.len() > 0 {
                    self.search_query = string_of(&v, 0, v.len() - 1);
                }
                self.update_search();
            },
            KeyCode::Tab => self.next_search_result(),
            KeyCode::Down => self.next_search_result(),
            KeyCode::Up => self.prev_search_result(),
            _ => {},
        }
        KeyOutcome::Continue
    }

    /// The idea that submitting the input would file: `None` for an empty
    /// input; otherwise the input text, stamped with a reading of the local
    /// clock: its date and time, and apart from them its offset from UTC.
    pub fn prepare_entry(&self) -> (r: Option<Entry>)
        ensures
            r is None <==> self@.input.is_empty(),
            r matches Some(e) ==> e.content@ == self@.input.text() && exists|t: LocalTime|
                t.wf() && e.timestamp@ == timestamp_text(t) && e.offset@ == offset_text(t.offset_seconds as int),
    {
        if self.input.is_empty() {
            return None;
        }
        let content = self.input.to_string();
        let t = local_clock();
        Some(Entry { content, timestamp: format_timestamp(&t), offset: format_offset(&t) })
    }

    /// Records an idea that was filed (see `record_entry_spec`).
    pub fn record_entry(&mut self, entry: Entry)
        requires
            old(self).wf(),
            old(self)@.entries_count < usize::MAX,
        ensures
            final(self).wf(),
            final(self)@ == record_entry_spec(old(self)@, entry.content@, entry.timestamp@, entry.offset@),
    {
        self.history.push(entry);
        self.entries_count = self.entries_count + 1;
        self.input.clear();
        self.undo_stack.clear();
        self.redo_stack.clear();
        let mut msg = String::from_str("✅ 已收集第 ");
        push_decimal(&mut msg, self.entries_count as u64);
        msg.append(" 个想法，秘书思考中...");
        self.secretary_content = msg;
        self.ai_pending = true;
        assert(entry_views(self.history@) =~= entry_views(old(self).history@).push(
            (entry.content@, entry.timestamp@, entry.offset@),
        ));
        assert(snapshot_views(self.undo_stack@) =~= Seq::<EditorView>::empty());
        assert(snapshot_views(self.redo_stack@) =~= Seq::<EditorView>::empty());
    }
}

// ---------------------------------------------------------------------------
// Laws of undo, redo and search
// ---------------------------------------------------------------------------

/// Undo right after an edit brings back the input from before the edit;
/// redo then brings the edit back.
pub proof fn law_undo_reverts_edit(a: AppView, edited: EditorView)
    requires
        a.wf(),
    ensures
        undo_spec(with_input(save_undo_spec(a), edited)).input == a.input,
        redo_spec(undo_spec(with_input(save_undo_spec(a), edited))).input == edited,
{
    let u = a.undo.push(a.input);
    assert(u.last() == a.input);
    if u.len() > a.max_undo {
        assert(u.drop_first().last() == a.input);
    }
}

/// Redo undoes an undo: the whole state comes back.
pub proof fn law_redo_after_undo(a: AppView)
    requires
        a.undo.len() > 0,
    ensures
        redo_spec(undo_spec(a)) == a,
{
    assert(a.undo.drop_last().push(a.undo.last()) =~= a.undo);
    assert(a.redo.push(a.input).drop_last() =~= a.redo);
    assert(redo_spec(undo_spec(a)) =~= a);
}

/// Undo undoes a redo: the whole state comes back.
pub proof fn law_undo_after_redo(a: AppView)
    requires
        a.redo.len() > 0,
    ensures
        undo_spec(redo_spec(a)) == a,
{
    assert(a.redo.drop_last().push(a.redo.last()) =~= a.redo);
    assert(a.undo.push(a.input).drop_last() =~= a.undo);
    assert(undo_spec(redo_spec(a)) =~= a);
}

/// Saving for undo keeps the two stacks within `max_undo` snapshots.
pub proof fn law_undo_bounded(a: AppView)
    requires
        a.wf(),
    ensures
        save_undo_spec(a).undo.len() + save_undo_spec(a).redo.len() <= a.max_undo,
        undo_spec(a).undo.len() + undo_spec(a).redo.len() <= a.max_undo,
        redo_spec(a).undo.len() + redo_spec(a).redo.len() <= a.max_undo,
{
}

/// The input and every saved snapshot have lines without newlines.
pub open spec fn all_lines_single(a: AppView) -> bool {
    &&& lines_single(a.input)
    &&& forall|i: int| 0 <= i < a.undo.len() ==> lines_single(#[trigger] a.undo[i])
    &&& forall|i: int| 0 <= i < a.redo.len() ==> lines_single(#[trigger] a.redo[i])
}

/// Saving, undoing and redoing only move whole buffers between the input
/// and the two stacks.
proof fn lemma_stacks_keep_lines_single(a: AppView)
    requires
        all_lines_single(a),
    ensures
        all_lines_single(save_undo_spec(a)),
        all_lines_single(undo_spec(a)),
        all_lines_single(redo_spec(a)),
{
    let u = a.undo.push(a.input);
    assert forall|i: int| 0 <= i < u.len() implies lines_single(#[trigger] u[i]) by {
        if i < a.undo.len() {
            assert(u[i] == a.undo[i]);
        }
    }
    if u.len() > a.max_undo {
        let d = u.drop_first();
        assert forall|i: int| 0 <= i < d.len() implies lines_single(#[trigger] d[i]) by {
            assert(d[i] == u[i + 1]);
        }
    }
    if a.undo.len() > 0 {
        let r = a.redo.push(a.input);
        assert(lines_single(a.undo[a.undo.len() - 1]));
        assert forall|i: int| 0 <= i < r.len() implies lines_single(#[trigger] r[i]) by {
            if i < a.redo.len() {
                assert(r[i] == a.redo[i]);
            }
        }
        let d = a.undo.drop_last();
        assert forall|i: int| 0 <= i < d.len() implies lines_single(#[trigger] d[i]) by {
            assert(d[i] == a.undo[i]);
        }
    }
    if a.redo.len() > 0 {
        assert(lines_single(a.redo[a.redo.len() - 1]));
        let d = a.redo.drop_last();
        assert forall|i: int| 0 <= i < d.len() implies lines_single(#[trigger] d[i]) by {
            assert(d[i] == a.redo[i]);
        }
    }
}

/// Handling a key never puts a newline inside a line, of the input or of a
/// saved snapshot, unless the key is a newline character itself (a paste
/// turns newlines into Enter, which breaks the line instead).
pub proof fn law_keys_keep_lines_single(a: AppView, key: KeyEvent)
    requires
        a.wf(),
        all_lines_single(a),
        key.code != KeyCode::Char('\n'),
    ensures
        all_lines_single(key_spec(a, key)),
{
    lemma_stacks_keep_lines_single(a);
    let s = save_undo_spec(a);
    assert(s.input == a.input);
    let c = match key.code {
        KeyCode::Char(ch) => ch,
        _ => ' ',
    };
    law_edits_keep_lines_single(a.input, c);
    assert(empty_editor().lines[0] == Seq::<char>::empty());
}

/// A key press with no modifier.
pub open spec fn plain_key(code: KeyCode) -> KeyEvent {
    KeyEvent { code, modifiers: NONE }
}

/// Backspace right after typing a character (other than `:`, which opens
/// the command line) gives back the input from before; the mode stays.
pub proof fn law_backspace_key_undoes_typing(a: AppView, c: char)
    requires
        a.wf(),
        a.mode == Mode::Collecting,
        c != ':',
    ensures
        key_spec(key_spec(a, plain_key(KeyCode::Char(c))), plain_key(KeyCode::Backspace)).input == a.input,
        key_spec(key_spec(a, plain_key(KeyCode::Char(c))), plain_key(KeyCode::Backspace)).mode
            == Mode::Collecting,
{
    let v = a.input;
    let w = insert_char_spec(v, c);
    assert(0b0000_0010u8 | 0b0000_0001u8 == 0b0000_0011u8) by (bit_vector);
    assert(0b0000_1000u8 | 0b0000_0001u8 == 0b0000_1001u8) by (bit_vector);
    assert(collecting_action(plain_key(KeyCode::Char(c))) == EditAction::Insert(c));
    assert(save_undo_spec(a).input == v);
    let b = key_spec(a, plain_key(KeyCode::Char(c)));
    assert(b.input == w);
    assert(b.mode == Mode::Collecting);
    assert(w.lines[v.cursor_line].len() > 0);
    assert(!w.is_empty());
    assert(collecting_action(plain_key(KeyCode::Backspace)) == EditAction::Backspace);
    assert(save_undo_spec(b).input == w);
    law_backspace_undoes_insert(v, c);
}

/// Backspace right after Shift+Enter joins the line again, giving back the
/// input from before; the mode stays.
pub proof fn law_backspace_key_undoes_line_break(a: AppView)
    requires
        a.wf(),
        a.mode == Mode::Collecting,
    ensures
        key_spec(key_spec(a, KeyEvent { code: KeyCode::Enter, modifiers: SHIFT }), plain_key(KeyCode::Backspace)).input
            == a.input,
        key_spec(key_spec(a, KeyEvent { code: KeyCode::Enter, modifiers: SHIFT }), plain_key(KeyCode::Backspace)).mode
            == Mode::Collecting,
{
    let v = a.input;
    let w = insert_newline_spec(v);
    assert(w.lines.len() == v.lines.len() + 1);
    assert(!w.is_empty());
    law_backspace_undoes_newline(v);
}

/// The Left arrow right after the Right arrow gives back the whole state,
/// wherever the cursor was but at the very end of the input.
pub proof fn law_left_key_undoes_right_key(a: AppView)
    requires
        a.wf(),
        a.mode == Mode::Collecting,
        a.input.cursor_line < a.input.lines.len() - 1 || a.input.cursor_col < a.input.current().len(),
    ensures
        key_spec(key_spec(a, plain_key(KeyCode::Right)), plain_key(KeyCode::Left)) == a,
{
    law_right_then_left(a.input);
}

/// Saving the input drops every pending redo: a redo right after it
/// changes nothing.
pub proof fn law_redo_after_save_does_nothing(a: AppView)
    ensures
        redo_spec(save_undo_spec(a)) == save_undo_spec(a),
{
}

/// The state after `n` undos in a row.
pub open spec fn undo_times(a: AppView, n: nat) -> AppView
    decreases n,
{
    if n == 0 {
        a
    } else {
        undo_spec(undo_times(a, (n - 1) as nat))
    }
}

/// Each undo takes one snapshot off the undo stack, while there is one.
proof fn lemma_undo_times_len(a: AppView, n: nat)
    ensures
        undo_times(a, n).undo.len() == if n >= a.undo.len() { 0 } else { a.undo.len() - n },
        undo_times(a, n).max_undo == a.max_undo,
    decreases n,
{
    if n > 0 {
        lemma_undo_times_len(a, (n - 1) as nat);
    }
}

/// The undo history is bounded: after as many undos in a row as the limit
/// (100 for a new application), a further undo changes nothing.
pub proof fn law_undo_runs_out(a: AppView, n: nat)
    requires
        a.wf(),
        n >= a.max_undo,
    ensures
        undo_spec(undo_times(a, n)) == undo_times(a, n),
{
    lemma_undo_times_len(a, n);
}

/// Ctrl+Z.
pub open spec fn ctrl_z() -> KeyEvent {
    KeyEvent { code: KeyCode::Char('z'), modifiers: CONTROL }
}

/// The key changes the input's text: a typed character, a line break,
/// Backspace on a non-empty input, Delete or Ctrl+D, Ctrl+K.
pub open spec fn edits_input(a: AppView, key: KeyEvent) -> bool {
    match collecting_action(key) {
        EditAction::Insert(_) => true,
        EditAction::Newline => true,
        EditAction::DeleteForward => true,
        EditAction::KillLine => true,
        EditAction::Backspace => !a.input.is_empty(),
        _ => false,
    }
}

/// Every key that changes the input can be undone: Ctrl+Z right after it
/// gives back the input from before, still collecting.
pub proof fn law_undo_key_reverts_edit_key(a: AppView, key: KeyEvent)
    requires
        a.wf(),
        a.mode == Mode::Collecting,
        edits_input(a, key),
    ensures
        key_spec(key_spec(a, key), ctrl_z()).input == a.input,
        key_spec(key_spec(a, key), ctrl_z()).mode == Mode::Collecting,
{
    let b = key_spec(a, key);
    assert(b == with_input(save_undo_spec(a), b.input));
    law_undo_reverts_edit(a, b.input);
    assert(collecting_action(ctrl_z()) == EditAction::Undo);
}

/// The Down arrow (or Ctrl+N) goes to the next line, keeping the column but
/// never past that line's end; nothing else changes. On the last line it
/// does nothing.
pub proof fn law_down_key(a: AppView, key: KeyEvent)
    requires
        a.wf(),
        a.mode == Mode::Collecting,
        key == plain_key(KeyCode::Down) || key == (KeyEvent { code: KeyCode::Char('n'), modifiers: CONTROL }),
    ensures
        ({
            let b = key_spec(a, key);
            let v = a.input;
            if v.cursor_line < v.lines.len() - 1 {
                let next = v.lines[v.cursor_line + 1].len() as int;
                &&& b == with_input(a, EditorView { cursor_line: v.cursor_line + 1, cursor_col: b.input.cursor_col, ..v })
                &&& v.cursor_col <= next ==> b.input.cursor_col == v.cursor_col
                &&& v.cursor_col > next ==> b.input.cursor_col == next
            } else {
                b == a
            }
        }),
{
    if a.input.cursor_line < a.input.lines.len() - 1 {
        law_down_keeps_column(a.input);
    }
}

/// In the command mode, `q` or `Q` quits with the state kept, `h` or `H`
/// opens the help, and every other key (Esc, Enter, arrows and all) goes back
/// to collecting; nothing else changes. In the help mode every key goes back
/// to collecting.
pub proof fn law_command_and_help_keys(a: AppView, key: KeyEvent)
    ensures
        a.mode == Mode::Command && (key.code == KeyCode::Char('q') || key.code == KeyCode::Char('Q'))
            ==> key_spec(a, key) == a,
        a.mode == Mode::Command && (key.code == KeyCode::Char('h') || key.code == KeyCode::Char('H'))
            ==> key_spec(a, key) == (AppView { mode: Mode::Help, ..a }),
        a.mode == Mode::Command && key.code != KeyCode::Char('q') && key.code != KeyCode::Char('Q')
            && key.code != KeyCode::Char('h') && key.code != KeyCode::Char('H')
            ==> key_spec(a, key) == (AppView { mode: Mode::Collecting, ..a }),
        a.mode == Mode::Help ==> key_spec(a, key) == (AppView { mode: Mode::Collecting, ..a }),
{
}

/// The search finds exactly the ideas that hold the query, ignoring case:
/// each result names such an idea with its match offset, results follow the
/// history's order, and no such idea is left out.
pub proof fn law_search_results(history: Seq<(Seq<char>, Seq<char>, Seq<char>)>, query: Seq<char>, n: int)
    requires
        0 <= n <= history.len(),
        history.len() <= usize::MAX,
    ensures
        ({
            let r = search_results(history, query, n);
            &&& forall|k: int|
                #![trigger r[k]]
                0 <= k < r.len() ==> {
                    &&& 0 <= r[k].0 < n
                    &&& match_position(history[r[k].0 as int].0, query) matches Some(p) && r[k].1
                        == p as usize
                }
            &&& forall|k1: int, k2: int|
                #![trigger r[k1], r[k2]]
                0 <= k1 < k2 < r.len() ==> r[k1].0 < r[k2].0
            &&& forall|i: int|
                #![trigger history[i]]
                0 <= i < n && (match_position(history[i].0, query) is Some) ==> exists|k: int|
                    #![trigger r[k]]
                    0 <= k < r.len() && r[k].0 == i
        }),
    decreases n,
{
    if n > 0 {
        law_search_results(history, query, n - 1);
        let prev = search_results(history, query, n - 1);
        let r = search_results(history, query, n);
        assert forall|i: int|
            #![trigger history[i]]
            0 <= i < n && (match_position(history[i].0, query) is Some) implies exists|k: int|
            #![trigger r[k]]
            0 <= k < r.len() && r[k].0 == i by {
            if i < n - 1 {
                let k = choose|k: int| 0 <= k < prev.len() && prev[k].0 == i;
                assert(r[k] == prev[k]);
            } else {
                assert(r[r.len() - 1].0 == i);
            }
        }
    }
}

/// The search ignores case: queries with the same lowercase form find the
/// same results.
pub proof fn law_search_ignores_case(
    history: Seq<(Seq<char>, Seq<char>, Seq<char>)>,
    q1: Seq<char>,
    q2: Seq<char>,
    n: int,
)
    requires
        lowercase(q1) == lowercase(q2),
    ensures
        search_results(history, q1, n) == search_results(history, q2, n),
    decreases n,
{
    if n > 0 {
        law_search_ignores_case(history, q1, q2, n - 1);
    }
}

/// Stepping to the next result and back to the previous one returns to the
/// same selection, and both keep the selection among the results.
pub proof fn law_next_then_prev(a: AppView)
    requires
        a.wf(),
        a.results.len() > 0,
    ensures
        prev_result_spec(next_result_spec(a)) == a,
        next_result_spec(a).wf(),
        prev_result_spec(a).wf(),
{
    let n = a.results.len() as int;
    if a.current + 1 < n {
        vstd::arithmetic::div_mod::lemma_small_mod((a.current + 1) as nat, n as nat);
    } else {
        vstd::arithmetic::div_mod::lemma_mod_self_0(n);
    }
    assert(prev_result_spec(next_result_spec(a)) =~= a);
}

} // verus!
