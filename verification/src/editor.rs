//! The cursor, the editing modes and the editor that a key event drives.
//!
//! The editor is a state machine over its mode, its cursor and its text. One
//! key event makes one transition; the transition is given as a function on
//! the editor's view, and `update_with` is proved to follow it.

use crate::rendering::ScreenWindow;
use crate::seq_model::{item_at, text_inserted, text_removed};
use crate::text::Text;
use vstd::prelude::*;

verus! {

/// How the editor reads a key.
#[derive(Clone, Copy, Debug, PartialEq, Eq)]
pub enum EditorMode {
    /// Keys move the cursor or change the mode.
    Visual,
    /// Keys edit the text under the cursor.
    Insert,
    /// A mode without transitions: every key leaves the editor as it is.
    Select,
}

impl Default for EditorMode {
    fn default() -> (mode: Self)
        ensures
            mode == EditorMode::Visual,
    {
        EditorMode::Visual
    }
}

/// A position in a text: a line and a column in it.
#[derive(Clone, Copy, Debug, PartialEq, Eq)]
pub struct Cursor {
    pub row: usize,
    pub col: usize,
}

impl Default for Cursor {
    fn default() -> (cursor: Self)
        ensures
            cursor == (Cursor { row: 0, col: 0 }),
    {
        Cursor { row: 0, col: 0 }
    }
}

impl Cursor {
    /// The cursor stands on a line of the text, on one of its characters or
    /// just behind the last one.
    pub open spec fn within(self, lines: Seq<Seq<char>>) -> bool {
        &&& self.row < lines.len()
        &&& self.col <= lines[self.row as int].len()
    }

    /// The column that a wanted column `candidate` becomes on a line of `len`
    /// characters: the nearest column of a character, or 0 on an empty line.
    pub open spec fn clamped_col(candidate: int, len: nat) -> usize {
        if candidate <= 0 || len == 0 {
            0
        } else if candidate >= len {
            (len - 1) as usize
        } else {
            candidate as usize
        }
    }

    /// Where a move by `dx` columns and `dy` lines takes the cursor.
    ///
    /// The sums are taken in the integers, so a move to the left of column 0
    /// or above line 0 never wraps. A wanted line inside the text is adopted,
    /// and the wanted column is then clamped onto that line. Otherwise the
    /// line stays, and the wanted column is adopted only if the current line
    /// has a character there. In a text without lines nothing moves.
    pub open spec fn moved(self, dx: int, dy: int, lines: Seq<Seq<char>>) -> Cursor {
        if lines.len() == 0 {
            self
        } else {
            let col = self.col + dx;
            let row = self.row + dy;
            if 0 <= row < lines.len() {
                Cursor { row: row as usize, col: Self::clamped_col(col, lines[row].len()) }
            } else if 0 <= col < item_at(lines, self.row).len() {
                Cursor { row: self.row, col: col as usize }
            } else {
                self
            }
        }
    }

    /// Every line count and line length of `lines` fits a `usize`, as it does
    /// in every text that exists in memory.
    pub open spec fn addressable(lines: Seq<Seq<char>>) -> bool {
        &&& lines.len() <= usize::MAX
        &&& forall|row: int| 0 <= row < lines.len() ==> (#[trigger] lines[row]).len() <= usize::MAX
    }

    /// A cursor inside the text is still inside it after any move: its line
    /// is a line of the text, and its column a character of that line or the
    /// place just behind the last one.
    pub proof fn lemma_move_stays_within(self, dx: int, dy: int, lines: Seq<Seq<char>>)
        requires
            Self::addressable(lines),
            self.within(lines),
        ensures
            self.moved(dx, dy, lines).within(lines),
            self.moved(dx, dy, lines).row < lines.len(),
            self.moved(dx, dy, lines).col <= lines[self.moved(dx, dy, lines).row as int].len(),
    {
    }

    /// Moves the cursor by `dx` columns and `dy` lines inside `text`. A move
    /// that would leave the text is cut short or dropped, never an error.
    pub fn move_cursor(&mut self, dx: isize, dy: isize, text: &Text)
        ensures
            *final(self) == old(self).moved(dx as int, dy as int, text@),
            old(self).within(text@) ==> final(self).within(text@),
            0 <= old(self).row + dy < text@.len() ==> final(self).within(text@),
    {
        let here = match text.lines.get(self.row) {
            Ok(line) => line,
            Err(_) => {
                return ;
            },
        };
        let num_lines: usize = text.lines.len();
        let num_chars: usize = here.line.len();
        let nx: i128 = self.col as i128 + dx as i128;
        let ny: i128 = self.row as i128 + dy as i128;
        if 0 <= nx && nx < num_chars as i128 {
            self.col = nx as usize;
        }
        if 0 <= ny && ny < num_lines as i128 {
            let row: usize = ny as usize;
            if let Ok(line) = text.lines.get(row) {
                let num_chars: usize = line.line.len();
                let last: usize = if num_chars == 0 {
                    0
                } else {
                    num_chars - 1
                };
                self.row = row;
                self.col = if nx <= 0 {
                    0
                } else if nx >= last as i128 {
                    last
                } else {
                    nx as usize
                };
            }
        }
    }
}

/// Which key was pressed.
#[derive(Clone, Copy, Debug, PartialEq, Eq)]
pub enum KeyCode {
    /// A key that stands for a character.
    Char(char),
    /// The escape key.
    Esc,
    /// The backspace key.
    Backspace,
    /// Any other key.
    Other,
}

/// One key press: the key and the modifier keys held with it. No transition
/// reads the modifiers.
#[derive(Clone, Copy, Debug, PartialEq, Eq)]
pub struct KeyEvent {
    pub code: KeyCode,
    pub modifiers: u8,
}

/// What the loop that feeds the editor has to do after a key.
#[derive(Clone, Copy, Debug, PartialEq, Eq)]
pub enum Outcome {
    /// Go on with the next key.
    Continue,
    /// Stop, and end the process with `status`.
    Exit { status: i32 },
}

/// The editor as the transitions see it: the lines, the cursor and the mode.
pub struct EditorState {
    pub lines: Seq<Seq<char>>,
    pub cursor: Cursor,
    pub mode: EditorMode,
}

impl EditorState {
    /// The cursor has a place to stand: it is inside the text, or the text has
    /// no line and the cursor rests at the origin.
    pub open spec fn consistent(self) -> bool {
        if self.lines.len() == 0 {
            self.cursor == (Cursor { row: 0, col: 0 })
        } else {
            self.cursor.within(self.lines)
        }
    }

    /// The state after a move of the cursor by `dx` columns and `dy` lines.
    pub open spec fn after_move(self, dx: int, dy: int) -> EditorState {
        EditorState { cursor: self.cursor.moved(dx, dy, self.lines), ..self }
    }

    /// The state after `code` in visual mode: `i` enters insert mode, `h`,
    /// `j`, `k` and `l` move the cursor left, down, up and right, and every
    /// other key, `q` among them, leaves the state as it is.
    pub open spec fn after_visual(self, code: KeyCode) -> EditorState {
        match code {
            KeyCode::Char(chr) => {
                if chr == 'i' {
                    EditorState { mode: EditorMode::Insert, ..self }
                } else if chr == 'h' {
                    self.after_move(-1, 0)
                } else if chr == 'j' {
                    self.after_move(0, 1)
                } else if chr == 'k' {
                    self.after_move(0, -1)
                } else if chr == 'l' {
                    self.after_move(1, 0)
                } else {
                    self
                }
            },
            _ => self,
        }
    }

    /// The state after `code` in insert mode: escape returns to visual mode, a
    /// character is inserted at the cursor, which then moves one column to
    /// the right, backspace removes the character at the cursor, which then
    /// moves one column to the left, and every other key leaves the state as
    /// it is.
    pub open spec fn after_insert(self, code: KeyCode) -> EditorState {
        match code {
            KeyCode::Esc => EditorState { mode: EditorMode::Visual, ..self },
            KeyCode::Char(chr) => {
                let lines = text_inserted(self.lines, self.cursor.row, self.cursor.col, chr);
                EditorState { lines, ..self }.after_move(1, 0)
            },
            KeyCode::Backspace => {
                let lines = text_removed(self.lines, self.cursor.row, self.cursor.col);
                EditorState { lines, ..self }.after_move(-1, 0)
            },
            KeyCode::Other => self,
        }
    }

    /// The state after `code`, whatever the mode.
    pub open spec fn after(self, code: KeyCode) -> EditorState {
        match self.mode {
            EditorMode::Visual => self.after_visual(code),
            EditorMode::Insert => self.after_insert(code),
            EditorMode::Select => self,
        }
    }

    /// Whether `code` asks the editor to stop: only `q` in visual mode does.
    pub open spec fn quits(self, code: KeyCode) -> bool {
        self.mode == EditorMode::Visual && code == KeyCode::Char('q')
    }

    /// What the feeding loop is told after `code`: to end the process with
    /// status 0 when the key quits, else to go on.
    pub open spec fn outcome(self, code: KeyCode) -> Outcome {
        if self.quits(code) {
            Outcome::Exit { status: 0 }
        } else {
            Outcome::Continue
        }
    }
}

/// The editor: a text, the cursor in it, the mode, and the window to draw in.
pub struct Editor {
    pub text: Text,
    pub cursor: Cursor,
    pub mode: EditorMode,
    pub draw_window: ScreenWindow,
}

impl View for Editor {
    type V = EditorState;

    open spec fn view(&self) -> EditorState {
        EditorState { lines: self.text@, cursor: self.cursor, mode: self.mode }
    }
}

impl Editor {
    /// An editor in visual mode with no text and the cursor at the origin.
    pub fn new() -> (editor: Self)
        ensures
            editor@.lines == Seq::<Seq<char>>::empty(),
            editor@.cursor == (Cursor { row: 0, col: 0 }),
            editor@.mode == EditorMode::Visual,
            editor@.consistent(),
            editor.draw_window.blank(),
    {
        Editor {
            text: Text::default(),
            cursor: Cursor::default(),
            mode: EditorMode::default(),
            draw_window: ScreenWindow::default(),
        }
    }

    /// Adds `sources` below the text, one line for each, in order. The cursor
    /// and the mode stay.
    pub fn load_lines(&mut self, sources: &[String])
        ensures
            final(self)@.lines == old(self)@.lines + sources@.map_values(|source: String| source@),
            final(self)@.cursor == old(self)@.cursor,
            final(self)@.mode == old(self)@.mode,
            final(self).draw_window == old(self).draw_window,
            old(self)@.consistent() ==> final(self)@.consistent(),
    {
        let mut done: usize = 0;
        while done < sources.len()
            invariant
                done <= sources@.len(),
                self@.lines == old(self)@.lines + sources@.take(done as int).map_values(
                    |source: String| source@,
                ),
                self.cursor == old(self).cursor,
                self.mode == old(self).mode,
                self.draw_window == old(self).draw_window,
            decreases sources@.len() - done,
        {
            self.text.push_line(sources[done].as_str());
            done = done + 1;
            assert(self@.lines =~= old(self)@.lines + sources@.take(done as int).map_values(
                |source: String| source@,
            ));
        }
        assert(sources@.take(done as int) =~= sources@);
    }

    /// Makes the transition that `key` asks for in the current mode, and tells
    /// the feeding loop whether to go on. A key that quits changes nothing.
    pub fn update_with(&mut self, key: KeyEvent) -> (outcome: Outcome)
        ensures
            final(self)@ == old(self)@.after(key.code),
            outcome == old(self)@.outcome(key.code),
            outcome != Outcome::Continue ==> final(self)@ == old(self)@,
            final(self).draw_window == old(self).draw_window,
            old(self)@.consistent() ==> final(self)@.consistent(),
    {
        match self.mode {
            EditorMode::Visual => self.handle_visual(key),
            EditorMode::Insert => {
                self.handle_insert(key);
                Outcome::Continue
            },
            EditorMode::Select => Outcome::Continue,
        }
    }

    /// The transition of visual mode.
    fn handle_visual(&mut self, key: KeyEvent) -> (outcome: Outcome)
        requires
            old(self).mode == EditorMode::Visual,
        ensures
            final(self)@ == old(self)@.after_visual(key.code),
            outcome == old(self)@.outcome(key.code),
            outcome != Outcome::Continue ==> final(self)@ == old(self)@,
            final(self).draw_window == old(self).draw_window,
            old(self)@.consistent() ==> final(self)@.consistent(),
    {
        match key.code {
            KeyCode::Char('q') => {
                return Outcome::Exit { status: 0 };
            },
            KeyCode::Char('i') => {
                self.mode = EditorMode::Insert;
            },
            KeyCode::Char('h') => self.cursor.move_cursor(-1, 0, &self.text),
            KeyCode::Char('j') => self.cursor.move_cursor(0, 1, &self.text),
            KeyCode::Char('k') => self.cursor.move_cursor(0, -1, &self.text),
            KeyCode::Char('l') => self.cursor.move_cursor(1, 0, &self.text),
            _ => {},
        }
        Outcome::Continue
    }

    /// The transition of insert mode. An edit that the text refuses, for want
    /// of a line or of a character, changes nothing; the cursor moves all the
    /// same.
    fn handle_insert(&mut self, key: KeyEvent)
        requires
            old(self).mode == EditorMode::Insert,
        ensures
            final(self)@ == old(self)@.after_insert(key.code),
            final(self).draw_window == old(self).draw_window,
            old(self)@.consistent() ==> final(self)@.consistent(),
    {
        match key.code {
            KeyCode::Esc => {
                self.mode = EditorMode::Visual;
            },
            KeyCode::Char(chr) => {
                let _ = self.text.insert_at(self.cursor, chr);
                self.cursor.move_cursor(1, 0, &self.text);
            },
            KeyCode::Backspace => {
                let _ = self.text.remove_at(self.cursor);
                self.cursor.move_cursor(-1, 0, &self.text);
            },
            KeyCode::Other => {},
        }
    }
}

impl Default for Editor {
    fn default() -> (editor: Self)
        ensures
            editor@.lines == Seq::<Seq<char>>::empty(),
            editor@.cursor == (Cursor { row: 0, col: 0 }),
            editor@.mode == EditorMode::Visual,
            editor.draw_window.blank(),
    {
        Editor::new()
    }
}

} // verus!
