//! Lines of characters and the text made of them.
//!
//! A line is a list of characters and a text is a list of lines. Edits address
//! a character by a cursor and never change the number of lines.

use crate::editor::Cursor;
use crate::error::ListError;
pub use crate::list::{LinkedList, ListIter};
use crate::seq_model::{access_position, inserted, item_at, removed, text_inserted, text_removed};
use vstd::prelude::*;

verus! {

/// One line of a text.
pub struct Line {
    pub line: LinkedList<char>,
}

impl View for Line {
    type V = Seq<char>;

    /// The characters of the line, in order.
    open spec fn view(&self) -> Seq<char> {
        self.line@
    }
}

impl Line {
    /// Inserts `chr` at column `pos.col`; a column past the end appends.
    pub fn insert_at(&mut self, pos: Cursor, chr: char)
        ensures
            final(self)@ == inserted(old(self)@, pos.col, chr),
    {
        self.line.insert(pos.col, chr);
    }

    /// Removes the character at column `pos.col`; a column past the end
    /// removes the last character. An empty line stays empty and the removal
    /// fails with `EmptyContainer`.
    pub fn remove_at(&mut self, pos: Cursor) -> (done: Result<(), ListError>)
        ensures
            final(self)@ == removed(old(self)@, pos.col),
            old(self)@.len() == 0 ==> done == Err::<(), ListError>(ListError::EmptyContainer),
            old(self)@.len() > 0 ==> done == Ok::<(), ListError>(()),
    {
        match self.line.remove(pos.col) {
            Ok(_) => Ok(()),
            Err(error) => Err(error),
        }
    }

    /// The line that holds the characters of `source`.
    pub fn from_str(source: &str) -> (line: Line)
        ensures
            line@ == source@,
    {
        let mut list: LinkedList<char> = LinkedList::new();
        for chr in iter: source.chars()
            invariant
                iter.seq() == source@,
                list@ == source@.take(iter.index() as int),
        {
            list.push_back(chr);
            assert(source@.take(iter.index() + 1) =~= source@.take(iter.index() as int).push(chr));
        }
        assert(source@.take(source@.len() as int) =~= source@);
        Line { line: list }
    }

    /// The characters of the line, in order.
    pub fn chars(&self) -> (chars: Vec<char>)
        ensures
            chars@ == self@,
    {
        let mut chars: Vec<char> = Vec::new();
        let mut iter = self.line.iter();
        loop
            invariant
                self@ == chars@ + iter@,
            ensures
                chars@ == self@,
            decreases iter@.len(),
        {
            match iter.next() {
                Some(chr) => {
                    chars.push(*chr);
                },
                None => {
                    break ;
                },
            }
        }
        chars
    }
}

impl Default for Line {
    fn default() -> (line: Self)
        ensures
            line@ == Seq::<char>::empty(),
    {
        Line { line: LinkedList::new() }
    }
}

/// A text: its lines from top to bottom.
pub struct Text {
    pub lines: LinkedList<Line>,
}

impl View for Text {
    type V = Seq<Seq<char>>;

    /// The lines of the text, each as its characters.
    open spec fn view(&self) -> Seq<Seq<char>> {
        self.lines@.map_values(|line: Line| line@)
    }
}

impl Text {
    /// Inserts `chr` into the line at `pos.row`, at column `pos.col`. A row
    /// past the last line addresses the last line, a column past the end of
    /// the line appends. A text without lines stays as it is and the insertion
    /// fails with `EmptyContainer`.
    pub fn insert_at(&mut self, pos: Cursor, chr: char) -> (done: Result<(), ListError>)
        ensures
            final(self)@ == text_inserted(old(self)@, pos.row, pos.col, chr),
            old(self)@.len() == 0 ==> done == Err::<(), ListError>(ListError::EmptyContainer),
            old(self)@.len() > 0 ==> done == Ok::<(), ListError>(()),
    {
        match self.lines.get_mut(pos.row) {
            Ok(line) => {
                line.insert_at(pos, chr);
                proof {
                    let at = access_position(old(self)@.len(), pos.row);
                    assert(final(self)@ =~= old(self)@.update(
                        at,
                        inserted(old(self)@[at], pos.col, chr),
                    ));
                }
                Ok(())
            },
            Err(error) => Err(error),
        }
    }

    /// Removes from the line at `pos.row` the character at column `pos.col`.
    /// A row past the last line addresses the last line, a column past the end
    /// of the line its last character. The removal fails with `EmptyContainer`,
    /// and changes nothing, when the text has no line or the addressed line no
    /// character.
    pub fn remove_at(&mut self, pos: Cursor) -> (done: Result<(), ListError>)
        ensures
            final(self)@ == text_removed(old(self)@, pos.row, pos.col),
            old(self)@.len() == 0 || item_at(old(self)@, pos.row).len() == 0 ==> done == Err::<
                (),
                ListError,
            >(ListError::EmptyContainer),
            old(self)@.len() > 0 && item_at(old(self)@, pos.row).len() > 0 ==> done == Ok::<
                (),
                ListError,
            >(()),
    {
        match self.lines.get_mut(pos.row) {
            Ok(line) => {
                let done = line.remove_at(pos);
                proof {
                    let at = access_position(old(self)@.len(), pos.row);
                    assert(final(self)@ =~= old(self)@.update(
                        at,
                        removed(old(self)@[at], pos.col),
                    ));
                }
                done
            },
            Err(error) => Err(error),
        }
    }

    /// Adds a line made of the characters of `source` below the last line.
    pub fn push_line(&mut self, source: &str)
        ensures
            final(self)@ == old(self)@.push(source@),
    {
        self.lines.push_back(Line::from_str(source));
        assert(self@ =~= old(self)@.push(source@));
    }

    /// The text whose lines are `sources`, in order.
    pub fn from_lines(sources: &[String]) -> (text: Text)
        ensures
            text@ == sources@.map_values(|source: String| source@),
    {
        let mut text = Text { lines: LinkedList::new() };
        let mut done: usize = 0;
        while done < sources.len()
            invariant
                done <= sources@.len(),
                text@ == sources@.take(done as int).map_values(|source: String| source@),
            decreases sources@.len() - done,
        {
            text.push_line(sources[done].as_str());
            done = done + 1;
            assert(text@ =~= sources@.take(done as int).map_values(|source: String| source@));
        }
        assert(sources@.take(done as int) =~= sources@);
        text
    }

    /// The lines of the text from top to bottom, each as its characters.
    pub fn snapshot(&self) -> (lines: Vec<Vec<char>>)
        ensures
            lines@.len() == self@.len(),
            forall|row: int| 0 <= row < self@.len() ==> (#[trigger] lines@[row])@ == self@[row],
    {
        let mut lines: Vec<Vec<char>> = Vec::new();
        let mut iter = self.lines.iter();
        loop
            invariant
                lines@.len() <= self.lines@.len(),
                iter@ == self.lines@.skip(lines@.len() as int),
                forall|row: int|
                    0 <= row < lines@.len() ==> (#[trigger] lines@[row])@ == self@[row],
            ensures
                lines@.len() == self@.len(),
                forall|row: int|
                    0 <= row < lines@.len() ==> (#[trigger] lines@[row])@ == self@[row],
            decreases iter@.len(),
        {
            let ghost seen = lines@.len() as int;
            match iter.next() {
                Some(line) => {
                    lines.push(line.chars());
                    assert(iter@ =~= self.lines@.skip(seen + 1));
                },
                None => {
                    break ;
                },
            }
        }
        lines
    }
}

impl Default for Text {
    fn default() -> (text: Self)
        ensures
            text@ == Seq::<Seq<char>>::empty(),
    {
        Text { lines: LinkedList::new() }
    }
}

} // verus!
