//! The line editor's state machine: one in-progress line buffer, the command
//! history, and the history cursor. The surrounding binary feeds it key
//! events read from the terminal and redraws the prompt line whenever the
//! buffer changed.

use vstd::prelude::*;

verus! {

/// A key event, as the editor understands it. The surrounding binary maps
/// the terminal's own key representation onto this.
#[derive(Clone, Copy)]
pub enum Key {
    /// Submit the current line.
    Enter,
    /// Remove the last character of the buffer.
    Backspace,
    /// A printable character to append to the buffer.
    Char(char),
    /// Recall the previous history entry.
    Up,
    /// Recall the next history entry.
    Down,
    /// Any key the editor ignores.
    Other,
}

/// What one key did to the editor.
#[derive(Clone, Copy, PartialEq, Eq, Structural, Debug)]
pub enum EditOutcome {
    /// The line is finished: take it and leave the read loop.
    Submitted,
    /// The buffer changed, or may have: redraw the prompt line.
    Edited,
    /// Nothing happened; no redraw is needed.
    Unchanged,
}

/// The mathematical model of an [`Editor`].
#[verifier::ext_equal]
pub ghost struct EditorView {
    /// The in-progress line.
    pub buffer: Seq<char>,
    /// Past submitted lines, oldest first.
    pub history: Seq<Seq<char>>,
    /// Which history entry is recalled; `history.len()` means none is.
    pub cursor: int,
}

/// The line editor: the in-progress line buffer, the submitted-line history,
/// and the history cursor. The cursor stays between zero and the history
/// length; at the length, no entry is recalled.
pub struct Editor {
    buffer: String,
    history: Vec<String>,
    cursor: usize,
}

/// Relies on `String::push`: appends the character to the end of the string.
#[verifier::external_body]
fn push_char(s: &mut String, c: char)
    ensures
        final(s)@ == old(s)@.push(c),
{
    s.push(c);
}

/// Relies on `String::pop`: removes and returns the last character, or
/// returns `None` and leaves the string unchanged when it is empty.
#[verifier::external_body]
fn pop_char(s: &mut String) -> (r: Option<char>)
    ensures
        old(s)@.len() == 0 ==> final(s)@ == old(s)@ && r == None::<char>,
        old(s)@.len() > 0 ==> final(s)@ == old(s)@.drop_last() && r == Some(old(s)@.last()),
{
    s.pop()
}

impl View for Editor {
    type V = EditorView;

    closed spec fn view(&self) -> EditorView {
        EditorView {
            buffer: self.buffer@,
            history: self.history.deep_view(),
            cursor: self.cursor as int,
        }
    }
}

impl Editor {
    /// The editor's invariant: the history cursor never lies beyond one past
    /// the last entry.
    pub open spec fn wf(&self) -> bool {
        0 <= self@.cursor <= self@.history.len()
    }

    /// A fresh editor: empty buffer, empty history, cursor at zero.
    pub fn new() -> (e: Editor)
        ensures
            e.wf(),
            e@.buffer.len() == 0,
            e@.history.len() == 0,
            e@.cursor == 0,
    {
        let e = Editor { buffer: String::new(), history: Vec::new(), cursor: 0 };
        proof {
            assert(e@.history =~= Seq::<Seq<char>>::empty());
        }
        e
    }

    /// The in-progress line.
    pub fn buffer(&self) -> (r: &String)
        ensures
            r@ == self@.buffer,
    {
        &self.buffer
    }

    /// The history cursor.
    pub fn cursor(&self) -> (r: usize)
        ensures
            r as int == self@.cursor,
    {
        self.cursor
    }

    /// How many lines the history holds.
    pub fn history_len(&self) -> (r: usize)
        ensures
            r as int == self@.history.len(),
    {
        self.history.len()
    }

    /// Applies one key event to the editor.
    ///
    /// `Enter` submits the line and changes nothing. A character is appended
    /// to the buffer; `Backspace` drops the buffer's last character and does
    /// nothing on an empty buffer. `Up` steps the cursor back and recalls
    /// that entry, and is a no-op at the oldest entry (cursor zero). `Down`
    /// steps the cursor forward and recalls that entry, and is a no-op when
    /// the cursor is not below the last entry. Any other key is ignored.
    pub fn apply_key(&mut self, key: Key) -> (r: EditOutcome)
        requires
            old(self).wf(),
        ensures
            final(self).wf(),
            final(self)@.history == old(self)@.history,
            match key {
                Key::Enter => r == EditOutcome::Submitted && final(self)@ == old(self)@,
                Key::Char(c) => r == EditOutcome::Edited && final(self)@ == (EditorView {
                    buffer: old(self)@.buffer.push(c),
                    ..old(self)@
                }),
                Key::Backspace => r == EditOutcome::Edited && final(self)@ == (EditorView {
                    buffer: if old(self)@.buffer.len() > 0 {
                        old(self)@.buffer.drop_last()
                    } else {
                        old(self)@.buffer
                    },
                    ..old(self)@
                }),
                Key::Up => if old(self)@.cursor > 0 {
                    r == EditOutcome::Edited && final(self)@ == (EditorView {
                        buffer: old(self)@.history[old(self)@.cursor - 1],
                        cursor: old(self)@.cursor - 1,
                        ..old(self)@
                    })
                } else {
                    r == EditOutcome::Unchanged && final(self)@ == old(self)@
                },
                Key::Down => if old(self)@.cursor + 1 < old(self)@.history.len() {
                    r == EditOutcome::Edited && final(self)@ == (EditorView {
                        buffer: old(self)@.history[old(self)@.cursor + 1],
                        cursor: old(self)@.cursor + 1,
                        ..old(self)@
                    })
                } else {
                    r == EditOutcome::Unchanged && final(self)@ == old(self)@
                },
                Key::Other => r == EditOutcome::Unchanged && final(self)@ == old(self)@,
            },
    {
        match key {
            Key::Enter => EditOutcome::Submitted,
            Key::Char(c) => {
                push_char(&mut self.buffer, c);
                EditOutcome::Edited
            },
            Key::Backspace => {
                pop_char(&mut self.buffer);
                EditOutcome::Edited
            },
            Key::Up => {
                if self.cursor > 0 {
                    self.cursor = self.cursor - 1;
                    self.buffer = self.history[self.cursor].clone();
                    EditOutcome::Edited
                } else {
                    EditOutcome::Unchanged
                }
            },
            Key::Down => {
                if self.history.len() > 0 && self.cursor < self.history.len() - 1 {
                    self.cursor = self.cursor + 1;
                    self.buffer = self.history[self.cursor].clone();
                    EditOutcome::Edited
                } else {
                    EditOutcome::Unchanged
                }
            },
            Key::Other => EditOutcome::Unchanged,
        }
    }

    /// Hands out the finished line and clears the buffer for the next read
    /// cycle; history and cursor stay as they are.
    pub fn take_line(&mut self) -> (line: String)
        requires
            old(self).wf(),
        ensures
            final(self).wf(),
            line@ == old(self)@.buffer,
            final(self)@ == (EditorView { buffer: Seq::empty(), ..old(self)@ }),
    {
        let line = self.buffer.clone();
        self.buffer = String::new();
        line
    }

    /// Records a submitted line: appends it to the history and resets the
    /// cursor to one past the last entry.
    pub fn submit(&mut self, line: String)
        requires
            old(self).wf(),
        ensures
            final(self).wf(),
            final(self)@ == (EditorView {
                history: old(self)@.history.push(line@),
                cursor: old(self)@.history.len() + 1int,
                ..old(self)@
            }),
    {
        self.history.push(line);
        self.cursor = self.history.len();
        proof {
            assert(self@.history =~= old(self)@.history.push(self@.history.last()));
        }
    }
}

} // verus!
