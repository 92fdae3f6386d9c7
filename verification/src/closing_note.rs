//! The entry of the free-text note that closes a running log entry.

use vstd::prelude::*;
use crate::selector::{parse_buffer, parsed_of, Key, Parsed, ParsedView};
use crate::text::{pop_char, push_char};

verus! {

/// What a key press in the note editor asks the caller to do.
#[derive(Clone, Debug, PartialEq, Eq)]
pub enum NoteAction {
    /// Nothing.
    Ignore,
    /// Draw the input line again.
    Render,
    /// Leave the interaction; the entry stays open.
    Quit,
    /// Close the running entry with this note.
    Commit { note: String },
}

/// The model of [`NoteAction`].
pub enum NoteActionView {
    Ignore,
    Render,
    Quit,
    Commit { note: Seq<char> },
}

impl View for NoteAction {
    type V = NoteActionView;

    open spec fn view(&self) -> NoteActionView {
        match self {
            NoteAction::Ignore => NoteActionView::Ignore,
            NoteAction::Render => NoteActionView::Render,
            NoteAction::Quit => NoteActionView::Quit,
            NoteAction::Commit { note } => NoteActionView::Commit { note: note@ },
        }
    }
}

/// What the note typed so far is after a key press, and what the key asks
/// for. The note is committed as typed; only the quit sequence is read as
/// a command.
pub open spec fn note_step(buffer: Seq<char>, key: Key) -> (Seq<char>, NoteActionView) {
    match key {
        Key::Char(c) => {
            let typed = buffer.push(c);
            if parsed_of(typed) is Quit {
                (typed, NoteActionView::Quit)
            } else {
                (typed, NoteActionView::Render)
            }
        },
        Key::Enter => (Seq::empty(), NoteActionView::Commit { note: buffer }),
        Key::Backspace => {
            if buffer.len() == 0 {
                (buffer, NoteActionView::Ignore)
            } else {
                (buffer.drop_last(), NoteActionView::Render)
            }
        },
        Key::Escape => (buffer, NoteActionView::Quit),
        Key::Other => (buffer, NoteActionView::Ignore),
    }
}

/// The interaction that takes the closing note: a buffer of typed text.
#[derive(Clone, Debug)]
pub struct NoteEditor {
    buffer: String,
}

impl View for NoteEditor {
    type V = Seq<char>;

    closed spec fn view(&self) -> Seq<char> {
        self.buffer@
    }
}

impl NoteEditor {
    /// An editor with an empty buffer.
    pub fn new() -> (r: Self)
        ensures
            r@ == Seq::<char>::empty(),
    {
        NoteEditor { buffer: String::new() }
    }

    /// The note typed so far.
    pub fn buffer(&self) -> (r: &String)
        ensures
            r@ == self@,
    {
        &self.buffer
    }

    /// Takes one key press: changes the buffer as the key asks and tells
    /// the caller what to do.
    pub fn step(&mut self, key: Key) -> (action: NoteAction)
        ensures
            (final(self)@, action@) == note_step(old(self)@, key),
    {
        match key {
            Key::Char(c) => {
                push_char(&mut self.buffer, c);
                match parse_buffer(self.buffer.as_str()) {
                    Parsed::Quit => NoteAction::Quit,
                    _ => NoteAction::Render,
                }
            },
            Key::Enter => {
                let mut note = String::new();
                std::mem::swap(&mut note, &mut self.buffer);
                NoteAction::Commit { note }
            },
            Key::Backspace => {
                match pop_char(&mut self.buffer) {
                    None => NoteAction::Ignore,
                    Some(_) => NoteAction::Render,
                }
            },
            Key::Escape => NoteAction::Quit,
            Key::Other => NoteAction::Ignore,
        }
    }
}

} // verus!
