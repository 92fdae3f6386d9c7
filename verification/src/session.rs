//! Whether the log of the day holds a running entry, told from its last
//! byte alone, and which interaction follows.

use vstd::prelude::*;
use crate::closing_note::NoteEditor;
use crate::selector::{ContextView, Selector, SelectorView};

verus! {

/// The line feed that ends every closed record.
pub const LINE_FEED: u8 = 10;

/// What the log of the day says of the session.
#[derive(Clone, Copy, Debug, PartialEq, Eq, Structural)]
pub enum SessionState {
    /// No entry is running: the log is missing or empty, or its last
    /// record is closed.
    NoOpenEntry,
    /// An entry was opened and has not been closed.
    EntryOpen,
}

/// The last byte of the log, or `None` for an empty log.
pub open spec fn tail_of(log: Seq<u8>) -> Option<u8> {
    if log.len() == 0 {
        None
    } else {
        Some(log.last())
    }
}

/// The state that a last byte shows: a line feed, or no byte at all, means
/// that nothing is running; any other byte means that an entry is open.
pub open spec fn state_of_tail(tail: Option<u8>) -> SessionState {
    match tail {
        None => SessionState::NoOpenEntry,
        Some(b) => if b == LINE_FEED {
            SessionState::NoOpenEntry
        } else {
            SessionState::EntryOpen
        },
    }
}

/// The state that the content of the log shows.
pub open spec fn state_of_log(log: Seq<u8>) -> SessionState {
    state_of_tail(tail_of(log))
}

/// The state of the session, given the last byte of the log of the day;
/// `None` stands for a log that is missing or empty.
pub fn infer_state(tail: Option<u8>) -> (state: SessionState)
    ensures
        state == state_of_tail(tail),
{
    match tail {
        None => SessionState::NoOpenEntry,
        Some(b) => if b == LINE_FEED {
            SessionState::NoOpenEntry
        } else {
            SessionState::EntryOpen
        },
    }
}

/// The state of the session, given the whole content of the log of the day.
pub fn infer_state_of_log(log: &[u8]) -> (state: SessionState)
    ensures
        state == state_of_log(log@),
        log@.len() == 0 ==> state == SessionState::NoOpenEntry,
        log@.len() > 0 && log@.last() == LINE_FEED ==> state == SessionState::NoOpenEntry,
        log@.len() > 0 && log@.last() != LINE_FEED ==> state == SessionState::EntryOpen,
{
    let n = log.len();
    if n == 0 {
        infer_state(None)
    } else {
        infer_state(Some(log[n - 1]))
    }
}

/// The interaction that a session begins with.
#[derive(Clone, Debug)]
pub enum Interaction {
    /// Nothing is running: choose a project and a task, and open an entry.
    NewEntry(Selector),
    /// An entry is running: take the note that closes it.
    CloseEntry(NoteEditor),
}

/// The model of [`Interaction`].
pub enum InteractionView {
    NewEntry(SelectorView),
    CloseEntry(Seq<char>),
}

impl View for Interaction {
    type V = InteractionView;

    open spec fn view(&self) -> InteractionView {
        match self {
            Interaction::NewEntry(s) => InteractionView::NewEntry(s@),
            Interaction::CloseEntry(e) => InteractionView::CloseEntry(e@),
        }
    }
}

/// The interaction that a state calls for: where no entry is open, the
/// choice among `projects`, with nothing typed and no project chosen; where
/// one is open, the closing note, with nothing typed.
pub open spec fn interaction_for(state: SessionState, projects: Seq<Seq<char>>) -> InteractionView {
    match state {
        SessionState::NoOpenEntry => InteractionView::NewEntry(
            SelectorView { buffer: Seq::empty(), projects, context: ContextView::Idle },
        ),
        SessionState::EntryOpen => InteractionView::CloseEntry(Seq::empty()),
    }
}

/// Begins the session that the last byte of the log calls for; `None`
/// stands for a log that is missing or empty.
pub fn begin_session(tail: Option<u8>, projects: Vec<String>) -> (r: Interaction)
    ensures
        r@ == interaction_for(state_of_tail(tail), projects.deep_view()),
{
    match infer_state(tail) {
        SessionState::NoOpenEntry => Interaction::NewEntry(Selector::new(projects)),
        SessionState::EntryOpen => Interaction::CloseEntry(NoteEditor::new()),
    }
}

} // verus!
