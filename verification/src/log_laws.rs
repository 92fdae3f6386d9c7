//! What holds of every log that was written record by record: its text is
//! a run of closed records with at most one open record behind them, and
//! its last byte tells which.

use vstd::prelude::*;
use vstd::utf8::{char_u32_cast, encode_scalar, encode_utf8};
use crate::clock::Reading;
use crate::record::{closed_record, closing_write, lemma_round_trip, open_record};
use crate::session::{state_of_log, SessionState, LINE_FEED};

verus! {

/// An entry that has started: when, and on which task of which project.
pub struct OpenEntry {
    pub start: Reading,
    pub project: Seq<char>,
    pub task: Seq<char>,
}

/// An entry that has ended: how it started, the note that closed it, and when.
pub struct ClosedEntry {
    pub opened: OpenEntry,
    pub note: Seq<char>,
    pub end: Reading,
}

/// The record of an open entry.
pub open spec fn open_text(e: OpenEntry) -> Seq<char> {
    open_record(e.start, e.project, e.task)
}

/// The record of a closed entry.
pub open spec fn closed_text(e: ClosedEntry) -> Seq<char> {
    closed_record(e.opened.start, e.opened.project, e.opened.task, e.note, e.end)
}

/// The records of the closed entries, one behind the other.
pub open spec fn closed_run(entries: Seq<ClosedEntry>) -> Seq<char>
    decreases entries.len(),
{
    if entries.len() == 0 {
        Seq::empty()
    } else {
        closed_run(entries.drop_last()) + closed_text(entries.last())
    }
}

/// The text of a log: the closed entries in the order in which they were
/// written, and the open entry behind them, if there is one.
pub open spec fn log_text(closed: Seq<ClosedEntry>, open: Option<OpenEntry>) -> Seq<char> {
    match open {
        None => closed_run(closed),
        Some(e) => closed_run(closed) + open_text(e),
    }
}

/// The bytes that a file holds for a text.
pub open spec fn saved(text: Seq<char>) -> Seq<u8> {
    encode_utf8(text)
}

proof fn lemma_one_byte(v: u32)
    by (bit_vector)
    requires
        v <= 0x7F,
    ensures
        (v & 0x7F) as u8 == v,
{
}

proof fn lemma_continuation_byte(v: u32)
    by (bit_vector)
    ensures
        0x80u8 | ((v & 0x3F) as u8) >= 0x80u8,
{
}

/// The last byte that is saved for a character: the character itself where
/// it is an ASCII character, and a byte that is none otherwise.
proof fn lemma_scalar_last(c: char)
    ensures
        encode_scalar(c as u32).len() > 0,
        c as u32 <= 0x7F ==> encode_scalar(c as u32).last() == c as u32,
        c as u32 > 0x7F ==> encode_scalar(c as u32).last() >= 0x80,
{
    if c as u32 <= 0x7F {
        lemma_one_byte(c as u32);
    }
    lemma_continuation_byte(c as u32);
}

/// Saving two texts one behind the other saves the text that they make
/// together.
pub proof fn lemma_saved_append(a: Seq<char>, b: Seq<char>)
    ensures
        saved(a + b) == saved(a) + saved(b),
    decreases a.len(),
{
    if a.len() == 0 {
        assert(a + b =~= b);
        assert(saved(a) + saved(b) =~= saved(b));
    } else {
        lemma_saved_append(a.drop_first(), b);
        assert((a + b).drop_first() =~= a.drop_first() + b);
        assert(saved(a + b) =~= saved(a) + saved(b));
    }
}

/// A text that is not empty is saved as at least one byte, and the last
/// byte saved is the last character where that is an ASCII character, and
/// no ASCII character otherwise.
pub proof fn lemma_saved_last(text: Seq<char>)
    requires
        text.len() > 0,
    ensures
        saved(text).len() > 0,
        text.last() as u32 <= 0x7F ==> saved(text).last() == text.last() as u32,
        text.last() as u32 > 0x7F ==> saved(text).last() >= 0x80,
    decreases text.len(),
{
    lemma_scalar_last(text[0]);
    let rest = text.drop_first();
    if rest.len() == 0 {
        assert(encode_utf8(rest) =~= Seq::<u8>::empty());
        assert(saved(text) =~= encode_scalar(text[0] as u32));
    } else {
        lemma_saved_last(rest);
        assert(rest.last() == text.last());
    }
}

/// The state read from a saved text: nothing is running when the text is
/// empty or ends with a line feed, and an entry is open when it ends with
/// anything else, such as the bracket that an open record ends with.
pub proof fn lemma_state_of_saved(text: Seq<char>)
    ensures
        text.len() == 0 ==> state_of_log(saved(text)) == SessionState::NoOpenEntry,
        text.len() > 0 && text.last() == '\n' ==> state_of_log(saved(text))
            == SessionState::NoOpenEntry,
        text.len() > 0 && text.last() != '\n' ==> state_of_log(saved(text))
            == SessionState::EntryOpen,
        text.len() > 0 && text.last() == '(' ==> state_of_log(saved(text))
            == SessionState::EntryOpen,
{
    if text.len() > 0 {
        lemma_saved_last(text);
        let c = text.last();
        if c as u32 == 10 {
            char_u32_cast(c, 10u32);
            char_u32_cast('\n', 10u32);
        }
    }
}

/// The state read from the bytes of a log, whatever they are: nothing is
/// running when there are none or the last is a line feed; an entry is open
/// when the last is any other byte.
pub proof fn lemma_state_inference(log: Seq<u8>)
    ensures
        log.len() == 0 ==> state_of_log(log) == SessionState::NoOpenEntry,
        log.len() > 0 && log.last() == LINE_FEED ==> state_of_log(log) == SessionState::NoOpenEntry,
        log.len() > 0 && log.last() != LINE_FEED ==> state_of_log(log) == SessionState::EntryOpen,
        log.len() > 0 && log.last() == 0x28 ==> state_of_log(log) == SessionState::EntryOpen,
{
}

/// The closed records of a log, where there are any, end with a line feed.
proof fn lemma_closed_run_ends(entries: Seq<ClosedEntry>)
    ensures
        entries.len() > 0 ==> closed_run(entries).len() > 0 && closed_run(entries).last() == '\n',
        entries.len() == 0 ==> closed_run(entries).len() == 0,
{
}

/// The last byte of a log tells whether an entry is open: for every log
/// made of closed records and at most one open record behind them, the
/// state read from its bytes is `EntryOpen` exactly when it holds an open
/// record.
pub proof fn lemma_log_state(closed: Seq<ClosedEntry>, open: Option<OpenEntry>)
    ensures
        state_of_log(saved(log_text(closed, open))) == (if open is Some {
            SessionState::EntryOpen
        } else {
            SessionState::NoOpenEntry
        }),
{
    lemma_closed_run_ends(closed);
    match open {
        None => {},
        Some(e) => {
            assert(log_text(closed, open).last() == '(');
        },
    }
    lemma_state_of_saved(log_text(closed, open));
}

/// Writing an open record behind a log without one gives the log with that
/// entry open.
pub proof fn lemma_opening_extends_log(closed: Seq<ClosedEntry>, e: OpenEntry)
    ensures
        log_text(closed, None) + open_text(e) == log_text(closed, Some(e)),
        saved(log_text(closed, None)) + saved(open_text(e)) == saved(log_text(closed, Some(e))),
        state_of_log(saved(log_text(closed, None)) + saved(open_text(e)))
            == SessionState::EntryOpen,
{
    lemma_saved_append(log_text(closed, None), open_text(e));
    lemma_log_state(closed, Some(e));
}

/// Writing the closing note behind a log with an open entry gives the log
/// with that entry closed and none open.
pub proof fn lemma_closing_extends_log(
    closed: Seq<ClosedEntry>,
    e: OpenEntry,
    note: Seq<char>,
    end: Reading,
)
    ensures
        log_text(closed, Some(e)) + closing_write(note, end) == log_text(
            closed.push(ClosedEntry { opened: e, note, end }),
            None,
        ),
        saved(log_text(closed, Some(e))) + saved(closing_write(note, end)) == saved(
            log_text(closed.push(ClosedEntry { opened: e, note, end }), None),
        ),
        state_of_log(saved(log_text(closed, Some(e))) + saved(closing_write(note, end)))
            == SessionState::NoOpenEntry,
{
    let done = ClosedEntry { opened: e, note, end };
    let after = closed.push(done);
    lemma_round_trip(e.start, e.project, e.task, note, end);
    assert(after.drop_last() =~= closed);
    assert(log_text(closed, Some(e)) + closing_write(note, end) =~= closed_run(closed) + (
        open_text(e) + closing_write(note, end)));
    lemma_saved_append(log_text(closed, Some(e)), closing_write(note, end));
    lemma_log_state(after, None);
}

/// The bytes of an open record and of the closing write behind it are the
/// bytes of the closed record, no more and no fewer.
pub proof fn lemma_round_trip_saved(
    start: Reading,
    project: Seq<char>,
    task: Seq<char>,
    note: Seq<char>,
    end: Reading,
)
    ensures
        saved(open_record(start, project, task)) + saved(closing_write(note, end)) == saved(
            closed_record(start, project, task, note, end),
        ),
{
    lemma_round_trip(start, project, task, note, end);
    lemma_saved_append(open_record(start, project, task), closing_write(note, end));
}

} // verus!
