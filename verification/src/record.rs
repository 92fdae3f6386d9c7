//! The text of a log entry: `HH:MM Project_Task (` when it is opened, and
//! `Note) HH:MM` with a line feed when it is closed.

use vstd::prelude::*;
use crate::clock::{Moment, Reading};
use crate::numerals::{push_two_digits, two_digits};
use crate::text::{chars_of, ends_with, has_suffix, push_char};

verus! {

/// The time of day as the log writes it: `HH:MM`, on the 24-hour clock.
pub open spec fn clock_text(at: Reading) -> Seq<char> {
    two_digits(at.hour as int) + seq![':'] + two_digits(at.minute as int)
}

/// `s` with a hyphen in place of each space.
pub open spec fn hyphenated(s: Seq<char>) -> Seq<char> {
    s.map_values(|c: char| if c == ' ' { '-' } else { c })
}

/// The ending of the name of a project's file.
pub open spec fn txt() -> Seq<char> {
    seq!['.', 't', 'x', 't']
}

/// `s` without the ending `.txt`, if it has it.
pub open spec fn without_txt(s: Seq<char>) -> Seq<char> {
    if ends_with(s, txt()) {
        s.take(s.len() - 4)
    } else {
        s
    }
}

/// A project's name as the log writes it: without the ending `.txt`, and
/// with hyphens for spaces.
pub open spec fn project_label(name: Seq<char>) -> Seq<char> {
    hyphenated(without_txt(name))
}

/// A task's name as the log writes it: with hyphens for spaces.
pub open spec fn task_label(name: Seq<char>) -> Seq<char> {
    hyphenated(name)
}

/// The record of an entry that has started and not ended. It has no line
/// feed at its end.
pub open spec fn open_record(start: Reading, project: Seq<char>, task: Seq<char>) -> Seq<char> {
    clock_text(start) + seq![' '] + project_label(project) + seq!['_'] + task_label(task) + seq![
        ' ',
        '(',
    ]
}

/// What is written behind an open record to close it.
pub open spec fn closing_write(note: Seq<char>, end: Reading) -> Seq<char> {
    note + seq![')', ' '] + clock_text(end) + seq!['\n']
}

/// The record of an entry that has ended:
/// `HH:MM Project_Task (Note) HH:MM` and a line feed.
pub open spec fn closed_record(
    start: Reading,
    project: Seq<char>,
    task: Seq<char>,
    note: Seq<char>,
    end: Reading,
) -> Seq<char> {
    clock_text(start) + seq![' '] + project_label(project) + seq!['_'] + task_label(task) + seq![
        ' ',
        '(',
    ] + note + seq![')', ' '] + clock_text(end) + seq!['\n']
}

/// Appends the time of day of `at`.
pub(crate) fn push_clock(out: &mut String, at: &Moment)
    ensures
        final(out)@ == old(out)@ + clock_text(at@),
{
    let r = at.reading();
    push_two_digits(out, r.hour);
    push_char(out, ':');
    push_two_digits(out, r.minute);
    assert(out@ =~= old(out)@ + clock_text(at@));
}

/// Appends the first `to` characters of `chars`, with a hyphen in place of
/// each space.
pub(crate) fn push_hyphenated(out: &mut String, chars: &[char], to: usize)
    requires
        to <= chars@.len(),
    ensures
        final(out)@ == old(out)@ + hyphenated(chars@.take(to as int)),
{
    let mut i: usize = 0;
    while i < to
        invariant
            i <= to <= chars@.len(),
            out@ == old(out)@ + hyphenated(chars@.take(i as int)),
        decreases to - i,
    {
        let c = chars[i];
        push_char(out, if c == ' ' { '-' } else { c });
        assert(hyphenated(chars@.take(i + 1)) =~= hyphenated(chars@.take(i as int)).push(
            if c == ' ' { '-' } else { c },
        ));
        i = i + 1;
    }
}

/// Appends a project's name as the log writes it.
pub(crate) fn push_project_label(out: &mut String, name: &str)
    ensures
        final(out)@ == old(out)@ + project_label(name@),
{
    let chars = chars_of(name);
    let suffix: [char; 4] = ['.', 't', 'x', 't'];
    assert(suffix@ =~= txt());
    let kept = if has_suffix(chars.as_slice(), suffix.as_slice()) {
        chars.len() - 4
    } else {
        chars.len()
    };
    assert(chars@.take(kept as int) =~= without_txt(name@));
    push_hyphenated(out, chars.as_slice(), kept);
}

/// Appends a task's name as the log writes it.
pub(crate) fn push_task_label(out: &mut String, name: &str)
    ensures
        final(out)@ == old(out)@ + task_label(name@),
{
    let chars = chars_of(name);
    assert(chars@.take(chars@.len() as int) =~= name@);
    push_hyphenated(out, chars.as_slice(), chars.len());
}

/// The text that opens an entry for `task` of `project`, started at `start`.
pub fn opening_text(start: &Moment, project: &str, task: &str) -> (r: String)
    ensures
        r@ == open_record(start@, project@, task@),
{
    let mut out = String::new();
    push_clock(&mut out, start);
    push_char(&mut out, ' ');
    push_project_label(&mut out, project);
    push_char(&mut out, '_');
    push_task_label(&mut out, task);
    push_char(&mut out, ' ');
    push_char(&mut out, '(');
    assert(out@ =~= open_record(start@, project@, task@));
    out
}

/// The text that closes the open entry with `note`, ended at `end`.
pub fn closing_text(note: &str, end: &Moment) -> (r: String)
    ensures
        r@ == closing_write(note@, end@),
{
    let mut out = note.to_owned();
    push_char(&mut out, ')');
    push_char(&mut out, ' ');
    push_clock(&mut out, end);
    push_char(&mut out, '\n');
    assert(out@ =~= closing_write(note@, end@));
    out
}

/// Whether a text holds no line feed.
pub open spec fn on_one_line(s: Seq<char>) -> bool {
    forall|t: int| 0 <= t < s.len() ==> s[t] != '\n'
}

/// An open record holds no line feed, neither at its end nor before it,
/// where the names of the project and of the task hold none. At its end it
/// holds none whatever the names are: it ends with a bracket.
pub proof fn lemma_open_record_on_one_line(start: Reading, project: Seq<char>, task: Seq<char>)
    requires
        start.valid(),
    ensures
        open_record(start, project, task).last() == '(',
        on_one_line(project) && on_one_line(task) ==> on_one_line(
            open_record(start, project, task),
        ),
{
    if on_one_line(project) && on_one_line(task) {
        let clock = clock_text(start);
        let p = project_label(project);
        let t = task_label(task);
        assert(on_one_line(clock));
        assert(on_one_line(p)) by {
            assert forall|i: int| 0 <= i < p.len() implies p[i] != '\n' by {
                assert(without_txt(project)[i] == project[i]);
            }
        }
        assert(on_one_line(t));
        let record = open_record(start, project, task);
        assert forall|i: int| 0 <= i < record.len() implies record[i] != '\n' by {
            let c = clock.len() as int;
            if i < c {
                assert(record[i] == clock[i]);
            } else if i == c {
            } else if i < c + 1 + p.len() {
                assert(record[i] == p[i - c - 1]);
            } else if i == c + 1 + p.len() {
            } else if i < c + 2 + p.len() + t.len() {
                assert(record[i] == t[i - c - 2 - p.len()]);
            } else {
            }
        }
    }
}

/// An open record followed by a closing write reads as the closed record
/// of the same entry: character for character, nothing added, nothing lost.
pub proof fn lemma_round_trip(
    start: Reading,
    project: Seq<char>,
    task: Seq<char>,
    note: Seq<char>,
    end: Reading,
)
    ensures
        open_record(start, project, task) + closing_write(note, end) == closed_record(
            start,
            project,
            task,
            note,
            end,
        ),
{
    assert(open_record(start, project, task) + closing_write(note, end) =~= closed_record(
        start,
        project,
        task,
        note,
        end,
    ));
}

} // verus!
