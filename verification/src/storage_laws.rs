//! What holds of every project file that was written task by task: reading
//! it gives the tasks back, in the order in which they were written.

use vstd::prelude::*;
use crate::storage::{line_end, lines_of, task_entry, without_cr};
use crate::text::{kept_from, lemma_trimmed, space_flags, trimmed, white_space};

verus! {

/// The content of the file of a project to which `tasks` were added one
/// after the other.
pub open spec fn project_text(tasks: Seq<Seq<char>>) -> Seq<char>
    decreases tasks.len(),
{
    if tasks.len() == 0 {
        Seq::empty()
    } else {
        project_text(tasks.drop_last()) + task_entry(tasks.last())
    }
}

/// Whether a task label can stand on a line of its own: it holds no line
/// feed and does not end with a carriage return.
pub open spec fn fits_a_line(task: Seq<char>) -> bool {
    &&& forall|t: int| 0 <= t < task.len() ==> task[t] != '\n'
    &&& task.len() > 0 ==> task.last() != '\r'
}

/// What is typed without a line feed and then trimmed fits a line: a task
/// committed from such a buffer is read back from the file of its project
/// as it was committed.
pub proof fn lemma_trimmed_fits_a_line(s: Seq<char>)
    requires
        forall|t: int| 0 <= t < s.len() ==> s[t] != '\n',
    ensures
        fits_a_line(trimmed(s)),
{
    lemma_trimmed(s);
    let kept = trimmed(s);
    let from = kept_from(space_flags(s));
    assert forall|t: int| 0 <= t < kept.len() implies kept[t] != '\n' by {
        assert(kept[t] == s[from + t]);
    }
    if kept.len() > 0 {
        assert(white_space('\r'));
    }
}

/// Whether a text is empty or ends with a line feed.
pub open spec fn ends_lines(s: Seq<char>) -> bool {
    s.len() == 0 || s.last() == '\n'
}

/// Before the end of the first line stands no line feed; at it stands one,
/// unless the text ends there.
pub proof fn lemma_line_end(s: Seq<char>)
    ensures
        line_end(s) <= s.len(),
        forall|t: int| 0 <= t < line_end(s) ==> s[t] != '\n',
        line_end(s) < s.len() ==> s[line_end(s) as int] == '\n',
    decreases s.len(),
{
    if !(s.len() == 0 || s[0] == '\n') {
        let rest = s.drop_first();
        lemma_line_end(rest);
        assert forall|t: int| 0 <= t < line_end(s) implies s[t] != '\n' by {
            if t > 0 {
                assert(s[t] == rest[t - 1]);
            }
        }
        if line_end(s) < s.len() {
            assert(s[line_end(s) as int] == rest[line_end(rest) as int]);
        }
    }
}

/// The first line of a text ends where the first line feed stands, whatever
/// follows the text.
proof fn lemma_line_end_of_longer(a: Seq<char>, b: Seq<char>)
    requires
        line_end(a) < a.len(),
    ensures
        line_end(a + b) == line_end(a),
    decreases a.len(),
{
    if a[0] != '\n' {
        assert((a + b).drop_first() =~= a.drop_first() + b);
        lemma_line_end_of_longer(a.drop_first(), b);
    }
}

/// A label that fits a line is all of its line.
proof fn lemma_line_end_of_entry(task: Seq<char>)
    requires
        fits_a_line(task),
    ensures
        line_end(task_entry(task)) == task.len(),
    decreases task.len(),
{
    if task.len() > 0 {
        let rest = task.drop_first();
        assert(task_entry(task).drop_first() =~= task_entry(rest));
        assert forall|t: int| 0 <= t < rest.len() implies rest[t] != '\n' by {
            assert(rest[t] == task[t + 1]);
        }
        lemma_line_end_of_entry(rest);
    }
}

/// One more line behind a text of whole lines is one more line read.
pub proof fn lemma_lines_of_appended(a: Seq<char>, task: Seq<char>)
    requires
        ends_lines(a),
        fits_a_line(task),
    ensures
        lines_of(a + task_entry(task)) == lines_of(a).push(task),
    decreases a.len(),
{
    let entry = task_entry(task);
    if a.len() == 0 {
        assert(a + entry =~= entry);
        lemma_line_end_of_entry(task);
        assert(entry.take(task.len() as int) =~= task);
        assert(entry.skip(task.len() as int + 1) =~= Seq::<char>::empty());
        assert(lines_of(Seq::<char>::empty()) =~= Seq::<Seq<char>>::empty());
        assert(without_cr(task) == task);
        assert(lines_of(entry) =~= seq![task]);
        assert(lines_of(a).push(task) =~= seq![task]);
    } else {
        lemma_line_end(a);
        let k = line_end(a) as int;
        assert(k < a.len()) by {
            if k >= a.len() {
                assert(a[a.len() - 1] != '\n');
            }
        }
        lemma_line_end_of_longer(a, entry);
        let rest = a.skip(k + 1);
        assert((a + entry).take(k) =~= a.take(k));
        assert((a + entry).skip(k + 1) =~= rest + entry);
        assert(ends_lines(rest)) by {
            if rest.len() > 0 {
                assert(rest.last() == a.last());
            }
        }
        lemma_lines_of_appended(rest, task);
        assert(lines_of(a + entry) =~= seq![without_cr(a.take(k))] + lines_of(rest).push(task));
        assert(lines_of(a + entry) =~= lines_of(a).push(task));
    }
}

/// The content written for a run of tasks is empty or ends with a line feed.
proof fn lemma_project_text_ends_lines(tasks: Seq<Seq<char>>)
    ensures
        ends_lines(project_text(tasks)),
{
}

/// Reading the file of a project gives the tasks that were written to it,
/// each as often and in the order as written, provided that every label
/// fits a line.
pub proof fn lemma_project_file_round_trip(tasks: Seq<Seq<char>>)
    requires
        forall|i: int| 0 <= i < tasks.len() ==> fits_a_line(#[trigger] tasks[i]),
    ensures
        lines_of(project_text(tasks)) == tasks,
    decreases tasks.len(),
{
    if tasks.len() == 0 {
        assert(lines_of(project_text(tasks)) =~= tasks);
    } else {
        let fewer = tasks.drop_last();
        assert forall|i: int| 0 <= i < fewer.len() implies fits_a_line(#[trigger] fewer[i]) by {
            assert(fewer[i] == tasks[i]);
        }
        lemma_project_file_round_trip(fewer);
        lemma_project_text_ends_lines(fewer);
        lemma_lines_of_appended(project_text(fewer), tasks.last());
        assert(fewer.push(tasks.last()) =~= tasks);
    }
}

} // verus!
