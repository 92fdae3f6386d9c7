//! Where the flat files lie under the storage directory, and what the file
//! of a project holds. Paths are relative to the storage directory and use
//! `/` between their parts.

use vstd::prelude::*;
use crate::clock::{Moment, Reading};
use crate::numerals::{
    push_two_digits, push_year_padded, push_year_plain, two_digits, year_padded, year_plain,
};
use crate::record::txt;
use crate::text::{chars_of, ends_with, has_suffix, push_char, string_of};

verus! {

/// The directory of the daily logs, one directory per week below it.
pub const WEEKS_PATH: &'static str = "Weeks";

/// The directory of the project files.
pub const PROYECTS_PATH: &'static str = "Projects";

/// The name of the directory of the daily logs.
pub open spec fn weeks_dir() -> Seq<char> {
    seq!['W', 'e', 'e', 'k', 's']
}

/// The name of the directory of the project files.
pub open spec fn projects_dir() -> Seq<char> {
    seq!['P', 'r', 'o', 'j', 'e', 'c', 't', 's']
}

/// The name of a project's file: the project's name, with `.txt` behind it
/// unless it ends so already.
pub open spec fn project_file(name: Seq<char>) -> Seq<char> {
    if ends_with(name, txt()) {
        name
    } else {
        name + txt()
    }
}

/// The path of a project's file: `Projects/<name>.txt`.
pub open spec fn project_path(name: Seq<char>) -> Seq<char> {
    projects_dir() + seq!['/'] + project_file(name)
}

/// The path of a file that the directory of the projects lists:
/// `Projects/<file name>`, the name as the directory gives it.
pub open spec fn listed_path(file_name: Seq<char>) -> Seq<char> {
    projects_dir() + seq!['/'] + file_name
}

/// The path of the directory of a week: `Weeks/<year> W<week>`, the week in
/// two digits.
pub open spec fn week_path(at: Reading) -> Seq<char> {
    weeks_dir() + seq!['/'] + year_plain(at.year as int) + seq![' ', 'W'] + two_digits(
        at.week as int,
    )
}

/// The path of the log of a day: `<DD-MM-YYYY>.txt` in the directory of
/// its week.
pub open spec fn log_path(at: Reading) -> Seq<char> {
    week_path(at) + seq!['/'] + two_digits(at.day as int) + seq!['-'] + two_digits(
        at.month as int,
    ) + seq!['-'] + year_padded(at.year as int) + txt()
}

/// The path of the project file `file_name`, as the directory of the
/// projects lists it.
pub fn listed_project_path(file_name: &str) -> (r: String)
    ensures
        r@ == listed_path(file_name@),
{
    let mut out = String::new();
    out.append(PROYECTS_PATH);
    proof {
        reveal_strlit("Projects");
        assert(out@ =~= projects_dir());
    }
    push_char(&mut out, '/');
    out.append(file_name);
    out
}

/// The path of the file of the project `project_name`.
pub fn construct_project_path(project_name: &str) -> (r: String)
    ensures
        r@ == project_path(project_name@),
{
    let chars = chars_of(project_name);
    let suffix: [char; 4] = ['.', 't', 'x', 't'];
    assert(suffix@ =~= txt());
    let mut out = String::new();
    out.append(PROYECTS_PATH);
    proof {
        reveal_strlit("Projects");
        assert(out@ =~= projects_dir());
    }
    push_char(&mut out, '/');
    out.append(project_name);
    if !has_suffix(chars.as_slice(), suffix.as_slice()) {
        out.append(".txt");
        proof {
            reveal_strlit(".txt");
            assert(".txt"@ =~= txt());
        }
    }
    assert(out@ =~= project_path(project_name@));
    out
}

/// The path of the directory that holds the logs of the week of `now`.
pub fn week_folder(now: &Moment) -> (r: String)
    ensures
        r@ == week_path(now@),
{
    let at = now.reading();
    let mut out = String::new();
    out.append(WEEKS_PATH);
    proof {
        reveal_strlit("Weeks");
        assert(out@ =~= weeks_dir());
    }
    push_char(&mut out, '/');
    push_year_plain(&mut out, at.year);
    push_char(&mut out, ' ');
    push_char(&mut out, 'W');
    push_two_digits(&mut out, at.week);
    assert(out@ =~= week_path(now@));
    out
}

/// The path of the log of the day of `now`.
pub fn get_todays_filename(now: &Moment) -> (r: String)
    ensures
        r@ == log_path(now@),
{
    let at = now.reading();
    let mut out = week_folder(now);
    push_char(&mut out, '/');
    push_two_digits(&mut out, at.day);
    push_char(&mut out, '-');
    push_two_digits(&mut out, at.month);
    push_char(&mut out, '-');
    push_year_padded(&mut out, at.year);
    out.append(".txt");
    proof {
        reveal_strlit(".txt");
        assert(".txt"@ =~= txt());
        assert(out@ =~= log_path(now@));
    }
    out
}

/// The line that lists `task` in the file of its project.
pub open spec fn task_entry(task: Seq<char>) -> Seq<char> {
    task + seq!['\n']
}

/// The line to append to the file of a project for a new task.
pub fn task_line(task: &str) -> (r: String)
    ensures
        r@ == task_entry(task@),
{
    let mut out = task.to_owned();
    push_char(&mut out, '\n');
    out
}

/// How many characters stand before the first line feed of `s`, or in all
/// of `s` where it has none.
pub open spec fn line_end(s: Seq<char>) -> nat
    decreases s.len(),
{
    if s.len() == 0 || s[0] == '\n' {
        0
    } else {
        1 + line_end(s.drop_first())
    }
}

/// `line` without the carriage return that it ends with, if it ends with one.
pub open spec fn without_cr(line: Seq<char>) -> Seq<char> {
    if line.len() > 0 && line.last() == '\r' {
        line.drop_last()
    } else {
        line
    }
}

/// The lines of a text. A line ends with a line feed, or with a carriage
/// return and a line feed, neither of which belongs to the line. What
/// stands behind the last line feed is a line too, unless it is empty.
pub open spec fn lines_of(s: Seq<char>) -> Seq<Seq<char>>
    decreases s.len(),
{
    let k = line_end(s);
    if s.len() == 0 {
        Seq::empty()
    } else if k >= s.len() {
        seq![s]
    } else {
        seq![without_cr(s.take(k as int))] + lines_of(s.skip(k as int + 1))
    }
}

/// Where no line feed stands among the first `k` characters of `s`, the
/// first line of `s` has at least `k` characters; it has exactly `k` where
/// a line feed follows them or `s` ends there.
proof fn lemma_line_end_is(s: Seq<char>, k: int)
    requires
        0 <= k <= s.len(),
        forall|t: int| 0 <= t < k ==> s[t] != '\n',
        k < s.len() ==> s[k] == '\n',
    ensures
        line_end(s) == k,
    decreases s.len(),
{
    if k > 0 {
        let rest = s.drop_first();
        assert forall|t: int| 0 <= t < k - 1 implies rest[t] != '\n' by {
            assert(rest[t] == s[t + 1]);
        }
        lemma_line_end_is(rest, k - 1);
    }
}

/// The task labels that the content of a project's file lists, line by line
/// and in the order of the file.
pub fn parse_tasks(content: &str) -> (tasks: Vec<String>)
    ensures
        tasks.deep_view() == lines_of(content@),
{
    let chars = chars_of(content);
    let n = chars.len();
    let mut tasks: Vec<String> = Vec::new();
    let mut start: usize = 0;
    let mut i: usize = 0;
    assert(chars@.skip(0) =~= chars@);
    assert(tasks.deep_view() + lines_of(chars@) =~= lines_of(chars@));
    while i < n
        invariant
            start <= i <= n,
            n == chars@.len(),
            forall|t: int| start <= t < i ==> chars@[t] != '\n',
            tasks.deep_view() + lines_of(chars@.skip(start as int)) == lines_of(chars@),
        decreases n - i,
    {
        if chars[i] == '\n' {
            let end: usize = if i > start && chars[i - 1] == '\r' { i - 1 } else { i };
            let line = string_of(chars.as_slice(), start, end);
            proof {
                let rest = chars@.skip(start as int);
                assert forall|t: int| 0 <= t < i - start implies rest[t] != '\n' by {
                    assert(rest[t] == chars@[t + start]);
                }
                lemma_line_end_is(rest, i - start);
                assert(rest.skip(i - start + 1) =~= chars@.skip(i + 1));
                assert(line@ =~= without_cr(rest.take(i - start)));
                let before = tasks.deep_view();
                assert(before.push(line@) + lines_of(chars@.skip(i + 1)) =~= before + lines_of(
                    rest,
                ));
            }
            let ghost before = tasks.deep_view();
            tasks.push(line);
            assert(tasks.deep_view() =~= before.push(line@));
            start = i + 1;
        }
        i = i + 1;
    }
    if start < n {
        let line = string_of(chars.as_slice(), start, n);
        proof {
            let rest = chars@.skip(start as int);
            assert forall|t: int| 0 <= t < n - start implies rest[t] != '\n' by {
                assert(rest[t] == chars@[t + start]);
            }
            lemma_line_end_is(rest, n - start);
            assert(line@ =~= rest);
        }
        let ghost before = tasks.deep_view();
        tasks.push(line);
        assert(tasks.deep_view() =~= before.push(line@));
        assert(tasks.deep_view() =~= lines_of(chars@));
    } else {
        assert(chars@.skip(start as int).len() == 0);
        assert(tasks.deep_view() =~= lines_of(chars@));
    }
    tasks
}

} // verus!
