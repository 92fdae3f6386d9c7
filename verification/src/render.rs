//! What the terminal shows of the text typed: the input line, and where the
//! cursor stands on it.

use vstd::prelude::*;

verus! {

/// The input line: a prompt and the text typed so far.
pub open spec fn input_line_of(buffer: Seq<char>) -> Seq<char> {
    seq!['>', ' '] + buffer
}

/// The column just past the last character of the input line, or the last
/// column that there is where the line is longer.
pub open spec fn cursor_column_of(buffer: Seq<char>) -> int {
    if 2 + buffer.len() <= u16::MAX {
        2 + buffer.len() as int
    } else {
        u16::MAX as int
    }
}

/// The input line to draw for `buffer`.
pub fn input_line(buffer: &str) -> (line: String)
    ensures
        line@ == input_line_of(buffer@),
{
    let mut line = String::new();
    line.append("> ");
    line.append(buffer);
    proof {
        reveal_strlit("> ");
        assert(line@ =~= input_line_of(buffer@));
    }
    line
}

/// The column at which the cursor stands behind `buffer` on the input line.
pub fn cursor_column(buffer: &str) -> (column: u16)
    ensures
        column == cursor_column_of(buffer@),
{
    let typed = buffer.unicode_len();
    if typed <= 0xfffd {
        (typed + 2) as u16
    } else {
        u16::MAX
    }
}

} // verus!
