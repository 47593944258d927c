//! The record of one found annotation: the file it came from, its row,
//! the column where the priority marker begins, and the raw line, together
//! with its rendering for the report.

use vstd::prelude::*;

use crate::grammar::first_marker;
use crate::grammar::is_todo_line;
use crate::grammar::lemma_first_marker_sound;
use crate::grammar::lemma_todo_line_has_marker;
use crate::grammar::line_views;
use crate::grammar::find_all_todo_lines;
use crate::grammar::find_marker;
use crate::grammar::todo_rows;

verus! {

/// One found annotation.  `col` is the character offset within `message`
/// at which the priority marker begins; `message` is the raw matched line,
/// unmodified.
pub struct Todo {
    pub message: String,
    pub file: String,
    pub line: usize,
    pub col: usize,
}

/// The mathematical value of a record: its strings as character sequences,
/// its numbers as unbounded integers.
pub struct TodoModel {
    pub message: Seq<char>,
    pub file: Seq<char>,
    pub line: int,
    pub col: int,
}

impl View for Todo {
    type V = TodoModel;

    open spec fn view(&self) -> TodoModel {
        TodoModel {
            message: self.message@,
            file: self.file@,
            line: self.line as int,
            col: self.col as int,
        }
    }
}

impl Clone for Todo {
    fn clone(&self) -> (other: Self)
        ensures
            other == *self,
    {
        Todo {
            message: self.message.clone(),
            file: self.file.clone(),
            line: self.line,
            col: self.col,
        }
    }
}

/// The models of a sequence of records.
pub open spec fn models_of(todos: Seq<Todo>) -> Seq<TodoModel> {
    todos.map_values(|t: Todo| t@)
}

/// A record is well formed when its message really holds a marker and
/// `col` is where the leftmost one begins.
pub open spec fn todo_wf(m: TodoModel) -> bool {
    &&& first_marker(m.message, 0) >= 0
    &&& m.col == first_marker(m.message, 0)
}

/// The record model for one classified row of a file.
pub open spec fn model_of_row(path: Seq<char>, lines: Seq<Seq<char>>, row: usize) -> TodoModel {
    TodoModel {
        message: lines[row as int],
        file: path,
        line: row as int,
        col: first_marker(lines[row as int], 0),
    }
}

/// The records of one file: one per classified row, in row order.
pub open spec fn file_models(path: Seq<char>, lines: Seq<Seq<char>>) -> Seq<TodoModel> {
    todo_rows(lines).map_values(|row: usize| model_of_row(path, lines, row))
}

/// Every model produced for a file is well formed.
pub proof fn lemma_file_models_wf(path: Seq<char>, lines: Seq<Seq<char>>)
    requires
        lines.len() <= usize::MAX,
    ensures
        forall|a: int|
            0 <= a < file_models(path, lines).len() ==> todo_wf(
                #[trigger] file_models(path, lines)[a],
            ),
{
    crate::grammar::lemma_todo_rows_upto(lines, lines.len() as int, todo_rows(lines));
    assert forall|a: int| 0 <= a < file_models(path, lines).len() implies todo_wf(
        #[trigger] file_models(path, lines)[a],
    ) by {
        let row = todo_rows(lines)[a];
        assert(is_todo_line(lines[row as int]));
        lemma_todo_line_has_marker(lines[row as int]);
    }
}

/// Builds one record per classified line of a single file, in row order.
#[verifier::loop_isolation(false)]
pub fn todos_in_file(path: &str, lines: &Vec<String>) -> (todos: Vec<Todo>)
    ensures
        models_of(todos@) == file_models(path@, line_views(lines@)),
{
    let rows = find_all_todo_lines(lines);
    let mut todos: Vec<Todo> = Vec::new();
    let mut k: usize = 0;
    while k < rows.len()
        invariant
            k <= rows@.len(),
            models_of(todos@) == file_models(path@, line_views(lines@)).take(k as int),
        decreases rows@.len() - k,
    {
        let row = rows[k];
        let line: &String = &lines[row];
        let col = match find_marker(line.as_str()) {
            Some(c) => c,
            None => {
                proof {
                    lemma_todo_line_has_marker(line@);
                }
                0
            },
        };
        let record = Todo {
            message: line.clone(),
            file: String::from_str(path),
            line: row,
            col,
        };
        proof {
            lemma_first_marker_sound(line@, 0);
            assert(record@ == model_of_row(path@, line_views(lines@), row));
            assert(models_of(todos@.push(record)) =~= file_models(
                path@,
                line_views(lines@),
            ).take(k + 1));
        }
        todos.push(record);
        k = k + 1;
    }
    proof {
        assert(file_models(path@, line_views(lines@)).take(rows@.len() as int) =~= file_models(
            path@,
            line_views(lines@),
        ));
    }
    todos
}

/// The decimal digit character for `d`.
pub open spec fn digit_char(d: int) -> char {
    if d == 0 {
        '0'
    } else if d == 1 {
        '1'
    } else if d == 2 {
        '2'
    } else if d == 3 {
        '3'
    } else if d == 4 {
        '4'
    } else if d == 5 {
        '5'
    } else if d == 6 {
        '6'
    } else if d == 7 {
        '7'
    } else if d == 8 {
        '8'
    } else {
        '9'
    }
}

/// The decimal numeral of a non-negative integer, most significant digit
/// first, with no leading zeros (a single "0" for zero itself).
pub open spec fn dec_chars(n: int) -> Seq<char>
    decreases n,
{
    if n < 10 {
        seq![digit_char(n)]
    } else {
        dec_chars(n / 10).push(digit_char(n % 10))
    }
}

fn digit_str(d: usize) -> (s: &'static str)
    requires
        d < 10,
    ensures
        s@ == seq![digit_char(d as int)],
{
    let s: &'static str = if d == 0 {
        "0"
    } else if d == 1 {
        "1"
    } else if d == 2 {
        "2"
    } else if d == 3 {
        "3"
    } else if d == 4 {
        "4"
    } else if d == 5 {
        "5"
    } else if d == 6 {
        "6"
    } else if d == 7 {
        "7"
    } else if d == 8 {
        "8"
    } else {
        "9"
    };
    proof {
        reveal_strlit("0");
        reveal_strlit("1");
        reveal_strlit("2");
        reveal_strlit("3");
        reveal_strlit("4");
        reveal_strlit("5");
        reveal_strlit("6");
        reveal_strlit("7");
        reveal_strlit("8");
        reveal_strlit("9");
        assert(s@ =~= seq![digit_char(d as int)]);
    }
    s
}

/// Writes `n` in decimal.
pub fn usize_to_string(n: usize) -> (s: String)
    ensures
        s@ == dec_chars(n as int),
    decreases n,
{
    if n < 10 {
        String::from_str(digit_str(n))
    } else {
        let mut s = usize_to_string(n / 10);
        s.append(digit_str(n % 10));
        proof {
            assert(s@ =~= dec_chars(n as int));
        }
        s
    }
}

/// The rendering of one record: `file:line:column`, a carriage return and
/// four tabs, then the message from the marker onward (the lead-in token
/// dropped).  Row and column stay zero-based.
pub open spec fn render_chars(m: TodoModel) -> Seq<char> {
    m.file + seq![':'] + dec_chars(m.line) + seq![':'] + dec_chars(m.col) + seq![
        '\r',
        '\t',
        '\t',
        '\t',
        '\t',
    ] + m.message.skip(first_marker(m.message, 0))
}

impl Todo {
    /// The display line for this record.
    pub fn render(&self) -> (out: String)
        requires
            first_marker(self.message@, 0) >= 0,
        ensures
            out@ == render_chars(self@),
    {
        let mut out = self.file.clone();
        out.append(":");
        let row_digits = usize_to_string(self.line);
        out.append(row_digits.as_str());
        out.append(":");
        let col_digits = usize_to_string(self.col);
        out.append(col_digits.as_str());
        out.append("\r\t\t\t\t");
        let start = match find_marker(self.message.as_str()) {
            Some(c) => c,
            None => 0,
        };
        proof {
            lemma_first_marker_sound(self.message@, 0);
        }
        let n = self.message.as_str().unicode_len();
        let tail = self.message.as_str().substring_char(start, n);
        out.append(tail);
        proof {
            reveal_strlit(":");
            reveal_strlit("\r\t\t\t\t");
            assert(out@ =~= render_chars(self@));
        }
        out
    }
}

} // verus!
