//! Report assembly: splitting a file's text into lines, gathering records
//! over many files, ranking them, and rendering the final report.

use vstd::prelude::*;

use crate::grammar::first_marker;
use crate::grammar::line_views;
use crate::ranking::rank_models;
use crate::ranking::sort_todos_by_priority;
use crate::records::file_models;
use crate::records::lemma_file_models_wf;
use crate::records::models_of;
use crate::records::render_chars;
use crate::records::todo_wf;
use crate::records::todos_in_file;
use crate::records::Todo;
use crate::records::TodoModel;

verus! {

broadcast use vstd::seq_lib::group_to_multiset_ensures;

/// First index at or after `i` holding a newline, or -1 if there is none.
pub open spec fn nl_pos(s: Seq<char>, i: int) -> int
    decreases s.len() - i,
{
    if i < s.len() {
        if s[i] == '\n' {
            i
        } else {
            nl_pos(s, i + 1)
        }
    } else {
        -1
    }
}

/// The lines of a text, split on the newline character.  The separator is
/// dropped; a trailing newline yields a final empty line, and an empty
/// text is one empty line.
pub open spec fn lines_of(s: Seq<char>) -> Seq<Seq<char>>
    decreases s.len(),
{
    let k = nl_pos(s, 0);
    if 0 <= k < s.len() {
        seq![s.take(k)] + lines_of(s.skip(k + 1))
    } else {
        seq![s]
    }
}

proof fn lemma_nl_pos_none(s: Seq<char>, i: int)
    requires
        0 <= i,
        forall|j: int| i <= j < s.len() ==> s[j] != '\n',
    ensures
        nl_pos(s, i) == -1,
    decreases s.len() - i,
{
    if i < s.len() {
        lemma_nl_pos_none(s, i + 1);
    }
}

proof fn lemma_nl_pos_at(s: Seq<char>, i: int, k: int)
    requires
        0 <= i <= k < s.len(),
        s[k] == '\n',
        forall|j: int| i <= j < k ==> s[j] != '\n',
    ensures
        nl_pos(s, i) == k,
    decreases k - i,
{
    if i < k {
        lemma_nl_pos_at(s, i + 1, k);
    }
}

/// Splits a text into its lines on the newline character.
#[verifier::loop_isolation(false)]
pub fn split_lines(text: &str) -> (lines: Vec<String>)
    ensures
        line_views(lines@) == lines_of(text@),
{
    let n = text.unicode_len();
    let mut lines: Vec<String> = Vec::new();
    let mut start: usize = 0;
    let mut i: usize = 0;
    proof {
        assert(line_views(lines@) =~= Seq::<Seq<char>>::empty());
        assert(text@.skip(0) =~= text@);
    }
    while i < n
        invariant
            start <= i <= n,
            lines_of(text@) == line_views(lines@) + lines_of(text@.skip(start as int)),
            forall|j: int| start <= j < i ==> text@[j] != '\n',
        decreases n - i,
    {
        if text.get_char(i) == '\n' {
            let seg = text.substring_char(start, i);
            let owned = String::from_str(seg);
            proof {
                let rest = text@.skip(start as int);
                assert forall|j: int| 0 <= j < i - start implies rest[j] != '\n' by {
                    assert(rest[j] == text@[start + j]);
                }
                lemma_nl_pos_at(rest, 0, i - start);
                assert(rest.take(i - start) =~= seg@);
                assert(rest.skip(i - start + 1) =~= text@.skip(i + 1));
                assert(line_views(lines@.push(owned)) =~= line_views(lines@) + seq![seg@]);
                assert(line_views(lines@) + lines_of(rest) =~= (line_views(lines@) + seq![seg@])
                    + lines_of(text@.skip(i + 1)));
            }
            lines.push(owned);
            i = i + 1;
            start = i;
        } else {
            i = i + 1;
        }
    }
    let seg = text.substring_char(start, n);
    let owned = String::from_str(seg);
    proof {
        let rest = text@.skip(start as int);
        assert forall|j: int| 0 <= j < rest.len() implies rest[j] != '\n' by {
            assert(rest[j] == text@[start + j]);
        }
        lemma_nl_pos_none(rest, 0);
        assert(rest =~= seg@);
        assert(line_views(lines@.push(owned)) =~= line_views(lines@) + seq![seg@]);
        assert(line_views(lines@) + lines_of(rest) =~= line_views(lines@) + seq![seg@]);
    }
    lines.push(owned);
    lines
}

/// The rendered report of a record list: each record's display line
/// followed by a newline, in order.
pub open spec fn report_chars_from(ms: Seq<TodoModel>, k: int) -> Seq<char>
    decreases ms.len() - k,
{
    if 0 <= k < ms.len() {
        render_chars(ms[k]) + seq!['\n'] + report_chars_from(ms, k + 1)
    } else {
        Seq::empty()
    }
}

pub open spec fn report_chars(ms: Seq<TodoModel>) -> Seq<char> {
    report_chars_from(ms, 0)
}

/// Renders every record, one line each, in the order given.
#[verifier::loop_isolation(false)]
pub fn render_report(todos: &Vec<Todo>) -> (out: String)
    requires
        forall|a: int|
            0 <= a < todos@.len() ==> first_marker((#[trigger] todos@[a]).message@, 0) >= 0,
    ensures
        out@ == report_chars(models_of(todos@)),
{
    let mut out = String::new();
    let mut k: usize = 0;
    proof {
        assert(out@ + report_chars_from(models_of(todos@), 0) =~= report_chars(
            models_of(todos@),
        ));
    }
    while k < todos.len()
        invariant
            k <= todos@.len(),
            out@ + report_chars_from(models_of(todos@), k as int) == report_chars(
                models_of(todos@),
            ),
        decreases todos@.len() - k,
    {
        let ghost prefix = out@;
        let ghost ms = models_of(todos@);
        let record = &todos[k];
        let line = record.render();
        out.append(line.as_str());
        out.append("\n");
        proof {
            reveal_strlit("\n");
            assert("\n"@ =~= seq!['\n']);
            assert(line@ == render_chars(ms[k as int]));
            assert(out@ + report_chars_from(ms, k as int + 1) =~= prefix + report_chars_from(
                ms,
                k as int,
            ));
        }
        k = k + 1;
    }
    out
}

/// The view of the scan input: each file's path with its text, or nothing
/// where the file could not be read as text.
pub open spec fn source_views(files: Seq<(String, Option<String>)>) -> Seq<
    (Seq<char>, Option<Seq<char>>),
> {
    files.map_values(
        |f: (String, Option<String>)|
            (
                f.0@,
                match f.1 {
                    Option::Some(t) => Option::Some(t@),
                    Option::None => Option::None,
                },
            ),
    )
}

/// All records of the first `k` files, in file order then row order;
/// an unreadable file contributes none.
pub open spec fn gathered_upto(files: Seq<(Seq<char>, Option<Seq<char>>)>, k: int) -> Seq<
    TodoModel,
>
    decreases k,
{
    if k <= 0 {
        Seq::empty()
    } else {
        gathered_upto(files, k - 1) + (match files[k - 1].1 {
            Option::Some(text) => file_models(files[k - 1].0, lines_of(text)),
            Option::None => Seq::empty(),
        })
    }
}

/// All records of the whole scan, in file order then row order.
pub open spec fn all_models(files: Seq<(Seq<char>, Option<Seq<char>>)>) -> Seq<TodoModel> {
    gathered_upto(files, files.len() as int)
}

/// The names of the first `k` files that could not be read, in input order.
pub open spec fn unreadable_upto(files: Seq<(Seq<char>, Option<Seq<char>>)>, k: int) -> Seq<
    Seq<char>,
>
    decreases k,
{
    if k <= 0 {
        Seq::empty()
    } else {
        unreadable_upto(files, k - 1) + (if files[k - 1].1 is None {
            seq![files[k - 1].0]
        } else {
            Seq::empty()
        })
    }
}

/// The names of every file that could not be read, in input order.
pub open spec fn unreadable_names(files: Seq<(Seq<char>, Option<Seq<char>>)>) -> Seq<Seq<char>> {
    unreadable_upto(files, files.len() as int)
}

/// The outcome of a scan: the rendered report, and the names of the files
/// that could not be read as text (they contribute no records).
pub struct ScanReport {
    pub report: String,
    pub unreadable: Vec<String>,
}

/// The compute half of a scan.  Takes each file's path with its text
/// (`None` where reading or decoding failed), classifies every line of
/// every readable file, ranks all records ascending by urgency, and
/// renders the report; unreadable files contribute no records and are
/// handed back by name.
#[verifier::loop_isolation(false)]
pub fn build_report(files: &Vec<(String, Option<String>)>) -> (outcome: ScanReport)
    ensures
        outcome.report@ == report_chars(rank_models(all_models(source_views(files@)))),
        line_views(outcome.unreadable@) == unreadable_names(source_views(files@)),
{
    let ghost sv = source_views(files@);
    let mut todos: Vec<Todo> = Vec::new();
    let mut unreadable: Vec<String> = Vec::new();
    let mut k: usize = 0;
    proof {
        assert(models_of(todos@) =~= gathered_upto(sv, 0));
        assert(line_views(unreadable@) =~= unreadable_upto(sv, 0));
    }
    while k < files.len()
        invariant
            k <= files@.len(),
            models_of(todos@) == gathered_upto(sv, k as int),
            line_views(unreadable@) == unreadable_upto(sv, k as int),
            forall|a: int|
                0 <= a < todos@.len() ==> first_marker((#[trigger] todos@[a]).message@, 0) >= 0,
        decreases files@.len() - k,
    {
        let entry = &files[k];
        match &entry.1 {
            Some(text) => {
                let lines = split_lines(text.as_str());
                let line_count = lines.len();
                let mut found = todos_in_file(entry.0.as_str(), &lines);
                proof {
                    lemma_file_models_wf(entry.0@, line_views(lines@));
                    assert forall|a: int|
                        0 <= a < found@.len() implies first_marker(
                        (#[trigger] found@[a]).message@,
                        0,
                    ) >= 0 by {
                        assert(todo_wf(models_of(found@)[a]));
                    }
                    assert(models_of(todos@ + found@) =~= models_of(todos@) + models_of(found@));
                    assert(gathered_upto(sv, k as int + 1) == gathered_upto(sv, k as int)
                        + file_models(sv[k as int].0, lines_of(text@)));
                    assert(unreadable_upto(sv, k as int + 1) =~= unreadable_upto(sv, k as int));
                }
                todos.append(&mut found);
            },
            None => {
                proof {
                    assert(line_views(unreadable@.push(entry.0)) =~= line_views(unreadable@)
                        + seq![entry.0@]);
                    assert(unreadable_upto(sv, k as int + 1) =~= unreadable_upto(sv, k as int)
                        + seq![sv[k as int].0]);
                    assert(gathered_upto(sv, k as int + 1) =~= gathered_upto(sv, k as int));
                }
                unreadable.push(entry.0.clone());
            },
        }
        k = k + 1;
    }
    let ghost before_rank = todos@;
    sort_todos_by_priority(&mut todos);
    proof {
        assert forall|a: int|
            0 <= a < todos@.len() implies first_marker(
            (#[trigger] todos@[a]).message@,
            0,
        ) >= 0 by {
            assert(todos@.contains(todos@[a]));
            assert(todos@.to_multiset().count(todos@[a]) > 0);
            assert(before_rank.contains(todos@[a]));
            let b = choose|b: int| 0 <= b < before_rank.len() && before_rank[b] == todos@[a];
        }
    }
    let report = render_report(&todos);
    ScanReport { report, unreadable }
}

} // verus!
