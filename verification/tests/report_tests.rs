use snitch::build_report;
use snitch::render_report;
use snitch::sort_todos_by_priority;
use snitch::split_lines;
use snitch::todos_in_file;
use snitch::Todo;

#[test]
fn split_lines_on_newline() {
    let lines = split_lines("a\nbb\n\nc");
    assert_eq!(lines, vec!["a", "bb", "", "c"]);
    // A trailing newline yields a final empty line; an empty text is one
    // empty line.
    assert_eq!(split_lines("x\n"), vec!["x", ""]);
    assert_eq!(split_lines(""), vec![""]);
}

#[test]
fn todos_in_file_records_row_and_column() {
    let lines: Vec<String> = vec!["fn main() {}", "    // todoo: tidy up", "// nothing"]
        .iter()
        .map(|&s| s.to_owned())
        .collect();
    let todos = todos_in_file("src/a.rs", &lines);
    assert_eq!(todos.len(), 1);
    assert_eq!(todos[0].file, "src/a.rs");
    assert_eq!(todos[0].line, 1);
    assert_eq!(todos[0].col, 7);
    assert_eq!(todos[0].message, "    // todoo: tidy up");
}

#[test]
fn render_shows_position_and_drops_the_lead_in() {
    let record = Todo {
        file: "f.rs".to_owned(),
        line: 12,
        col: 3,
        message: "// todoo: x".to_owned(),
    };
    assert_eq!(record.render(), "f.rs:12:3\r\t\t\t\ttodoo: x");
    let wide = Todo {
        file: "dir/wide.rs".to_owned(),
        line: 1005,
        col: 0,
        message: "todooo stands alone".to_owned(),
    };
    // Row and column stay zero-based, written in plain decimal.
    assert_eq!(wide.render(), "dir/wide.rs:1005:0\r\t\t\t\ttodooo stands alone");
}

#[test]
fn sort_is_stable_for_equal_priorities() {
    let mut todos: Vec<Todo> = vec![
        Todo {
            file: "a.rs".to_owned(),
            line: 1,
            col: 0,
            message: "// todoo: first of the pair".to_owned(),
        },
        Todo {
            file: "a.rs".to_owned(),
            line: 2,
            col: 0,
            message: "// todo: the lowest".to_owned(),
        },
        Todo {
            file: "b.rs".to_owned(),
            line: 3,
            col: 0,
            message: "// todoo: second of the pair".to_owned(),
        },
    ];
    sort_todos_by_priority(&mut todos);
    // Ascending by score, and the two score-5 records keep their order.
    assert_eq!(todos[0].line, 2);
    assert_eq!(todos[1].line, 1);
    assert_eq!(todos[2].line, 3);
}

#[test]
fn sorted_output_is_monotonic() {
    let messages = vec![
        "// todoooo: e",
        "// todo: a",
        "// todooo: c",
        "// todo: b",
        "// todoooooo: f",
    ];
    let mut todos: Vec<Todo> = messages
        .iter()
        .enumerate()
        .map(|(i, &m)| Todo {
            file: "m.rs".to_owned(),
            line: i,
            col: 3,
            message: m.to_owned(),
        })
        .collect();
    sort_todos_by_priority(&mut todos);
    for pair in todos.windows(2) {
        assert!(
            snitch::measure_priority(&pair[0].message)
                <= snitch::measure_priority(&pair[1].message)
        );
    }
}

#[test]
fn render_report_joins_lines() {
    let todos = vec![
        Todo {
            file: "a.rs".to_owned(),
            line: 0,
            col: 3,
            message: "// todo: one".to_owned(),
        },
        Todo {
            file: "b.rs".to_owned(),
            line: 2,
            col: 2,
            message: "# todoo: two".to_owned(),
        },
    ];
    let out = render_report(&todos);
    assert_eq!(out, "a.rs:0:3\r\t\t\t\ttodo: one\nb.rs:2:2\r\t\t\t\ttodoo: two\n");
}

#[test]
fn unreadable_files_are_skipped_not_fatal() {
    // One unreadable file and one valid file: the unreadable one
    // contributes no records and no error, the valid one is reported.
    let files: Vec<(String, Option<String>)> = vec![
        ("bad.bin".to_owned(), None),
        ("good.txt".to_owned(), Some("// todo: ok\n".to_owned())),
    ];
    let outcome = build_report(&files);
    assert_eq!(outcome.unreadable, vec!["bad.bin"]);
    assert_eq!(outcome.report, "good.txt:0:3\r\t\t\t\ttodo: ok\n");
}

#[test]
fn report_ranks_across_files_most_urgent_last() {
    let files: Vec<(String, Option<String>)> = vec![
        ("one.rs".to_owned(), Some("// todooo: middle\nplain line\n// todo: low\n".to_owned())),
        ("two.rs".to_owned(), Some("// todooooo: high\n".to_owned())),
    ];
    let outcome = build_report(&files);
    assert_eq!(outcome.unreadable.len(), 0);
    assert_eq!(
        outcome.report,
        "one.rs:2:3\r\t\t\t\ttodo: low\none.rs:0:3\r\t\t\t\ttodooo: middle\ntwo.rs:0:3\r\t\t\t\ttodooooo: high\n"
    );
}
