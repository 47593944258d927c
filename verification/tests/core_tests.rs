use snitch::find_all_todo_lines;
use snitch::measure_priority;
use snitch::sort_todos_by_priority;
use snitch::Todo;

#[test]
fn finds_todos_in_text() {
    let source: Vec<String> = vec![
        "// TODO: Rewrite this in haskell",                 // line 0
        "// todo: fire the guy who wrote previous todo",    // line 1
        "// todoooooooo: reduce hostility of workspace",    // line 2
        "todo: Hey guys can we not argue in our commits?",  // line 3
        "       // Todo: Teach management to use comments", // line 4
    ]
    .iter()
    .map(|&s| s.to_owned())
    .collect();

    assert_eq!(find_all_todo_lines(&source), vec![0, 1, 2, 4])
}

#[test]
fn measure_priority_test() {
    assert_eq!(measure_priority("// TODO: fdjsafdasfda"), 4);
    assert_eq!(
        measure_priority("// ToDooOOo: Find A BetTer CaPiTalIZaTion SysTem"),
        8
    );
    assert_eq!(
        measure_priority("haha fool this ain't got a to do!!!!!"),
        usize::MIN
    );
}

#[test]
fn does_sort_todos_by_priority() {
    let mut todos: Vec<Todo> = vec![
        Todo {
            file: "test_file.rs".to_owned(),
            col: 1,
            line: 12,
            message: "// todooo: fjdklas".to_owned(),
        },
        Todo {
            file: "test_file.rs".to_owned(),
            col: 1,
            line: 63,
            message: "// todo: fdjskalfhdjasklfhjdasklf".to_owned(),
        },
        Todo {
            file: "test_file.rs".to_owned(),
            col: 1,
            line: 42,
            message: "// todooooooo: fdjsal;fdddd".to_owned(),
        },
    ];
    sort_todos_by_priority(&mut todos);

    assert_eq!(todos[0].line, 63);
    assert_eq!(todos[1].line, 12);
    assert_eq!(todos[2].line, 42);
}
