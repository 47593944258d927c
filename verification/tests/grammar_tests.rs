use snitch::classify;
use snitch::measure_priority;

#[test]
fn classify_accepts_annotation_lines() {
    assert!(classify("// TODO: Rewrite this in haskell"));
    assert!(classify("# todo: shell style lead-in"));
    assert!(classify("       // Todo: leading whitespace is fine"));
    // The colon is optional; one whitespace character after the marker word
    // is enough.
    assert!(classify("// todo fix the build"));
    assert!(classify("// todoooo: more o means more urgent"));
}

#[test]
fn classify_requires_a_lead_in_token() {
    // A bare marker word with nothing before it has no lead-in token.
    assert!(!classify("todo: Hey guys can we not argue in our commits?"));
    assert!(!classify("   todo: leading whitespace is not a token"));
}

#[test]
fn classify_rejects_malformed_lines() {
    assert!(!classify(""));
    assert!(!classify("plain text without the word"));
    // The marker needs at least one "o" after "tod".
    assert!(!classify("// tod: not a marker"));
    // Exactly one whitespace character separates token and marker word.
    assert!(!classify("//  todo: two spaces before the word"));
    // After the optional colon there must be one whitespace character.
    assert!(!classify("// todo:no space after the colon"));
    // The marker word must follow the token directly.
    assert!(!classify("// the todo: word comes too late"));
}

#[test]
fn measure_priority_counts_the_first_maximal_run() {
    // The score is the length of the leftmost marker match, whole "o" run
    // included, wherever it stands in the line.
    assert_eq!(measure_priority("todooo"), 6);
    assert_eq!(measure_priority("a todoo then a todooooo"), 5);
    assert_eq!(measure_priority("ToDoOo!"), 6);
}

#[test]
fn measure_priority_sentinel_is_zero() {
    // No marker: the sentinel minimum, below every real score.
    assert_eq!(measure_priority(""), 0);
    assert_eq!(measure_priority("to do"), 0);
    assert_eq!(measure_priority("tod"), 0);
    // Every real score is at least 4.
    assert_eq!(measure_priority("todo"), 4);
}
