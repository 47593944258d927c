//! Scans text for "TODO"-style annotation lines, ranks them by an urgency
//! score derived from the length of the marker word ("todoooo" outranks
//! "todo"), and renders a report sorted so that the most urgent entry
//! comes last.

pub mod grammar;
pub mod ranking;
pub mod records;
pub mod report;

pub use grammar::classify;
pub use grammar::find_all_todo_lines;
pub use grammar::measure_priority;
pub use ranking::sort_todos_by_priority;
pub use records::Todo;
pub use records::todos_in_file;
pub use report::build_report;
pub use report::render_report;
pub use report::split_lines;
pub use report::ScanReport;
