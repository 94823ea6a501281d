//! Finds the runnable code samples of Markdown documents, names them, and
//! decides the outcome of building or running each one.
pub mod classify;
pub mod clean;
pub mod extract;
pub mod names;
pub mod run;
pub mod text;

pub use classify::{parse_code_block_info, CodeBlockInfo};
pub use clean::clean_code_line;
pub use extract::{extract_tests_from_events, extract_tests_from_string, DocEvent, EventKind, Test};
pub use names::{derive_name, sanitize_section, sanitize_test_name};
pub use run::{action_for, status_after, tally, Action, Session, Tally, TestStatus};
