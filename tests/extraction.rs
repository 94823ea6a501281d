use skeptic::{
    action_for, clean_code_line, derive_name, extract_tests_from_events, extract_tests_from_string,
    parse_code_block_info, sanitize_section, sanitize_test_name, status_after, tally, Action,
    DocEvent, EventKind, Session, Test, TestStatus,
};

fn sample(text: &[&str], ignore: bool, no_run: bool, should_panic: bool) -> Test {
    Test {
        text: text.iter().map(|s| s.to_string()).collect(),
        path: "guide.md".to_string(),
        section: None,
        line_number: 3,
        ignore,
        no_run,
        should_panic,
    }
}

#[test]
fn info_plain_rust_is_runnable() {
    let info = parse_code_block_info("rust");
    assert!(info.is_rust);
    assert!(!info.ignore && !info.no_run && !info.should_panic);
}

#[test]
fn info_flags_are_read() {
    let info = parse_code_block_info("rust,should_panic,no_run ignore");
    assert!(info.is_rust && info.should_panic && info.no_run && info.ignore);
}

#[test]
fn info_other_language_is_not_runnable() {
    assert!(!parse_code_block_info("python").is_rust);
    assert!(!parse_code_block_info("").is_rust);
    assert!(!parse_code_block_info("should_panic").is_rust);
    assert!(!parse_code_block_info("rusty").is_rust);
}

#[test]
fn info_rust_with_unknown_tag_is_runnable() {
    assert!(parse_code_block_info("rust,foo").is_rust);
    assert!(parse_code_block_info("rust,edition2021").is_rust);
}

#[test]
fn info_unicode_letters_join_a_token() {
    // 'é' is alphanumeric, so "rusté" is one unknown token, not "rust".
    assert!(!parse_code_block_info("rusté").is_rust);
    assert!(parse_code_block_info("é rust").is_rust);
}

#[test]
fn clean_strips_hidden_marker() {
    assert_eq!(clean_code_line("  # let x = 1;  "), Some("let x = 1;".to_string()));
}

#[test]
fn clean_drops_blank_and_bare_marker() {
    assert_eq!(clean_code_line(""), None);
    assert_eq!(clean_code_line(" \t "), None);
    assert_eq!(clean_code_line("#"), None);
    assert_eq!(clean_code_line("  #   "), None);
}

#[test]
fn clean_keeps_other_lines_verbatim() {
    assert_eq!(clean_code_line(" x"), Some(" x".to_string()));
    assert_eq!(clean_code_line("\tfn main() {} "), Some("\tfn main() {} ".to_string()));
    assert_eq!(clean_code_line("    let y = 2;\r"), Some("    let y = 2;\r".to_string()));
    assert_eq!(clean_code_line("a\r"), Some("a\r".to_string()));
    assert_eq!(clean_code_line("#[derive(Debug)]"), Some("#[derive(Debug)]".to_string()));
}

#[test]
fn sanitize_path_drops_extension_and_collapses() {
    assert_eq!(sanitize_test_name("docs/Getting--Started.md"), "docs_getting_started");
    assert_eq!(sanitize_test_name("./book/intro.md"), "book_intro");
    assert_eq!(sanitize_test_name("md"), "md");
    assert_eq!(sanitize_test_name("Usage"), "usage");
    assert_eq!(sanitize_test_name("README"), "readme");
    assert_eq!(sanitize_test_name(&sanitize_test_name("a.md")), "a");
}

#[test]
fn sanitize_section_keeps_whole_heading() {
    assert_eq!(sanitize_section("Usage"), "usage");
    assert_eq!(sanitize_section("  What's new? (v2) "), "what_s_new_v2");
    assert_eq!(sanitize_section("Größe"), "gr_e");
}

#[test]
fn name_without_section() {
    assert_eq!(derive_name("README.md", &None, 12), "readme_line_12");
    assert_eq!(derive_name("README.md", &None, 0), "readme_line_0");
}

#[test]
fn name_with_section() {
    assert_eq!(derive_name("docs/guide.md", &Some("usage".to_string()), 7), "docs_guide_sect_usage_line_7");
}

#[test]
fn names_differ_by_line() {
    let a = derive_name("guide.md", &Some("intro".to_string()), 4);
    let b = derive_name("guide.md", &Some("intro".to_string()), 40);
    assert_ne!(a, b);
}

#[test]
fn name_is_the_same_when_derived_twice() {
    let t = sample(&["fn main() {}"], false, false, false);
    assert_eq!(t.name(), t.name());
    assert_eq!(t.name(), "guide_line_3");
}

#[test]
fn scenario_single_rust_block() {
    let doc = "```rust\nfn main() { println!(\"hi\"); }\n```\n";
    let tests = extract_tests_from_string(doc, "readme.md");
    assert_eq!(tests.len(), 1);
    assert_eq!(tests[0].name(), "readme_line_1");
    assert_eq!(tests[0].text, vec!["fn main() { println!(\"hi\"); }".to_string()]);
    let mut session = Session::new(tests);
    assert_eq!(session.next_action(), Some(Action::Run));
    session.record(true);
    assert_eq!(session.next_action(), None);
    assert_eq!(session.outcomes(), &vec![TestStatus::Passed]);
}

#[test]
fn scenario_should_panic_block() {
    let doc = "```rust,should_panic\nfn main() { panic!(\"boom\"); }\n```\n";
    let tests = extract_tests_from_string(doc, "readme.md");
    assert_eq!(tests.len(), 1);
    assert!(tests[0].should_panic);
    let mut session = Session::new(tests);
    assert_eq!(session.next_action(), Some(Action::Run));
    session.record(false);
    assert_eq!(session.outcomes(), &vec![TestStatus::Passed]);
}

#[test]
fn scenario_python_block_yields_nothing() {
    let doc = "```python\nprint('hi')\n```\n";
    assert!(extract_tests_from_string(doc, "readme.md").is_empty());
}

#[test]
fn document_without_code_yields_nothing() {
    let doc = "# Title\n\nSome prose.\n\n    indented code\n";
    assert!(extract_tests_from_string(doc, "readme.md").is_empty());
    assert!(extract_tests_from_string("", "readme.md").is_empty());
}

#[test]
fn scenario_section_heading() {
    let doc = "# Tool\n\n## Usage\n\n```rust\nfn main() {}\n```\n";
    let tests = extract_tests_from_string(doc, "readme.md");
    assert_eq!(tests.len(), 1);
    assert_eq!(tests[0].section, Some("usage".to_string()));
    assert!(tests[0].name().contains("_sect_usage_"));
    assert_eq!(tests[0].name(), "readme_sect_usage_line_5");
}

#[test]
fn deep_heading_is_no_section() {
    let doc = "## Usage\n\n### Details\n\n```rust\nfn main() {}\n```\n";
    let tests = extract_tests_from_string(doc, "readme.md");
    assert_eq!(tests[0].section, Some("usage".to_string()));
}

#[test]
fn hidden_and_blank_lines_are_removed() {
    let doc = "```rust\n# use std::fmt;\n\n#\n    let x = 1;\n# # keep\nfn main() {}\n```\n";
    let tests = extract_tests_from_string(doc, "a.md");
    assert_eq!(
        tests[0].text,
        vec!["use std::fmt;".to_string(), "    let x = 1;".to_string(), "# keep".to_string(), "fn main() {}".to_string()]
    );
    assert_eq!(tests[0].program(), "use std::fmt;\n    let x = 1;\n# keep\nfn main() {}");
}

#[test]
fn blocks_keep_document_order_and_flags() {
    let doc = "```rust,ignore\nbad code\n```\n\ntext\n\n```rust,no_run\nfn main() { loop {} }\n```\n";
    let tests = extract_tests_from_string(doc, "b.md");
    assert_eq!(tests.len(), 2);
    assert!(tests[0].ignore && !tests[0].no_run);
    assert!(tests[1].no_run && !tests[1].ignore);
    assert_eq!(tests[0].line_number, 1);
    assert_eq!(tests[1].line_number, 7);
}

#[test]
fn events_drive_extraction() {
    let events = vec![
        DocEvent { kind: EventKind::HeadingStart(1), start: 0 },
        DocEvent { kind: EventKind::Text("Intro".to_string()), start: 2 },
        DocEvent { kind: EventKind::HeadingEnd(1), start: 0 },
        DocEvent { kind: EventKind::FenceStart("rust".to_string()), start: 9 },
        DocEvent { kind: EventKind::Text("a\n\nb\n".to_string()), start: 17 },
        DocEvent { kind: EventKind::CodeEnd, start: 9 },
    ];
    let doc = b"# Intro\n\n```rust\na\n\nb\n```\n";
    let tests = extract_tests_from_events(&events, doc, "c.md");
    assert_eq!(tests.len(), 1);
    assert_eq!(tests[0].text, vec!["a".to_string(), "b".to_string()]);
    assert_eq!(tests[0].line_number, 3);
    assert_eq!(tests[0].name(), "c_sect_intro_line_3");
}

#[test]
fn ignored_test_is_skipped() {
    let t = sample(&["this does not compile"], true, false, false);
    assert_eq!(action_for(&t), Action::Skip);
    assert_eq!(status_after(&t, true), TestStatus::Ignored);
    assert_eq!(status_after(&t, false), TestStatus::Ignored);
}

#[test]
fn no_run_test_is_only_checked() {
    let t = sample(&["fn main() {}"], false, true, false);
    assert_eq!(action_for(&t), Action::Check);
    assert_eq!(status_after(&t, true), TestStatus::Passed);
    assert_eq!(status_after(&t, false), TestStatus::Failed);
}

#[test]
fn should_panic_inverts_the_run() {
    let t = sample(&["fn main() { panic!() }"], false, false, true);
    assert_eq!(action_for(&t), Action::Run);
    assert_eq!(status_after(&t, true), TestStatus::Failed);
    assert_eq!(status_after(&t, false), TestStatus::Passed);
}

#[test]
fn plain_test_follows_the_run() {
    let t = sample(&["fn main() {}"], false, false, false);
    assert_eq!(status_after(&t, true), TestStatus::Passed);
    assert_eq!(status_after(&t, false), TestStatus::Failed);
}

#[test]
fn tally_counts_each_outcome() {
    let r = vec![TestStatus::Passed, TestStatus::Failed, TestStatus::Passed, TestStatus::Ignored];
    let t = tally(&r);
    assert_eq!((t.passed, t.failed, t.ignored), (2, 1, 1));
    let e = tally(&vec![]);
    assert_eq!((e.passed, e.failed, e.ignored), (0, 0, 0));
}

#[test]
fn session_decides_in_order() {
    let tests = vec![
        sample(&["a"], true, false, false),
        sample(&["b"], false, true, false),
        sample(&["c"], false, false, true),
    ];
    let mut s = Session::new(tests);
    assert_eq!(s.next_action(), Some(Action::Skip));
    s.record(true);
    assert_eq!(s.next_action(), Some(Action::Check));
    s.record(false);
    assert_eq!(s.next_action(), Some(Action::Run));
    s.record(true);
    assert_eq!(s.next_action(), None);
    assert!(s.current().is_none());
    assert_eq!(s.outcomes(), &vec![TestStatus::Ignored, TestStatus::Failed, TestStatus::Failed]);
}

#[test]
fn sanitizing_twice_changes_nothing() {
    for raw in ["Usage", "  What's new? (v2) ", "__a__b__", "", "Größe 2"] {
        let once = sanitize_section(raw);
        assert_eq!(sanitize_section(&once), once);
    }
}

#[test]
fn line_numbers_count_earlier_lines() {
    let doc = "intro\r\nmore\n\n```rust\n\n\nfn main() {}\n```\n";
    let tests = extract_tests_from_string(doc, "d.md");
    assert_eq!(tests.len(), 1);
    assert_eq!(tests[0].line_number, 4);
    assert_eq!(tests[0].text, vec!["fn main() {}".to_string()]);
}

#[test]
fn name_sanitizes_a_raw_section() {
    let mut t = sample(&["fn main() {}"], false, false, false);
    t.section = Some("Usage".to_string());
    assert_eq!(t.name(), "guide_sect_usage_line_3");
    assert_eq!(derive_name("a.md", &Some("Getting Started!".to_string()), 9), "a_sect_getting_started_line_9");
}

#[test]
fn empty_blocks_get_distinct_lines() {
    let doc = "```rust\n```\n\n```rust\n```\n";
    let tests = extract_tests_from_string(doc, "e.md");
    assert_eq!(tests.len(), 2);
    assert_eq!(tests[0].line_number, 1);
    assert_eq!(tests[1].line_number, 4);
    assert!(tests[0].text.is_empty());
    assert_ne!(tests[0].name(), tests[1].name());
}

#[test]
fn crlf_document_lines_keep_indentation() {
    let doc = "```rust\r\nfn main() {\r\n    let x = 1;\r\n}\r\n```\r\n";
    let tests = extract_tests_from_string(doc, "f.md");
    assert_eq!(tests.len(), 1);
    assert_eq!(
        tests[0].text,
        vec!["fn main() {".to_string(), "    let x = 1;".to_string(), "}".to_string()]
    );
}
