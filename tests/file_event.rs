use fw::file_event::{FileAction, FileEvent};

/// Checks that a rendered line has the four fields of an event line.
fn verify_event_format(line: &str) -> Result<(), String> {
    let parts: Vec<&str> = line.split(" | ").collect();
    if parts.len() != 4 {
        return Err(format!("expected 4 parts, got {} in: {}", parts.len(), line));
    }
    if !parts[0].contains("UTC") {
        return Err(format!("expected a UTC timestamp, got: {}", parts[0]));
    }
    if !parts[1].contains('(') || !parts[1].contains(')') {
        return Err(format!("expected 'program (pid)', got: {}", parts[1]));
    }
    if parts[2] != "opened" && parts[2] != "closed" {
        return Err(format!("expected 'opened' or 'closed', got: {}", parts[2]));
    }
    if parts[3].is_empty() {
        return Err("file path cannot be empty".to_string());
    }
    Ok(())
}

#[test]
fn test_event_format_verification() {
    let valid_line = "2023-06-27 12:34:56 UTC | test_program (1234) | opened | /path/to/file.txt";
    assert!(verify_event_format(valid_line).is_ok());

    let invalid_line = "timestamp | program | action";
    assert!(verify_event_format(invalid_line).is_err());

    let invalid_timestamp = "invalid-timestamp | test_program (1234) | opened | /path/to/file.txt";
    assert!(verify_event_format(invalid_timestamp).is_err());

    let invalid_program = "2023-06-27 12:34:56 UTC | test_program | opened | /path/to/file.txt";
    assert!(verify_event_format(invalid_program).is_err());
}

#[test]
fn test_file_action_display() {
    assert_eq!(FileAction::Opened.to_string(), "opened");
    assert_eq!(FileAction::Closed.to_string(), "closed");
}

#[test]
fn test_file_event_matches_extensions_no_filter() {
    let event = FileEvent::new(
        "/path/to/file.rs".to_string(),
        "rustc".to_string(),
        FileAction::Opened,
        1234,
    );
    assert!(event.matches_extensions(&None));
}

#[test]
fn test_file_event_matches_extensions_with_filter() {
    let event = FileEvent::new(
        "/path/to/file.rs".to_string(),
        "rustc".to_string(),
        FileAction::Opened,
        1234,
    );
    let extensions = Some(vec!["rs".to_string(), "md".to_string()]);
    assert!(event.matches_extensions(&extensions));

    let non_matching_extensions = Some(vec!["py".to_string(), "js".to_string()]);
    assert!(!event.matches_extensions(&non_matching_extensions));
}

#[test]
fn test_file_event_format() {
    let event = FileEvent::new(
        "/path/to/file.rs".to_string(),
        "rustc".to_string(),
        FileAction::Opened,
        1234,
    );
    let formatted = event.to_string();
    assert!(formatted.contains("rustc (1234)"));
    assert!(formatted.contains("opened"));
    assert!(formatted.contains("/path/to/file.rs"));
    assert!(verify_event_format(&formatted).is_ok());
}

fn event_at(path: &str, ts: i64) -> FileEvent {
    FileEvent::with_timestamp(path.to_string(), "vim".to_string(), FileAction::Closed, 42, ts)
}

#[test]
fn render_exact_line_at_epoch() {
    let event = event_at("/etc/hosts", 0);
    assert_eq!(event.to_string(), "1970-01-01 00:00:00 UTC | vim (42) | closed | /etc/hosts");
}

#[test]
fn render_exact_line_later() {
    let event = event_at("/tmp/a.rs", 1687869296);
    assert_eq!(event.to_string(), "2023-06-27 12:34:56 UTC | vim (42) | closed | /tmp/a.rs");
}

#[test]
fn render_with_given_stamp() {
    let event = FileEvent::with_timestamp(
        "/x/y.md".to_string(),
        "cat".to_string(),
        FileAction::Opened,
        0,
        5,
    );
    assert_eq!(event.render_with_stamp("STAMP"), "STAMP | cat (0) | opened | /x/y.md");
    let big = FileEvent::with_timestamp("p".to_string(), "n".to_string(), FileAction::Opened, 4294967295, 5);
    assert_eq!(big.render_with_stamp("S"), "S | n (4294967295) | opened | p");
}

#[test]
fn filter_is_case_insensitive() {
    let event = event_at("/src/Main.RS", 0);
    assert!(event.matches_extensions(&Some(vec!["rs".to_string()])));
    assert!(event.matches_extensions(&Some(vec!["Rs".to_string()])));
    assert!(!event.matches_extensions(&Some(vec!["r".to_string()])));
}

#[test]
fn filter_suppresses_paths_without_extension() {
    let event = event_at("/usr/bin/make", 0);
    assert!(!event.matches_extensions(&Some(vec!["make".to_string()])));
    assert!(event.matches_extensions(&None));
    let dotted_dir = event_at("/home/a.b/README", 0);
    assert!(!dotted_dir.matches_extensions(&Some(vec!["b/README".to_string(), "b".to_string()])));
}

#[test]
fn filter_uses_last_dot_and_ignores_order() {
    let event = event_at("/tmp/archive.tar.gz", 0);
    let a = Some(vec!["gz".to_string(), "tar".to_string()]);
    let b = Some(vec!["tar".to_string(), "gz".to_string(), "gz".to_string()]);
    assert!(event.matches_extensions(&a));
    assert_eq!(event.matches_extensions(&a), event.matches_extensions(&b));
    assert!(!event.matches_extensions(&Some(vec!["tar".to_string()])));
    assert!(!event.matches_extensions(&Some(vec![])));
}

#[test]
fn filter_twice_gives_same_answer() {
    let event = event_at("/tmp/notes.md", 0);
    let f = Some(vec!["md".to_string()]);
    let first = event.matches_extensions(&f);
    let second = event.matches_extensions(&f);
    assert!(first);
    assert_eq!(first, second);
}

#[test]
fn render_falls_back_to_seconds_outside_calendar() {
    let event = event_at("/a", i64::MAX);
    assert_eq!(event.to_string(), "9223372036854775807 | vim (42) | closed | /a");
    let event = event_at("/a", i64::MIN);
    assert_eq!(event.to_string(), "-9223372036854775808 | vim (42) | closed | /a");
    let event = event_at("/a", -1);
    assert_eq!(event.to_string(), "1969-12-31 23:59:59 UTC | vim (42) | closed | /a");
}
