use tasktrack::task::TaskFrontmatter;
use tasktrack::Priority;
use tasktrack::Task;
use tasktrack::TaskId;
use tasktrack::Timestamp;

fn sample_task() -> Task {
    let ts = Timestamp::new(2026, 1, 15, 10, 30, 0).unwrap();
    let later = Timestamp::new(2026, 1, 16, 8, 0, 59).unwrap();
    Task {
        frontmatter: TaskFrontmatter {
            title: String::from("Fix the parser"),
            id: TaskId::from_string("a1b2c3d4"),
            created: ts,
            updated: later,
            author: Some(String::from("alice")),
            priority: Priority::High,
            tags: vec![String::from("bug"), String::from("parser")],
            blocked_by: vec![TaskId::from_string("b2c3d4e5")],
            blocks: vec![],
            parent: None,
            children: vec![],
        },
        body: String::from("The parser drops the last line.\n\nSteps: run it."),
        log: String::from("---\n# Log: 2026-01-15T10:30:00Z alice\n\nCreated task.\n"),
    }
}

#[test]
fn test_new_task() {
    let task = Task::new("Test task", Some("brian".into()));
    assert_eq!(task.title(), "Test task");
    assert_eq!(task.id().full().len(), 8); // 8 base32 chars
}

#[test]
fn test_roundtrip() {
    let task = Task::new("Test task", Some("brian".into()));
    let md = task.to_markdown();
    let parsed = Task::parse(&md).unwrap();

    assert_eq!(parsed.title(), task.title());
    assert_eq!(parsed.id().full(), task.id().full());
}

#[test]
fn test_roundtrip_full_document() {
    let task = sample_task();
    let md = task.to_markdown();
    let parsed = Task::parse(&md).unwrap();
    assert_eq!(parsed.frontmatter.title, task.frontmatter.title);
    assert_eq!(parsed.frontmatter.id, task.frontmatter.id);
    assert_eq!(parsed.frontmatter.created, task.frontmatter.created);
    assert_eq!(parsed.frontmatter.updated, task.frontmatter.updated);
    assert_eq!(parsed.frontmatter.author, task.frontmatter.author);
    assert_eq!(parsed.frontmatter.priority, task.frontmatter.priority);
    assert_eq!(parsed.frontmatter.tags, task.frontmatter.tags);
    assert_eq!(parsed.frontmatter.blocked_by, task.frontmatter.blocked_by);
    assert_eq!(parsed.frontmatter.blocks, task.frontmatter.blocks);
    assert_eq!(parsed.frontmatter.parent, task.frontmatter.parent);
    assert_eq!(parsed.frontmatter.children, task.frontmatter.children);
    assert_eq!(parsed.body, task.body);
    assert_eq!(parsed.log, task.log);
}

#[test]
fn test_serialized_layout() {
    let task = sample_task();
    let md = task.to_markdown();
    let expected = "---\n\
        title: Fix the parser\n\
        id: a1b2c3d4\n\
        created: 2026-01-15T10:30:00Z\n\
        updated: 2026-01-16T08:00:59Z\n\
        author: alice\n\
        priority: high\n\
        tags:\n\
        - bug\n\
        - parser\n\
        blocked_by:\n\
        - b2c3d4e5\n\
        ---\n\
        \nThe parser drops the last line.\n\nSteps: run it.\n\
        \n---\n## Log\n\n\
        ---\n# Log: 2026-01-15T10:30:00Z alice\n\nCreated task.\n";
    assert_eq!(md, expected);
}

#[test]
fn test_parse_without_log_section() {
    // hand-edited files without a log section still parse: body is the
    // whole remainder and the log is empty
    let text = "---\n\
        title: Plain\n\
        id: c3d4e5f6\n\
        created: 2026-01-15T10:30:00Z\n\
        updated: 2026-01-15T10:30:00Z\n\
        priority: medium\n\
        ---\n\
        \nJust a body.\n";
    let parsed = Task::parse(text).unwrap();
    assert_eq!(parsed.frontmatter.title, "Plain");
    assert_eq!(parsed.body, "Just a body.");
    assert_eq!(parsed.log, "");
    assert_eq!(parsed.frontmatter.author, None);
    assert!(parsed.frontmatter.tags.is_empty());
}

#[test]
fn test_parse_rejects_missing_header() {
    assert!(Task::parse("no header here").is_err());
    assert!(Task::parse("---\ntitle: x\n").is_err());
    assert!(Task::parse("").is_err());
}

#[test]
fn test_parse_rejects_bad_timestamp() {
    let text = "---\n\
        title: Plain\n\
        id: c3d4e5f6\n\
        created: 2026-13-15T10:30:00Z\n\
        updated: 2026-01-15T10:30:00Z\n\
        priority: medium\n\
        ---\n";
    assert!(Task::parse(text).is_err());
}

#[test]
fn test_add_log_appends_only() {
    let mut task = sample_task();
    let before = task.log.clone();
    let now = Timestamp::new(2026, 2, 1, 12, 0, 0).unwrap();
    task.add_log_at("Looked into it.", None, &now);
    assert!(task.log.starts_with(&before));
    assert!(task.log.contains("Looked into it."));
    assert!(task.log.contains("2026-02-01T12:00:00Z"));
    // no explicit author: the document's author signs the entry
    assert!(task.log.contains("# Log: 2026-02-01T12:00:00Z alice"));
    assert_eq!(task.frontmatter.updated, now);
}

#[test]
fn test_add_log_author_fallback() {
    let mut task = Task::new("t", None);
    let now = Timestamp::new(2026, 2, 1, 12, 0, 0).unwrap();
    task.add_log_at("note", None, &now);
    assert!(task.log.contains("# Log: 2026-02-01T12:00:00Z unknown"));
    task.add_log_at("more", Some("carol"), &now);
    assert!(task.log.contains("# Log: 2026-02-01T12:00:00Z carol"));
}

#[test]
fn test_quoted_values_roundtrip() {
    // a title that is itself wrapped in quotes gains one more pair on disk
    // and comes back exactly; so does an author literally named null
    let mut task = sample_task();
    task.frontmatter.title = String::from("'already quoted'");
    task.frontmatter.author = Some(String::from("null"));
    let md = task.to_markdown();
    assert!(md.contains("author: 'null'"));
    let parsed = Task::parse(&md).unwrap();
    assert_eq!(parsed.frontmatter.title, "'already quoted'");
    assert_eq!(parsed.frontmatter.author.as_deref(), Some("null"));
}

#[test]
fn test_parse_quoted_header_values() {
    // files written by tools that quote special values still read back
    let text = "---\n\
        title: 'a: b'\n\
        id: c3d4e5f6\n\
        created: 2026-01-15T10:30:00Z\n\
        updated: 2026-01-15T10:30:00Z\n\
        author: \"carol\"\n\
        priority: medium\n\
        ---\n";
    let parsed = Task::parse(text).unwrap();
    assert_eq!(parsed.frontmatter.title, "a: b");
    assert_eq!(parsed.frontmatter.author.as_deref(), Some("carol"));
}

#[test]
fn test_timestamp_fractional_seconds_accepted() {
    // full-precision clocks write fractional seconds; they parse and the
    // fraction is dropped
    let ts = Timestamp::parse("2025-11-26T23:42:29.123456789Z").unwrap();
    assert_eq!(ts, Timestamp::new(2025, 11, 26, 23, 42, 29).unwrap());
    assert_eq!(Timestamp::parse("2025-11-26T23:42:29.Z"), None);
    assert_eq!(Timestamp::parse("2025-11-26T23:42:29.12x4Z"), None);
}

#[test]
fn test_parse_frontmatter_with_fractional_timestamps() {
    let text = "---\n\
        title: Plain\n\
        id: c3d4e5f6\n\
        created: 2025-11-26T23:42:29.123456789Z\n\
        updated: 2025-11-27T01:02:03.5Z\n\
        priority: medium\n\
        ---\n";
    let parsed = Task::parse(text).unwrap();
    assert_eq!(
        parsed.frontmatter.created,
        Timestamp::new(2025, 11, 26, 23, 42, 29).unwrap()
    );
    assert_eq!(
        parsed.frontmatter.updated,
        Timestamp::new(2025, 11, 27, 1, 2, 3).unwrap()
    );
}

#[test]
fn test_timestamp_roundtrip() {
    let ts = Timestamp::new(2026, 12, 31, 23, 59, 58).unwrap();
    let text = ts.render();
    assert_eq!(text, "2026-12-31T23:59:58Z");
    assert_eq!(Timestamp::parse(&text), Some(ts));
    assert_eq!(Timestamp::parse("2026-12-31T23:59:5Z"), None);
    assert_eq!(Timestamp::parse("2026-00-31T23:59:58Z"), None);
}

#[test]
fn test_timestamp_now_is_well_formed() {
    let now = Timestamp::now();
    assert!(now.year >= 2020);
    assert!((1..=12).contains(&now.month));
    assert!((1..=31).contains(&now.day));
    assert!(now.hour <= 23 && now.minute <= 59 && now.second <= 59);
}

#[test]
fn test_priority_names() {
    assert_eq!(Priority::parse_name("HIGH"), Ok(Priority::High));
    assert_eq!(Priority::parse_name("low"), Ok(Priority::Low));
    assert_eq!(
        Priority::parse_name("urgent"),
        Err(String::from("Invalid priority: urgent"))
    );
    assert_eq!(Priority::High.name(), "high");
}
