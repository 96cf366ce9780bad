use tasktrack::store::StoredFile;
use tasktrack::Config;
use tasktrack::PrefixResolver;
use tasktrack::Status;
use tasktrack::Store;
use tasktrack::StoreError;
use tasktrack::Task;
use tasktrack::TaskId;
use tasktrack::term::body_preview;
use tasktrack::Timestamp;

fn empty_store() -> Store {
    Store::open(
        String::from(".tasks"),
        Vec::new(),
        Config { default_author: Some(String::from("alice")) },
    )
}

fn store_with_stems(stems: &[&str]) -> Store {
    let mut files = Vec::new();
    for s in stems {
        files.push(StoredFile {
            status: Status::Open,
            stem: String::from(*s),
            content: String::new(),
        });
    }
    Store::open(String::from(".tasks"), files, Config { default_author: None })
}

#[test]
fn test_find_exact_and_prefix() {
    let store = store_with_stems(&["a1b2c3d4", "a1b2xxxx", "zzzzzzzz"]);
    assert_eq!(store.find("a1b2c3d4").unwrap(), ".tasks/open/a1b2c3d4.md");
    assert_eq!(store.find("zz").unwrap(), ".tasks/open/zzzzzzzz.md");
    assert_eq!(store.find("ZZ").unwrap(), ".tasks/open/zzzzzzzz.md");
}

#[test]
fn test_find_ambiguous_names_the_query() {
    // two tasks share the queried prefix: an ambiguity error, not a pick
    let store = store_with_stems(&["a1b2c3d4", "a1b2xxxx"]);
    match store.find("a1b2") {
        Err(StoreError::AmbiguousId(q)) => assert_eq!(q, "a1b2"),
        _ => panic!("expected an ambiguity error"),
    }
}

#[test]
fn test_find_not_found() {
    let store = store_with_stems(&["a1b2c3d4"]);
    match store.find("qqqq") {
        Err(StoreError::TaskNotFound(q)) => assert_eq!(q, "qqqq"),
        _ => panic!("expected a not-found error"),
    }
}

#[test]
fn test_status_from_path() {
    let store = empty_store();
    assert_eq!(
        store.status_from_path(".tasks/in-progress/a1b2c3d4.md"),
        Some(Status::InProgress)
    );
    assert_eq!(store.status_from_path(".tasks/open/x.md"), Some(Status::Open));
    assert_eq!(store.status_from_path(".tasks/attic/x.md"), None);
    assert_eq!(store.status_from_path("x.md"), None);
}

#[test]
fn test_create_save_load() {
    let mut store = empty_store();
    let task = Task::new("Write docs", Some(String::from("alice")));
    let path = store.create(&task).unwrap();
    assert!(path.starts_with(".tasks/open/"));
    let loaded = store.load(&path).unwrap();
    assert_eq!(loaded.title(), "Write docs");
    assert_eq!(loaded.id(), task.id());
    // save rewrites in place
    let mut edited = loaded;
    edited.frontmatter.title = String::from("Write better docs");
    store.save(&edited, &path).unwrap();
    assert_eq!(store.load(&path).unwrap().title(), "Write better docs");
}

#[test]
fn test_move_to_status() {
    let mut store = empty_store();
    let task = Task::new("Move me", None);
    let path = store.create(&task).unwrap();
    let new_path = store.move_to_status(&path, Status::Cancelled).unwrap();
    assert!(new_path.contains("/cancelled/"));
    assert!(store.load(&path).is_err());
    assert_eq!(store.load(&new_path).unwrap().title(), "Move me");
}

#[test]
fn test_state_machine_scenario() {
    // create lands in open/, start moves to in-progress/ and logs,
    // stop moves back to open/
    let mut store = empty_store();
    let now = Timestamp::now();
    let t1 = Task::new("T1", None);
    let path = store.create(&t1).unwrap();
    assert!(path.contains("/open/"));

    let out = store.start(t1.id().full(), &now).unwrap();
    assert!(out.new_path.contains("/in-progress/"));
    let started = store.load(&out.new_path).unwrap();
    assert!(started.log.contains("Started working."));

    let out2 = store.stop(t1.id().full(), &now).unwrap();
    assert!(out2.new_path.contains("/open/"));
    let stopped = store.load(&out2.new_path).unwrap();
    assert!(stopped.log.contains("Stopped working."));
}

#[test]
fn test_start_requires_open() {
    let mut store = empty_store();
    let now = Timestamp::now();
    let t1 = Task::new("T1", None);
    store.create(&t1).unwrap();
    store.start(t1.id().full(), &now).unwrap();
    match store.start(t1.id().full(), &now) {
        Err(StoreError::Parse(m)) => assert!(m.contains("in-progress")),
        _ => panic!("starting a task not in open must be a hard error"),
    }
}

#[test]
fn test_dependency_scenario() {
    // block T2 by T1; closing T1 auto-unblocks T2 and reports it
    let mut store = empty_store();
    let now = Timestamp::now();
    let t1 = Task::new("T1", None);
    let t2 = Task::new("T2", None);
    store.create(&t1).unwrap();
    store.create(&t2).unwrap();

    let out = store.block(t2.id().full(), t1.id().full(), &now).unwrap();
    assert!(out.moved);
    assert!(out.new_path.contains("/blocked/"));
    let blocked = store.load(&out.new_path).unwrap();
    assert_eq!(blocked.frontmatter.blocked_by, vec![t1.id().clone()]);

    let closed = store.close(t1.id().full(), None, &now).unwrap();
    assert!(!closed.already_closed);
    assert!(closed.new_path.contains("/closed/"));
    let expected_open = format!(".tasks/open/{}.md", t2.id().full());
    assert_eq!(closed.unblocked, vec![expected_open.clone()]);
    assert_eq!(store.load(&expected_open).unwrap().title(), "T2");
}

#[test]
fn test_close_already_closed_is_benign() {
    // closing twice: success, no state change, no extra log entry
    let mut store = empty_store();
    let now = Timestamp::now();
    let t1 = Task::new("T1", None);
    store.create(&t1).unwrap();
    let first = store.close(t1.id().full(), Some("done"), &now).unwrap();
    assert!(!first.already_closed);
    let log_after_close = store.load(&first.new_path).unwrap().log.clone();
    assert!(log_after_close.contains("Closed: done"));

    let second = store.close(t1.id().full(), None, &now).unwrap();
    assert!(second.already_closed);
    assert_eq!(store.load(&first.new_path).unwrap().log, log_after_close);
}

#[test]
fn test_close_needs_all_blockers_resolved() {
    // a task with two blockers is not unblocked until both resolve
    let mut store = empty_store();
    let now = Timestamp::now();
    let t1 = Task::new("T1", None);
    let t2 = Task::new("T2", None);
    let t3 = Task::new("T3", None);
    store.create(&t1).unwrap();
    store.create(&t2).unwrap();
    store.create(&t3).unwrap();
    store.block(t3.id().full(), t1.id().full(), &now).unwrap();
    store.block(t3.id().full(), t2.id().full(), &now).unwrap();

    let after_first = store.close(t1.id().full(), None, &now).unwrap();
    assert!(after_first.unblocked.is_empty());
    let after_second = store.close(t2.id().full(), None, &now).unwrap();
    assert_eq!(after_second.unblocked.len(), 1);
    assert!(after_second.unblocked[0].contains("/open/"));
}

#[test]
fn test_unblock_removes_edge() {
    let mut store = empty_store();
    let now = Timestamp::now();
    let t1 = Task::new("T1", None);
    let t2 = Task::new("T2", None);
    store.create(&t1).unwrap();
    store.create(&t2).unwrap();
    store.block(t2.id().full(), t1.id().full(), &now).unwrap();

    let out = store.unblock(t2.id().full(), t1.id().full(), &now).unwrap();
    assert!(out.moved);
    assert!(out.new_path.contains("/open/"));
    let task = store.load(&out.new_path).unwrap();
    assert!(task.frontmatter.blocked_by.is_empty());
    assert!(task.log.contains("Removed blocker:"));

    // removing an edge that is not there is an error
    assert!(store.unblock(t2.id().full(), t1.id().full(), &now).is_err());
}

#[test]
fn test_reopen() {
    let mut store = empty_store();
    let now = Timestamp::now();
    let t1 = Task::new("T1", None);
    store.create(&t1).unwrap();
    let again = store.reopen(t1.id().full(), &now).unwrap();
    assert!(again.already_open);
    store.close(t1.id().full(), None, &now).unwrap();
    let out = store.reopen(t1.id().full(), &now).unwrap();
    assert!(!out.already_open);
    assert!(out.new_path.contains("/open/"));
    assert!(store.load(&out.new_path).unwrap().log.contains("Reopened."));
}

#[test]
fn test_list_ready_dangling_blocker_counts_as_satisfied() {
    // a blocked_by identifier that names no stored task is treated as
    // resolved: a deliberate leniency
    let mut store = empty_store();
    let now = Timestamp::now();
    let t1 = Task::new("T1", None);
    store.create(&t1).unwrap();
    let path = store.find(t1.id().full()).unwrap();
    let mut task = store.load(&path).unwrap();
    task.frontmatter.blocked_by.push(TaskId::from_string("nosuchid"));
    store.save(&task, &path).unwrap();

    let ready = store.list_ready().unwrap();
    assert_eq!(ready.len(), 1);
    assert_eq!(ready[0].1.title(), "T1");

    // a real, unresolved blocker keeps the task out of the ready list
    let t2 = Task::new("T2", None);
    store.create(&t2).unwrap();
    store.block(t1.id().full(), t2.id().full(), &now).unwrap();
    let ready2 = store.list_ready().unwrap();
    assert_eq!(ready2.len(), 1);
    assert_eq!(ready2[0].1.title(), "T2");
}

#[test]
fn test_listings() {
    let mut store = empty_store();
    let now = Timestamp::now();
    let t1 = Task::new("T1", None);
    let t2 = Task::new("T2", None);
    store.create(&t1).unwrap();
    store.create(&t2).unwrap();
    store.close(t2.id().full(), None, &now).unwrap();
    assert_eq!(store.list_by_status(Status::Open).unwrap().len(), 1);
    assert_eq!(store.list_by_status(Status::Closed).unwrap().len(), 1);
    assert_eq!(store.list_active().unwrap().len(), 1);
    assert_eq!(store.list_all().unwrap().len(), 2);
}

#[test]
fn test_append_log_command() {
    let mut store = empty_store();
    let now = Timestamp::now();
    let t1 = Task::new("T1", None);
    store.create(&t1).unwrap();
    let out = store.append_log(t1.id().full(), "a field note", &now).unwrap();
    let task = store.load(&out.path).unwrap();
    assert!(task.log.contains("a field note"));
    // the configured default author signs the entry
    assert!(task.log.contains(" alice\n"));
}

#[test]
fn test_prefix_resolver() {
    let mut store = empty_store();
    let t1 = Task::new("T1", None);
    store.create(&t1).unwrap();
    let resolver = PrefixResolver::new(&store).unwrap();
    let p = resolver.shortest_prefix(t1.id());
    assert_eq!(p.len(), 1);
    assert!(t1.id().full().starts_with(&p));
}

#[test]
fn test_config_roundtrip() {
    let c = Config { default_author: Some(String::from("alice")) };
    let parsed = Config::parse(&c.render());
    assert_eq!(parsed.default_author.as_deref(), Some("alice"));
    let none = Config { default_author: None };
    assert_eq!(none.render(), "default_author: null\n");
    assert_eq!(Config::parse(&none.render()).default_author, None);
    assert_eq!(Config::parse("").default_author, None);
}

#[test]
fn test_config_quoting() {
    // an author literally named "null" survives a round trip, quoted
    let c = Config { default_author: Some(String::from("null")) };
    assert_eq!(c.render(), "default_author: 'null'\n");
    assert_eq!(
        Config::parse(&c.render()).default_author.as_deref(),
        Some("null")
    );
    // quoted values written by other tools read back unquoted
    assert_eq!(
        Config::parse("default_author: 'alice'\n").default_author.as_deref(),
        Some("alice")
    );
    assert_eq!(
        Config::parse("default_author: \"bob\"\n").default_author.as_deref(),
        Some("bob")
    );
}

#[test]
fn test_body_preview() {
    assert_eq!(body_preview("  \nfirst real line\nsecond", 80), "first real line");
    assert_eq!(body_preview("a very long first line", 10), "a very ...");
    assert_eq!(body_preview("## Log\nhidden", 80), "");
    assert_eq!(body_preview("", 80), "");
}

#[test]
fn test_error_messages() {
    let e = StoreError::TaskNotFound(String::from("abcd"));
    assert!(e.message().contains("abcd"));
    let a = StoreError::AmbiguousId(String::from("a1"));
    assert!(a.message().contains("a1"));
}
