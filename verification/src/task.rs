//! The task document model: status and priority, the metadata header, the
//! free-form body, and the append-only log. A document's status is never
//! part of the document itself; it is derived from where the file sits.
use crate::chars::is_trimmed;
use crate::chars::line_has_no_newline;
use crate::chars::spec_lower;
use crate::chars::spec_split_lines;
use crate::chars::spec_starts_with;
use crate::chars::str_concat;
use crate::chars::str_eq;
use crate::id::TaskId;
use crate::time::spec_render_ts;
use crate::time::Timestamp;
use vstd::prelude::*;
use vstd::string::StrSliceExecFns;
use vstd::string::StringExecFns;

verus! {

// ---------------------------------------------------------------------------
// Status
// ---------------------------------------------------------------------------
/// A task's lifecycle state, given purely by the directory its file is in.
#[derive(Debug, Clone, Copy, PartialEq, Eq, Structural)]
pub enum Status {
    Open,
    InProgress,
    Blocked,
    Closed,
    Cancelled,
}

impl Status {
    /// The directory name (and display name) of this status.
    pub open spec fn spec_name(self) -> Seq<char> {
        match self {
            Status::Open => "open"@,
            Status::InProgress => "in-progress"@,
            Status::Blocked => "blocked"@,
            Status::Closed => "closed"@,
            Status::Cancelled => "cancelled"@,
        }
    }

    /// Closed and cancelled are terminal: they satisfy downstream blockers.
    pub open spec fn spec_resolved(self) -> bool {
        self == Status::Closed || self == Status::Cancelled
    }

    pub fn name(&self) -> (r: &'static str)
        ensures
            r@ == self.spec_name(),
    {
        match self {
            Status::Open => "open",
            Status::InProgress => "in-progress",
            Status::Blocked => "blocked",
            Status::Closed => "closed",
            Status::Cancelled => "cancelled",
        }
    }

    pub fn is_resolved(&self) -> (r: bool)
        ensures
            r == self.spec_resolved(),
    {
        match self {
            Status::Closed => true,
            Status::Cancelled => true,
            _ => false,
        }
    }

    /// The status whose directory carries the given name, if any.
    pub fn from_dir_name(s: &str) -> (r: Option<Status>)
        ensures
            r == spec_status_of_dir(s@),
    {
        proof {
            reveal_strlit("open");
            reveal_strlit("in-progress");
            reveal_strlit("blocked");
            reveal_strlit("closed");
            reveal_strlit("cancelled");
        }
        if str_eq(s, "open") {
            Some(Status::Open)
        } else if str_eq(s, "in-progress") {
            Some(Status::InProgress)
        } else if str_eq(s, "blocked") {
            Some(Status::Blocked)
        } else if str_eq(s, "closed") {
            Some(Status::Closed)
        } else if str_eq(s, "cancelled") {
            Some(Status::Cancelled)
        } else {
            None
        }
    }
}

pub open spec fn spec_status_of_dir(s: Seq<char>) -> Option<Status> {
    if s == "open"@ {
        Some(Status::Open)
    } else if s == "in-progress"@ {
        Some(Status::InProgress)
    } else if s == "blocked"@ {
        Some(Status::Blocked)
    } else if s == "closed"@ {
        Some(Status::Closed)
    } else if s == "cancelled"@ {
        Some(Status::Cancelled)
    } else {
        None
    }
}

/// Directory names denote their statuses unambiguously.
pub proof fn lemma_status_dir_names(s: Status)
    ensures
        spec_status_of_dir(s.spec_name()) == Some(s),
{
    reveal_strlit("open");
    reveal_strlit("in-progress");
    reveal_strlit("blocked");
    reveal_strlit("closed");
    reveal_strlit("cancelled");
    match s {
        Status::Open => {
            assert(spec_status_of_dir("open"@) == Some(Status::Open));
        },
        Status::InProgress => {
            assert("in-progress"@.len() != "open"@.len());
            assert(spec_status_of_dir("in-progress"@) == Some(Status::InProgress));
        },
        Status::Blocked => {
            assert("blocked"@[0] != "open"@[0]);
            assert("blocked"@.len() != "in-progress"@.len());
            assert(spec_status_of_dir("blocked"@) == Some(Status::Blocked));
        },
        Status::Closed => {
            assert("closed"@[0] != "open"@[0]);
            assert("closed"@.len() != "in-progress"@.len());
            assert("closed"@.len() != "blocked"@.len());
            assert(spec_status_of_dir("closed"@) == Some(Status::Closed));
        },
        Status::Cancelled => {
            assert("cancelled"@[0] != "open"@[0]);
            assert("cancelled"@.len() != "in-progress"@.len());
            assert("cancelled"@.len() != "blocked"@.len());
            assert("cancelled"@.len() != "closed"@.len());
            assert(spec_status_of_dir("cancelled"@) == Some(Status::Cancelled));
        },
    }
}

impl Default for Status {
    fn default() -> (r: Status)
        ensures
            r == Status::Open,
    {
        Status::Open
    }
}

// ---------------------------------------------------------------------------
// Priority
// ---------------------------------------------------------------------------
#[derive(Debug, Clone, Copy, PartialEq, Eq, Structural)]
pub enum Priority {
    Low,
    Medium,
    High,
    Critical,
}

impl Priority {
    pub open spec fn spec_name(self) -> Seq<char> {
        match self {
            Priority::Low => "low"@,
            Priority::Medium => "medium"@,
            Priority::High => "high"@,
            Priority::Critical => "critical"@,
        }
    }

    pub fn name(&self) -> (r: &'static str)
        ensures
            r@ == self.spec_name(),
    {
        match self {
            Priority::Low => "low",
            Priority::Medium => "medium",
            Priority::High => "high",
            Priority::Critical => "critical",
        }
    }

    /// The priority with exactly the given lowercase name, if any.
    pub fn from_name(s: &str) -> (r: Option<Priority>)
        ensures
            r == spec_priority_of_name(s@),
    {
        proof {
            reveal_strlit("low");
            reveal_strlit("medium");
            reveal_strlit("high");
            reveal_strlit("critical");
        }
        if str_eq(s, "low") {
            Some(Priority::Low)
        } else if str_eq(s, "medium") {
            Some(Priority::Medium)
        } else if str_eq(s, "high") {
            Some(Priority::High)
        } else if str_eq(s, "critical") {
            Some(Priority::Critical)
        } else {
            None
        }
    }

    /// Reads a priority from user input, ignoring ASCII case; the error
    /// names the rejected input.
    pub fn parse_name(s: &str) -> (r: Result<Priority, String>)
        ensures
            match r {
                Ok(p) => spec_priority_of_name(spec_lower(s@)) == Some(p),
                Err(m) => spec_priority_of_name(spec_lower(s@)) is None && m@ ==
                    "Invalid priority: "@ + s@,
            },
    {
        let folded = crate::chars::fold_lower(s);
        match Priority::from_name(folded.as_str()) {
            Some(p) => Ok(p),
            None => Err(str_concat("Invalid priority: ", s)),
        }
    }
}

pub open spec fn spec_priority_of_name(s: Seq<char>) -> Option<Priority> {
    if s == "low"@ {
        Some(Priority::Low)
    } else if s == "medium"@ {
        Some(Priority::Medium)
    } else if s == "high"@ {
        Some(Priority::High)
    } else if s == "critical"@ {
        Some(Priority::Critical)
    } else {
        None
    }
}

/// Priority names parse back to their priorities.
pub proof fn lemma_priority_names(p: Priority)
    ensures
        spec_priority_of_name(p.spec_name()) == Some(p),
{
    reveal_strlit("low");
    reveal_strlit("medium");
    reveal_strlit("high");
    reveal_strlit("critical");
    match p {
        Priority::Low => {
            assert(spec_priority_of_name("low"@) == Some(Priority::Low));
        },
        Priority::Medium => {
            assert("medium"@.len() != "low"@.len());
            assert(spec_priority_of_name("medium"@) == Some(Priority::Medium));
        },
        Priority::High => {
            assert("high"@.len() != "low"@.len());
            assert("high"@.len() != "medium"@.len());
            assert(spec_priority_of_name("high"@) == Some(Priority::High));
        },
        Priority::Critical => {
            assert("critical"@.len() != "low"@.len());
            assert("critical"@.len() != "medium"@.len());
            assert("critical"@.len() != "high"@.len());
            assert(spec_priority_of_name("critical"@) == Some(Priority::Critical));
        },
    }
}

impl Default for Priority {
    fn default() -> (r: Priority)
        ensures
            r == Priority::Medium,
    {
        Priority::Medium
    }
}

// ---------------------------------------------------------------------------
// The document and its spec-level value
// ---------------------------------------------------------------------------
/// The metadata header of a task document. Status is deliberately absent.
#[derive(Debug)]
pub struct TaskFrontmatter {
    pub title: String,
    pub id: TaskId,
    pub created: Timestamp,
    pub updated: Timestamp,
    pub author: Option<String>,
    pub priority: Priority,
    pub tags: Vec<String>,
    pub blocked_by: Vec<TaskId>,
    pub blocks: Vec<TaskId>,
    pub parent: Option<TaskId>,
    pub children: Vec<TaskId>,
}

/// A complete task document: header, body, and append-only log.
#[derive(Debug)]
pub struct Task {
    pub frontmatter: TaskFrontmatter,
    pub body: String,
    pub log: String,
}

/// The mathematical value of a task document.
#[verifier::ext_equal]
pub struct TaskView {
    pub title: Seq<char>,
    pub id: Seq<char>,
    pub created: Timestamp,
    pub updated: Timestamp,
    pub author: Option<Seq<char>>,
    pub priority: Priority,
    pub tags: Seq<Seq<char>>,
    pub blocked_by: Seq<Seq<char>>,
    pub blocks: Seq<Seq<char>>,
    pub parent: Option<Seq<char>>,
    pub children: Seq<Seq<char>>,
    pub body: Seq<char>,
    pub log: Seq<char>,
}

impl View for Task {
    type V = TaskView;

    open spec fn view(&self) -> TaskView {
        TaskView {
            title: self.frontmatter.title@,
            id: self.frontmatter.id@,
            created: self.frontmatter.created,
            updated: self.frontmatter.updated,
            author: self.frontmatter.author.deep_view(),
            priority: self.frontmatter.priority,
            tags: self.frontmatter.tags.deep_view(),
            blocked_by: self.frontmatter.blocked_by.deep_view(),
            blocks: self.frontmatter.blocks.deep_view(),
            parent: self.frontmatter.parent.deep_view(),
            children: self.frontmatter.children.deep_view(),
            body: self.body@,
            log: self.log@,
        }
    }
}

pub open spec fn lines_no_newline_all(ls: Seq<Seq<char>>) -> bool {
    forall|i: int| 0 <= i < ls.len() ==> line_has_no_newline(#[trigger] ls[i])
}

impl TaskView {
    /// A valid document: header values fit on one line each, the timestamps
    /// are renderable, the body carries no leading or trailing whitespace,
    /// and neither body nor log can be mistaken for the log heading.
    pub open spec fn wf(self) -> bool {
        &&& line_has_no_newline(self.title)
        &&& line_has_no_newline(self.id)
        &&& self.created.wf()
        &&& self.updated.wf()
        &&& (match self.author {
            Some(a) => line_has_no_newline(a),
            None => true,
        })
        &&& lines_no_newline_all(self.tags)
        &&& lines_no_newline_all(self.blocked_by)
        &&& lines_no_newline_all(self.blocks)
        &&& (match self.parent {
            Some(p) => line_has_no_newline(p),
            None => true,
        })
        &&& lines_no_newline_all(self.children)
        &&& is_trimmed(self.body)
        &&& !has_log_marker_pair(spec_split_lines(self.body))
    }
}

/// Whether some line is exactly `---` and the next line opens a `## Log`
/// heading; such a pair marks the start of the log section.
pub open spec fn has_log_marker_pair(ls: Seq<Seq<char>>) -> bool {
    exists|k: int|
        0 <= k && k + 1 < ls.len() && (#[trigger] ls[k]) == "---"@ && spec_starts_with(
            ls[k + 1],
            "## Log"@,
        )
}

/// The author under which a log entry is written: the explicit argument,
/// else the document's author, else "unknown".
pub open spec fn spec_resolve_author(
    given: Option<Seq<char>>,
    doc: Option<Seq<char>>,
) -> Seq<char> {
    match given {
        Some(a) => a,
        None => match doc {
            Some(a) => a,
            None => "unknown"@,
        },
    }
}

/// One log entry as appended to an existing log.
pub open spec fn spec_log_entry(ts: Timestamp, author: Seq<char>, message: Seq<char>) -> Seq<
    char,
> {
    "\n---\n# Log: "@ + spec_render_ts(ts) + seq![' '] + author + "\n\n"@ + message + "\n"@
}

/// The log of a freshly created task: a single "Created task." entry.
pub open spec fn spec_log_seed(ts: Timestamp, author: Seq<char>) -> Seq<char> {
    "---\n# Log: "@ + spec_render_ts(ts) + seq![' '] + author + "\n\nCreated task.\n"@
}

impl Task {
    /// Create a new task: fresh identifier, both timestamps at the current
    /// moment, default priority, empty body, and a log seeded with one
    /// "Created task." entry.
    pub fn new(title: &str, author: Option<String>) -> (r: Task)
        ensures
            r@.title == title@,
            r@.id.len() == 8,
            forall|i: int| 0 <= i < 8 ==> crate::id::is_alphabet_char(#[trigger] r@.id[i]),
            r@.created.wf(),
            r@.updated == r@.created,
            r@.author == author.deep_view(),
            r@.priority == Priority::Medium,
            r@.tags.len() == 0,
            r@.blocked_by.len() == 0,
            r@.blocks.len() == 0,
            r@.parent is None,
            r@.children.len() == 0,
            r@.body.len() == 0,
            r@.log == spec_log_seed(
                r@.created,
                spec_resolve_author(None, author.deep_view()),
            ),
    {
        let now = Timestamp::now();
        let id = TaskId::new();
        let mut log = String::from_str("---\n# Log: ");
        let ts = now.render();
        log.append(ts.as_str());
        crate::chars::push_char(&mut log, ' ');
        match &author {
            Some(a) => { log.append(a.as_str()) },
            None => { log.append("unknown") },
        }
        log.append("\n\nCreated task.\n");
        proof {
            match author.deep_view() {
                Some(a) => {
                    assert(log@ =~= spec_log_seed(now, spec_resolve_author(None, Some(a))));
                },
                None => {
                    reveal_strlit("unknown");
                    assert(log@ =~= spec_log_seed(
                        now,
                        spec_resolve_author(None, None::<Seq<char>>),
                    ));
                },
            }
        }
        let frontmatter = TaskFrontmatter {
            title: String::from_str(title),
            id,
            created: now,
            updated: now,
            author,
            priority: Priority::Medium,
            tags: Vec::new(),
            blocked_by: Vec::new(),
            blocks: Vec::new(),
            parent: None,
            children: Vec::new(),
        };
        Task { frontmatter, body: String::new(), log }
    }

    /// Append a log entry at the given moment and refresh `updated`; this is
    /// the only way log content ever changes, and it only grows.
    pub fn add_log_at(&mut self, message: &str, author: Option<&str>, now: &Timestamp)
        ensures
            final(self)@ == (TaskView {
                updated: *now,
                log: old(self)@.log + spec_log_entry(
                    *now,
                    spec_resolve_author(author.deep_view(), old(self)@.author),
                    message@,
                ),
                ..old(self)@
            }),
    {
        let mut entry = String::from_str("\n---\n# Log: ");
        let ts = now.render();
        entry.append(ts.as_str());
        crate::chars::push_char(&mut entry, ' ');
        match author {
            Some(a) => { entry.append(a) },
            None => {
                match &self.frontmatter.author {
                    Some(a) => { entry.append(a.as_str()) },
                    None => {
                        proof {
                            reveal_strlit("unknown");
                        }
                        entry.append("unknown")
                    },
                }
            },
        }
        entry.append("\n\n");
        entry.append(message);
        entry.append("\n");
        proof {
            assert(entry@ =~= spec_log_entry(
                *now,
                spec_resolve_author(author.deep_view(), self@.author),
                message@,
            ));
        }
        self.log.append(entry.as_str());
        self.frontmatter.updated = *now;
        proof {
            assert(self@ =~= (TaskView {
                updated: *now,
                log: old(self)@.log + spec_log_entry(
                    *now,
                    spec_resolve_author(author.deep_view(), old(self)@.author),
                    message@,
                ),
                ..old(self)@
            }));
        }
    }

    /// Append a log entry at the current moment.
    pub fn add_log(&mut self, message: &str, author: Option<&str>)
        ensures
            final(self)@.updated.wf(),
            final(self)@ == (TaskView {
                updated: final(self)@.updated,
                log: old(self)@.log + spec_log_entry(
                    final(self)@.updated,
                    spec_resolve_author(author.deep_view(), old(self)@.author),
                    message@,
                ),
                ..old(self)@
            }),
    {
        let now = Timestamp::now();
        self.add_log_at(message, author, &now);
    }

    /// The task's identifier.
    pub fn id(&self) -> (r: &TaskId)
        ensures
            r@ == self@.id,
    {
        &self.frontmatter.id
    }

    /// The task's title.
    pub fn title(&self) -> (r: &str)
        ensures
            r@ == self@.title,
    {
        self.frontmatter.title.as_str()
    }

    /// The task's priority.
    pub fn priority(&self) -> (r: Priority)
        ensures
            r == self@.priority,
    {
        self.frontmatter.priority
    }
}

fn clone_string_vec(v: &Vec<String>) -> (r: Vec<String>)
    ensures
        r.deep_view() == v.deep_view(),
{
    let mut out: Vec<String> = Vec::new();
    let mut i: usize = 0;
    while i < v.len()
        invariant
            i <= v@.len(),
            out@.len() == i,
            forall|j: int| 0 <= j < i ==> (#[trigger] out@[j]).deep_view() == v@[j].deep_view(),
        decreases v@.len() - i,
    {
        out.push(v[i].clone());
        i = i + 1;
    }
    proof {
        assert forall|j: int| 0 <= j < v@.len() implies out.deep_view()[j] == v.deep_view()[j] by {
            assert(out@[j].deep_view() == v@[j].deep_view());
        }
        assert(out.deep_view() =~= v.deep_view());
    }
    out
}

fn clone_id_vec(v: &Vec<TaskId>) -> (r: Vec<TaskId>)
    ensures
        r.deep_view() == v.deep_view(),
{
    let mut out: Vec<TaskId> = Vec::new();
    let mut i: usize = 0;
    while i < v.len()
        invariant
            i <= v@.len(),
            out@.len() == i,
            forall|j: int| 0 <= j < i ==> (#[trigger] out@[j]).deep_view() == v@[j].deep_view(),
        decreases v@.len() - i,
    {
        out.push(v[i].clone());
        i = i + 1;
    }
    proof {
        assert forall|j: int| 0 <= j < v@.len() implies out.deep_view()[j] == v.deep_view()[j] by {
            assert(out@[j].deep_view() == v@[j].deep_view());
        }
        assert(out.deep_view() =~= v.deep_view());
    }
    out
}

impl Clone for TaskFrontmatter {
    fn clone(&self) -> (r: Self)
        ensures
            r.title@ == self.title@,
            r.id@ == self.id@,
            r.created == self.created,
            r.updated == self.updated,
            r.author.deep_view() == self.author.deep_view(),
            r.priority == self.priority,
            r.tags.deep_view() == self.tags.deep_view(),
            r.blocked_by.deep_view() == self.blocked_by.deep_view(),
            r.blocks.deep_view() == self.blocks.deep_view(),
            r.parent.deep_view() == self.parent.deep_view(),
            r.children.deep_view() == self.children.deep_view(),
    {
        TaskFrontmatter {
            title: self.title.clone(),
            id: self.id.clone(),
            created: self.created,
            updated: self.updated,
            author: match &self.author {
                Some(a) => Some(a.clone()),
                None => None,
            },
            priority: self.priority,
            tags: clone_string_vec(&self.tags),
            blocked_by: clone_id_vec(&self.blocked_by),
            blocks: clone_id_vec(&self.blocks),
            parent: match &self.parent {
                Some(p) => Some(p.clone()),
                None => None,
            },
            children: clone_id_vec(&self.children),
        }
    }
}

impl Clone for Task {
    fn clone(&self) -> (r: Self)
        ensures
            r@ == self@,
    {
        let r = Task {
            frontmatter: self.frontmatter.clone(),
            body: self.body.clone(),
            log: self.log.clone(),
        };
        proof {
            assert(r@ =~= self@);
        }
        r
    }
}

} // verus!
