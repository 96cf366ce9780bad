//! The task store's state machine over an in-memory image of the status
//! directory tree. Each entry stands for one `<stem>.md` file in one status
//! directory; the caller reads the tree into a store, and mirrors the
//! store's reported writes and renames back onto disk.
use crate::chars::push_char;
use crate::chars::str_eq;
use crate::config::Config;
use crate::format::spec_parse;
use crate::format::spec_to_markdown;
use crate::id::TaskId;
use crate::task::Status;
use crate::task::Task;
use crate::task::TaskView;
use crate::time::Timestamp;
use vstd::prelude::*;
use vstd::string::StrSliceExecFns;
use vstd::string::StringExecFns;

verus! {

/// The errors a store operation can report.
#[derive(Debug)]
pub enum StoreError {
    NotInitialized,
    AlreadyInitialized,
    TaskNotFound(String),
    AmbiguousId(String),
    Io(String),
    Parse(String),
}

impl StoreError {
    /// A human-readable account of the error; a lookup error always names
    /// the query it was given.
    pub fn message(&self) -> (r: String)
        ensures
            match self {
                StoreError::NotInitialized => r@ ==
                    "Not a task-tracker directory. Initialize a store first."@,
                StoreError::AlreadyInitialized => r@ == "Task directory already exists"@,
                StoreError::TaskNotFound(q) => r@ == "Task not found: "@ + q@,
                StoreError::AmbiguousId(q) => r@ == "Ambiguous ID '"@ + q@
                    + "' matches multiple tasks"@,
                StoreError::Io(m) => r@ == "IO error: "@ + m@,
                StoreError::Parse(m) => r@ == "Parse error: "@ + m@,
            },
    {
        match self {
            StoreError::NotInitialized => String::from_str(
                "Not a task-tracker directory. Initialize a store first.",
            ),
            StoreError::AlreadyInitialized => String::from_str("Task directory already exists"),
            StoreError::TaskNotFound(q) => crate::chars::str_concat(
                "Task not found: ",
                q.as_str(),
            ),
            StoreError::AmbiguousId(q) => {
                let mut m = String::from_str("Ambiguous ID '");
                m.append(q.as_str());
                m.append("' matches multiple tasks");
                proof {
                    assert(m@ =~= "Ambiguous ID '"@ + q@ + "' matches multiple tasks"@);
                }
                m
            },
            StoreError::Io(m) => crate::chars::str_concat("IO error: ", m.as_str()),
            StoreError::Parse(m) => crate::chars::str_concat("Parse error: ", m.as_str()),
        }
    }
}

/// One file of the store: its status directory, its filename stem, and its
/// full text.
#[derive(Debug)]
pub struct StoredFile {
    pub status: Status,
    pub stem: String,
    pub content: String,
}

/// The mathematical value of a stored file.
#[verifier::ext_equal]
pub struct FileModel {
    pub status: Status,
    pub stem: Seq<char>,
    pub content: Seq<char>,
}

impl View for StoredFile {
    type V = FileModel;

    open spec fn view(&self) -> FileModel {
        FileModel { status: self.status, stem: self.stem@, content: self.content@ }
    }
}

impl DeepView for StoredFile {
    type V = FileModel;

    open spec fn deep_view(&self) -> FileModel {
        self.view()
    }
}

/// The mathematical value of a store.
#[verifier::ext_equal]
pub struct StoreModel {
    pub tasks_dir: Seq<char>,
    pub author: Option<Seq<char>>,
    pub files: Seq<FileModel>,
}

/// File-backed task store with directory-derived status.
pub struct Store {
    tasks_dir: String,
    config: Config,
    files: Vec<StoredFile>,
}

impl View for Store {
    type V = StoreModel;

    closed spec fn view(&self) -> StoreModel {
        StoreModel {
            tasks_dir: self.tasks_dir@,
            author: self.config.default_author.deep_view(),
            files: self.files.deep_view(),
        }
    }
}

/// The path of a file with the given stem in the given status directory.
pub open spec fn spec_path(dir: Seq<char>, status: Status, stem: Seq<char>) -> Seq<char> {
    dir + "/"@ + status.spec_name() + "/"@ + stem + ".md"@
}

/// The path of the store's file at index `i`.
pub open spec fn file_path(m: StoreModel, i: int) -> Seq<char> {
    spec_path(m.tasks_dir, m.files[i].status, m.files[i].stem)
}

/// Index of the first file whose path is `p`, if any.
pub open spec fn sp_first_at_path_from(m: StoreModel, p: Seq<char>, i: int) -> Option<int>
    decreases m.files.len() - i,
{
    if i < 0 || i >= m.files.len() {
        None
    } else if file_path(m, i) == p {
        Some(i)
    } else {
        sp_first_at_path_from(m, p, i + 1)
    }
}

pub open spec fn sp_first_at_path(m: StoreModel, p: Seq<char>) -> Option<int> {
    sp_first_at_path_from(m, p, 0)
}

/// Index of the first file whose stem is exactly `q`, if any.
pub open spec fn sp_first_exact_from(fs: Seq<FileModel>, q: Seq<char>, i: int) -> Option<int>
    decreases fs.len() - i,
{
    if i < 0 || i >= fs.len() {
        None
    } else if fs[i].stem == q {
        Some(i)
    } else {
        sp_first_exact_from(fs, q, i + 1)
    }
}

pub open spec fn sp_first_exact(fs: Seq<FileModel>, q: Seq<char>) -> Option<int> {
    sp_first_exact_from(fs, q, 0)
}

/// Whether the file's stem matches `q` as a case-insensitive prefix.
pub open spec fn is_prefix_match(f: FileModel, q: Seq<char>) -> bool {
    crate::id::spec_matches_prefix(f.stem, q)
}

/// How many files match `q` as a prefix.
pub open spec fn sp_prefix_count(fs: Seq<FileModel>, q: Seq<char>) -> int
    decreases fs.len(),
{
    if fs.len() == 0 {
        0
    } else {
        sp_prefix_count(fs.drop_last(), q) + if is_prefix_match(fs.last(), q) {
            1 as int
        } else {
            0 as int
        }
    }
}

/// Index of the first file matching `q` as a prefix, if any.
pub open spec fn sp_first_prefix_from(fs: Seq<FileModel>, q: Seq<char>, i: int) -> Option<int>
    decreases fs.len() - i,
{
    if i < 0 || i >= fs.len() {
        None
    } else if is_prefix_match(fs[i], q) {
        Some(i)
    } else {
        sp_first_prefix_from(fs, q, i + 1)
    }
}

pub open spec fn sp_first_prefix(fs: Seq<FileModel>, q: Seq<char>) -> Option<int> {
    sp_first_prefix_from(fs, q, 0)
}

/// The file that a lookup of `q` resolves to: an exact stem match first,
/// else the single prefix match.
pub open spec fn sp_find_index(m: StoreModel, q: Seq<char>) -> Option<int> {
    match sp_first_exact(m.files, q) {
        Some(i) => Some(i),
        None => if sp_prefix_count(m.files, q) == 1 {
            sp_first_prefix(m.files, q)
        } else {
            None
        },
    }
}

proof fn lemma_prefix_count_take(fs: Seq<FileModel>, q: Seq<char>, i: int)
    requires
        0 <= i < fs.len(),
    ensures
        sp_prefix_count(fs.subrange(0, i + 1), q) == sp_prefix_count(fs.subrange(0, i), q) + if
            is_prefix_match(fs[i], q) {
            1 as int
        } else {
            0 as int
        },
{
    let a = fs.subrange(0, i + 1);
    assert(a.drop_last() =~= fs.subrange(0, i));
    assert(a.last() == fs[i]);
}

proof fn lemma_first_exact_at(fs: Seq<FileModel>, q: Seq<char>, p: int)
    requires
        0 <= p < fs.len(),
        fs[p].stem == q,
        forall|j: int| 0 <= j < p ==> fs[j].stem != q,
    ensures
        sp_first_exact(fs, q) == Some(p),
{
    lemma_first_exact_from_at(fs, q, 0, p);
}

proof fn lemma_first_exact_from_at(fs: Seq<FileModel>, q: Seq<char>, from: int, p: int)
    requires
        0 <= from <= p < fs.len(),
        fs[p].stem == q,
        forall|j: int| from <= j < p ==> fs[j].stem != q,
    ensures
        sp_first_exact_from(fs, q, from) == Some(p),
    decreases p - from,
{
    if from < p {
        lemma_first_exact_from_at(fs, q, from + 1, p);
    }
}

proof fn lemma_first_exact_none(fs: Seq<FileModel>, q: Seq<char>, from: int)
    requires
        0 <= from,
        forall|j: int| from <= j < fs.len() ==> fs[j].stem != q,
    ensures
        sp_first_exact_from(fs, q, from) is None,
    decreases fs.len() - from,
{
    if from < fs.len() {
        lemma_first_exact_none(fs, q, from + 1);
    }
}

proof fn lemma_first_prefix_at(fs: Seq<FileModel>, q: Seq<char>, from: int, p: int)
    requires
        0 <= from <= p < fs.len(),
        is_prefix_match(fs[p], q),
        forall|j: int| from <= j < p ==> !is_prefix_match(fs[j], q),
    ensures
        sp_first_prefix_from(fs, q, from) == Some(p),
    decreases p - from,
{
    if from < p {
        lemma_first_prefix_at(fs, q, from + 1, p);
    }
}

proof fn lemma_first_at_path_at(m: StoreModel, p: Seq<char>, from: int, i: int)
    requires
        0 <= from <= i < m.files.len(),
        file_path(m, i) == p,
        forall|j: int| from <= j < i ==> file_path(m, j) != p,
    ensures
        sp_first_at_path_from(m, p, from) == Some(i),
    decreases i - from,
{
    if from < i {
        lemma_first_at_path_at(m, p, from + 1, i);
    }
}

proof fn lemma_first_at_path_none(m: StoreModel, p: Seq<char>, from: int)
    requires
        0 <= from,
        forall|j: int| from <= j < m.files.len() ==> file_path(m, j) != p,
    ensures
        sp_first_at_path_from(m, p, from) is None,
    decreases m.files.len() - from,
{
    if from < m.files.len() {
        lemma_first_at_path_none(m, p, from + 1);
    }
}

impl Store {
    /// A store over the given directory path, file image, and configuration.
    pub fn open(tasks_dir: String, files: Vec<StoredFile>, config: Config) -> (r: Store)
        ensures
            r@.tasks_dir == tasks_dir@,
            r@.files == files.deep_view(),
            r@.author == config.default_author.deep_view(),
    {
        Store { tasks_dir, config, files }
    }

    /// The store's root directory path.
    pub fn tasks_dir(&self) -> (r: &str)
        ensures
            r@ == self@.tasks_dir,
    {
        self.tasks_dir.as_str()
    }

    /// The configured default author, if any.
    pub fn get_author(&self) -> (r: Option<String>)
        ensures
            r.deep_view() == self@.author,
    {
        match &self.config.default_author {
            Some(a) => Some(a.clone()),
            None => None,
        }
    }

    /// The number of files the store holds.
    pub fn file_count(&self) -> (r: usize)
        ensures
            r == self@.files.len(),
    {
        self.files.len()
    }

    /// The path of the file with the given stem under the given status.
    pub fn path_of(&self, status: Status, stem: &str) -> (r: String)
        ensures
            r@ == spec_path(self@.tasks_dir, status, stem@),
    {
        let mut p = self.tasks_dir.clone();
        push_char(&mut p, '/');
        p.append(status.name());
        push_char(&mut p, '/');
        p.append(stem);
        p.append(".md");
        proof {
            reveal_strlit("/");
            assert(p@ =~= spec_path(self@.tasks_dir, status, stem@));
        }
        p
    }

    /// The status named by the parent directory of the given path.
    pub fn status_from_path(&self, path: &str) -> (r: Option<Status>)
        ensures
            r == spec_status_from_path(path@),
    {
        let n = path.unicode_len();
        proof {
            assert(path@.subrange(0, n as int) =~= path@);
        }
        match rfind_char(path, '/', n) {
            None => None,
            Some(j) => {
                let before = path.substring_char(0, j);
                proof {
                    assert(before@.subrange(0, j as int) =~= before@);
                }
                match rfind_char(before, '/', j) {
                    None => Status::from_dir_name(before),
                    Some(k) => {
                        let name = before.substring_char(k + 1, j);
                        proof {
                            assert(name@ =~= before@.subrange(k + 1, before@.len() as int));
                        }
                        Status::from_dir_name(name)
                    },
                }
            },
        }
    }

    /// Looks a task up by its full identifier or by a case-insensitive
    /// prefix: an exact filename match wins outright; otherwise exactly one
    /// prefix match must exist. Zero matches is a not-found error; several,
    /// an ambiguity error naming the query.
    pub fn find(&self, id_or_prefix: &str) -> (r: Result<String, StoreError>)
        ensures
            match r {
                Ok(p) => sp_find_index(self@, id_or_prefix@) matches Some(i) && p@ == file_path(
                    self@,
                    i,
                ),
                Err(StoreError::TaskNotFound(s)) => s@ == id_or_prefix@ && sp_first_exact(
                    self@.files,
                    id_or_prefix@,
                ) is None && sp_prefix_count(self@.files, id_or_prefix@) == 0,
                Err(StoreError::AmbiguousId(s)) => s@ == id_or_prefix@ && sp_first_exact(
                    self@.files,
                    id_or_prefix@,
                ) is None && sp_prefix_count(self@.files, id_or_prefix@) >= 2,
                Err(_) => false,
            },
    {
        match self.find_index(id_or_prefix) {
            Ok(i) => {
                let f = &self.files[i];
                Ok(self.path_of(f.status, f.stem.as_str()))
            },
            Err(e) => Err(e),
        }
    }

    /// Index form of `find`.
    pub(crate) fn find_index(&self, q: &str) -> (r: Result<usize, StoreError>)
        ensures
            match r {
                Ok(i) => sp_find_index(self@, q@) == Some(i as int) && i < self@.files.len(),
                Err(StoreError::TaskNotFound(s)) => s@ == q@ && sp_first_exact(self@.files, q@)
                    is None && sp_prefix_count(self@.files, q@) == 0,
                Err(StoreError::AmbiguousId(s)) => s@ == q@ && sp_first_exact(self@.files, q@)
                    is None && sp_prefix_count(self@.files, q@) >= 2,
                Err(_) => false,
            },
    {
        let ghost fs = self@.files;
        let n = self.files.len();
        let mut count: usize = 0;
        let mut first_prefix: Option<usize> = None;
        let mut i: usize = 0;
        while i < n
            invariant
                n == fs.len(),
                fs == self@.files,
                i <= n,
                count <= i,
                forall|j: int| 0 <= j < i ==> (#[trigger] fs[j]).stem != q@,
                count == sp_prefix_count(fs.subrange(0, i as int), q@),
                match first_prefix {
                    Some(fp) => fp < i && is_prefix_match(fs[fp as int], q@) && forall|j: int|
                        0 <= j < fp ==> !is_prefix_match(#[trigger] fs[j], q@),
                    None => count == 0 && forall|j: int|
                        0 <= j < i ==> !is_prefix_match(#[trigger] fs[j], q@),
                },
            decreases n - i,
        {
            proof {
                assert(fs[i as int] == self.files@[i as int]@);
                lemma_prefix_count_take(fs, q@, i as int);
            }
            if str_eq(self.files[i].stem.as_str(), q) {
                proof {
                    lemma_first_exact_at(fs, q@, i as int);
                }
                return Ok(i);
            }
            if self.files[i].stem.as_str().unicode_len() >= q.unicode_len() && TaskId::from_string(
                self.files[i].stem.as_str(),
            ).matches_prefix(q) {
                count = count + 1;
                if first_prefix.is_none() {
                    first_prefix = Some(i);
                }
            } else {
                proof {
                    assert(!is_prefix_match(fs[i as int], q@));
                }
            }
            i = i + 1;
        }
        proof {
            lemma_first_exact_none(fs, q@, 0);
            assert(fs.subrange(0, n as int) =~= fs);
        }
        if count == 0 {
            Err(StoreError::TaskNotFound(String::from_str(q)))
        } else if count == 1 {
            match first_prefix {
                Some(fp) => {
                    proof {
                        lemma_first_prefix_at(fs, q@, 0, fp as int);
                    }
                    Ok(fp)
                },
                None => {
                    proof {
                        assert(false);
                    }
                    Err(StoreError::TaskNotFound(String::from_str(q)))
                },
            }
        } else {
            Err(StoreError::AmbiguousId(String::from_str(q)))
        }
    }

    /// Index of the first file stored at the given path, if any.
    fn index_at_path(&self, path: &str) -> (r: Option<usize>)
        ensures
            match r {
                Some(i) => sp_first_at_path(self@, path@) == Some(i as int) && i
                    < self@.files.len(),
                None => sp_first_at_path(self@, path@) is None,
            },
    {
        let n = self.files.len();
        let mut i: usize = 0;
        while i < n
            invariant
                n == self@.files.len(),
                i <= n,
                forall|j: int| 0 <= j < i ==> file_path(self@, j) != path@,
            decreases n - i,
        {
            let f = &self.files[i];
            let p = self.path_of(f.status, f.stem.as_str());
            proof {
                assert(self@.files[i as int] == self.files@[i as int]@);
            }
            if str_eq(p.as_str(), path) {
                proof {
                    lemma_first_at_path_at(self@, path@, 0, i as int);
                }
                return Some(i);
            }
            i = i + 1;
        }
        proof {
            lemma_first_at_path_none(self@, path@, 0);
        }
        None
    }

    /// Whether a file other than the one at `excl` sits at the given path.
    fn any_other_at_path(&self, path: &str, excl: usize) -> (r: bool)
        ensures
            r == exists|j: int|
                0 <= j < self@.files.len() && j != excl && #[trigger] file_path(self@, j)
                    == path@,
    {
        let n = self.files.len();
        let mut i: usize = 0;
        while i < n
            invariant
                n == self@.files.len(),
                i <= n,
                forall|j: int|
                    0 <= j < i && j != excl ==> #[trigger] file_path(self@, j) != path@,
            decreases n - i,
        {
            if i != excl {
                let f = &self.files[i];
                let p = self.path_of(f.status, f.stem.as_str());
                proof {
                    assert(self@.files[i as int] == self.files@[i as int]@);
                }
                if str_eq(p.as_str(), path) {
                    proof {
                        assert(file_path(self@, i as int) == path@);
                    }
                    return true;
                }
            }
            i = i + 1;
        }
        false
    }

    /// Loads and parses the task stored at the given path.
    pub fn load(&self, path: &str) -> (r: Result<Task, StoreError>)
        ensures
            match r {
                Ok(t) => sp_first_at_path(self@, path@) matches Some(i) && spec_parse(
                    self@.files[i].content,
                ) == Some(t@),
                Err(StoreError::Parse(_)) => sp_first_at_path(self@, path@) matches Some(i)
                    && spec_parse(self@.files[i].content) is None,
                Err(StoreError::Io(_)) => sp_first_at_path(self@, path@) is None,
                Err(_) => false,
            },
    {
        match self.index_at_path(path) {
            Some(i) => {
                proof {
                    assert(self@.files[i as int] == self.files@[i as int]@);
                }
                match Task::parse(self.files[i].content.as_str()) {
                    Ok(t) => Ok(t),
                    Err(e) => Err(StoreError::Parse(e)),
                }
            },
            None => Err(StoreError::Io(crate::chars::str_concat("no such file: ", path))),
        }
    }

    /// Writes the task's serialized text at the given path: over the file
    /// stored there, or as a new file when the path names a spot in one of
    /// the status directories.
    pub fn save(&mut self, task: &Task, path: &str) -> (r: Result<(), StoreError>)
        ensures
            match r {
                Ok(()) => {
                    &&& final(self)@.tasks_dir == old(self)@.tasks_dir
                    &&& final(self)@.author == old(self)@.author
                    &&& match sp_first_at_path(old(self)@, path@) {
                        Some(i) => final(self)@.files == old(self)@.files.update(
                            i,
                            FileModel {
                                status: old(self)@.files[i].status,
                                stem: old(self)@.files[i].stem,
                                content: spec_to_markdown(task@),
                            },
                        ),
                        None => exists|st: Status, stem: Seq<char>|
                            path@ == spec_path(old(self)@.tasks_dir, st, stem) && final(self)@.files
                                == old(self)@.files.push(
                                FileModel { status: st, stem, content: spec_to_markdown(task@) },
                            ),
                    }
                },
                Err(StoreError::Io(_)) => final(self)@ == old(self)@ && sp_first_at_path(
                    old(self)@,
                    path@,
                ) is None,
                Err(_) => false,
            },
    {
        let content = task.to_markdown();
        match self.index_at_path(path) {
            Some(i) => {
                let stem = self.files[i].stem.clone();
                let status = self.files[i].status;
                self.files.set(i, StoredFile { status, stem, content });
                proof {
                    assert(final(self)@.files =~= old(self)@.files.update(
                        sp_first_at_path(old(self)@, path@).unwrap(),
                        FileModel {
                            status: old(self)@.files[sp_first_at_path(
                                old(self)@,
                                path@,
                            ).unwrap()].status,
                            stem: old(self)@.files[sp_first_at_path(
                                old(self)@,
                                path@,
                            ).unwrap()].stem,
                            content: spec_to_markdown(task@),
                        },
                    ));
                }
                Ok(())
            },
            None => {
                match self.parse_own_path(path) {
                    Some((st, stem)) => {
                        self.files.push(StoredFile { status: st, stem, content });
                        proof {
                            let stv = final(self)@.files.last().stem;
                            assert(final(self)@.files =~= old(self)@.files.push(
                                FileModel {
                                    status: st,
                                    stem: stv,
                                    content: spec_to_markdown(task@),
                                },
                            ));
                        }
                        Ok(())
                    },
                    None => Err(
                        StoreError::Io(crate::chars::str_concat("path outside store: ", path)),
                    ),
                }
            },
        }
    }

    /// Reads a path of this store's shape back into its status and stem.
    #[verifier::rlimit(100)]
    fn parse_own_path(&self, path: &str) -> (r: Option<(Status, String)>)
        ensures
            match r {
                Some((st, stem)) => path@ == spec_path(self@.tasks_dir, st, stem@),
                None => true,
            },
    {
        let n = path.unicode_len();
        let dn = self.tasks_dir.as_str().unicode_len();
        // <dir> '/' <status> '/' <stem> ".md"
        if n <= dn || n - dn < 2 {
            return None;
        }
        if !crate::chars::str_starts_with(path, self.tasks_dir.as_str()) {
            return None;
        }
        if path.get_char(dn) != '/' {
            return None;
        }
        let rest = path.substring_char(dn + 1, n);
        let rn = n - dn - 1;
        let j = match find_char(rest, '/') {
            Some(j) => j,
            None => { return None },
        };
        let dname = rest.substring_char(0, j);
        let st = match Status::from_dir_name(dname) {
            Some(st) => st,
            None => { return None },
        };
        let fname = rest.substring_char(j + 1, rn);
        let fn_len = rn - j - 1;
        if fn_len < 3 {
            return None;
        }
        let ext = fname.substring_char(fn_len - 3, fn_len);
        proof {
            reveal_strlit(".md");
        }
        if !str_eq(ext, ".md") {
            return None;
        }
        let stem = fname.substring_char(0, fn_len - 3);
        // the stem must not smuggle in a path separator
        if find_char(stem, '/').is_some() {
            return None;
        }
        proof {
            reveal_strlit("/");
            reveal_strlit(".md");
            let dir = self@.tasks_dir;
            let target = spec_path(dir, st, stem@);
            assert(dname@ == st.spec_name());
            assert(fname@ =~= stem@ + ".md"@);
            assert(rest@ =~= dname@ + "/"@ + fname@);
            assert(path@ =~= dir + "/"@ + rest@);
            assert(path@ =~= target);
        }
        Some((st, String::from_str(stem)))
    }

    /// Renames the file stored at `path` into the given status directory,
    /// keeping its name; fails when no file is stored there or the
    /// destination is taken by another file.
    pub fn move_to_status(&mut self, path: &str, status: Status) -> (r: Result<
        String,
        StoreError,
    >)
        ensures
            match r {
                Ok(np) => sp_first_at_path(old(self)@, path@) matches Some(i) && {
                    &&& np@ == spec_path(old(self)@.tasks_dir, status, old(self)@.files[i].stem)
                    &&& forall|j: int|
                        0 <= j < old(self)@.files.len() && j != i ==> file_path(old(self)@, j)
                            != np@
                    &&& final(self)@.files == old(self)@.files.update(
                        i,
                        FileModel {
                            status,
                            stem: old(self)@.files[i].stem,
                            content: old(self)@.files[i].content,
                        },
                    )
                    &&& final(self)@.tasks_dir == old(self)@.tasks_dir
                    &&& final(self)@.author == old(self)@.author
                },
                Err(StoreError::Io(_)) => final(self)@ == old(self)@ && (sp_first_at_path(
                    old(self)@,
                    path@,
                ) is None || (sp_first_at_path(old(self)@, path@) matches Some(i) && exists|j: int|
                    0 <= j < old(self)@.files.len() && j != i && file_path(old(self)@, j)
                        == spec_path(old(self)@.tasks_dir, status, old(self)@.files[i].stem))),
                Err(_) => false,
            },
    {
        let i = match self.index_at_path(path) {
            Some(i) => i,
            None => {
                return Err(StoreError::Io(crate::chars::str_concat("no such file: ", path)));
            },
        };
        let new_path = self.path_of(status, self.files[i].stem.as_str());
        proof {
            assert(self@.files[i as int] == self.files@[i as int]@);
        }
        if self.any_other_at_path(new_path.as_str(), i) {
            return Err(
                StoreError::Io(
                    crate::chars::str_concat("destination exists: ", new_path.as_str()),
                ),
            );
        }
        let stem = self.files[i].stem.clone();
        let content = self.files[i].content.clone();
        self.files.set(i, StoredFile { status, stem, content });
        proof {
            let oi = sp_first_at_path(old(self)@, path@).unwrap();
            assert(final(self)@.files =~= old(self)@.files.update(
                oi,
                FileModel {
                    status,
                    stem: old(self)@.files[oi].stem,
                    content: old(self)@.files[oi].content,
                },
            ));
        }
        Ok(new_path)
    }
}

// ---------------------------------------------------------------------------
// Listings and the dependency closure
// ---------------------------------------------------------------------------
/// Whether the file parses to a task carrying the given identifier.
pub open spec fn parses_to_id(f: FileModel, b: Seq<char>) -> bool {
    match spec_parse(f.content) {
        Some(tv) => tv.id == b,
        None => false,
    }
}

/// A blocker identifier is satisfied when no task carries it, or some task
/// carrying it is resolved (closed or cancelled). A dangling identifier
/// counts as satisfied on purpose: that leniency is part of the design.
pub open spec fn sp_blocker_satisfied(fs: Seq<FileModel>, b: Seq<char>) -> bool {
    (exists|i: int| 0 <= i < fs.len() && parses_to_id(#[trigger] fs[i], b)) ==> (exists|i: int|
        0 <= i < fs.len() && parses_to_id(#[trigger] fs[i], b) && fs[i].status.spec_resolved())
}

/// All of a task's blockers are satisfied.
pub open spec fn sp_all_blockers_satisfied(fs: Seq<FileModel>, tv: TaskView) -> bool {
    forall|k: int|
        0 <= k < tv.blocked_by.len() ==> sp_blocker_satisfied(fs, #[trigger] tv.blocked_by[k])
}

/// The tasks of one status directory, in file order: path and parsed task
/// for every file of that status whose text parses.
pub open spec fn sp_listing(dir: Seq<char>, fs: Seq<FileModel>, st: Status) -> Seq<
    (Seq<char>, TaskView),
>
    decreases fs.len(),
{
    if fs.len() == 0 {
        Seq::<(Seq<char>, TaskView)>::empty()
    } else {
        sp_listing(dir, fs.drop_last(), st) + (if fs.last().status == st && spec_parse(
            fs.last().content,
        ) is Some {
            seq![(spec_path(dir, st, fs.last().stem), spec_parse(fs.last().content).unwrap())]
        } else {
            Seq::<(Seq<char>, TaskView)>::empty()
        })
    }
}

/// The ready tasks: open, parseable, all blockers satisfied across the
/// whole corpus.
pub open spec fn sp_ready_listing(dir: Seq<char>, all: Seq<FileModel>, fs: Seq<FileModel>) -> Seq<
    (Seq<char>, TaskView),
>
    decreases fs.len(),
{
    if fs.len() == 0 {
        Seq::<(Seq<char>, TaskView)>::empty()
    } else {
        sp_ready_listing(dir, all, fs.drop_last()) + (if fs.last().status == Status::Open
            && spec_parse(fs.last().content) is Some && sp_all_blockers_satisfied(
            all,
            spec_parse(fs.last().content).unwrap(),
        ) {
            seq![
                (
                    spec_path(dir, Status::Open, fs.last().stem),
                    spec_parse(fs.last().content).unwrap(),
                ),
            ]
        } else {
            Seq::<(Seq<char>, TaskView)>::empty()
        })
    }
}

impl Store {
    /// Writes a new task into the open directory, over any file already at
    /// that spot, and answers its path.
    pub fn create(&mut self, task: &Task) -> (r: Result<String, StoreError>)
        ensures
            match r {
                Ok(p) => {
                    &&& p@ == spec_path(old(self)@.tasks_dir, Status::Open, task@.id)
                    &&& final(self)@.tasks_dir == old(self)@.tasks_dir
                    &&& final(self)@.author == old(self)@.author
                    &&& match sp_first_at_path(old(self)@, p@) {
                        Some(i) => final(self)@.files == old(self)@.files.update(
                            i,
                            FileModel {
                                status: Status::Open,
                                stem: old(self)@.files[i].stem,
                                content: spec_to_markdown(task@),
                            },
                        ),
                        None => final(self)@.files == old(self)@.files.push(
                            FileModel {
                                status: Status::Open,
                                stem: task@.id,
                                content: spec_to_markdown(task@),
                            },
                        ),
                    }
                },
                Err(_) => false,
            },
    {
        let stem = crate::chars::str_concat(task.id().full(), "");
        proof {
            reveal_strlit("");
            assert(stem@ =~= task@.id);
        }
        let path = self.path_of(Status::Open, stem.as_str());
        let content = task.to_markdown();
        match self.index_at_path(path.as_str()) {
            Some(i) => {
                let old_stem = self.files[i].stem.clone();
                self.files.set(i, StoredFile { status: Status::Open, stem: old_stem, content });
                proof {
                    let oi = sp_first_at_path(old(self)@, path@).unwrap();
                    assert(old(self)@.files[oi].status == Status::Open) by {
                        lemma_at_path_status(old(self)@, path@, Status::Open, stem@);
                    }
                    assert(final(self)@.files =~= old(self)@.files.update(
                        oi,
                        FileModel {
                            status: Status::Open,
                            stem: old(self)@.files[oi].stem,
                            content: spec_to_markdown(task@),
                        },
                    ));
                }
                Ok(path)
            },
            None => {
                self.files.push(StoredFile { status: Status::Open, stem, content });
                proof {
                    assert(final(self)@.files =~= old(self)@.files.push(
                        FileModel {
                            status: Status::Open,
                            stem: task@.id,
                            content: spec_to_markdown(task@),
                        },
                    ));
                }
                Ok(path)
            },
        }
    }

    /// The identifiers of every stored task whose text parses.
    pub fn all_task_ids(&self) -> (r: Vec<TaskId>)
        ensures
            r.deep_view() == sp_all_ids(self@.files),
    {
        let ghost fs = self@.files;
        let n = self.files.len();
        let mut out: Vec<TaskId> = Vec::new();
        let mut i: usize = 0;
        while i < n
            invariant
                n == fs.len(),
                fs == self@.files,
                i <= n,
                out.deep_view() == sp_all_ids(fs.subrange(0, i as int)),
            decreases n - i,
        {
            proof {
                assert(fs[i as int] == self.files@[i as int]@);
                assert(fs.subrange(0, i + 1).drop_last() =~= fs.subrange(0, i as int));
                assert(fs.subrange(0, i + 1).last() == fs[i as int]);
            }
            match Task::parse(self.files[i].content.as_str()) {
                Ok(t) => {
                    out.push(t.id().clone());
                    proof {
                        assert(out.deep_view() =~= sp_all_ids(fs.subrange(0, i + 1)));
                    }
                },
                Err(_) => {
                    proof {
                        assert(out.deep_view() =~= sp_all_ids(fs.subrange(0, i + 1)));
                    }
                },
            }
            i = i + 1;
        }
        proof {
            assert(fs.subrange(0, n as int) =~= fs);
        }
        out
    }

    /// Appends one status directory's listing: path and task for each file
    /// of that status whose text parses, in file order.
    fn append_listing(&self, out: &mut Vec<(String, Task)>, st: Status)
        ensures
            ({
                let l = sp_listing(self@.tasks_dir, self@.files, st);
                &&& final(out)@.len() == old(out)@.len() + l.len()
                &&& forall|k: int| 0 <= k < old(out)@.len() ==> final(out)@[k] == old(out)@[k]
                &&& forall|k: int|
                    0 <= k < l.len() ==> (#[trigger] final(out)@[old(out)@.len() + k]).0@
                        == l[k].0 && final(out)@[old(out)@.len() + k].1@ == l[k].1
            }),
    {
        let ghost dir = self@.tasks_dir;
        let ghost fs = self@.files;
        let n = self.files.len();
        let mut i: usize = 0;
        while i < n
            invariant
                n == fs.len(),
                fs == self@.files,
                dir == self@.tasks_dir,
                i <= n,
                ({
                    let l = sp_listing(dir, fs.subrange(0, i as int), st);
                    &&& out@.len() == old(out)@.len() + l.len()
                    &&& forall|k: int| 0 <= k < old(out)@.len() ==> out@[k] == old(out)@[k]
                    &&& forall|k: int|
                        0 <= k < l.len() ==> (#[trigger] out@[old(out)@.len() + k]).0@ == l[k].0
                            && out@[old(out)@.len() + k].1@ == l[k].1
                }),
            decreases n - i,
        {
            proof {
                assert(fs[i as int] == self.files@[i as int]@);
                assert(fs.subrange(0, i + 1).drop_last() =~= fs.subrange(0, i as int));
                assert(fs.subrange(0, i + 1).last() == fs[i as int]);
            }
            let f = &self.files[i];
            if f.status == st {
                match Task::parse(f.content.as_str()) {
                    Ok(t) => {
                        let p = self.path_of(st, f.stem.as_str());
                        out.push((p, t));
                    },
                    Err(_) => {},
                }
            }
            i = i + 1;
        }
        proof {
            assert(fs.subrange(0, n as int) =~= fs);
        }
    }

    /// The tasks of one status directory, with their paths.
    pub fn list_by_status(&self, status: Status) -> (r: Result<
        Vec<(String, Task)>,
        StoreError,
    >)
        ensures
            match r {
                Ok(v) => listing_matches(v@, sp_listing(self@.tasks_dir, self@.files, status)),
                Err(_) => false,
            },
    {
        let mut out: Vec<(String, Task)> = Vec::new();
        self.append_listing(&mut out, status);
        proof {
            let l = sp_listing(self@.tasks_dir, self@.files, status);
            assert forall|k: int| 0 <= k < l.len() implies (#[trigger] out@[k]).0@ == l[k].0
                && out@[k].1@ == l[k].1 by {
                assert(out@[0 + k] == out@[k]);
            }
        }
        Ok(out)
    }

    /// Every task of the store, grouped by status in the fixed directory
    /// order: open, in-progress, blocked, closed, cancelled.
    pub fn list_all(&self) -> (r: Result<Vec<(String, Task)>, StoreError>)
        ensures
            match r {
                Ok(v) => listing_matches(v@, sp_all_listing(self@.tasks_dir, self@.files)),
                Err(_) => false,
            },
    {
        let mut out: Vec<(String, Task)> = Vec::new();
        self.append_listing(&mut out, Status::Open);
        let ghost v1 = out@;
        self.append_listing(&mut out, Status::InProgress);
        let ghost v2 = out@;
        self.append_listing(&mut out, Status::Blocked);
        let ghost v3 = out@;
        self.append_listing(&mut out, Status::Closed);
        let ghost v4 = out@;
        self.append_listing(&mut out, Status::Cancelled);
        proof {
            let dir = self@.tasks_dir;
            let fs = self@.files;
            let l1 = sp_listing(dir, fs, Status::Open);
            let l2 = sp_listing(dir, fs, Status::InProgress);
            let l3 = sp_listing(dir, fs, Status::Blocked);
            let l4 = sp_listing(dir, fs, Status::Closed);
            let l5 = sp_listing(dir, fs, Status::Cancelled);
            let ll = sp_all_listing(dir, fs);
            assert forall|k: int| 0 <= k < ll.len() implies (#[trigger] out@[k]).0@ == ll[k].0
                && out@[k].1@ == ll[k].1 by {
                if k < l1.len() {
                    assert(v1[0 + k] == v1[k]);
                    assert(out@[k] == v1[k]);
                    assert(ll[k] == l1[k]);
                } else if k < l1.len() + l2.len() {
                    assert(v2[v1.len() + (k - l1.len())] == v2[k]);
                    assert(out@[k] == v2[k]);
                    assert(ll[k] == l2[k - l1.len()]);
                } else if k < l1.len() + l2.len() + l3.len() {
                    assert(v3[v2.len() + (k - l1.len() - l2.len())] == v3[k]);
                    assert(out@[k] == v3[k]);
                    assert(ll[k] == l3[k - l1.len() - l2.len()]);
                } else if k < l1.len() + l2.len() + l3.len() + l4.len() {
                    assert(v4[v3.len() + (k - l1.len() - l2.len() - l3.len())] == v4[k]);
                    assert(out@[k] == v4[k]);
                    assert(ll[k] == l4[k - l1.len() - l2.len() - l3.len()]);
                } else {
                    assert(out@[v4.len() + (k - l1.len() - l2.len() - l3.len() - l4.len())]
                        == out@[k]);
                    assert(ll[k] == l5[k - l1.len() - l2.len() - l3.len() - l4.len()]);
                }
            }
        }
        Ok(out)
    }

    /// The non-terminal tasks: open, in-progress, and blocked.
    pub fn list_active(&self) -> (r: Result<Vec<(String, Task)>, StoreError>)
        ensures
            match r {
                Ok(v) => listing_matches(v@, sp_active_listing(self@.tasks_dir, self@.files)),
                Err(_) => false,
            },
    {
        let mut out: Vec<(String, Task)> = Vec::new();
        self.append_listing(&mut out, Status::Open);
        let ghost v1 = out@;
        self.append_listing(&mut out, Status::InProgress);
        let ghost v2 = out@;
        self.append_listing(&mut out, Status::Blocked);
        proof {
            let dir = self@.tasks_dir;
            let fs = self@.files;
            let l1 = sp_listing(dir, fs, Status::Open);
            let l2 = sp_listing(dir, fs, Status::InProgress);
            let l3 = sp_listing(dir, fs, Status::Blocked);
            let ll = sp_active_listing(dir, fs);
            assert forall|k: int| 0 <= k < ll.len() implies (#[trigger] out@[k]).0@ == ll[k].0
                && out@[k].1@ == ll[k].1 by {
                if k < l1.len() {
                    assert(v1[0 + k] == v1[k]);
                    assert(out@[k] == v1[k]);
                    assert(ll[k] == l1[k]);
                } else if k < l1.len() + l2.len() {
                    assert(v2[v1.len() + (k - l1.len())] == v2[k]);
                    assert(out@[k] == v2[k]);
                    assert(ll[k] == l2[k - l1.len()]);
                } else {
                    assert(out@[v2.len() + (k - l1.len() - l2.len())] == out@[k]);
                    assert(ll[k] == l3[k - l1.len() - l2.len()]);
                }
            }
        }
        Ok(out)
    }

    /// Whether the given blocker identifier is satisfied: no stored task
    /// carries it, or one that does is closed or cancelled.
    fn blocker_satisfied(&self, b: &TaskId) -> (r: bool)
        ensures
            r == sp_blocker_satisfied(self@.files, b@),
    {
        let ghost fs = self@.files;
        let n = self.files.len();
        let mut found = false;
        let mut found_resolved = false;
        let mut i: usize = 0;
        while i < n
            invariant
                n == fs.len(),
                fs == self@.files,
                i <= n,
                found == exists|j: int| 0 <= j < i && parses_to_id(#[trigger] fs[j], b@),
                found_resolved == exists|j: int|
                    0 <= j < i && parses_to_id(#[trigger] fs[j], b@)
                        && fs[j].status.spec_resolved(),
            decreases n - i,
        {
            proof {
                assert(fs[i as int] == self.files@[i as int]@);
            }
            let f = &self.files[i];
            match Task::parse(f.content.as_str()) {
                Ok(t) => {
                    if t.id().same(b) {
                        proof {
                            assert(parses_to_id(fs[i as int], b@));
                        }
                        found = true;
                        if f.status.is_resolved() {
                            found_resolved = true;
                        }
                    }
                },
                Err(_) => {},
            }
            i = i + 1;
        }
        !found || found_resolved
    }

    /// Whether every blocker of the task is satisfied.
    fn all_blockers_satisfied(&self, t: &Task) -> (r: bool)
        ensures
            r == sp_all_blockers_satisfied(self@.files, t@),
    {
        let n = t.frontmatter.blocked_by.len();
        let mut i: usize = 0;
        while i < n
            invariant
                n == t@.blocked_by.len(),
                i <= n,
                forall|k: int|
                    0 <= k < i ==> sp_blocker_satisfied(
                        self@.files,
                        #[trigger] t@.blocked_by[k],
                    ),
            decreases n - i,
        {
            proof {
                assert(t@.blocked_by[i as int] == t.frontmatter.blocked_by@[i as int]@);
            }
            if !self.blocker_satisfied(&t.frontmatter.blocked_by[i]) {
                return false;
            }
            i = i + 1;
        }
        true
    }

    /// The ready tasks: every open task all of whose blockers are resolved.
    /// A blocker identifier that names no stored task counts as satisfied.
    pub fn list_ready(&self) -> (r: Result<Vec<(String, Task)>, StoreError>)
        ensures
            match r {
                Ok(v) => listing_matches(
                    v@,
                    sp_ready_listing(self@.tasks_dir, self@.files, self@.files),
                ),
                Err(_) => false,
            },
    {
        let ghost dir = self@.tasks_dir;
        let ghost fs = self@.files;
        let n = self.files.len();
        let mut out: Vec<(String, Task)> = Vec::new();
        let mut i: usize = 0;
        while i < n
            invariant
                n == fs.len(),
                fs == self@.files,
                dir == self@.tasks_dir,
                i <= n,
                listing_matches(out@, sp_ready_listing(dir, fs, fs.subrange(0, i as int))),
            decreases n - i,
        {
            proof {
                assert(fs[i as int] == self.files@[i as int]@);
                assert(fs.subrange(0, i + 1).drop_last() =~= fs.subrange(0, i as int));
                assert(fs.subrange(0, i + 1).last() == fs[i as int]);
            }
            let f = &self.files[i];
            if f.status == Status::Open {
                match Task::parse(f.content.as_str()) {
                    Ok(t) => {
                        if self.all_blockers_satisfied(&t) {
                            let p = self.path_of(Status::Open, f.stem.as_str());
                            out.push((p, t));
                        }
                    },
                    Err(_) => {},
                }
            }
            i = i + 1;
        }
        proof {
            assert(fs.subrange(0, n as int) =~= fs);
        }
        Ok(out)
    }

    /// Moves every blocked task that waited on the given identifier, and
    /// whose blockers are now all satisfied, back to open; answers the new
    /// paths in file order.
    pub fn unblock_waiting_tasks(&mut self, closed_task_id: &TaskId) -> (r: Result<
        Vec<String>,
        StoreError,
    >)
        ensures
            match r {
                Ok(paths) => {
                    &&& final(self)@.tasks_dir == old(self)@.tasks_dir
                    &&& final(self)@.author == old(self)@.author
                    &&& final(self)@.files.len() == old(self)@.files.len()
                    &&& forall|i: int|
                        0 <= i < old(self)@.files.len() ==> #[trigger] final(self)@.files[i] == (
                        if is_unblock_target(old(self)@.files, i, closed_task_id@) {
                            FileModel {
                                status: Status::Open,
                                stem: old(self)@.files[i].stem,
                                content: old(self)@.files[i].content,
                            }
                        } else {
                            old(self)@.files[i]
                        })
                    &&& paths.deep_view() == sp_unblocked_paths(
                        old(self)@.tasks_dir,
                        old(self)@.files,
                        closed_task_id@,
                        old(self)@.files.len() as int,
                    )
                },
                Err(_) => false,
            },
    {
        let ghost dir = old(self)@.tasks_dir;
        let ghost fs = old(self)@.files;
        let n = self.files.len();
        let mut targets: Vec<usize> = Vec::new();
        let mut paths: Vec<String> = Vec::new();
        let mut i: usize = 0;
        while i < n
            invariant
                n == fs.len(),
                fs == self@.files,
                dir == self@.tasks_dir,
                self@ == old(self)@,
                i <= n,
                forall|k: int|
                    0 <= k < targets@.len() ==> is_unblock_target(
                        fs,
                        #[trigger] targets@[k] as int,
                        closed_task_id@,
                    ) && targets@[k] < i,
                forall|k1: int, k2: int|
                    0 <= k1 < k2 < targets@.len() ==> targets@[k1] < targets@[k2],
                forall|j: int|
                    0 <= j < i && is_unblock_target(fs, j, closed_task_id@) ==> exists|k: int|
                        0 <= k < targets@.len() && #[trigger] targets@[k] == j,
                paths.deep_view() == sp_unblocked_paths(dir, fs, closed_task_id@, i as int),
            decreases n - i,
        {
            proof {
                assert(fs[i as int] == self.files@[i as int]@);
            }
            let f = &self.files[i];
            let mut is_target = false;
            if f.status == Status::Blocked {
                match Task::parse(f.content.as_str()) {
                    Ok(t) => {
                        if contains_id(&t.frontmatter.blocked_by, closed_task_id)
                            && self.all_blockers_satisfied(&t) {
                            is_target = true;
                        }
                    },
                    Err(_) => {},
                }
            }
            proof {
                assert(is_target == is_unblock_target(fs, i as int, closed_task_id@));
            }
            if is_target {
                let p = self.path_of(Status::Open, f.stem.as_str());
                let ghost pre_t = targets@;
                targets.push(i);
                paths.push(p);
                proof {
                    assert(paths.deep_view() =~= sp_unblocked_paths(
                        dir,
                        fs,
                        closed_task_id@,
                        i + 1,
                    ));
                    assert(targets@[targets@.len() - 1] == i);
                    assert forall|j: int|
                        0 <= j < i + 1 && is_unblock_target(fs, j, closed_task_id@) implies exists|
                        k2: int,
                    | 0 <= k2 < targets@.len() && #[trigger] targets@[k2] == j by {
                        if j == i as int {
                            assert(targets@[targets@.len() - 1] == j);
                        } else {
                            let k2 = choose|k2: int|
                                0 <= k2 < pre_t.len() && #[trigger] pre_t[k2] == j;
                            assert(targets@[k2] == pre_t[k2]);
                            assert(targets@[k2] == j);
                        }
                    }
                }
            } else {
                proof {
                    assert(paths.deep_view() =~= sp_unblocked_paths(
                        dir,
                        fs,
                        closed_task_id@,
                        i + 1,
                    ));
                }
            }
            i = i + 1;
        }
        // apply the moves
        let m = targets.len();
        let mut k: usize = 0;
        while k < m
            invariant
                m == targets@.len(),
                n == fs.len(),
                self@.files.len() == fs.len(),
                self@.tasks_dir == dir,
                self@.tasks_dir == old(self)@.tasks_dir,
                self@.author == old(self)@.author,
                k <= m,
                forall|k2: int|
                    0 <= k2 < m ==> is_unblock_target(fs, #[trigger] targets@[k2] as int, closed_task_id@)
                        && targets@[k2] < n,
                forall|j: int|
                    0 <= j < n && is_unblock_target(fs, j, closed_task_id@) ==> exists|k2: int|
                        0 <= k2 < m && #[trigger] targets@[k2] == j,
                forall|k1: int, k2: int|
                    0 <= k1 < k2 < m ==> targets@[k1] < targets@[k2],
                forall|j: int|
                    0 <= j < n ==> #[trigger] self@.files[j] == (if exists|k2: int|
                        0 <= k2 < k && #[trigger] targets@[k2] == j {
                        FileModel { status: Status::Open, stem: fs[j].stem, content: fs[j].content }
                    } else {
                        fs[j]
                    }),
            decreases m - k,
        {
            let idx = targets[k];
            proof {
                assert(is_unblock_target(fs, idx as int, closed_task_id@));
                assert(self@.files[idx as int] == fs[idx as int]) by {
                    if exists|k2: int| 0 <= k2 < k && #[trigger] targets@[k2] == idx as int {
                        let k2 = choose|k2: int|
                            0 <= k2 < k && #[trigger] targets@[k2] == idx as int;
                        assert(targets@[k2] < targets@[k as int]);
                        assert(false);
                    }
                }
            }
            let ghost pre_files = self@.files;
            let stem = self.files[idx].stem.clone();
            let content = self.files[idx].content.clone();
            self.files.set(idx, StoredFile { status: Status::Open, stem, content });
            proof {
                assert(self@.files =~= pre_files.update(
                    idx as int,
                    FileModel {
                        status: Status::Open,
                        stem: fs[idx as int].stem,
                        content: fs[idx as int].content,
                    },
                ));
                assert forall|j: int| 0 <= j < n implies #[trigger] self@.files[j] == (if exists|
                    k2: int,
                |
                    0 <= k2 < k + 1 && #[trigger] targets@[k2] == j {
                    FileModel { status: Status::Open, stem: fs[j].stem, content: fs[j].content }
                } else {
                    fs[j]
                }) by {
                    if j == idx as int {
                        assert(targets@[k as int] == j);
                        assert(exists|k2: int|
                            0 <= k2 < k + 1 && #[trigger] targets@[k2] == j);
                    } else {
                        assert(self@.files[j] == pre_files[j]);
                        if exists|k2: int| 0 <= k2 < k + 1 && #[trigger] targets@[k2] == j {
                            let k2 = choose|k2: int|
                                0 <= k2 < k + 1 && #[trigger] targets@[k2] == j;
                            assert(k2 != k as int);
                            assert(exists|k3: int|
                                0 <= k3 < k && #[trigger] targets@[k3] == j);
                        }
                    }
                }
            }
            k = k + 1;
        }
        proof {
            assert forall|i2: int| 0 <= i2 < fs.len() implies #[trigger] final(self)@.files[i2]
                == (if is_unblock_target(fs, i2, closed_task_id@) {
                FileModel { status: Status::Open, stem: fs[i2].stem, content: fs[i2].content }
            } else {
                fs[i2]
            }) by {
                if is_unblock_target(fs, i2, closed_task_id@) {
                    assert(exists|k2: int| 0 <= k2 < m && #[trigger] targets@[k2] == i2);
                } else {
                    if exists|k2: int| 0 <= k2 < m && #[trigger] targets@[k2] == i2 {
                        let k2 = choose|k2: int|
                            0 <= k2 < m && #[trigger] targets@[k2] == i2;
                        assert(is_unblock_target(fs, i2, closed_task_id@));
                    }
                }
            }
        }
        Ok(paths)
    }
}

// ---------------------------------------------------------------------------
// The state machine: directory moves with logged transitions
// ---------------------------------------------------------------------------
/// What a task document becomes when a log entry is appended under the
/// store's configured author at the given moment.
pub open spec fn sp_logged(
    tv: TaskView,
    msg: Seq<char>,
    given: Option<Seq<char>>,
    now: Timestamp,
) -> TaskView {
    TaskView {
        updated: now,
        log: tv.log + crate::task::spec_log_entry(
            now,
            crate::task::spec_resolve_author(given, tv.author),
            msg,
        ),
        ..tv
    }
}

/// What a transition reports: the file's path before, its path after, and
/// the exact text written.
pub struct TransitionOutcome {
    pub old_path: String,
    pub new_path: String,
    pub content: String,
}

/// A successful logged relocation of file `i`: its text is the task with
/// the message appended, and it now sits in the `dest` directory.
pub open spec fn sp_transition_ok(
    pre: StoreModel,
    post: StoreModel,
    op: Seq<char>,
    np: Seq<char>,
    c: Seq<char>,
    i: int,
    msg: Seq<char>,
    dest: Status,
    now: Timestamp,
) -> bool {
    match spec_parse(pre.files[i].content) {
        Some(tv) => {
            let tv2 = sp_logged(tv, msg, pre.author, now);
            let c2 = spec_to_markdown(tv2);
            &&& forall|j: int|
                0 <= j < pre.files.len() && j != i ==> file_path(pre, j) != spec_path(
                    pre.tasks_dir,
                    dest,
                    pre.files[i].stem,
                )
            &&& post.tasks_dir == pre.tasks_dir
            &&& post.author == pre.author
            &&& post.files == pre.files.update(
                i,
                FileModel { status: dest, stem: pre.files[i].stem, content: c2 },
            )
            &&& op == file_path(pre, i)
            &&& np == spec_path(pre.tasks_dir, dest, pre.files[i].stem)
            &&& c == c2
        },
        None => false,
    }
}

impl Store {
    /// Appends a log entry to file `i`'s task and relocates it to `dest`.
    fn relocate_logged(&mut self, i: usize, msg: &str, dest: Status, now: &Timestamp) -> (r:
        Result<TransitionOutcome, StoreError>)
        requires
            i < old(self)@.files.len(),
        ensures
            match r {
                Ok(out) => sp_transition_ok(
                    old(self)@,
                    final(self)@,
                    out.old_path@,
                    out.new_path@,
                    out.content@,
                    i as int,
                    msg@,
                    dest,
                    *now,
                ),
                Err(StoreError::Parse(_)) => final(self)@ == old(self)@ && spec_parse(
                    old(self)@.files[i as int].content,
                ) is None,
                Err(StoreError::Io(_)) => final(self)@ == old(self)@ && spec_parse(
                    old(self)@.files[i as int].content,
                ) is Some && exists|j: int|
                    0 <= j < old(self)@.files.len() && j != i && #[trigger] file_path(
                        old(self)@,
                        j,
                    ) == spec_path(old(self)@.tasks_dir, dest, old(self)@.files[i as int].stem),
                Err(_) => false,
            },
    {
        proof {
            assert(self@.files[i as int] == self.files@[i as int]@);
        }
        let old_path = self.path_of(self.files[i].status, self.files[i].stem.as_str());
        let mut task = match Task::parse(self.files[i].content.as_str()) {
            Ok(t) => t,
            Err(e) => { return Err(StoreError::Parse(e)) },
        };
        let new_path = self.path_of(dest, self.files[i].stem.as_str());
        if self.any_other_at_path(new_path.as_str(), i) {
            return Err(
                StoreError::Io(
                    crate::chars::str_concat("destination exists: ", new_path.as_str()),
                ),
            );
        }
        let author = self.get_author();
        let author_ref: Option<&str> = match &author {
            Some(a) => Some(a.as_str()),
            None => None,
        };
        proof {
            assert(author_ref.deep_view() == old(self)@.author);
        }
        task.add_log_at(msg, author_ref, now);
        let content = task.to_markdown();
        let stem = self.files[i].stem.clone();
        self.files.set(i, StoredFile { status: dest, stem, content });
        proof {
            let tv = spec_parse(old(self)@.files[i as int].content).unwrap();
            let tv2 = sp_logged(tv, msg@, old(self)@.author, *now);
            assert(task@ =~= tv2);
            assert(final(self)@.files =~= old(self)@.files.update(
                i as int,
                FileModel {
                    status: dest,
                    stem: old(self)@.files[i as int].stem,
                    content: spec_to_markdown(tv2),
                },
            ));
        }
        Ok(TransitionOutcome { old_path, new_path, content: task.to_markdown() })
    }

    /// Start working: an open task moves to in-progress and its log records
    /// it. Anything not open is refused outright.
    pub fn start(&mut self, id_or_prefix: &str, now: &Timestamp) -> (r: Result<
        TransitionOutcome,
        StoreError,
    >)
        ensures
            match r {
                Ok(out) => sp_find_index(old(self)@, id_or_prefix@) matches Some(i) && old(
                    self,
                )@.files[i].status == Status::Open && sp_transition_ok(
                    old(self)@,
                    final(self)@,
                    out.old_path@,
                    out.new_path@,
                    out.content@,
                    i,
                    "Started working."@,
                    Status::InProgress,
                    *now,
                ),
                Err(e) => final(self)@ == old(self)@ && sp_transition_error(
                    old(self)@,
                    id_or_prefix@,
                    e,
                    Status::Open,
                    Status::InProgress,
                ),
            },
    {
        let i = match self.find_index(id_or_prefix) {
            Ok(i) => i,
            Err(e) => { return Err(e) },
        };
        if !(self.files[i].status == Status::Open) {
            proof {
                assert(self@.files[i as int] == self.files@[i as int]@);
            }
            return Err(StoreError::Parse(self.wrong_status_message(i, "started")));
        }
        proof {
            assert(self@.files[i as int] == self.files@[i as int]@);
        }
        self.relocate_logged(i, "Started working.", Status::InProgress, now)
    }

    /// Stop working: an in-progress task moves back to open.
    pub fn stop(&mut self, id_or_prefix: &str, now: &Timestamp) -> (r: Result<
        TransitionOutcome,
        StoreError,
    >)
        ensures
            match r {
                Ok(out) => sp_find_index(old(self)@, id_or_prefix@) matches Some(i) && old(
                    self,
                )@.files[i].status == Status::InProgress && sp_transition_ok(
                    old(self)@,
                    final(self)@,
                    out.old_path@,
                    out.new_path@,
                    out.content@,
                    i,
                    "Stopped working."@,
                    Status::Open,
                    *now,
                ),
                Err(e) => final(self)@ == old(self)@ && sp_transition_error(
                    old(self)@,
                    id_or_prefix@,
                    e,
                    Status::InProgress,
                    Status::Open,
                ),
            },
    {
        let i = match self.find_index(id_or_prefix) {
            Ok(i) => i,
            Err(e) => { return Err(e) },
        };
        if !(self.files[i].status == Status::InProgress) {
            proof {
                assert(self@.files[i as int] == self.files@[i as int]@);
            }
            return Err(StoreError::Parse(self.wrong_status_message(i, "stopped")));
        }
        proof {
            assert(self@.files[i as int] == self.files@[i as int]@);
        }
        self.relocate_logged(i, "Stopped working.", Status::Open, now)
    }

    fn wrong_status_message(&self, i: usize, verb: &str) -> (r: String)
        requires
            i < self@.files.len(),
        ensures
            r@ == "Cannot "@ + verb@ + " task with status '"@
                + self@.files[i as int].status.spec_name() + "'."@,
    {
        proof {
            assert(self@.files[i as int] == self.files@[i as int]@);
        }
        let mut m = String::from_str("Cannot ");
        m.append(verb);
        m.append(" task with status '");
        m.append(self.files[i].status.name());
        m.append("'.");
        proof {
            assert(m@ =~= "Cannot "@ + verb@ + " task with status '"@
                + self@.files[i as int].status.spec_name() + "'."@);
        }
        m
    }
}

/// What closing reports: a benign no-op on an already-terminal task, or
/// the move with the list of tasks it newly unblocked.
pub struct CloseOutcome {
    pub already_closed: bool,
    pub old_path: String,
    pub new_path: String,
    pub content: String,
    pub unblocked: Vec<String>,
}

/// The message a close writes: with a reason when one is given.
pub open spec fn sp_close_msg(r: Option<Seq<char>>) -> Seq<char> {
    match r {
        Some(x) => "Closed: "@ + x,
        None => "Closed."@,
    }
}

/// What reopening reports: a benign no-op on a task already active.
pub struct ReopenOutcome {
    pub already_open: bool,
    pub old_path: String,
    pub new_path: String,
    pub content: String,
}

/// What blocking or unblocking reports; `moved` says whether the task
/// changed directory.
pub struct EdgeOutcome {
    pub old_path: String,
    pub new_path: String,
    pub content: String,
    pub moved: bool,
}

/// What a plain log append reports.
pub struct LogOutcome {
    pub path: String,
    pub content: String,
}

/// The blocker list with every copy of the given identifier removed.
pub open spec fn sp_remove_id(s: Seq<Seq<char>>, b: Seq<char>) -> Seq<Seq<char>>
    decreases s.len(),
{
    if s.len() == 0 {
        Seq::<Seq<char>>::empty()
    } else {
        sp_remove_id(s.drop_last(), b) + (if s.last() == b {
            Seq::<Seq<char>>::empty()
        } else {
            seq![s.last()]
        })
    }
}

/// The blocker list without the given identifier, and whether it was there.
fn remove_id(v: &Vec<TaskId>, b: &TaskId) -> (r: (Vec<TaskId>, bool))
    ensures
        r.0.deep_view() == sp_remove_id(v.deep_view(), b@),
        r.1 == sp_has_id(v.deep_view(), b@),
{
    let ghost bv = v.deep_view();
    let n = v.len();
    let mut out: Vec<TaskId> = Vec::new();
    let mut had = false;
    let mut i: usize = 0;
    while i < n
        invariant
            n == bv.len(),
            bv == v.deep_view(),
            i <= n,
            out.deep_view() == sp_remove_id(bv.subrange(0, i as int), b@),
            had == exists|k: int| 0 <= k < i && bv[k] == b@,
        decreases n - i,
    {
        proof {
            assert(bv[i as int] == v@[i as int]@);
            assert(bv.subrange(0, i + 1).drop_last() =~= bv.subrange(0, i as int));
            assert(bv.subrange(0, i + 1).last() == bv[i as int]);
        }
        if v[i].same(b) {
            had = true;
            proof {
                assert(out.deep_view() =~= sp_remove_id(bv.subrange(0, i + 1), b@));
            }
        } else {
            out.push(v[i].clone());
            proof {
                assert(out.deep_view() =~= sp_remove_id(bv.subrange(0, i + 1), b@));
            }
        }
        i = i + 1;
    }
    proof {
        assert(bv.subrange(0, n as int) =~= bv);
    }
    (out, had)
}

impl Store {
    /// Close a task: append the reason, move it to closed, and move every
    /// blocked task whose blockers are thereby all resolved back to open.
    /// Closing an already closed or cancelled task is a benign no-op.
    pub fn close(&mut self, id_or_prefix: &str, reason: Option<&str>, now: &Timestamp) -> (r:
        Result<CloseOutcome, StoreError>)
        ensures
            match r {
                Ok(out) => sp_find_index(old(self)@, id_or_prefix@) matches Some(i) && (if old(
                    self,
                )@.files[i].status.spec_resolved() {
                    &&& out.already_closed
                    &&& final(self)@ == old(self)@
                    &&& out.unblocked@.len() == 0
                    &&& out.old_path@ == file_path(old(self)@, i)
                    &&& out.new_path@ == file_path(old(self)@, i)
                } else {
                    &&& !out.already_closed
                    &&& spec_parse(old(self)@.files[i].content) matches Some(tv) && {
                        let tv2 = sp_logged(
                            tv,
                            sp_close_msg(reason.deep_view()),
                            old(self)@.author,
                            *now,
                        );
                        let c2 = spec_to_markdown(tv2);
                        let m1 = old(self)@.files.update(
                            i,
                            FileModel {
                                status: Status::Closed,
                                stem: old(self)@.files[i].stem,
                                content: c2,
                            },
                        );
                        &&& forall|j: int|
                            0 <= j < old(self)@.files.len() && j != i ==> file_path(old(self)@, j)
                                != spec_path(
                                old(self)@.tasks_dir,
                                Status::Closed,
                                old(self)@.files[i].stem,
                            )
                        &&& final(self)@.tasks_dir == old(self)@.tasks_dir
                        &&& final(self)@.author == old(self)@.author
                        &&& final(self)@.files.len() == m1.len()
                        &&& forall|k: int|
                            0 <= k < m1.len() ==> #[trigger] final(self)@.files[k] == (if
                            is_unblock_target(m1, k, tv.id) {
                                FileModel {
                                    status: Status::Open,
                                    stem: m1[k].stem,
                                    content: m1[k].content,
                                }
                            } else {
                                m1[k]
                            })
                        &&& out.unblocked.deep_view() == sp_unblocked_paths(
                            old(self)@.tasks_dir,
                            m1,
                            tv.id,
                            m1.len() as int,
                        )
                        &&& out.old_path@ == file_path(old(self)@, i)
                        &&& out.new_path@ == spec_path(
                            old(self)@.tasks_dir,
                            Status::Closed,
                            old(self)@.files[i].stem,
                        )
                        &&& out.content@ == c2
                    }
                }),
                Err(e) => final(self)@ == old(self)@ && sp_close_error(old(self)@, id_or_prefix@, e),
            },
    {
        let i = match self.find_index(id_or_prefix) {
            Ok(i) => i,
            Err(e) => { return Err(e) },
        };
        proof {
            assert(self@.files[i as int] == self.files@[i as int]@);
        }
        if self.files[i].status.is_resolved() {
            let p = self.path_of(self.files[i].status, self.files[i].stem.as_str());
            let p2 = self.path_of(self.files[i].status, self.files[i].stem.as_str());
            return Ok(
                CloseOutcome {
                    already_closed: true,
                    old_path: p,
                    new_path: p2,
                    content: self.files[i].content.clone(),
                    unblocked: Vec::new(),
                },
            );
        }
        let task_id = match Task::parse(self.files[i].content.as_str()) {
            Ok(t) => t.id().clone(),
            Err(e) => { return Err(StoreError::Parse(e)) },
        };
        let msg = match reason {
            Some(x) => crate::chars::str_concat("Closed: ", x),
            None => String::from_str("Closed."),
        };
        let to = match self.relocate_logged(i, msg.as_str(), Status::Closed, now) {
            Ok(to) => to,
            Err(e) => { return Err(e) },
        };
        let unblocked = match self.unblock_waiting_tasks(&task_id) {
            Ok(u) => u,
            Err(e) => { return Err(e) },
        };
        Ok(
            CloseOutcome {
                already_closed: false,
                old_path: to.old_path,
                new_path: to.new_path,
                content: to.content,
                unblocked,
            },
        )
    }

    /// Reopen a closed or cancelled task: it moves back to open. Reopening
    /// a task already active is a benign no-op.
    pub fn reopen(&mut self, id_or_prefix: &str, now: &Timestamp) -> (r: Result<
        ReopenOutcome,
        StoreError,
    >)
        ensures
            match r {
                Ok(out) => sp_find_index(old(self)@, id_or_prefix@) matches Some(i) && (if !old(
                    self,
                )@.files[i].status.spec_resolved() {
                    &&& out.already_open
                    &&& final(self)@ == old(self)@
                    &&& out.old_path@ == file_path(old(self)@, i)
                    &&& out.new_path@ == file_path(old(self)@, i)
                } else {
                    &&& !out.already_open
                    &&& sp_transition_ok(
                        old(self)@,
                        final(self)@,
                        out.old_path@,
                        out.new_path@,
                        out.content@,
                        i,
                        "Reopened."@,
                        Status::Open,
                        *now,
                    )
                }),
                Err(e) => final(self)@ == old(self)@ && sp_reopen_error(
                    old(self)@,
                    id_or_prefix@,
                    e,
                ),
            },
    {
        let i = match self.find_index(id_or_prefix) {
            Ok(i) => i,
            Err(e) => { return Err(e) },
        };
        proof {
            assert(self@.files[i as int] == self.files@[i as int]@);
        }
        if !self.files[i].status.is_resolved() {
            let p = self.path_of(self.files[i].status, self.files[i].stem.as_str());
            let p2 = self.path_of(self.files[i].status, self.files[i].stem.as_str());
            return Ok(
                ReopenOutcome {
                    already_open: true,
                    old_path: p,
                    new_path: p2,
                    content: self.files[i].content.clone(),
                },
            );
        }
        match self.relocate_logged(i, "Reopened.", Status::Open, now) {
            Ok(to) => Ok(
                ReopenOutcome {
                    already_open: false,
                    old_path: to.old_path,
                    new_path: to.new_path,
                    content: to.content,
                },
            ),
            Err(e) => Err(e),
        }
    }

    /// Record that one task blocks another: the blocker's identifier joins
    /// the task's blocker list, and if the blocker is unresolved the task
    /// moves to the blocked directory.
    #[verifier::rlimit(100)]
    pub fn block(&mut self, task_ref: &str, blocker_ref: &str, now: &Timestamp) -> (r: Result<
        EdgeOutcome,
        StoreError,
    >)
        ensures
            match r {
                Ok(out) => ({
                    let m = old(self)@;
                    &&& sp_find_index(m, task_ref@) matches Some(ti)
                        && sp_find_index(m, blocker_ref@) matches Some(bi) && spec_parse(
                        m.files[ti].content,
                    ) matches Some(tvt) && spec_parse(m.files[bi].content) matches Some(tvb) && {
                        let tv1 = TaskView { blocked_by: tvt.blocked_by.push(tvb.id), ..tvt };
                        let tv2 = sp_logged(tv1, "Added blocker: "@ + tvb.id, m.author, *now);
                        let c2 = spec_to_markdown(tv2);
                        let need_move = !m.files[bi].status.spec_resolved() && m.files[ti].status
                            != Status::Blocked;
                        let dest = if need_move {
                            Status::Blocked
                        } else {
                            m.files[ti].status
                        };
                        &&& out.moved == need_move
                        &&& (need_move ==> forall|j: int|
                            0 <= j < m.files.len() && j != ti ==> file_path(m, j) != spec_path(
                                m.tasks_dir,
                                Status::Blocked,
                                m.files[ti].stem,
                            ))
                        &&& final(self)@.tasks_dir == m.tasks_dir
                        &&& final(self)@.author == m.author
                        &&& final(self)@.files == m.files.update(
                            ti,
                            FileModel { status: dest, stem: m.files[ti].stem, content: c2 },
                        )
                        &&& out.old_path@ == file_path(m, ti)
                        &&& out.new_path@ == spec_path(m.tasks_dir, dest, m.files[ti].stem)
                        &&& out.content@ == c2
                    }
                }),
                Err(e) => final(self)@ == old(self)@ && sp_edge_error(
                    old(self)@,
                    task_ref@,
                    blocker_ref@,
                    e,
                ),
            },
    {
        let ti = match self.find_index(task_ref) {
            Ok(i) => i,
            Err(e) => { return Err(e) },
        };
        let bi = match self.find_index(blocker_ref) {
            Ok(i) => i,
            Err(e) => { return Err(e) },
        };
        proof {
            assert(self@.files[ti as int] == self.files@[ti as int]@);
            assert(self@.files[bi as int] == self.files@[bi as int]@);
        }
        let mut task = match Task::parse(self.files[ti].content.as_str()) {
            Ok(t) => t,
            Err(e) => { return Err(StoreError::Parse(e)) },
        };
        let blocker = match Task::parse(self.files[bi].content.as_str()) {
            Ok(t) => t,
            Err(e) => { return Err(StoreError::Parse(e)) },
        };
        let blocker_resolved = self.files[bi].status.is_resolved();
        let need_move = !blocker_resolved && !(self.files[ti].status == Status::Blocked);
        let dest = if need_move {
            Status::Blocked
        } else {
            self.files[ti].status
        };
        if need_move && self.any_other_at_path(
            self.path_of(Status::Blocked, self.files[ti].stem.as_str()).as_str(),
            ti,
        ) {
            return Err(StoreError::Io(String::from_str("destination exists")));
        }
        let old_path = self.path_of(self.files[ti].status, self.files[ti].stem.as_str());
        task.frontmatter.blocked_by.push(blocker.id().clone());
        proof {
            let tvt = spec_parse(old(self)@.files[ti as int].content).unwrap();
            let tvb = spec_parse(old(self)@.files[bi as int].content).unwrap();
            assert(task@ =~= (TaskView { blocked_by: tvt.blocked_by.push(tvb.id), ..tvt }));
        }
        let msg = crate::chars::str_concat("Added blocker: ", blocker.id().full());
        let author = self.get_author();
        let author_ref: Option<&str> = match &author {
            Some(a) => Some(a.as_str()),
            None => None,
        };
        proof {
            assert(author_ref.deep_view() == old(self)@.author);
        }
        task.add_log_at(msg.as_str(), author_ref, now);
        let content = task.to_markdown();
        let new_path = self.path_of(dest, self.files[ti].stem.as_str());
        let stem = self.files[ti].stem.clone();
        self.files.set(ti, StoredFile { status: dest, stem, content: content.clone() });
        proof {
            let m = old(self)@;
            let tvt = spec_parse(m.files[ti as int].content).unwrap();
            let tvb = spec_parse(m.files[bi as int].content).unwrap();
            let tv1 = TaskView { blocked_by: tvt.blocked_by.push(tvb.id), ..tvt };
            let tv2 = sp_logged(tv1, "Added blocker: "@ + tvb.id, m.author, *now);
            assert(task@ =~= tv2);
            assert(final(self)@.files =~= m.files.update(
                ti as int,
                FileModel {
                    status: dest,
                    stem: m.files[ti as int].stem,
                    content: spec_to_markdown(tv2),
                },
            ));
        }
        Ok(EdgeOutcome { old_path, new_path, content, moved: need_move })
    }

    /// Remove a blocker edge: the blocker's identifier leaves the task's
    /// blocker list; removing an edge that is not there is an error. A task
    /// in the blocked directory with an emptied list moves back to open.
    #[verifier::rlimit(100)]
    pub fn unblock(&mut self, task_ref: &str, blocker_ref: &str, now: &Timestamp) -> (r: Result<
        EdgeOutcome,
        StoreError,
    >)
        ensures
            match r {
                Ok(out) => ({
                    let m = old(self)@;
                    &&& sp_find_index(m, task_ref@) matches Some(ti)
                        && sp_find_index(m, blocker_ref@) matches Some(bi) && spec_parse(
                        m.files[ti].content,
                    ) matches Some(tvt) && spec_parse(m.files[bi].content) matches Some(tvb) && {
                        let bb2 = sp_remove_id(tvt.blocked_by, tvb.id);
                        let tv1 = TaskView { blocked_by: bb2, ..tvt };
                        let tv2 = sp_logged(tv1, "Removed blocker: "@ + tvb.id, m.author, *now);
                        let c2 = spec_to_markdown(tv2);
                        let need_move = bb2.len() == 0 && m.files[ti].status == Status::Blocked;
                        let dest = if need_move {
                            Status::Open
                        } else {
                            m.files[ti].status
                        };
                        &&& sp_has_id(tvt.blocked_by, tvb.id)
                        &&& out.moved == need_move
                        &&& (need_move ==> forall|j: int|
                            0 <= j < m.files.len() && j != ti ==> file_path(m, j) != spec_path(
                                m.tasks_dir,
                                Status::Open,
                                m.files[ti].stem,
                            ))
                        &&& final(self)@.tasks_dir == m.tasks_dir
                        &&& final(self)@.author == m.author
                        &&& final(self)@.files == m.files.update(
                            ti,
                            FileModel { status: dest, stem: m.files[ti].stem, content: c2 },
                        )
                        &&& out.old_path@ == file_path(m, ti)
                        &&& out.new_path@ == spec_path(m.tasks_dir, dest, m.files[ti].stem)
                        &&& out.content@ == c2
                    }
                }),
                Err(e) => final(self)@ == old(self)@ && sp_unblock_error(
                    old(self)@,
                    task_ref@,
                    blocker_ref@,
                    e,
                ),
            },
    {
        let ti = match self.find_index(task_ref) {
            Ok(i) => i,
            Err(e) => { return Err(e) },
        };
        proof {
            assert(self@.files[ti as int] == self.files@[ti as int]@);
        }
        let mut task = match Task::parse(self.files[ti].content.as_str()) {
            Ok(t) => t,
            Err(e) => { return Err(StoreError::Parse(e)) },
        };
        let bi = match self.find_index(blocker_ref) {
            Ok(i) => i,
            Err(e) => { return Err(e) },
        };
        proof {
            assert(self@.files[bi as int] == self.files@[bi as int]@);
        }
        let blocker = match Task::parse(self.files[bi].content.as_str()) {
            Ok(t) => t,
            Err(e) => { return Err(StoreError::Parse(e)) },
        };
        let (bb2, had) = remove_id(&task.frontmatter.blocked_by, blocker.id());
        if !had {
            let mut m = String::from_str("Task is not blocked by ");
            m.append(blocker.id().full());
            return Err(StoreError::Parse(m));
        }
        let empty_now = bb2.len() == 0;
        task.frontmatter.blocked_by = bb2;
        proof {
            let tvt = spec_parse(old(self)@.files[ti as int].content).unwrap();
            let tvb = spec_parse(old(self)@.files[bi as int].content).unwrap();
            assert(task@ =~= (TaskView {
                blocked_by: sp_remove_id(tvt.blocked_by, tvb.id),
                ..tvt
            }));
        }
        let need_move = empty_now && self.files[ti].status == Status::Blocked;
        let dest = if need_move {
            Status::Open
        } else {
            self.files[ti].status
        };
        if need_move && self.any_other_at_path(
            self.path_of(Status::Open, self.files[ti].stem.as_str()).as_str(),
            ti,
        ) {
            return Err(StoreError::Io(String::from_str("destination exists")));
        }
        let old_path = self.path_of(self.files[ti].status, self.files[ti].stem.as_str());
        let msg = crate::chars::str_concat("Removed blocker: ", blocker.id().full());
        let author = self.get_author();
        let author_ref: Option<&str> = match &author {
            Some(a) => Some(a.as_str()),
            None => None,
        };
        proof {
            assert(author_ref.deep_view() == old(self)@.author);
        }
        task.add_log_at(msg.as_str(), author_ref, now);
        let content = task.to_markdown();
        let new_path = self.path_of(dest, self.files[ti].stem.as_str());
        let stem = self.files[ti].stem.clone();
        self.files.set(ti, StoredFile { status: dest, stem, content: content.clone() });
        proof {
            let m = old(self)@;
            let tvt = spec_parse(m.files[ti as int].content).unwrap();
            let tvb = spec_parse(m.files[bi as int].content).unwrap();
            let tv1 = TaskView { blocked_by: sp_remove_id(tvt.blocked_by, tvb.id), ..tvt };
            let tv2 = sp_logged(tv1, "Removed blocker: "@ + tvb.id, m.author, *now);
            assert(task@ =~= tv2);
            assert(final(self)@.files =~= m.files.update(
                ti as int,
                FileModel {
                    status: dest,
                    stem: m.files[ti as int].stem,
                    content: spec_to_markdown(tv2),
                },
            ));
        }
        Ok(EdgeOutcome { old_path, new_path, content, moved: need_move })
    }

    /// Append a free-form log entry to a task and rewrite its file in
    /// place.
    pub fn append_log(&mut self, id_or_prefix: &str, message: &str, now: &Timestamp) -> (r:
        Result<LogOutcome, StoreError>)
        ensures
            match r {
                Ok(out) => ({
                    let m = old(self)@;
                    &&& sp_find_index(m, id_or_prefix@) matches Some(i) && spec_parse(
                        m.files[i].content,
                    ) matches Some(tv) && {
                        let tv2 = sp_logged(tv, message@, m.author, *now);
                        let c2 = spec_to_markdown(tv2);
                        &&& final(self)@.tasks_dir == m.tasks_dir
                        &&& final(self)@.author == m.author
                        &&& final(self)@.files == m.files.update(
                            i,
                            FileModel {
                                status: m.files[i].status,
                                stem: m.files[i].stem,
                                content: c2,
                            },
                        )
                        &&& out.path@ == file_path(m, i)
                        &&& out.content@ == c2
                    }
                }),
                Err(e) => final(self)@ == old(self)@ && sp_append_error(
                    old(self)@,
                    id_or_prefix@,
                    e,
                ),
            },
    {
        let i = match self.find_index(id_or_prefix) {
            Ok(i) => i,
            Err(e) => { return Err(e) },
        };
        proof {
            assert(self@.files[i as int] == self.files@[i as int]@);
        }
        let mut task = match Task::parse(self.files[i].content.as_str()) {
            Ok(t) => t,
            Err(e) => { return Err(StoreError::Parse(e)) },
        };
        let path = self.path_of(self.files[i].status, self.files[i].stem.as_str());
        let author = self.get_author();
        let author_ref: Option<&str> = match &author {
            Some(a) => Some(a.as_str()),
            None => None,
        };
        proof {
            assert(author_ref.deep_view() == old(self)@.author);
        }
        task.add_log_at(message, author_ref, now);
        let content = task.to_markdown();
        let status = self.files[i].status;
        let stem = self.files[i].stem.clone();
        self.files.set(i, StoredFile { status, stem, content: content.clone() });
        proof {
            let m = old(self)@;
            let tv = spec_parse(m.files[i as int].content).unwrap();
            let tv2 = sp_logged(tv, message@, m.author, *now);
            assert(task@ =~= tv2);
            assert(final(self)@.files =~= m.files.update(
                i as int,
                FileModel {
                    status: m.files[i as int].status,
                    stem: m.files[i as int].stem,
                    content: spec_to_markdown(tv2),
                },
            ));
        }
        Ok(LogOutcome { path, content })
    }
}

/// The errors a close can report, tied to their causes.
pub open spec fn sp_close_error(m: StoreModel, q: Seq<char>, e: StoreError) -> bool {
    match e {
        StoreError::TaskNotFound(s) => s@ == q && sp_first_exact(m.files, q) is None
            && sp_prefix_count(m.files, q) == 0,
        StoreError::AmbiguousId(s) => s@ == q && sp_first_exact(m.files, q) is None
            && sp_prefix_count(m.files, q) >= 2,
        StoreError::Parse(_) => sp_find_index(m, q) matches Some(i)
            && !m.files[i].status.spec_resolved() && spec_parse(m.files[i].content) is None,
        StoreError::Io(_) => sp_find_index(m, q) matches Some(i)
            && !m.files[i].status.spec_resolved() && spec_parse(m.files[i].content) is Some
            && exists|j: int|
            0 <= j < m.files.len() && j != i && #[trigger] file_path(m, j) == spec_path(
                m.tasks_dir,
                Status::Closed,
                m.files[i].stem,
            ),
        _ => false,
    }
}

/// The errors a reopen can report, tied to their causes.
pub open spec fn sp_reopen_error(m: StoreModel, q: Seq<char>, e: StoreError) -> bool {
    match e {
        StoreError::TaskNotFound(s) => s@ == q && sp_first_exact(m.files, q) is None
            && sp_prefix_count(m.files, q) == 0,
        StoreError::AmbiguousId(s) => s@ == q && sp_first_exact(m.files, q) is None
            && sp_prefix_count(m.files, q) >= 2,
        StoreError::Parse(_) => sp_find_index(m, q) matches Some(i)
            && m.files[i].status.spec_resolved() && spec_parse(m.files[i].content) is None,
        StoreError::Io(_) => sp_find_index(m, q) matches Some(i)
            && m.files[i].status.spec_resolved() && spec_parse(m.files[i].content) is Some
            && exists|j: int|
            0 <= j < m.files.len() && j != i && #[trigger] file_path(m, j) == spec_path(
                m.tasks_dir,
                Status::Open,
                m.files[i].stem,
            ),
        _ => false,
    }
}

/// The errors a blocker-edge edit can report: either lookup failing, either
/// file unparseable, or an occupied destination.
pub open spec fn sp_edge_error(m: StoreModel, tq: Seq<char>, bq: Seq<char>, e: StoreError) -> bool {
    match e {
        StoreError::TaskNotFound(s) => (s@ == tq && sp_first_exact(m.files, tq) is None
            && sp_prefix_count(m.files, tq) == 0) || (s@ == bq && sp_find_index(m, tq) is Some
            && sp_first_exact(m.files, bq) is None && sp_prefix_count(m.files, bq) == 0),
        StoreError::AmbiguousId(s) => (s@ == tq && sp_first_exact(m.files, tq) is None
            && sp_prefix_count(m.files, tq) >= 2) || (s@ == bq && sp_find_index(m, tq) is Some
            && sp_first_exact(m.files, bq) is None && sp_prefix_count(m.files, bq) >= 2),
        StoreError::Parse(_) => sp_find_index(m, tq) is Some && sp_find_index(m, bq) is Some && (
        spec_parse(m.files[sp_find_index(m, tq).unwrap()].content) is None || spec_parse(
            m.files[sp_find_index(m, bq).unwrap()].content,
        ) is None),
        StoreError::Io(_) => sp_find_index(m, tq) matches Some(ti) && sp_find_index(
            m,
            bq,
        ) matches Some(bi) && spec_parse(m.files[ti].content) is Some && spec_parse(
            m.files[bi].content,
        ) is Some && !m.files[bi].status.spec_resolved() && m.files[ti].status != Status::Blocked
            && exists|j: int|
            0 <= j < m.files.len() && j != ti && #[trigger] file_path(m, j) == spec_path(
                m.tasks_dir,
                Status::Blocked,
                m.files[ti].stem,
            ),
        _ => false,
    }
}

/// The errors an unblock can report; removing an edge that is not present
/// is a parse-class error as well.
pub open spec fn sp_unblock_error(m: StoreModel, tq: Seq<char>, bq: Seq<char>, e: StoreError) -> bool {
    match e {
        StoreError::TaskNotFound(s) => (s@ == tq && sp_first_exact(m.files, tq) is None
            && sp_prefix_count(m.files, tq) == 0) || (s@ == bq && sp_find_index(m, tq) is Some
            && sp_first_exact(m.files, bq) is None && sp_prefix_count(m.files, bq) == 0),
        StoreError::AmbiguousId(s) => (s@ == tq && sp_first_exact(m.files, tq) is None
            && sp_prefix_count(m.files, tq) >= 2) || (s@ == bq && sp_find_index(m, tq) is Some
            && sp_first_exact(m.files, bq) is None && sp_prefix_count(m.files, bq) >= 2),
        StoreError::Parse(_) => sp_find_index(m, tq) is Some && (spec_parse(
            m.files[sp_find_index(m, tq).unwrap()].content,
        ) is None || (sp_find_index(m, bq) is Some && (spec_parse(
            m.files[sp_find_index(m, bq).unwrap()].content,
        ) is None || (spec_parse(m.files[sp_find_index(m, tq).unwrap()].content) matches Some(tvt)
            && spec_parse(m.files[sp_find_index(m, bq).unwrap()].content) matches Some(tvb)
            && !sp_has_id(tvt.blocked_by, tvb.id))))),
        StoreError::Io(_) => sp_find_index(m, tq) matches Some(ti) && sp_find_index(
            m,
            bq,
        ) matches Some(bi) && spec_parse(m.files[ti].content) matches Some(tvt) && spec_parse(
            m.files[bi].content,
        ) matches Some(tvb) && sp_has_id(tvt.blocked_by, tvb.id) && sp_remove_id(
            tvt.blocked_by,
            tvb.id,
        ).len() == 0 && m.files[ti].status == Status::Blocked && exists|j: int|
            0 <= j < m.files.len() && j != ti && #[trigger] file_path(m, j) == spec_path(
                m.tasks_dir,
                Status::Open,
                m.files[ti].stem,
            ),
        _ => false,
    }
}

/// The errors a log append can report.
pub open spec fn sp_append_error(m: StoreModel, q: Seq<char>, e: StoreError) -> bool {
    match e {
        StoreError::TaskNotFound(s) => s@ == q && sp_first_exact(m.files, q) is None
            && sp_prefix_count(m.files, q) == 0,
        StoreError::AmbiguousId(s) => s@ == q && sp_first_exact(m.files, q) is None
            && sp_prefix_count(m.files, q) >= 2,
        StoreError::Parse(_) => sp_find_index(m, q) matches Some(i) && spec_parse(
            m.files[i].content,
        ) is None,
        _ => false,
    }
}

/// The error cases a status transition can report, each tied to the state
/// that provokes it: an unknown or ambiguous query, a task in the wrong
/// status or with unparseable text, or an occupied destination. In
/// particular, on a found task of the expected status whose text parses and
/// whose destination spot is free, no error is permitted at all.
pub open spec fn sp_transition_error(
    m: StoreModel,
    q: Seq<char>,
    e: StoreError,
    expected: Status,
    dest: Status,
) -> bool {
    match e {
        StoreError::TaskNotFound(s) => s@ == q && sp_first_exact(m.files, q) is None
            && sp_prefix_count(m.files, q) == 0,
        StoreError::AmbiguousId(s) => s@ == q && sp_first_exact(m.files, q) is None
            && sp_prefix_count(m.files, q) >= 2,
        StoreError::Parse(_) => sp_find_index(m, q) matches Some(i) && (m.files[i].status
            != expected || spec_parse(m.files[i].content) is None),
        StoreError::Io(_) => sp_find_index(m, q) matches Some(i) && m.files[i].status == expected
            && spec_parse(m.files[i].content) is Some && exists|j: int|
            0 <= j < m.files.len() && j != i && #[trigger] file_path(m, j) == spec_path(
                m.tasks_dir,
                dest,
                m.files[i].stem,
            ),
        _ => false,
    }
}

/// The identifiers of every file whose text parses, in file order.
pub open spec fn sp_all_ids(fs: Seq<FileModel>) -> Seq<Seq<char>>
    decreases fs.len(),
{
    if fs.len() == 0 {
        Seq::<Seq<char>>::empty()
    } else {
        sp_all_ids(fs.drop_last()) + (match spec_parse(fs.last().content) {
            Some(tv) => seq![tv.id],
            None => Seq::<Seq<char>>::empty(),
        })
    }
}

/// A listing vector agrees with a spec-level listing, pair for pair.
pub open spec fn listing_matches(v: Seq<(String, Task)>, l: Seq<(Seq<char>, TaskView)>) -> bool {
    &&& v.len() == l.len()
    &&& forall|k: int| 0 <= k < l.len() ==> (#[trigger] v[k]).0@ == l[k].0 && v[k].1@ == l[k].1
}

/// The listings of all five status directories, in their fixed order.
pub open spec fn sp_all_listing(dir: Seq<char>, fs: Seq<FileModel>) -> Seq<(Seq<char>, TaskView)> {
    sp_listing(dir, fs, Status::Open) + sp_listing(dir, fs, Status::InProgress) + sp_listing(
        dir,
        fs,
        Status::Blocked,
    ) + sp_listing(dir, fs, Status::Closed) + sp_listing(dir, fs, Status::Cancelled)
}

/// The listings of the three non-terminal status directories.
pub open spec fn sp_active_listing(dir: Seq<char>, fs: Seq<FileModel>) -> Seq<
    (Seq<char>, TaskView),
> {
    sp_listing(dir, fs, Status::Open) + sp_listing(dir, fs, Status::InProgress) + sp_listing(
        dir,
        fs,
        Status::Blocked,
    )
}

/// A blocked task that waited on the given identifier and whose blockers
/// are now all satisfied.
pub open spec fn is_unblock_target(fs: Seq<FileModel>, i: int, id: Seq<char>) -> bool {
    &&& 0 <= i < fs.len()
    &&& fs[i].status == Status::Blocked
    &&& match spec_parse(fs[i].content) {
        Some(tv) => sp_has_id(tv.blocked_by, id) && sp_all_blockers_satisfied(fs, tv),
        None => false,
    }
}

pub open spec fn sp_has_id(s: Seq<Seq<char>>, b: Seq<char>) -> bool {
    exists|k: int| 0 <= k < s.len() && s[k] == b
}

/// The open-directory paths of the unblock targets among the first `n`
/// files, in file order.
pub open spec fn sp_unblocked_paths(
    dir: Seq<char>,
    fs: Seq<FileModel>,
    id: Seq<char>,
    n: int,
) -> Seq<Seq<char>>
    decreases n,
{
    if n <= 0 {
        Seq::<Seq<char>>::empty()
    } else {
        sp_unblocked_paths(dir, fs, id, n - 1) + (if is_unblock_target(fs, n - 1, id) {
            seq![spec_path(dir, Status::Open, fs[n - 1].stem)]
        } else {
            Seq::<Seq<char>>::empty()
        })
    }
}

/// Whether the vector holds the given identifier.
fn contains_id(v: &Vec<TaskId>, b: &TaskId) -> (r: bool)
    ensures
        r == sp_has_id(v.deep_view(), b@),
{
    let n = v.len();
    let mut i: usize = 0;
    while i < n
        invariant
            n == v@.len(),
            i <= n,
            forall|k: int| 0 <= k < i ==> v.deep_view()[k] != b@,
        decreases n - i,
    {
        proof {
            assert(v.deep_view()[i as int] == v@[i as int]@);
        }
        if v[i].same(b) {
            return true;
        }
        i = i + 1;
    }
    false
}

/// When a file already sits at a path of the given status and stem, it has
/// that status.
proof fn lemma_at_path_status(m: StoreModel, p: Seq<char>, st: Status, stem: Seq<char>)
    requires
        p == spec_path(m.tasks_dir, st, stem),
        sp_first_at_path(m, p) is Some,
    ensures
        ({
            let i = sp_first_at_path(m, p).unwrap();
            0 <= i < m.files.len() && m.files[i].status == st
        }),
{
    lemma_at_path_status_from(m, p, st, stem, 0);
}

proof fn lemma_at_path_status_from(
    m: StoreModel,
    p: Seq<char>,
    st: Status,
    stem: Seq<char>,
    from: int,
)
    requires
        p == spec_path(m.tasks_dir, st, stem),
        sp_first_at_path_from(m, p, from) is Some,
    ensures
        ({
            let i = sp_first_at_path_from(m, p, from).unwrap();
            0 <= i < m.files.len() && m.files[i].status == st
        }),
    decreases m.files.len() - from,
{
    if 0 <= from < m.files.len() {
        if file_path(m, from) == p {
            lemma_path_status_injective(m.tasks_dir, m.files[from].status, m.files[from].stem, st, stem);
        } else {
            lemma_at_path_status_from(m, p, st, stem, from + 1);
        }
    }
}

/// Equal paths name equal statuses: the status directory name is readable
/// off the path.
proof fn lemma_path_status_injective(
    dir: Seq<char>,
    st1: Status,
    stem1: Seq<char>,
    st2: Status,
    stem2: Seq<char>,
)
    requires
        spec_path(dir, st1, stem1) == spec_path(dir, st2, stem2),
    ensures
        st1 == st2,
{
    if st1 != st2 {
        let p1 = spec_path(dir, st1, stem1);
        let p2 = spec_path(dir, st2, stem2);
        let n1 = st1.spec_name();
        let n2 = st2.spec_name();
        reveal_strlit("open");
        reveal_strlit("in-progress");
        reveal_strlit("blocked");
        reveal_strlit("closed");
        reveal_strlit("cancelled");
        reveal_strlit("/");
        reveal_strlit(".md");
        let d = dir.len() + 1;
        if n1.len() == n2.len() {
            assert(forall|x: int| 0 <= x < n1.len() ==> p1[d + x] == n1[x] && p2[d + x] == n2[x]);
            assert(n1 =~= n2);
            crate::task::lemma_status_dir_names(st1);
            crate::task::lemma_status_dir_names(st2);
            assert(false);
        } else {
            // distinct lengths: the shorter name would have to end where a
            // separator stands in the other path
            let (sh, lo, nsh, nlo) = if n1.len() < n2.len() {
                (st1, st2, n1, n2)
            } else {
                (st2, st1, n2, n1)
            };
            assert(p1 == p2);
            assert(p1[d + nsh.len() as int] == p2[d + nsh.len() as int]);
            assert(nlo[nsh.len() as int] != '/') by {
                lemma_status_name_no_slash(lo);
            }
            lemma_status_name_no_slash(lo);
            assert(false);
        }
    }
}

/// No status directory name holds a path separator.
proof fn lemma_status_name_no_slash(st: Status)
    ensures
        forall|x: int| 0 <= x < st.spec_name().len() ==> st.spec_name()[x] != '/',
{
    reveal_strlit("open");
    reveal_strlit("in-progress");
    reveal_strlit("blocked");
    reveal_strlit("closed");
    reveal_strlit("cancelled");
}

/// Index of the first occurrence of `c` in `p`, if any.
pub open spec fn sp_find_char(p: Seq<char>, c: char) -> Option<int>
    decreases p.len(),
{
    if p.len() == 0 {
        None
    } else if p[0] == c {
        Some(0)
    } else {
        match sp_find_char(p.drop_first(), c) {
            Some(j) => Some(1 + j),
            None => None,
        }
    }
}

/// Index of the last occurrence of `c` in `p`, if any.
pub open spec fn sp_rfind_char(p: Seq<char>, c: char) -> Option<int>
    decreases p.len(),
{
    if p.len() == 0 {
        None
    } else if p[p.len() - 1] == c {
        Some(p.len() - 1)
    } else {
        sp_rfind_char(p.drop_last(), c)
    }
}

/// The status named by the parent directory in a path: the segment between
/// the last two separators, or everything before a sole separator.
pub open spec fn spec_status_from_path(p: Seq<char>) -> Option<Status> {
    match sp_rfind_char(p, '/') {
        None => None,
        Some(j) => {
            let before = p.subrange(0, j);
            match sp_rfind_char(before, '/') {
                None => crate::task::spec_status_of_dir(before),
                Some(k) => crate::task::spec_status_of_dir(
                    before.subrange(k + 1, before.len() as int),
                ),
            }
        },
    }
}

proof fn lemma_rfind_at(p: Seq<char>, c: char, j: int)
    requires
        0 <= j < p.len(),
        p[j] == c,
        forall|m: int| j < m < p.len() ==> p[m] != c,
    ensures
        sp_rfind_char(p, c) == Some(j),
    decreases p.len(),
{
    if j == p.len() - 1 {
    } else {
        lemma_rfind_at(p.drop_last(), c, j);
    }
}

proof fn lemma_rfind_none(p: Seq<char>, c: char)
    requires
        forall|m: int| 0 <= m < p.len() ==> p[m] != c,
    ensures
        sp_rfind_char(p, c) is None,
    decreases p.len(),
{
    if p.len() > 0 {
        lemma_rfind_none(p.drop_last(), c);
    }
}

/// The last occurrence of `c` strictly before index `n` in `s`.
fn rfind_char(s: &str, c: char, n: usize) -> (r: Option<usize>)
    requires
        n <= s@.len(),
    ensures
        match r {
            Some(j) => j < n && s@[j as int] == c && (forall|m: int|
                j < m < n ==> s@[m] != c) && sp_rfind_char(s@.subrange(0, n as int), c) == Some(
                j as int,
            ),
            None => (forall|m: int| 0 <= m < n ==> s@[m] != c) && sp_rfind_char(
                s@.subrange(0, n as int),
                c,
            ) is None,
        },
{
    let mut i: usize = n;
    while i > 0
        invariant
            i <= n <= s@.len(),
            forall|m: int| i <= m < n ==> s@[m] != c,
        decreases i,
    {
        i = i - 1;
        if s.get_char(i) == c {
            proof {
                assert(s@.subrange(0, n as int)[i as int] == c);
                assert(forall|m: int|
                    i < m < n ==> s@.subrange(0, n as int)[m] == s@[m] && s@[m] != c);
                lemma_rfind_at(s@.subrange(0, n as int), c, i as int);
            }
            return Some(i);
        }
    }
    proof {
        assert(forall|m: int| 0 <= m < n ==> s@.subrange(0, n as int)[m] == s@[m]);
        lemma_rfind_none(s@.subrange(0, n as int), c);
    }
    None
}

proof fn lemma_find_at(p: Seq<char>, c: char, j: int)
    requires
        0 <= j < p.len(),
        p[j] == c,
        forall|m: int| 0 <= m < j ==> p[m] != c,
    ensures
        sp_find_char(p, c) == Some(j),
    decreases j,
{
    if j > 0 {
        lemma_find_at(p.drop_first(), c, j - 1);
    }
}

proof fn lemma_find_none(p: Seq<char>, c: char)
    requires
        forall|m: int| 0 <= m < p.len() ==> p[m] != c,
    ensures
        sp_find_char(p, c) is None,
    decreases p.len(),
{
    if p.len() > 0 {
        lemma_find_none(p.drop_first(), c);
    }
}

/// The first occurrence of `c` in `s`.
fn find_char(s: &str, c: char) -> (r: Option<usize>)
    ensures
        match r {
            Some(j) => j < s@.len() && s@[j as int] == c && (forall|m: int|
                0 <= m < j ==> s@[m] != c) && sp_find_char(s@, c) == Some(j as int),
            None => (forall|m: int| 0 <= m < s@.len() ==> s@[m] != c) && sp_find_char(s@, c)
                is None,
        },
{
    let n = s.unicode_len();
    let mut i: usize = 0;
    while i < n
        invariant
            n == s@.len(),
            i <= n,
            forall|m: int| 0 <= m < i ==> s@[m] != c,
        decreases n - i,
    {
        if s.get_char(i) == c {
            proof {
                lemma_find_at(s@, c, i as int);
            }
            return Some(i);
        }
        i = i + 1;
    }
    proof {
        lemma_find_none(s@, c);
    }
    None
}

} // verus!
