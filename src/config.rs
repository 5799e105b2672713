//! Configuration of the coordinator, of a worker and of a client, and the
//! file layout of the file-system resource store.
use vstd::prelude::*;
use crate::model::TaskType;
use crate::seqs::{first_where, lemma_first_where_is, lemma_first_where_none};

verus! {

/// Where task inputs are kept: in the store's own table, or as files under a root directory.
#[derive(Debug, Clone)]
pub enum Resource {
    Db,
    FS(String),
}

/// `"db"` selects the store's table; anything else the file system under `path`.
pub open spec fn resource_choice(resource_type: Seq<char>, path: Seq<char>) -> (bool, Seq<char>) {
    if resource_type == "db"@ {
        (true, Seq::empty())
    } else {
        (false, path)
    }
}

pub open spec fn resource_matches(r: Resource, resource_type: Seq<char>, path: Seq<char>) -> bool {
    match r {
        Resource::Db => resource_choice(resource_type, path).0,
        Resource::FS(p) => !resource_choice(resource_type, path).0 && p@ == path,
    }
}

fn choose_resource(resource_type: &String, resource_path: String) -> (r: Resource)
    ensures
        resource_matches(r, resource_type@, resource_path@),
{
    let db = String::from_str("db");
    if *resource_type == db {
        Resource::Db
    } else {
        Resource::FS(resource_path)
    }
}

/// Settings of the coordinator process.
#[derive(Debug, Clone)]
pub struct ServiceConfig {
    pub url: String,
    pub db_dsn: String,
    pub disable_worker: bool,
    pub max_tasks: usize,
    pub allow_types: Option<Vec<TaskType>>,
    pub log_level: String,
    pub resource: Resource,
    pub debug_sql: bool,
}

impl ServiceConfig {
    pub fn new(
        url: String,
        db_dsn: String,
        max_tasks: usize,
        disable_worker: bool,
        resource_type: String,
        resource_path: String,
        log_level: String,
        allow_types: Option<Vec<TaskType>>,
        debug_sql: bool,
    ) -> (r: ServiceConfig)
        ensures
            r.url@ == url@,
            r.db_dsn@ == db_dsn@,
            r.max_tasks == max_tasks,
            r.disable_worker == disable_worker,
            resource_matches(r.resource, resource_type@, resource_path@),
            r.log_level@ == log_level@,
            r.allow_types == allow_types,
            r.debug_sql == debug_sql,
    {
        let resource = choose_resource(&resource_type, resource_path);
        ServiceConfig { url, db_dsn, disable_worker, max_tasks, allow_types, log_level, resource, debug_sql }
    }
}

/// Settings of a worker process.
#[derive(Debug, Clone)]
pub struct WorkerConfig {
    pub url: String,
    pub db_dsn: String,
    pub max_tasks: usize,
    pub allow_types: Option<Vec<TaskType>>,
    pub log_level: String,
    pub resource: Resource,
    pub debug_sql: bool,
    /// The address to report in place of the discovered ones.
    pub manual_ip: Option<String>,
}

impl WorkerConfig {
    pub fn new(
        url: String,
        db_dsn: String,
        max_tasks: usize,
        resource_type: String,
        resource_path: String,
        log_level: String,
        allow_types: Option<Vec<TaskType>>,
        debug_sql: bool,
        manual_ip: Option<String>,
    ) -> (r: WorkerConfig)
        ensures
            r.url@ == url@,
            r.db_dsn@ == db_dsn@,
            r.max_tasks == max_tasks,
            resource_matches(r.resource, resource_type@, resource_path@),
            r.log_level@ == log_level@,
            r.allow_types == allow_types,
            r.debug_sql == debug_sql,
            r.manual_ip == manual_ip,
    {
        let resource = choose_resource(&resource_type, resource_path);
        WorkerConfig { url, db_dsn, max_tasks, allow_types, log_level, resource, debug_sql, manual_ip }
    }
}

/// Settings of a client of the coordinator.
#[derive(Debug, Clone)]
pub struct ClientConfig {
    pub url: String,
    pub db_dsn: String,
    pub max_c2: usize,
}

impl ClientConfig {
    pub fn new(url: String, db_dsn: String, max_c2: usize) -> (r: ClientConfig)
        ensures
            r.url@ == url@,
            r.db_dsn@ == db_dsn@,
            r.max_c2 == max_c2,
    {
        ClientConfig { url, db_dsn, max_c2 }
    }
}

/// A resource identifier usable as a file name: not empty, no path
/// separator, not a directory reference.
pub open spec fn safe_resource_name(id: Seq<char>) -> bool {
    &&& id.len() > 0
    &&& !id.contains('/')
    &&& !id.contains('\\')
    &&& id != "."@
    &&& id != ".."@
}

/// `root` joined with file name `id`.
pub open spec fn joined_path(root: Seq<char>, id: Seq<char>) -> Seq<char> {
    if root.len() == 0 {
        id
    } else if root.last() == '/' {
        root + id
    } else {
        root + seq!['/'] + id
    }
}

/// Resources kept as files named by their identifiers under a root directory.
#[derive(Debug, Clone)]
pub struct FileResource {
    pub root: String,
}

impl FileResource {
    pub fn new(root: String) -> (r: FileResource)
        ensures
            r.root@ == root@,
    {
        FileResource { root }
    }

    /// The file of resource `id`; `None` for an identifier that would leave the root.
    pub fn path_for(&self, id: &str) -> (r: Option<String>)
        ensures
            safe_resource_name(id@) ==> (r matches Some(p) && p@ == joined_path(self.root@, id@)),
            !safe_resource_name(id@) ==> r is None,
    {
        let n = id.unicode_len();
        if n == 0 {
            return None;
        }
        let mut i: usize = 0;
        while i < n
            invariant
                n == id@.len(),
                i <= n,
                forall|j: int| 0 <= j < i ==> id@[j] != '/' && id@[j] != '\\',
            decreases n - i,
        {
            let c = id.get_char(i);
            if c == '/' || c == '\\' {
                assert(id@.contains(c));
                return None;
            }
            i = i + 1;
        }
        if n <= 2 {
            let c0 = id.get_char(0);
            if c0 == '.' && (n == 1 || id.get_char(1) == '.') {
                proof {
                    reveal_strlit(".");
                    reveal_strlit("..");
                    if n == 1 {
                        assert(id@ =~= "."@);
                    } else {
                        assert(id@ =~= ".."@);
                    }
                }
                return None;
            }
        }
        proof {
            reveal_strlit(".");
            reveal_strlit("..");
            assert(id@ != "."@ && id@ != ".."@) by {
                if id@ == "."@ {
                    assert(id@[0] == '.');
                }
                if id@ == ".."@ {
                    assert(id@[0] == '.' && id@[1] == '.');
                }
            }
        }
        let rn = self.root.as_str().unicode_len();
        let mut path = self.root.clone();
        if rn == 0 {
            return Some(String::from_str(id));
        }
        if self.root.as_str().get_char(rn - 1) != '/' {
            path.append("/");
            proof {
                reveal_strlit("/");
            }
        }
        path.append(id);
        proof {
            if self.root@.last() != '/' {
                assert(path@ =~= self.root@ + seq!['/'] + id@);
            }
        }
        Some(path)
    }
}

pub open spec fn starts_with(s: Seq<char>, p: Seq<char>) -> bool {
    p.len() <= s.len() && s.subrange(0, p.len() as int) == p
}

/// `s` with every leading repetition of `p` removed.
pub open spec fn trim_start_all(s: Seq<char>, p: Seq<char>) -> Seq<char>
    decreases s.len(),
{
    if p.len() > 0 && starts_with(s, p) {
        trim_start_all(s.subrange(p.len() as int, s.len() as int), p)
    } else {
        s
    }
}

pub open spec fn is_query_mark() -> spec_fn(char) -> bool {
    |c: char| c == '?'
}

/// The part of `s` before its first `?`.
pub open spec fn before_query(s: Seq<char>) -> Seq<char> {
    match first_where(s, is_query_mark()) {
        Some(i) => s.subrange(0, i),
        None => s,
    }
}

/// The database file that a SQLite DSN names, which must exist before the
/// store opens it; `None` for another engine and for an in-memory database.
pub open spec fn sqlite_file(url: Seq<char>) -> Option<Seq<char>> {
    if !starts_with(url, "sqlite"@) {
        None
    } else {
        let db = before_query(trim_start_all(trim_start_all(url, "sqlite://"@), "sqlite:"@));
        if db == ":memory:"@ {
            None
        } else {
            Some(db)
        }
    }
}

/// Whether `s` starts with `p`.
pub fn has_prefix(s: &str, p: &str) -> (r: bool)
    ensures
        r == starts_with(s@, p@),
{
    let n = s.unicode_len();
    let m = p.unicode_len();
    if m > n {
        return false;
    }
    let mut i: usize = 0;
    while i < m
        invariant
            n == s@.len(),
            m == p@.len(),
            m <= n,
            i <= m,
            forall|j: int| 0 <= j < i ==> s@[j] == p@[j],
        decreases m - i,
    {
        if s.get_char(i) != p.get_char(i) {
            assert(s@.subrange(0, m as int)[i as int] != p@[i as int]);
            return false;
        }
        i = i + 1;
    }
    assert(s@.subrange(0, m as int) =~= p@);
    true
}

/// Removes every leading repetition of `p` from `s`.
fn trim_start(s: &str, p: &str) -> (r: String)
    ensures
        r@ == trim_start_all(s@, p@),
{
    let m = p.unicode_len();
    let mut cur = String::from_str(s);
    if m == 0 {
        return cur;
    }
    while has_prefix(cur.as_str(), p)
        invariant
            m == p@.len(),
            m > 0,
            trim_start_all(cur@, p@) == trim_start_all(s@, p@),
        decreases cur@.len(),
    {
        let n = cur.as_str().unicode_len();
        let next = String::from_str(cur.as_str().substring_char(m, n));
        cur = next;
    }
    cur
}

/// The database file of a SQLite DSN, to be created before the store opens
/// it; `None` for another engine and for an in-memory database.
pub fn sqlite_db_file(url: &str) -> (r: Option<String>)
    ensures
        match sqlite_file(url@) {
            Some(f) => (r matches Some(x) && x@ == f),
            None => r is None,
        },
{
    proof {
        reveal_strlit("sqlite");
        reveal_strlit("sqlite://");
        reveal_strlit("sqlite:");
        reveal_strlit(":memory:");
    }
    if !has_prefix(url, "sqlite") {
        return None;
    }
    let a = trim_start(url, "sqlite://");
    let b = trim_start(a.as_str(), "sqlite:");
    let n = b.as_str().unicode_len();
    let mut i: usize = 0;
    while i < n && b.as_str().get_char(i) != '?'
        invariant
            n == b@.len(),
            i <= n,
            forall|j: int| 0 <= j < i ==> !is_query_mark()(#[trigger] b@[j]),
        decreases n - i,
    {
        i = i + 1;
    }
    proof {
        if i < n {
            lemma_first_where_is(b@, is_query_mark(), i as int);
        } else {
            lemma_first_where_none(b@, is_query_mark());
            assert(b@.subrange(0, n as int) =~= b@);
        }
    }
    let db = String::from_str(b.as_str().substring_char(0, i));
    let mem = String::from_str(":memory:");
    if db == mem {
        None
    } else {
        Some(db)
    }
}

} // verus!
