//! Records of the index: repositories, commits, changed files, patches,
//! query options and results, and the error kinds of the library.
use vstd::prelude::*;
use vstd::string::*;

verus! {

/// What can go wrong in the index and its callers.
#[derive(Debug, Clone)]
pub enum CommitmuxError {
    /// A fault of the persistent index (SQL, stored data, compression).
    Store(String),
    /// A fault while reading a repository.
    Ingest(String),
    /// A filesystem or stream fault.
    Io(String),
    /// Missing or malformed configuration.
    Config(String),
    /// The requested repository, commit or patch does not exist.
    NotFound(String),
}

/// The text that `message` renders for an error: its kind, then its detail.
pub open spec fn error_text(e: CommitmuxError) -> Seq<char> {
    match e {
        CommitmuxError::Store(m) => "store error: "@ + m@,
        CommitmuxError::Ingest(m) => "ingest error: "@ + m@,
        CommitmuxError::Io(m) => "io error: "@ + m@,
        CommitmuxError::Config(m) => "config error: "@ + m@,
        CommitmuxError::NotFound(m) => "not found: "@ + m@,
    }
}

impl CommitmuxError {
    /// The human-readable text of the error.
    pub fn message(&self) -> (r: String)
        ensures
            r@ == error_text(*self),
    {
        let (head, detail) = match self {
            CommitmuxError::Store(m) => ("store error: ", m),
            CommitmuxError::Ingest(m) => ("ingest error: ", m),
            CommitmuxError::Io(m) => ("io error: ", m),
            CommitmuxError::Config(m) => ("config error: ", m),
            CommitmuxError::NotFound(m) => ("not found: ", m),
        };
        let mut r = String::from_str(head);
        r.push_str(detail.as_str());
        r
    }
}

/// A registered repository.
#[derive(Debug, Clone)]
pub struct Repo {
    pub repo_id: i64,
    pub name: String,
    pub local_path: String,
    pub remote_url: Option<String>,
    pub default_branch: Option<String>,
    pub fork_of: Option<String>,
    pub author_filter: Option<String>,
    pub exclude_prefixes: Vec<String>,
    pub embed_enabled: bool,
}

/// What a caller supplies to register a repository.
#[derive(Debug, Clone)]
pub struct RepoInput {
    pub name: String,
    pub local_path: String,
    pub remote_url: Option<String>,
    pub default_branch: Option<String>,
    pub fork_of: Option<String>,
    pub author_filter: Option<String>,
    pub exclude_prefixes: Vec<String>,
    pub embed_enabled: bool,
}

/// A partial change of a repository's settings: `None` leaves a field as it is,
/// `Some(None)` clears an optional one.
#[derive(Debug, Clone, Default)]
pub struct RepoUpdate {
    pub fork_of: Option<Option<String>>,
    pub author_filter: Option<Option<String>>,
    pub exclude_prefixes: Option<Vec<String>>,
    pub default_branch: Option<Option<String>>,
    pub embed_enabled: Option<bool>,
}

/// One line of the repository listing.
#[derive(Debug, Clone)]
pub struct RepoListEntry {
    pub name: String,
    pub commit_count: usize,
    pub last_synced_at: Option<i64>,
}

/// A commit as the index keeps it.
#[derive(Debug, Clone)]
pub struct Commit {
    pub repo_id: i64,
    pub sha: String,
    pub author_name: String,
    pub author_email: String,
    pub committer_name: String,
    pub committer_email: String,
    pub author_time: i64,
    pub commit_time: i64,
    pub subject: String,
    pub body: Option<String>,
    pub parent_count: u32,
}

/// How a file changed in a commit.
#[derive(Debug, Clone, Copy, PartialEq, Eq, Structural)]
pub enum FileStatus {
    Added,
    Modified,
    Deleted,
    Renamed,
    Copied,
    Unknown,
}

/// The one-character code under which a status is persisted.
pub open spec fn status_code(s: FileStatus) -> Seq<char> {
    match s {
        FileStatus::Added => seq!['A'],
        FileStatus::Modified => seq!['M'],
        FileStatus::Deleted => seq!['D'],
        FileStatus::Renamed => seq!['R'],
        FileStatus::Copied => seq!['C'],
        FileStatus::Unknown => seq!['?'],
    }
}

impl FileStatus {
    /// The persisted code: A, M, D, R, C or ?.
    pub fn as_str(&self) -> (r: &'static str)
        ensures
            r@ == status_code(*self),
    {
        proof {
            reveal_strlit("A");
            reveal_strlit("M");
            reveal_strlit("D");
            reveal_strlit("R");
            reveal_strlit("C");
            reveal_strlit("?");
        }
        match self {
            FileStatus::Added => "A",
            FileStatus::Modified => "M",
            FileStatus::Deleted => "D",
            FileStatus::Renamed => "R",
            FileStatus::Copied => "C",
            FileStatus::Unknown => "?",
        }
    }
}

/// A file touched by a commit.
#[derive(Debug, Clone)]
pub struct CommitFile {
    pub repo_id: i64,
    pub sha: String,
    pub path: String,
    pub status: FileStatus,
    pub old_path: Option<String>,
}

/// The patch of a commit: its bytes and a preview of its text.
#[derive(Debug, Clone)]
pub struct CommitPatch {
    pub repo_id: i64,
    pub sha: String,
    pub patch_blob: Vec<u8>,
    pub patch_preview: String,
}

/// Where the last synchronisation of a repository ended.
#[derive(Debug, Clone)]
pub struct IngestState {
    pub repo_id: i64,
    pub last_synced_at: i64,
    pub last_synced_sha: Option<String>,
    pub last_error: Option<String>,
}

/// Filters of a full-text search.
#[derive(Debug, Clone, Default)]
pub struct SearchOpts {
    pub since: Option<i64>,
    pub repos: Option<Vec<String>>,
    pub paths: Option<Vec<String>>,
    pub limit: Option<usize>,
}

/// Filters of a path lookup.
#[derive(Debug, Clone, Default)]
pub struct TouchOpts {
    pub since: Option<i64>,
    pub repos: Option<Vec<String>>,
    pub limit: Option<usize>,
}

/// Filters of a nearest-neighbour search.
#[derive(Debug, Clone, Default)]
pub struct SemanticSearchOpts {
    pub repos: Option<Vec<String>>,
    pub since: Option<i64>,
    pub limit: Option<usize>,
}

/// One hit of a search.
#[derive(Debug, Clone)]
pub struct SearchResult {
    pub repo: String,
    pub sha: String,
    pub subject: String,
    pub author: String,
    pub date: i64,
    pub matched_paths: Vec<String>,
    pub patch_excerpt: String,
}

/// One hit of a path lookup.
#[derive(Debug, Clone)]
pub struct TouchResult {
    pub repo: String,
    pub sha: String,
    pub subject: String,
    pub date: i64,
    pub path: String,
    pub status: String,
}

/// A commit with its message and changed files.
#[derive(Debug, Clone)]
pub struct CommitDetail {
    pub repo: String,
    pub sha: String,
    pub subject: String,
    pub body: Option<String>,
    pub author: String,
    pub date: String,
    pub changed_files: Vec<CommitFileDetail>,
}

/// A changed file as a commit detail lists it.
#[derive(Debug, Clone)]
pub struct CommitFileDetail {
    pub path: String,
    pub status: String,
    pub old_path: Option<String>,
}

/// The decompressed patch of a commit.
#[derive(Debug, Clone)]
pub struct PatchResult {
    pub repo: String,
    pub sha: String,
    pub patch_text: String,
}

/// The counts and warnings of one synchronisation.
#[derive(Debug, Clone, Default)]
pub struct SyncSummary {
    pub commits_indexed: usize,
    pub commits_already_indexed: usize,
    pub commits_filtered: usize,
    pub errors: Vec<String>,
}

/// A commit that has no embedding yet, with what its document needs.
#[derive(Debug, Clone)]
pub struct EmbedCommit {
    pub repo_id: i64,
    pub sha: String,
    pub subject: String,
    pub body: Option<String>,
    pub files_changed: Vec<String>,
    pub patch_preview: Option<String>,
    pub author_name: String,
    pub repo_name: String,
    pub author_time: i64,
}

/// Per-repository statistics.
#[derive(Debug, Clone)]
pub struct RepoStats {
    pub repo_name: String,
    pub commit_count: usize,
    pub last_synced_at: Option<i64>,
    pub last_synced_sha: Option<String>,
    pub last_error: Option<String>,
}

/// Arguments of the search tool.
#[derive(Debug, Clone)]
pub struct SearchInput {
    pub query: String,
    pub since: Option<i64>,
    pub repos: Option<Vec<String>>,
    pub paths: Option<Vec<String>>,
    pub limit: Option<usize>,
}

/// Arguments of the path lookup tool; `path_glob` is matched as a substring.
#[derive(Debug, Clone)]
pub struct TouchesInput {
    pub path_glob: String,
    pub since: Option<i64>,
    pub repos: Option<Vec<String>>,
    pub limit: Option<usize>,
}

/// Arguments of the commit detail tool.
#[derive(Debug, Clone)]
pub struct GetCommitInput {
    pub repo: String,
    pub sha: String,
}

/// Arguments of the patch tool; `max_bytes` counts characters.
#[derive(Debug, Clone)]
pub struct GetPatchInput {
    pub repo: String,
    pub sha: String,
    pub max_bytes: Option<usize>,
}

} // verus!
