//! The tables of the index and the column migrations applied on open.
use vstd::prelude::*;
use vstd::string::*;
use crate::text::{contains_chars, has_prefix};

verus! {

/// Tables, indexes and the external-content text index.
pub const CORE_SCHEMA: &'static str = "
PRAGMA foreign_keys=ON;
CREATE TABLE IF NOT EXISTS repos (
    repo_id          INTEGER PRIMARY KEY AUTOINCREMENT,
    name             TEXT NOT NULL UNIQUE,
    local_path       TEXT NOT NULL,
    remote_url       TEXT,
    default_branch   TEXT,
    fork_of          TEXT,
    author_filter    TEXT,
    exclude_prefixes TEXT
);
CREATE TABLE IF NOT EXISTS commits (
    repo_id         INTEGER NOT NULL,
    sha             TEXT NOT NULL,
    author_name     TEXT,
    author_email    TEXT,
    committer_name  TEXT,
    committer_email TEXT,
    author_time     INTEGER,
    commit_time     INTEGER,
    subject         TEXT,
    body            TEXT,
    parent_count    INTEGER,
    patch_preview   TEXT,
    PRIMARY KEY (repo_id, sha)
);
CREATE TABLE IF NOT EXISTS commit_files (
    repo_id  INTEGER NOT NULL,
    sha      TEXT NOT NULL,
    path     TEXT NOT NULL,
    status   TEXT,
    old_path TEXT
);
CREATE INDEX IF NOT EXISTS idx_commit_files_repo_sha ON commit_files (repo_id, sha);
CREATE INDEX IF NOT EXISTS idx_commit_files_path ON commit_files (path);
CREATE TABLE IF NOT EXISTS commit_patches (
    repo_id    INTEGER NOT NULL,
    sha        TEXT NOT NULL,
    patch_blob BLOB,
    PRIMARY KEY (repo_id, sha)
);
CREATE TABLE IF NOT EXISTS ingest_state (
    repo_id         INTEGER PRIMARY KEY,
    last_synced_at  INTEGER,
    last_synced_sha TEXT,
    last_error      TEXT
);
CREATE VIRTUAL TABLE IF NOT EXISTS commits_fts
    USING fts5(subject, body, patch_preview, content='commits', content_rowid='rowid');
CREATE TABLE IF NOT EXISTS config (
    key   TEXT PRIMARY KEY,
    value TEXT NOT NULL
);
CREATE TABLE IF NOT EXISTS commit_embed_map (
    embed_id INTEGER PRIMARY KEY AUTOINCREMENT,
    repo_id  INTEGER NOT NULL,
    sha      TEXT NOT NULL,
    UNIQUE(repo_id, sha)
);
";

/// The vector table, which needs the vector extension loaded.
pub const VECTOR_SCHEMA: &'static str = "
CREATE VIRTUAL TABLE IF NOT EXISTS commit_embeddings USING vec0(
    embed_id       INTEGER PRIMARY KEY,
    embedding      FLOAT[768],
    +sha           TEXT,
    +subject       TEXT,
    +repo_name     TEXT,
    +author_name   TEXT,
    +author_time   INTEGER,
    +patch_preview TEXT
);
";

/// Columns added after the first release, in the order they are applied.
pub open spec fn migration_sql() -> Seq<Seq<char>> {
    seq![
        "ALTER TABLE repos ADD COLUMN fork_of TEXT"@,
        "ALTER TABLE repos ADD COLUMN author_filter TEXT"@,
        "ALTER TABLE repos ADD COLUMN exclude_prefixes TEXT"@,
        "ALTER TABLE repos ADD COLUMN embed_enabled INTEGER NOT NULL DEFAULT 0"@,
    ]
}

/// The column migrations, each run on its own.
pub fn migrations() -> (r: Vec<&'static str>)
    ensures
        r@.map_values(|s: &str| s@) == migration_sql(),
{
    let mut r: Vec<&'static str> = Vec::new();
    r.push("ALTER TABLE repos ADD COLUMN fork_of TEXT");
    r.push("ALTER TABLE repos ADD COLUMN author_filter TEXT");
    r.push("ALTER TABLE repos ADD COLUMN exclude_prefixes TEXT");
    r.push("ALTER TABLE repos ADD COLUMN embed_enabled INTEGER NOT NULL DEFAULT 0");
    assert(r@.map_values(|s: &str| s@) =~= migration_sql());
    r
}

/// A failed migration is harmless when the column is there already: the
/// database says "duplicate column name". Any other failure stops the open.
pub fn migration_error_is_benign(message: &str) -> (r: bool)
    ensures
        r == contains_chars(message@, "duplicate column name"@),
{
    crate::text::find_text(message, "duplicate column name")
}

} // verus!
