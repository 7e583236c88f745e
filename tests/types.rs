use commitmux::ignore::IgnoreConfig;
use commitmux::types::{
    Commit, CommitFile, CommitPatch, CommitmuxError, FileStatus, IngestState, Repo, RepoListEntry,
    RepoUpdate, SearchOpts,
};

#[test]
fn test_smoke_construct_all_types() {
    let repo = Repo {
        repo_id: 1,
        name: "myrepo".into(),
        local_path: "/tmp/myrepo".into(),
        remote_url: Some("https://github.com/user/myrepo".into()),
        default_branch: Some("main".into()),
        fork_of: None,
        author_filter: None,
        exclude_prefixes: vec![],
        embed_enabled: false,
    };
    assert_eq!(repo.name, "myrepo");

    let commit = Commit {
        repo_id: 1,
        sha: "abc123".into(),
        author_name: "Alice".into(),
        author_email: "alice@example.com".into(),
        committer_name: "Alice".into(),
        committer_email: "alice@example.com".into(),
        author_time: 1700000000,
        commit_time: 1700000000,
        subject: "Initial commit".into(),
        body: None,
        parent_count: 0,
    };
    assert_eq!(commit.sha, "abc123");

    let file = CommitFile {
        repo_id: 1,
        sha: "abc123".into(),
        path: "src/main.rs".into(),
        status: FileStatus::Added,
        old_path: None,
    };
    assert_eq!(file.status, FileStatus::Added);
    assert_eq!(file.status.as_str(), "A");

    let patch = CommitPatch {
        repo_id: 1,
        sha: "abc123".into(),
        patch_blob: vec![0u8; 10],
        patch_preview: "--- a/src/main.rs\n+++ b/src/main.rs".into(),
    };
    assert!(!patch.patch_blob.is_empty());

    let state = IngestState {
        repo_id: 1,
        last_synced_at: 1700000000,
        last_synced_sha: Some("abc123".into()),
        last_error: None,
    };
    assert!(state.last_error.is_none());

    let opts = SearchOpts::default();
    assert!(opts.since.is_none());
    assert!(opts.limit.is_none());

    let config = IgnoreConfig::default();
    assert!(config.path_prefixes.contains(&"node_modules/".to_string()));
    assert_eq!(config.max_patch_bytes, 1_048_576);
}

#[test]
fn test_file_status_display() {
    assert_eq!(FileStatus::Added.as_str(), "A");
    assert_eq!(FileStatus::Modified.as_str(), "M");
    assert_eq!(FileStatus::Deleted.as_str(), "D");
    assert_eq!(FileStatus::Renamed.as_str(), "R");
}

#[test]
fn file_status_remaining_codes() {
    assert_eq!(FileStatus::Copied.as_str(), "C");
    assert_eq!(FileStatus::Unknown.as_str(), "?");
}

#[test]
fn test_repo_new_fields_default() {
    let repo = Repo {
        repo_id: 42,
        name: "my-repo".into(),
        local_path: "/tmp/my-repo".into(),
        remote_url: None,
        default_branch: None,
        fork_of: None,
        author_filter: None,
        exclude_prefixes: vec![],
        embed_enabled: false,
    };
    assert!(repo.fork_of.is_none());
    assert!(repo.author_filter.is_none());
    assert!(repo.exclude_prefixes.is_empty());
}

#[test]
fn test_repo_update_type() {
    let default_update = RepoUpdate::default();
    assert!(default_update.fork_of.is_none());
    assert!(default_update.author_filter.is_none());
    assert!(default_update.exclude_prefixes.is_none());
    assert!(default_update.default_branch.is_none());

    let update_with_fork = RepoUpdate {
        fork_of: Some(Some("https://github.com/foo/bar".into())),
        ..RepoUpdate::default()
    };
    assert_eq!(
        update_with_fork.fork_of,
        Some(Some("https://github.com/foo/bar".into()))
    );
}

#[test]
fn repo_list_entry_fields() {
    let entry = RepoListEntry {
        name: "my-repo".into(),
        commit_count: 42,
        last_synced_at: Some(1700000000),
    };
    assert_eq!(entry.name, "my-repo");
    assert_eq!(entry.commit_count, 42);
    assert_eq!(entry.last_synced_at, Some(1700000000));
}

#[test]
fn error_messages_name_their_kind() {
    assert_eq!(
        CommitmuxError::NotFound("repo 'x' not found".into()).message(),
        "not found: repo 'x' not found"
    );
    assert_eq!(CommitmuxError::Store("locked".into()).message(), "store error: locked");
    assert_eq!(CommitmuxError::Ingest("bad".into()).message(), "ingest error: bad");
    assert_eq!(CommitmuxError::Io("eof".into()).message(), "io error: eof");
    assert_eq!(CommitmuxError::Config("x".into()).message(), "config error: x");
}

#[test]
fn test_mcp_tip_on_resync() {
    let commits_indexed = 0usize;
    let commits_already_indexed = 43usize;
    let total_in_index = commits_indexed + commits_already_indexed;
    assert!(
        total_in_index > 0,
        "tip should show when index is non-empty, even with 0 new commits"
    );
}
