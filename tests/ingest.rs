use commitmux::ignore::{effective_config, is_ignored, IgnoreConfig};
use commitmux::ingest::{
    commit_files, decide_commit, skip_in_patch, CommitAction, DeltaInfo, DeltaKind, DeltaPath,
    Git2Ingester, PatchText,
};
use commitmux::ingest::{tip_specs, upstream_refs};
use commitmux::message::parse_message;
use commitmux::types::{FileStatus, SyncSummary};

fn path(p: Option<&str>) -> DeltaPath {
    match p {
        Some(s) => DeltaPath::Text(s.to_string()),
        None => DeltaPath::Absent,
    }
}

fn delta(kind: DeltaKind, old: Option<&str>, new: Option<&str>, binary: bool) -> DeltaInfo {
    DeltaInfo {
        kind,
        old_path: path(old),
        new_path: path(new),
        binary,
    }
}

fn node_modules_only() -> IgnoreConfig {
    IgnoreConfig {
        path_prefixes: vec!["node_modules/".into()],
        max_patch_bytes: 1_048_576,
    }
}

#[test]
fn ignore_rules_keep_only_unexcluded_paths() {
    let deltas = vec![
        delta(DeltaKind::Added, None, Some("node_modules/a.js"), false),
        delta(DeltaKind::Added, None, Some("src/main.rs"), false),
    ];
    let files = commit_files(&deltas, 1, "abc", &node_modules_only());
    assert_eq!(files.len(), 1);
    assert_eq!(files[0].path, "src/main.rs");
    assert_eq!(files[0].status, FileStatus::Added);
    assert_eq!(files[0].sha, "abc");
    assert_eq!(files[0].repo_id, 1);
}

#[test]
fn repo_exclusions_join_the_global_ones() {
    let merged = effective_config(&node_modules_only(), &vec!["generated/".to_string(), "node_modules/".to_string()]);
    assert_eq!(merged.path_prefixes, vec!["node_modules/", "generated/"]);
    let deltas = vec![
        delta(DeltaKind::Added, None, Some("src/main.rs"), false),
        delta(DeltaKind::Added, None, Some("generated/api.rs"), false),
    ];
    let files = commit_files(&deltas, 1, "abc", &merged);
    let paths: Vec<&str> = files.iter().map(|f| f.path.as_str()).collect();
    assert_eq!(paths, vec!["src/main.rs"]);
}

#[test]
fn delta_paths_statuses_and_binaries() {
    let deltas = vec![
        delta(DeltaKind::Deleted, Some("old.rs"), Some("old.rs"), false),
        delta(DeltaKind::Renamed, Some("a.rs"), Some("b.rs"), false),
        delta(DeltaKind::Modified, Some("img.png"), Some("img.png"), true),
        delta(DeltaKind::Typechange, Some("t"), Some("t"), false),
        delta(DeltaKind::Untracked, None, Some("u"), false),
        delta(DeltaKind::Copied, Some("c0"), Some("c1"), false),
        delta(DeltaKind::Conflicted, Some("x"), None, false),
        delta(DeltaKind::Modified, None, None, false),
    ];
    let files = commit_files(&deltas, 7, "s", &IgnoreConfig { path_prefixes: vec![], max_patch_bytes: 10 });
    let got: Vec<(String, FileStatus, Option<String>)> =
        files.into_iter().map(|f| (f.path, f.status, f.old_path)).collect();
    assert_eq!(
        got,
        vec![
            ("old.rs".to_string(), FileStatus::Deleted, None),
            ("b.rs".to_string(), FileStatus::Renamed, Some("a.rs".to_string())),
            ("t".to_string(), FileStatus::Modified, None),
            ("u".to_string(), FileStatus::Added, None),
            ("c1".to_string(), FileStatus::Copied, None),
            ("x".to_string(), FileStatus::Unknown, None),
        ]
    );
}

#[test]
fn default_prefixes_and_matching() {
    let c = IgnoreConfig::default();
    assert_eq!(c.path_prefixes, vec!["node_modules/", "vendor/", "dist/", ".git/"]);
    assert!(is_ignored("vendor/lib.c", &c));
    assert!(!is_ignored("src/vendor/lib.c", &c));
    assert!(!is_ignored("dist", &c));
}

#[test]
fn patch_skipping_follows_paths() {
    let c = node_modules_only();
    assert!(skip_in_patch(&delta(DeltaKind::Added, None, Some("node_modules/x"), false), &c));
    assert!(skip_in_patch(&delta(DeltaKind::Deleted, Some("node_modules/x"), None, false), &c));
    assert!(skip_in_patch(&delta(DeltaKind::Modified, Some("a"), Some("a"), true), &c));
    assert!(!skip_in_patch(&delta(DeltaKind::Modified, Some("a"), Some("a"), false), &c));
}

#[test]
fn patch_text_budget() {
    let mut p = PatchText::new(10);
    p.push_line(Some("diff "), false);
    p.push_line(None, false);
    p.push_line(Some("skipped"), true);
    p.push_line(Some("abcd"), false);
    assert_eq!(p.text, "diff abcd");
    p.push_line(Some("xy"), false);
    assert!(p.truncated);
    p.push_line(Some("z"), false);
    assert_eq!(p.finish(), Some("diff abcd".to_string()));
    let empty = PatchText::new(10);
    assert_eq!(empty.finish(), None);
}

#[test]
fn message_subject_and_body() {
    let (s, b) = parse_message("Initial commit\n\nThis is the body.");
    assert_eq!(s, "Initial commit");
    assert_eq!(b, Some("This is the body.".to_string()));
    let (s, b) = parse_message("  Fix the thing  \r\n\r\n  \nline one\n\nline three\n");
    assert_eq!(s, "Fix the thing");
    assert_eq!(b, Some("line one\n\nline three".to_string()));
    let (s, b) = parse_message("");
    assert_eq!(s, "");
    assert_eq!(b, None);
    let (s, b) = parse_message("Only subject\n\n\n");
    assert_eq!(s, "Only subject");
    assert_eq!(b, None);
}

#[test]
fn author_filter_decisions() {
    let alice = Some("alice@example.com".to_string());
    assert_eq!(decide_commit(Some(false), "alice@example.com", &alice), CommitAction::Index);
    assert_eq!(decide_commit(Some(false), "ALICE@Example.com", &alice), CommitAction::Index);
    assert_eq!(decide_commit(Some(false), "bob@example.com", &alice), CommitAction::Filtered);
    assert_eq!(decide_commit(Some(true), "bob@example.com", &alice), CommitAction::AlreadyIndexed);
    assert_eq!(decide_commit(None, "bob@example.com", &None), CommitAction::Index);
}

#[test]
fn summary_counts_two_authors() {
    let filter = Some("alice@example.com".to_string());
    let mut s = SyncSummary::empty();
    for email in ["alice@example.com", "bob@example.com"] {
        if s.begin_commit(Some(false), email, &filter) == CommitAction::Index {
            s.end_commit(true);
        }
    }
    assert_eq!(s.commits_indexed, 1);
    assert_eq!(s.commits_filtered, 1);
    assert_eq!(s.commits_already_indexed, 0);
}

#[test]
fn second_sync_counts_everything_as_indexed() {
    let mut s = SyncSummary::empty();
    for _ in 0..2 {
        assert_eq!(s.begin_commit(Some(true), "dev@example.com", &None), CommitAction::AlreadyIndexed);
    }
    assert_eq!(s.begin_commit(Some(false), "dev@example.com", &None), CommitAction::Index);
    s.end_commit(false);
    s.warn("Failed to upsert commit x: locked".to_string());
    assert_eq!(s.commits_indexed, 0);
    assert_eq!(s.commits_already_indexed, 2);
    assert_eq!(s.errors.len(), 1);
}

#[test]
fn ingester_constructs() {
    let _a = Git2Ingester::new();
    let _b = Git2Ingester::default();
}

#[test]
fn tip_and_upstream_candidates() {
    assert_eq!(tip_specs(&Some("main".to_string())), vec!["refs/heads/main", "main"]);
    assert!(tip_specs(&None).is_empty());
    assert_eq!(
        upstream_refs(),
        vec!["refs/remotes/upstream/HEAD", "refs/remotes/upstream/main", "refs/remotes/upstream/master"]
    );
}

#[test]
fn paths_that_are_not_text() {
    let c = IgnoreConfig { path_prefixes: vec!["gen/".into()], max_patch_bytes: 10 };
    let deltas = vec![
        DeltaInfo { kind: DeltaKind::Renamed, old_path: DeltaPath::NotText, new_path: path(Some("b.rs")), binary: false },
        DeltaInfo { kind: DeltaKind::Renamed, old_path: path(Some("a.rs")), new_path: DeltaPath::NotText, binary: false },
        DeltaInfo { kind: DeltaKind::Added, old_path: DeltaPath::Absent, new_path: DeltaPath::NotText, binary: false },
    ];
    let files = commit_files(&deltas, 1, "s", &c);
    assert_eq!(files.len(), 1);
    assert_eq!(files[0].path, "b.rs");
    assert_eq!(files[0].status, FileStatus::Unknown);
    assert_eq!(files[0].old_path, None);
    let not_text = DeltaInfo { kind: DeltaKind::Added, old_path: DeltaPath::Absent, new_path: DeltaPath::NotText, binary: false };
    assert!(!skip_in_patch(&not_text, &c));
}

#[test]
fn message_keeps_a_final_bare_carriage_return() {
    let (s, b) = parse_message("a\nb\r");
    assert_eq!(s, "a");
    assert_eq!(b, Some("b\r".to_string()));
    let (s, b) = parse_message("a\r\nb\r\n");
    assert_eq!(s, "a");
    assert_eq!(b, Some("b".to_string()));
}
