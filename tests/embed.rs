use commitmux::embed::{build_embed_doc, AttemptLedger, EmbedConfig, EmbedSummary, Store, MAX_EMBED_ATTEMPTS};
use commitmux::types::{CommitmuxError, EmbedCommit};

struct NullStore;

impl Store for NullStore {
    fn setting(&self, _key: &str) -> Option<String> {
        None
    }

    fn get_config(&self, _key: &str) -> Result<Option<String>, CommitmuxError> {
        Ok(None)
    }
}

struct FixedStore;

impl Store for FixedStore {
    fn setting(&self, key: &str) -> Option<String> {
        if key == "embed.model" {
            Some("all-MiniLM-L6-v2".to_string())
        } else {
            None
        }
    }

    fn get_config(&self, key: &str) -> Result<Option<String>, CommitmuxError> {
        if key == "embed.model" {
            Ok(Some("all-MiniLM-L6-v2".to_string()))
        } else {
            Ok(None)
        }
    }
}

struct BrokenStore;

impl Store for BrokenStore {
    fn setting(&self, _key: &str) -> Option<String> {
        None
    }

    fn get_config(&self, _key: &str) -> Result<Option<String>, CommitmuxError> {
        Err(CommitmuxError::Store("disk I/O error".to_string()))
    }
}

fn make_embed_commit(
    subject: &str,
    body: Option<&str>,
    files: Vec<&str>,
    patch: Option<&str>,
) -> EmbedCommit {
    EmbedCommit {
        repo_id: 1,
        sha: "abc123".into(),
        subject: subject.into(),
        body: body.map(|s| s.into()),
        files_changed: files.into_iter().map(|s| s.into()).collect(),
        patch_preview: patch.map(|s| s.into()),
        author_name: "Test Author".into(),
        repo_name: "test-repo".into(),
        author_time: 1700000000,
    }
}

#[test]
fn test_build_embed_doc_subject_only() {
    let commit = make_embed_commit("Fix the thing", None, vec![], None);
    let doc = build_embed_doc(&commit);
    assert_eq!(doc, "Fix the thing");
}

#[test]
fn test_build_embed_doc_full() {
    let commit = make_embed_commit(
        "Add new feature",
        Some("This commit adds a great new feature\nthat spans multiple lines."),
        vec!["src/main.rs", "src/lib.rs"],
        Some("--- a/src/main.rs\n+++ b/src/main.rs\n@@ -1,3 +1,5 @@"),
    );
    let doc = build_embed_doc(&commit);
    assert!(doc.contains("Add new feature"), "should contain subject");
    assert!(
        doc.contains("This commit adds a great new feature"),
        "should contain body"
    );
    assert!(doc.contains("Files changed:"), "should contain files header");
    assert!(doc.contains("src/main.rs"), "should contain file path");
    assert!(doc.contains("src/lib.rs"), "should contain file path");
    assert!(
        doc.contains("--- a/src/main.rs"),
        "should contain patch content"
    );
}

#[test]
fn test_build_embed_doc_truncates_patch() {
    let long_patch: String = "x".repeat(2000);
    let commit = make_embed_commit("Subject", None, vec![], Some(&long_patch));
    let doc = build_embed_doc(&commit);
    let prefix = "Subject\n\n";
    assert!(doc.starts_with(prefix));
    let patch_portion = &doc[prefix.len()..];
    assert!(
        patch_portion.len() <= 1600,
        "patch portion should be at most 1600 chars, got {}",
        patch_portion.len()
    );
    assert_eq!(
        patch_portion.len(),
        1600,
        "patch portion should be exactly 1600 chars (truncated)"
    );
}

#[test]
fn test_embed_config_defaults() {
    let store = NullStore;
    let config = EmbedConfig::from_store(&store).expect("from_store should succeed with NullStore");
    assert_eq!(config.model, "nomic-embed-text");
    assert_eq!(config.endpoint, "http://localhost:11434/v1");
}

#[test]
fn embed_config_takes_stored_values() {
    let config = EmbedConfig::from_store(&FixedStore).expect("from_store");
    assert_eq!(config.model, "all-MiniLM-L6-v2");
    assert_eq!(config.endpoint, "http://localhost:11434/v1");
}

#[test]
fn embed_config_passes_lookup_errors_on() {
    let r = EmbedConfig::from_store(&BrokenStore);
    assert!(matches!(r, Err(CommitmuxError::Store(_))));
}

#[test]
fn embed_doc_exact_layout() {
    let commit = make_embed_commit(
        "Add new feature",
        Some("Adds a great feature\nacross lines."),
        vec!["src/main.rs", "src/lib.rs"],
        Some(&"x".repeat(2000)),
    );
    let doc = build_embed_doc(&commit);
    let expected = format!(
        "Add new feature\n\nAdds a great feature\nacross lines.\n\nFiles changed: src/main.rs, src/lib.rs\n\n{}",
        "x".repeat(1600)
    );
    assert_eq!(doc, expected);
    assert!(doc.starts_with("Add new feature"));
    assert!(doc.contains("Files changed: src/main.rs, src/lib.rs"));
}

#[test]
fn embed_doc_keeps_body_and_non_empty_preview() {
    let commit = make_embed_commit("S", Some("  \n body \n"), vec![], Some(" "));
    assert_eq!(build_embed_doc(&commit), "S\n\n  \n body \n\n\n ");
    let blank = make_embed_commit("S", Some(" \n\t "), vec![], Some(""));
    assert_eq!(build_embed_doc(&blank), "S");
}

#[test]
fn embed_doc_cuts_at_a_character_boundary() {
    // 'é' is two bytes: 800 of them fill the 1600-byte budget exactly.
    let preview = "é".repeat(900);
    let commit = make_embed_commit("S", None, vec![], Some(&preview));
    let doc = build_embed_doc(&commit);
    assert_eq!(&doc[..3], "S\n\n");
    assert_eq!(doc[3..].len(), 1600);
    assert_eq!(doc[3..].chars().count(), 800);
    // A 3-byte character straddling the limit is left out whole.
    let mixed = format!("{}€€", "a".repeat(1598));
    let commit = make_embed_commit("S", None, vec![], Some(&mixed));
    let doc = build_embed_doc(&commit);
    assert_eq!(doc[3..].len(), 1598);
}

#[test]
fn embed_summary_counts() {
    let mut s = EmbedSummary::new();
    s.record(true);
    s.record(false);
    s.record(true);
    assert_eq!(s.embedded, 2);
    assert_eq!(s.failed, 1);
    assert_eq!(s.skipped, 0);
}

#[test]
fn ledger_caps_attempts_per_commit() {
    let mut ledger = AttemptLedger::new();
    assert_eq!(MAX_EMBED_ATTEMPTS, 3);
    for _ in 0..3 {
        assert!(ledger.may_try("abc"));
        ledger.note("abc");
    }
    assert!(!ledger.may_try("abc"));
    assert!(ledger.may_try("def"));
    ledger.note("def");
    assert!(ledger.may_try("def"));
}

#[test]
fn ledger_fetches_past_given_up_commits() {
    let mut ledger = AttemptLedger::new();
    for _ in 0..3 {
        ledger.note("old");
    }
    ledger.note("new");
    assert_eq!(ledger.exhausted_count(), 1);
    assert_eq!(ledger.fetch_limit(10), 11);
    assert_eq!(ledger.fetch_limit(usize::MAX), usize::MAX);
    let batch = vec!["old".to_string(), "new".to_string(), "other".to_string()];
    assert_eq!(ledger.pick(&batch), vec![1, 2]);
    assert!(ledger.pick(&vec!["old".to_string()]).is_empty());
}
