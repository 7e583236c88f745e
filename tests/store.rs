use commitmux::codec::{compress_patch, decode_patch, exclude_prefixes_json, parse_exclude_prefixes, patch_text_of};
use commitmux::plans::{remove_repo_plan, statement, store_embedding_plan, upsert_commit_plan, upsert_patch_plan, IndexedRow, StoreOp};
use commitmux::queries::{search_query, semantic_query, touches_query, update_repo_query, SqlValue};
use commitmux::results::{commit_detail, patch_excerpt, patch_preview, patch_record};
use commitmux::types::{Commit, RepoUpdate, SearchOpts, SemanticSearchOpts, TouchOpts};

fn ints_and_texts(v: &[SqlValue]) -> Vec<String> {
    v.iter()
        .map(|p| match p {
            SqlValue::Null => "NULL".to_string(),
            SqlValue::Int(i) => format!("i{}", i),
            SqlValue::Text(t) => format!("t{}", t),
            SqlValue::Blob(b) => format!("b{}", b.len()),
        })
        .collect()
}

#[test]
fn patch_round_trip_ascii() {
    let text = "diff --git a/hello.rs b/hello.rs\n+fn main() {}\n";
    let rec = patch_record(1, "abc", text);
    let blob = compress_patch(&rec.patch_blob).expect("compress");
    assert_ne!(blob, rec.patch_blob);
    let back = decode_patch(&blob, None).expect("decode");
    assert_eq!(back.as_bytes(), text.as_bytes());
}

#[test]
fn patch_round_trip_limits_characters() {
    let text = "héllo wörld";
    let blob = compress_patch(&text.as_bytes().to_vec()).expect("compress");
    assert_eq!(decode_patch(&blob, Some(4)).expect("decode"), "héll");
    assert_eq!(decode_patch(&blob, Some(100)).expect("decode"), text);
}

#[test]
fn patch_text_replaces_invalid_utf8() {
    let bytes = vec![b'a', 0xff, b'b'];
    assert_eq!(patch_text_of(&bytes, None), "a\u{fffd}b");
}

#[test]
fn corrupt_blob_is_an_error() {
    assert!(decode_patch(&vec![1, 2, 3, 4], None).is_err());
}

#[test]
fn preview_and_excerpt_lengths() {
    let text = "é".repeat(600);
    let p = patch_preview(&text);
    assert_eq!(p.chars().count(), 500);
    assert_eq!(patch_excerpt(&p).chars().count(), 300);
    assert_eq!(patch_preview("short"), "short");
    let rec = patch_record(3, "deadbeef", &text);
    assert_eq!(rec.patch_preview, p);
    assert_eq!(rec.patch_blob, text.as_bytes());
}

#[test]
fn test_exclude_prefixes_roundtrip() {
    let v = vec!["dist/".to_string(), "vendor/".to_string()];
    let json = exclude_prefixes_json(&v);
    assert_eq!(json, "[\"dist/\",\"vendor/\"]");
    assert_eq!(parse_exclude_prefixes(Some(json)), v);
    assert!(parse_exclude_prefixes(None).is_empty());
    assert!(parse_exclude_prefixes(Some("not json".into())).is_empty());
}

#[test]
fn search_statement_numbers_placeholders_in_binding_order() {
    let opts = SearchOpts {
        since: Some(100),
        repos: Some(vec!["a".into(), "b".into()]),
        paths: None,
        limit: None,
    };
    let q = search_query("fix", &opts);
    assert!(q.sql.ends_with(
        "WHERE commits_fts MATCH ?1 AND c.author_time >= ?2 AND r.name IN (?3,?4) ORDER BY c.author_time DESC LIMIT ?5"
    ));
    assert_eq!(ints_and_texts(&q.params), vec!["tfix", "i100", "ta", "tb", "i50"]);
    let plain = search_query("x", &SearchOpts::default());
    assert!(plain.sql.ends_with("MATCH ?1 ORDER BY c.author_time DESC LIMIT ?2"));
    assert_eq!(ints_and_texts(&plain.params), vec!["tx", "i50"]);
}

#[test]
fn touches_statement_uses_substring_pattern() {
    let opts = TouchOpts { since: None, repos: Some(vec!["r".into()]), limit: Some(7) };
    let q = touches_query("src/", &opts);
    assert!(q.sql.ends_with("WHERE cf.path LIKE ?1 AND r.name IN (?2) ORDER BY c.author_time DESC LIMIT ?3"));
    assert_eq!(ints_and_texts(&q.params), vec!["t%src/%", "tr", "i7"]);
}

#[test]
fn update_statement_sets_changed_columns() {
    assert!(update_repo_query(5, &RepoUpdate::default()).is_none());
    let u = RepoUpdate {
        author_filter: Some(None),
        exclude_prefixes: Some(vec!["gen/".into()]),
        embed_enabled: Some(true),
        ..RepoUpdate::default()
    };
    let q = update_repo_query(5, &u).expect("some");
    assert_eq!(
        q.sql,
        "UPDATE repos SET author_filter = ?1, exclude_prefixes = ?2, embed_enabled = ?3 WHERE repo_id = ?4"
    );
    assert_eq!(ints_and_texts(&q.params), vec!["NULL", "t[\"gen/\"]", "i1", "i5"]);
}

#[test]
fn removal_cascade_order() {
    let plan = remove_repo_plan(9);
    let sql: Vec<String> = plan.iter().map(|op| statement(op).sql).collect();
    assert_eq!(sql.len(), 8);
    assert_eq!(sql[0], "DELETE FROM commit_patches WHERE repo_id = ?1");
    assert_eq!(sql[1], "DELETE FROM commit_files WHERE repo_id = ?1");
    assert_eq!(sql[2], "DELETE FROM ingest_state WHERE repo_id = ?1");
    assert!(sql[3].starts_with("DELETE FROM commit_embeddings"));
    assert_eq!(sql[4], "DELETE FROM commit_embed_map WHERE repo_id = ?1");
    assert_eq!(sql[5], "DELETE FROM commits WHERE repo_id = ?1");
    assert_eq!(sql[6], "INSERT INTO commits_fts(commits_fts) VALUES('rebuild')");
    assert_eq!(sql[7], "DELETE FROM repos WHERE repo_id = ?1");
    assert_eq!(ints_and_texts(&statement(&plan[0]).params), vec!["i9"]);
    assert!(statement(&plan[6]).params.is_empty());
}

fn sample_commit() -> Commit {
    Commit {
        repo_id: 1,
        sha: "deadbeef".into(),
        author_name: "A".into(),
        author_email: "a@example.com".into(),
        committer_name: "A".into(),
        committer_email: "a@example.com".into(),
        author_time: 10,
        commit_time: 11,
        subject: "First commit".into(),
        body: None,
        parent_count: 0,
    }
}

#[test]
fn upsert_commit_plan_deletes_old_entry_first() {
    let c = sample_commit();
    let fresh = upsert_commit_plan(&None, &c);
    assert_eq!(fresh.len(), 2);
    assert!(matches!(fresh[0], StoreOp::ReplaceCommit { .. }));
    let q = statement(&fresh[1]);
    assert!(q.sql.starts_with("INSERT INTO commits_fts(rowid, subject, body, patch_preview) SELECT rowid"));
    assert_eq!(ints_and_texts(&q.params), vec!["i1", "tdeadbeef", "tFirst commit", "NULL", "t"]);
    let prev = Some(IndexedRow { rowid: 4, subject: "old".into(), body: Some("b".into()), preview: "p".into() });
    let again = upsert_commit_plan(&prev, &c);
    assert_eq!(again.len(), 3);
    let d = statement(&again[0]);
    assert!(d.sql.contains("VALUES('delete', ?1, ?2, ?3, ?4)"));
    assert_eq!(ints_and_texts(&d.params), vec!["i4", "told", "tb", "tp"]);
    let r = statement(&again[1]);
    assert_eq!(r.params.len(), 11);
}

#[test]
fn upsert_patch_plan_refreshes_preview() {
    let text = "y".repeat(700);
    let patch = patch_record(1, "deadbeef", &text);
    let none = upsert_patch_plan(&None, &patch, vec![1, 2, 3]);
    assert_eq!(none.len(), 1);
    assert_eq!(ints_and_texts(&statement(&none[0]).params), vec!["i1", "tdeadbeef", "b3"]);
    let prev = Some(IndexedRow { rowid: 2, subject: "s".into(), body: None, preview: String::new() });
    let ops = upsert_patch_plan(&prev, &patch, vec![1, 2, 3]);
    assert_eq!(ops.len(), 4);
    match &ops[2] {
        StoreOp::SetPreview { preview, .. } => assert_eq!(preview.chars().count(), 500),
        other => panic!("unexpected {:?}", other),
    }
}

#[test]
fn store_embedding_plan_deletes_then_inserts() {
    let ops = store_embedding_plan(1, "abc", "subj", "Alice", "repo", 1700000000, None);
    let sql: Vec<String> = ops.iter().map(|op| statement(op).sql).collect();
    assert!(sql[0].starts_with("INSERT OR IGNORE INTO commit_embed_map"));
    assert!(sql[1].starts_with("DELETE FROM commit_embeddings"));
    assert!(sql[2].starts_with("INSERT INTO commit_embeddings"));
    assert_eq!(statement(&ops[2]).params.len(), 7);
}

#[test]
fn test_get_commit_date_is_iso8601() {
    let d = commit_detail("daterepo", "epoch000000000001".into(), "epoch commit".into(), None, "A".into(), 0, vec![]);
    assert_eq!(d.date, "1970-01-01T00:00:00Z");
    assert_eq!(d.repo, "daterepo");
}

#[test]
fn semantic_statement_binds_after_the_vector() {
    let q = semantic_query(&SemanticSearchOpts::default());
    assert!(q.sql.contains("MATCH ?1 AND k = ?2"));
    assert_eq!(ints_and_texts(&q.params), vec!["i10", "t", "i0"]);
    let q = semantic_query(&SemanticSearchOpts { repos: Some(vec!["a".into()]), since: Some(5), limit: Some(3) });
    assert_eq!(ints_and_texts(&q.params), vec!["i3", "t[\"a\"]", "i5"]);
}

#[test]
fn search_statement_binds_path_patterns() {
    let opts = SearchOpts { since: None, repos: None, paths: Some(vec!["src/".into(), "lib".into()]), limit: Some(3) };
    let q = search_query("x", &opts);
    assert!(q.sql.ends_with(
        "MATCH ?1 AND EXISTS (SELECT 1 FROM commit_files f WHERE f.repo_id = c.repo_id AND f.sha = c.sha AND (f.path LIKE ?2 OR f.path LIKE ?3)) ORDER BY c.author_time DESC LIMIT ?4"
    ));
    assert_eq!(ints_and_texts(&q.params), vec!["tx", "t%src/%", "t%lib%", "i3"]);
}
