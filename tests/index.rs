use rusqlite::types::Value;
use rusqlite::Connection;

use commitmux::codec::{compress_patch, decode_patch};
use commitmux::ignore::IgnoreConfig;
use commitmux::ingest::{commit_files, DeltaInfo, DeltaKind, DeltaPath};
use commitmux::plans::{
    remove_repo_plan, statement, upsert_commit_plan, upsert_files_plan, upsert_patch_plan, IndexedRow, StoreOp,
};
use commitmux::queries::{search_query, SqlQuery, SqlValue};
use commitmux::results::patch_record;
use commitmux::schema::{migration_error_is_benign, migrations, CORE_SCHEMA};
use commitmux::types::{Commit, SearchOpts};

fn bind(q: &SqlQuery) -> Vec<Value> {
    q.params
        .iter()
        .map(|p| match p {
            SqlValue::Null => Value::Null,
            SqlValue::Int(i) => Value::Integer(*i),
            SqlValue::Text(t) => Value::Text(t.clone()),
            SqlValue::Blob(b) => Value::Blob(b.clone()),
        })
        .collect()
}

fn open() -> Connection {
    let conn = Connection::open_in_memory().expect("open");
    conn.execute_batch(CORE_SCHEMA).expect("schema");
    for m in migrations() {
        if let Err(rusqlite::Error::SqliteFailure(_, Some(msg))) = conn.execute_batch(m) {
            assert!(migration_error_is_benign(&msg), "migration failed: {}", msg);
        }
    }
    conn.execute(
        "INSERT INTO repos (name, local_path) VALUES ('myrepo', '/tmp/myrepo')",
        rusqlite::params_from_iter(Vec::<Value>::new()),
    )
    .expect("repo");
    conn
}

fn run(conn: &Connection, ops: &[StoreOp]) {
    for op in ops {
        let q = statement(op);
        conn.execute(&q.sql, rusqlite::params_from_iter(bind(&q))).expect("statement");
    }
}

fn prev_row(conn: &Connection, sha: &str) -> Option<IndexedRow> {
    conn.query_row(
        "SELECT rowid, COALESCE(subject,''), body, COALESCE(patch_preview,'') FROM commits WHERE repo_id = 1 AND sha = ?1",
        rusqlite::params_from_iter(vec![Value::Text(sha.to_string())]),
        |r| Ok(IndexedRow { rowid: r.get(0)?, subject: r.get(1)?, body: r.get(2)?, preview: r.get(3)? }),
    )
    .ok()
}

fn commit(sha: &str, subject: &str) -> Commit {
    Commit {
        repo_id: 1,
        sha: sha.into(),
        author_name: "Test Author".into(),
        author_email: "test@example.com".into(),
        committer_name: "Test Author".into(),
        committer_email: "test@example.com".into(),
        author_time: 1700000000,
        commit_time: 1700000000,
        subject: subject.into(),
        body: None,
        parent_count: 0,
    }
}

fn upsert_commit(conn: &Connection, c: &Commit) {
    let prev = prev_row(conn, &c.sha);
    run(conn, &upsert_commit_plan(&prev, c));
}

fn upsert_patch(conn: &Connection, sha: &str, text: &str) {
    let rec = patch_record(1, sha, text);
    let blob = compress_patch(&rec.patch_blob).expect("compress");
    let prev = prev_row(conn, sha);
    run(conn, &upsert_patch_plan(&prev, &rec, blob));
}

fn search(conn: &Connection, query: &str) -> Vec<String> {
    let q = search_query(query, &SearchOpts::default());
    let mut stmt = conn.prepare(&q.sql).expect("prepare");
    let rows = stmt.query_map(rusqlite::params_from_iter(bind(&q)), |r| r.get::<_, String>(1)).expect("query");
    rows.map(|r| r.expect("row")).collect()
}

fn count(conn: &Connection, sql: &str) -> i64 {
    conn.query_row(sql, rusqlite::params_from_iter(Vec::<Value>::new()), |r| r.get(0)).expect("count")
}

#[test]
fn single_commit_is_found_by_subject() {
    let conn = open();
    upsert_commit(&conn, &commit("abc123", "Fix the thing"));
    assert_eq!(count(&conn, "SELECT COUNT(*) FROM commits"), 1);
    assert_eq!(search(&conn, "Fix"), vec!["abc123"]);
}

#[test]
fn test_upsert_commit_idempotent() {
    let conn = open();
    let c = commit("deadbeef", "First commit");
    upsert_commit(&conn, &c);
    upsert_commit(&conn, &c);
    upsert_commit(&conn, &c);
    assert_eq!(count(&conn, "SELECT COUNT(*) FROM commits WHERE repo_id = 1 AND sha = 'deadbeef'"), 1);
    assert_eq!(search(&conn, "First"), vec!["deadbeef"]);
    assert_eq!(count(&conn, "SELECT COUNT(*) FROM commits_fts WHERE commits_fts MATCH 'First'"), 1);
}

#[test]
fn replaced_subject_leaves_the_index() {
    let conn = open();
    upsert_commit(&conn, &commit("c1", "alpha words"));
    upsert_commit(&conn, &commit("c1", "beta words"));
    assert!(search(&conn, "alpha").is_empty());
    assert_eq!(search(&conn, "beta"), vec!["c1"]);
}

#[test]
fn test_search_fts() {
    let conn = open();
    upsert_commit(&conn, &commit("cafebabe", "xyzzy_unique_token initial work"));
    upsert_patch(&conn, "cafebabe", "xyzzy_unique_token preview");
    assert!(!search(&conn, "xyzzy_unique_token").is_empty(), "expected at least one search result");
}

#[test]
fn patch_preview_is_searchable_and_refreshed() {
    let conn = open();
    upsert_commit(&conn, &commit("aa11", "subject"));
    upsert_patch(&conn, "aa11", "firstpatchtoken here");
    assert_eq!(search(&conn, "firstpatchtoken"), vec!["aa11"]);
    upsert_patch(&conn, "aa11", "secondpatchtoken here");
    upsert_patch(&conn, "aa11", "secondpatchtoken here");
    assert!(search(&conn, "firstpatchtoken").is_empty());
    assert_eq!(search(&conn, "secondpatchtoken"), vec!["aa11"]);
    assert_eq!(count(&conn, "SELECT COUNT(*) FROM commit_patches"), 1);
}

#[test]
fn preview_keeps_five_hundred_characters() {
    let conn = open();
    upsert_commit(&conn, &commit("bb22", "subject"));
    upsert_patch(&conn, "bb22", &"é".repeat(800));
    let preview: String = conn
        .query_row("SELECT patch_preview FROM commits WHERE sha = 'bb22'", rusqlite::params_from_iter(Vec::<Value>::new()), |r| r.get(0))
        .expect("preview");
    assert_eq!(preview.chars().count(), 500);
}

#[test]
fn test_get_patch_roundtrip() {
    let conn = open();
    upsert_commit(&conn, &commit("1234abcd", "patch roundtrip test"));
    let text = "diff --git a/hello.rs b/hello.rs\n--- a/hello.rs\n+++ b/hello.rs\n@@ -1 +1 @@\n-old\n+new\n";
    upsert_patch(&conn, "1234abcd", text);
    let blob: Vec<u8> = conn
        .query_row(
            "SELECT patch_blob FROM commit_patches WHERE sha = '1234abcd'",
            rusqlite::params_from_iter(Vec::<Value>::new()),
            |r| r.get(0),
        )
        .expect("blob");
    let back = decode_patch(&blob, None).expect("decode");
    assert_eq!(back.as_bytes(), text.as_bytes());
    assert_eq!(decode_patch(&blob, Some(10)).expect("decode"), "diff --git");
}

#[test]
fn test_remove_repo_deletes_all() {
    let conn = open();
    upsert_commit(&conn, &commit("deadbeef01234567", "remove test commit"));
    upsert_patch(&conn, "deadbeef01234567", "diff --git a/src/main.rs b/src/main.rs\n");
    conn.execute(
        "INSERT INTO commit_files (repo_id, sha, path, status) VALUES (1, 'deadbeef01234567', 'src/main.rs', 'A')",
        rusqlite::params_from_iter(Vec::<Value>::new()),
    )
    .expect("file");
    let mut plan = remove_repo_plan(1);
    // The vector table needs the extension; its two deletes are left out here.
    plan.retain(|op| !matches!(op, StoreOp::DeleteEmbeddings { .. }));
    run(&conn, &plan);
    assert_eq!(count(&conn, "SELECT COUNT(*) FROM repos"), 0);
    assert_eq!(count(&conn, "SELECT COUNT(*) FROM commits"), 0);
    assert_eq!(count(&conn, "SELECT COUNT(*) FROM commit_files"), 0);
    assert_eq!(count(&conn, "SELECT COUNT(*) FROM commit_patches"), 0);
    assert!(search(&conn, "remove").is_empty(), "expected no FTS results after remove");
}

#[test]
fn migrations_run_twice() {
    let conn = open();
    for m in migrations() {
        match conn.execute_batch(m) {
            Ok(()) => {}
            Err(rusqlite::Error::SqliteFailure(_, Some(msg))) => assert!(migration_error_is_benign(&msg)),
            Err(e) => panic!("{}", e),
        }
    }
    assert!(!migration_error_is_benign("no such table: repos"));
}

fn paths(conn: &Connection, sha: &str) -> Vec<String> {
    let mut stmt = conn
        .prepare("SELECT path FROM commit_files WHERE repo_id = 1 AND sha = ?1 ORDER BY path")
        .expect("prepare");
    let rows = stmt
        .query_map(rusqlite::params_from_iter(vec![Value::Text(sha.to_string())]), |r| r.get::<_, String>(0))
        .expect("query");
    rows.map(|r| r.expect("row")).collect()
}

#[test]
fn changed_files_are_replaced_per_commit() {
    let conn = open();
    upsert_commit(&conn, &commit("f1", "files"));
    let config = IgnoreConfig { path_prefixes: vec!["node_modules/".into()], max_patch_bytes: 1_048_576 };
    let deltas = vec![
        DeltaInfo { kind: DeltaKind::Added, old_path: DeltaPath::Absent, new_path: DeltaPath::Text("node_modules/a.js".into()), binary: false },
        DeltaInfo { kind: DeltaKind::Added, old_path: DeltaPath::Absent, new_path: DeltaPath::Text("src/main.rs".into()), binary: false },
    ];
    run(&conn, &upsert_files_plan(&commit_files(&deltas, 1, "f1", &config)));
    assert_eq!(paths(&conn, "f1"), vec!["src/main.rs"]);
    let again = vec![DeltaInfo { kind: DeltaKind::Modified, old_path: DeltaPath::Text("README.md".into()), new_path: DeltaPath::Text("README.md".into()), binary: false }];
    run(&conn, &upsert_files_plan(&commit_files(&again, 1, "f1", &config)));
    assert_eq!(paths(&conn, "f1"), vec!["README.md"]);
    assert!(upsert_files_plan(&Vec::new()).is_empty());
}

fn search_in(conn: &Connection, query: &str, paths: Vec<&str>) -> Vec<String> {
    let opts = SearchOpts { paths: Some(paths.into_iter().map(|p| p.to_string()).collect()), ..SearchOpts::default() };
    let q = search_query(query, &opts);
    let mut stmt = conn.prepare(&q.sql).expect("prepare");
    let rows = stmt.query_map(rusqlite::params_from_iter(bind(&q)), |r| r.get::<_, String>(1)).expect("query");
    rows.map(|r| r.expect("row")).collect()
}

#[test]
fn search_keeps_commits_touching_a_path() {
    let conn = open();
    upsert_commit(&conn, &commit("t1", "token one"));
    upsert_commit(&conn, &commit("t2", "token two"));
    conn.execute(
        "INSERT INTO commit_files (repo_id, sha, path, status) VALUES (1, 't1', 'src/main.rs', 'A')",
        rusqlite::params_from_iter(Vec::<Value>::new()),
    )
    .expect("file");
    assert_eq!(search_in(&conn, "token", vec!["main"]), vec!["t1"]);
    assert_eq!(search_in(&conn, "token", vec!["nothing", "src/"]), vec!["t1"]);
    assert!(search_in(&conn, "token", vec!["docs/"]).is_empty());
    assert!(search_in(&conn, "token", vec![]).is_empty());
}
