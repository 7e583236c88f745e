//! The write protocol of the index as plans of typed operations, the model
//! of the index they act on, and the coherence laws the plans keep.
//!
//! The text index is external-content: an entry is removed only by a delete
//! that repeats the entry's current values, and it is keyed by the commit's
//! rowid. The vector table has no replace: a vector is deleted, then inserted.
use vstd::prelude::*;
use vstd::string::*;
use crate::ingest::{clone_opt, opt_view};
use crate::results::PREVIEW_CHARS;
use crate::text::{prefix_chars, take_chars};
use crate::queries::{arg_of, SqlArg, SqlQuery, SqlValue};
use crate::types::status_code;
use crate::ingest::file_view;
use crate::types::{Commit, CommitFile, CommitPatch, FileStatus};

verus! {

/// One write against the index.
#[derive(Debug, Clone)]
pub enum StoreOp {
    /// Remove the text-index entry of `rowid`, which holds these values.
    FtsDelete { rowid: i64, subject: String, body: Option<String>, preview: String },
    /// Replace the commit row of its `(repo_id, sha)`, with an empty preview.
    ReplaceCommit { commit: Commit },
    /// Index the current row of `(repo_id, sha)` with these values.
    FtsInsert { repo_id: i64, sha: String, subject: String, body: Option<String>, preview: String },
    /// Replace the stored patch blob of `(repo_id, sha)`.
    ReplacePatch { repo_id: i64, sha: String, blob: Vec<u8> },
    /// Set the preview of the commit row of `(repo_id, sha)`.
    SetPreview { repo_id: i64, sha: String, preview: String },
    /// Give `(repo_id, sha)` an embedding id, unless it has one.
    EnsureEmbedKey { repo_id: i64, sha: String },
    /// Remove the vector of `(repo_id, sha)`.
    DeleteEmbedding { repo_id: i64, sha: String },
    /// Insert the vector of `(repo_id, sha)`, with its display fields.
    InsertEmbedding {
        repo_id: i64,
        sha: String,
        subject: String,
        repo_name: String,
        author_name: String,
        author_time: i64,
        patch_preview: Option<String>,
    },
    /// Remove every patch of a repository.
    DeletePatches { repo_id: i64 },
    /// Remove the changed-file rows of `(repo_id, sha)`.
    ClearCommitFiles { repo_id: i64, sha: String },
    /// Add one changed-file row.
    InsertFile { file: CommitFile },
    /// Remove every changed-file row of a repository.
    DeleteFiles { repo_id: i64 },
    /// Remove the sync state of a repository.
    DeleteState { repo_id: i64 },
    /// Remove every vector of a repository.
    DeleteEmbeddings { repo_id: i64 },
    /// Remove every embedding id of a repository.
    DeleteEmbedKeys { repo_id: i64 },
    /// Remove every commit row of a repository.
    DeleteCommits { repo_id: i64 },
    /// Rebuild the text index from the commit rows.
    RebuildFts,
    /// Remove the repository row.
    DeleteRepo { repo_id: i64 },
}

/// An operation as plain values.
pub enum Op {
    FtsDelete { rowid: int, values: FtsValues },
    ReplaceCommit { key: Key, subject: Seq<char>, body: Option<Seq<char>>, columns: Columns },
    FtsInsert { key: Key, values: FtsValues },
    ReplacePatch { key: Key, blob: Seq<u8> },
    SetPreview { key: Key, preview: Seq<char> },
    EnsureEmbedKey { key: Key },
    DeleteEmbedding { key: Key },
    InsertEmbedding { key: Key, display: Display },
    DeletePatches { repo_id: int },
    ClearCommitFiles { key: Key },
    InsertFile { key: Key, entry: FileEntry },
    DeleteFiles { repo_id: int },
    DeleteState { repo_id: int },
    DeleteEmbeddings { repo_id: int },
    DeleteEmbedKeys { repo_id: int },
    DeleteCommits { repo_id: int },
    RebuildFts,
    DeleteRepo { repo_id: int },
}

/// The values a text-index entry holds: subject, body, preview.
pub type FtsValues = (Seq<char>, Option<Seq<char>>, Seq<char>);

/// A commit's identity: repository id and SHA.
pub type Key = (int, Seq<char>);

/// The other columns of a commit row: author name and e-mail, committer name
/// and e-mail, author time, commit time, parent count.
pub type Columns = (Seq<char>, Seq<char>, Seq<char>, Seq<char>, int, int, int);

/// The display fields kept beside a vector: SHA, subject, repository name,
/// author name, author time, preview.
pub type Display = (Seq<char>, Seq<char>, Seq<char>, Seq<char>, int, Option<Seq<char>>);

/// The other columns of a commit.
pub open spec fn commit_columns(c: Commit) -> Columns {
    (
        c.author_name@,
        c.author_email@,
        c.committer_name@,
        c.committer_email@,
        c.author_time as int,
        c.commit_time as int,
        c.parent_count as int,
    )
}

/// A changed file as plain values: path, status, old path.
pub type FileEntry = (Seq<char>, FileStatus, Option<Seq<char>>);

/// The plain form of an operation.
pub open spec fn op_view(op: StoreOp) -> Op {
    match op {
        StoreOp::FtsDelete { rowid, subject, body, preview } => Op::FtsDelete {
            rowid: rowid as int,
            values: (subject@, opt_view(body), preview@),
        },
        StoreOp::ReplaceCommit { commit } => Op::ReplaceCommit {
            key: (commit.repo_id as int, commit.sha@),
            subject: commit.subject@,
            body: opt_view(commit.body),
            columns: commit_columns(commit),
        },
        StoreOp::FtsInsert { repo_id, sha, subject, body, preview } => Op::FtsInsert {
            key: (repo_id as int, sha@),
            values: (subject@, opt_view(body), preview@),
        },
        StoreOp::ReplacePatch { repo_id, sha, blob } => Op::ReplacePatch { key: (repo_id as int, sha@), blob: blob@ },
        StoreOp::SetPreview { repo_id, sha, preview } => Op::SetPreview { key: (repo_id as int, sha@), preview: preview@ },
        StoreOp::EnsureEmbedKey { repo_id, sha } => Op::EnsureEmbedKey { key: (repo_id as int, sha@) },
        StoreOp::DeleteEmbedding { repo_id, sha } => Op::DeleteEmbedding { key: (repo_id as int, sha@) },
        StoreOp::InsertEmbedding { repo_id, sha, subject, repo_name, author_name, author_time, patch_preview } => {
            Op::InsertEmbedding {
                key: (repo_id as int, sha@),
                display: (sha@, subject@, repo_name@, author_name@, author_time as int, opt_view(patch_preview)),
            }
        },
        StoreOp::DeletePatches { repo_id } => Op::DeletePatches { repo_id: repo_id as int },
        StoreOp::ClearCommitFiles { repo_id, sha } => Op::ClearCommitFiles { key: (repo_id as int, sha@) },
        StoreOp::InsertFile { file } => Op::InsertFile { key: (file.repo_id as int, file.sha@), entry: file_view(file) },
        StoreOp::DeleteFiles { repo_id } => Op::DeleteFiles { repo_id: repo_id as int },
        StoreOp::DeleteState { repo_id } => Op::DeleteState { repo_id: repo_id as int },
        StoreOp::DeleteEmbeddings { repo_id } => Op::DeleteEmbeddings { repo_id: repo_id as int },
        StoreOp::DeleteEmbedKeys { repo_id } => Op::DeleteEmbedKeys { repo_id: repo_id as int },
        StoreOp::DeleteCommits { repo_id } => Op::DeleteCommits { repo_id: repo_id as int },
        StoreOp::RebuildFts => Op::RebuildFts,
        StoreOp::DeleteRepo { repo_id } => Op::DeleteRepo { repo_id: repo_id as int },
    }
}

/// A plan as plain values.
pub open spec fn ops_view(ops: Seq<StoreOp>) -> Seq<Op> {
    ops.map_values(|o: StoreOp| op_view(o))
}

/// A commit row as the model keeps it.
pub struct Row {
    pub rowid: int,
    pub columns: Columns,
    pub subject: Seq<char>,
    pub body: Option<Seq<char>>,
    pub preview: Seq<char>,
}

/// The index as the write protocol sees it.
pub struct IndexModel {
    pub repos: Set<int>,
    pub commits: Map<Key, Row>,
    pub fts: Map<int, FtsValues>,
    pub patches: Map<Key, Seq<u8>>,
    pub files: Map<Key, Seq<FileEntry>>,
    pub embed_keys: Map<Key, int>,
    pub embeddings: Map<int, Display>,
    pub next_rowid: int,
    pub next_embed_id: int,
}

/// The values a row puts into the text index.
pub open spec fn row_values(r: Row) -> FtsValues {
    (r.subject, r.body, r.preview)
}

/// Every commit row is indexed under its rowid with its current values,
/// every index entry belongs to a row, rowids are distinct and below the next one.
pub open spec fn fts_coherent(m: IndexModel) -> bool {
    &&& forall|k: Key| #[trigger] m.commits.contains_key(k) ==> m.fts.contains_key(m.commits[k].rowid)
        && m.fts[m.commits[k].rowid] == row_values(m.commits[k])
    &&& forall|r: int| #[trigger] m.fts.contains_key(r) ==> exists|k: Key| m.commits.contains_key(k) && #[trigger] m.commits[k].rowid == r
    &&& forall|k1: Key, k2: Key|
        #[trigger] m.commits.contains_key(k1) && #[trigger] m.commits.contains_key(k2) && k1 != k2
            ==> m.commits[k1].rowid != m.commits[k2].rowid
    &&& forall|k: Key| #[trigger] m.commits.contains_key(k) ==> m.commits[k].rowid < m.next_rowid
}

/// Every vector belongs to an embedding id, ids are distinct and below the next one.
pub open spec fn embed_coherent(m: IndexModel) -> bool {
    &&& forall|id: int| #[trigger] m.embeddings.contains_key(id) ==> exists|k: Key| m.embed_keys.contains_key(k) && #[trigger] m.embed_keys[k] == id
    &&& forall|k1: Key, k2: Key|
        #[trigger] m.embed_keys.contains_key(k1) && #[trigger] m.embed_keys.contains_key(k2) && k1 != k2
            ==> m.embed_keys[k1] != m.embed_keys[k2]
    &&& forall|k: Key| #[trigger] m.embed_keys.contains_key(k) ==> m.embed_keys[k] < m.next_embed_id
}

/// The changed files recorded for a commit, in insertion order.
pub open spec fn files_of(m: IndexModel, k: Key) -> Seq<FileEntry> {
    if m.files.contains_key(k) {
        m.files[k]
    } else {
        Seq::empty()
    }
}

/// The text index rebuilt from the commit rows.
pub open spec fn rebuilt(commits: Map<Key, Row>) -> Map<int, FtsValues> {
    Map::new(
        |r: int| exists|k: Key| commits.contains_key(k) && commits[k].rowid == r,
        |r: int| row_values(commits[choose|k: Key| commits.contains_key(k) && commits[k].rowid == r]),
    )
}

/// What one operation does to the model. A delete of an index entry that
/// does not repeat its values leaves the index as it is.
pub open spec fn apply(m: IndexModel, op: Op) -> IndexModel {
    match op {
        Op::FtsDelete { rowid, values } => {
            if m.fts.contains_key(rowid) && m.fts[rowid] == values {
                IndexModel { fts: m.fts.remove(rowid), ..m }
            } else {
                m
            }
        },
        Op::ReplaceCommit { key, subject, body, columns } => IndexModel {
            commits: m.commits.insert(key, Row { rowid: m.next_rowid, columns, subject, body, preview: Seq::empty() }),
            next_rowid: m.next_rowid + 1,
            ..m
        },
        Op::FtsInsert { key, values } => {
            if m.commits.contains_key(key) {
                IndexModel { fts: m.fts.insert(m.commits[key].rowid, values), ..m }
            } else {
                m
            }
        },
        Op::ReplacePatch { key, blob } => IndexModel { patches: m.patches.insert(key, blob), ..m },
        Op::SetPreview { key, preview } => {
            if m.commits.contains_key(key) {
                IndexModel { commits: m.commits.insert(key, Row { preview, ..m.commits[key] }), ..m }
            } else {
                m
            }
        },
        Op::EnsureEmbedKey { key } => {
            if m.embed_keys.contains_key(key) {
                m
            } else {
                IndexModel {
                    embed_keys: m.embed_keys.insert(key, m.next_embed_id),
                    next_embed_id: m.next_embed_id + 1,
                    ..m
                }
            }
        },
        Op::DeleteEmbedding { key } => {
            if m.embed_keys.contains_key(key) {
                IndexModel { embeddings: m.embeddings.remove(m.embed_keys[key]), ..m }
            } else {
                m
            }
        },
        Op::InsertEmbedding { key, display } => {
            if m.embed_keys.contains_key(key) {
                IndexModel { embeddings: m.embeddings.insert(m.embed_keys[key], display), ..m }
            } else {
                m
            }
        },
        Op::DeletePatches { repo_id } => IndexModel {
            patches: m.patches.restrict(m.patches.dom().filter(|k: Key| k.0 != repo_id)),
            ..m
        },
        Op::ClearCommitFiles { key } => IndexModel { files: m.files.remove(key), ..m },
        Op::InsertFile { key, entry } => IndexModel { files: m.files.insert(key, files_of(m, key).push(entry)), ..m },
        Op::DeleteFiles { repo_id } => IndexModel {
            files: m.files.restrict(m.files.dom().filter(|k: Key| k.0 != repo_id)),
            ..m
        },
        Op::DeleteState { repo_id } => m,
        Op::DeleteEmbeddings { repo_id } => IndexModel {
            embeddings: m.embeddings.restrict(
                m.embeddings.dom().filter(
                    |id: int| !exists|k: Key| k.0 == repo_id && m.embed_keys.contains_key(k) && m.embed_keys[k] == id,
                ),
            ),
            ..m
        },
        Op::DeleteEmbedKeys { repo_id } => IndexModel {
            embed_keys: m.embed_keys.restrict(m.embed_keys.dom().filter(|k: Key| k.0 != repo_id)),
            ..m
        },
        Op::DeleteCommits { repo_id } => IndexModel {
            commits: m.commits.restrict(m.commits.dom().filter(|k: Key| k.0 != repo_id)),
            ..m
        },
        Op::RebuildFts => IndexModel { fts: rebuilt(m.commits), ..m },
        Op::DeleteRepo { repo_id } => IndexModel { repos: m.repos.remove(repo_id), ..m },
    }
}

/// What a plan does to the model: its operations in order.
pub open spec fn apply_all(m: IndexModel, ops: Seq<Op>) -> IndexModel
    decreases ops.len(),
{
    if ops.len() == 0 {
        m
    } else {
        apply(apply_all(m, ops.drop_last()), ops.last())
    }
}

/// A commit row as read back before it is replaced: rowid and indexed values.
#[derive(Debug, Clone)]
pub struct IndexedRow {
    pub rowid: i64,
    pub subject: String,
    pub body: Option<String>,
    pub preview: String,
}

/// A row as read before a write: its rowid and indexed values, if it exists.
pub type ReadRow = Option<(int, FtsValues)>;

/// A row read back, as plain values.
pub open spec fn read_view(prev: Option<IndexedRow>) -> ReadRow {
    match prev {
        Some(o) => Some((o.rowid as int, (o.subject@, opt_view(o.body), o.preview@))),
        None => None,
    }
}

/// What the model holds for `k`: nothing, or its rowid and indexed values.
pub open spec fn model_read(m: IndexModel, k: Key) -> ReadRow {
    if m.commits.contains_key(k) {
        Some((m.commits[k].rowid, row_values(m.commits[k])))
    } else {
        None
    }
}

/// The delete of an old row's index entry, if there is an old row.
pub open spec fn delete_old(prev: ReadRow) -> Seq<Op> {
    match prev {
        Some(o) => seq![Op::FtsDelete { rowid: o.0, values: o.1 }],
        None => Seq::empty(),
    }
}

/// The plan of a commit upsert: delete the old entry with its old values,
/// replace the row with an empty preview, index the new row.
pub open spec fn upsert_commit_ops(
    prev: ReadRow,
    k: Key,
    subject: Seq<char>,
    body: Option<Seq<char>>,
    columns: Columns,
) -> Seq<Op> {
    delete_old(prev) + seq![
        Op::ReplaceCommit { key: k, subject, body, columns },
        Op::FtsInsert { key: k, values: (subject, body, Seq::empty()) },
    ]
}

fn copy_commit(c: &Commit) -> (r: Commit)
    ensures
        r.repo_id == c.repo_id,
        r.sha@ == c.sha@,
        r.subject@ == c.subject@,
        opt_view(r.body) == opt_view(c.body),
        commit_columns(r) == commit_columns(*c),
{
    Commit {
        repo_id: c.repo_id,
        sha: c.sha.clone(),
        author_name: c.author_name.clone(),
        author_email: c.author_email.clone(),
        committer_name: c.committer_name.clone(),
        committer_email: c.committer_email.clone(),
        author_time: c.author_time,
        commit_time: c.commit_time,
        subject: c.subject.clone(),
        body: clone_opt(&c.body),
        parent_count: c.parent_count,
    }
}

fn push_delete_old(ops: &mut Vec<StoreOp>, prev: &Option<IndexedRow>)
    ensures
        ops_view(final(ops)@) == ops_view(old(ops)@) + delete_old(read_view(*prev)),
{
    let ghost before = ops@;
    match prev {
        Some(o) => {
            ops.push(
                StoreOp::FtsDelete {
                    rowid: o.rowid,
                    subject: o.subject.clone(),
                    body: clone_opt(&o.body),
                    preview: o.preview.clone(),
                },
            );
        },
        None => {},
    }
    assert(ops_view(ops@) =~= ops_view(before) + delete_old(read_view(*prev)));
}

/// The writes that upsert a commit, given what its row held before (`None`
/// when it is new).
pub fn upsert_commit_plan(prev: &Option<IndexedRow>, commit: &Commit) -> (r: Vec<StoreOp>)
    ensures
        ops_view(r@) == upsert_commit_ops(read_view(*prev), (commit.repo_id as int, commit.sha@), commit.subject@, opt_view(commit.body), commit_columns(*commit)),
{
    let mut ops: Vec<StoreOp> = Vec::new();
    push_delete_old(&mut ops, prev);
    let ghost before = ops@;
    ops.push(StoreOp::ReplaceCommit { commit: copy_commit(commit) });
    ops.push(
        StoreOp::FtsInsert {
            repo_id: commit.repo_id,
            sha: commit.sha.clone(),
            subject: commit.subject.clone(),
            body: clone_opt(&commit.body),
            preview: String::new(),
        },
    );
    assert(ops_view(ops@) =~= upsert_commit_ops(read_view(*prev), (commit.repo_id as int, commit.sha@), commit.subject@, opt_view(commit.body), commit_columns(*commit)));
    ops
}

proof fn lemma_apply_two(m: IndexModel, pre: Seq<Op>, a: Op, b: Op)
    ensures
        apply_all(m, pre + seq![a, b]) == apply(apply(apply_all(m, pre), a), b),
{
    let ops = pre + seq![a, b];
    let mid = pre + seq![a];
    assert(ops.drop_last() =~= mid);
    assert(ops.last() == b);
    assert(mid.drop_last() =~= pre);
    assert(mid.last() == a);
    assert(apply_all(m, ops) == apply(apply_all(m, mid), b));
    assert(apply_all(m, mid) == apply(apply_all(m, pre), a));
}

/// Upserting a commit into a coherent index, given its row as read before,
/// leaves the index coherent: the commit has exactly one row, holding the
/// new subject and body with an empty preview, and the text index holds
/// exactly those values under that row's rowid, with the old entry gone.
pub proof fn lemma_upsert_commit(
    m: IndexModel,
    prev: ReadRow,
    k: Key,
    subject: Seq<char>,
    body: Option<Seq<char>>,
    columns: Columns,
)
    requires
        fts_coherent(m),
        prev == model_read(m, k),
    ensures
        ({
            let m2 = apply_all(m, upsert_commit_ops(prev, k, subject, body, columns));
            &&& fts_coherent(m2)
            &&& m2.commits.contains_key(k)
            &&& m2.commits[k].subject == subject && m2.commits[k].body == body && m2.commits[k].preview.len() == 0
            &&& m2.commits[k].columns == columns
            &&& m2.fts[m2.commits[k].rowid] == (subject, body, Seq::<char>::empty())
            &&& m2.commits.dom() == m.commits.dom().insert(k)
            &&& (prev matches Some(o) ==> !m2.fts.contains_key(o.0))
            &&& forall|k2: Key| k2 != k && #[trigger] m.commits.contains_key(k2) ==> m2.commits[k2] == m.commits[k2]
        }),
{
    let pre = delete_old(prev);
    let a = Op::ReplaceCommit { key: k, subject, body, columns };
    let b = Op::FtsInsert { key: k, values: (subject, body, Seq::empty()) };
    lemma_apply_two(m, pre, a, b);
    let m0 = apply_all(m, pre);
    match prev {
        Some(o) => {
            assert(pre.drop_last() =~= Seq::<Op>::empty());
            assert(apply_all(m, Seq::<Op>::empty()) == m);
            assert(pre.last() == pre[0]);
            assert(m0 == apply(m, pre[0]));
            assert(m.fts.contains_key(o.0));
            assert(m0.fts == m.fts.remove(o.0));
        },
        None => {
            assert(m0 == m);
        },
    }
    let m1 = apply(m0, a);
    let m2 = apply(m1, b);
    let newid = m.next_rowid;
    assert(m0.commits == m.commits);
    assert(m1.commits == m.commits.insert(k, Row { rowid: newid, columns, subject, body, preview: Seq::empty() }));
    assert(m2.fts == m0.fts.insert(newid, (subject, body, Seq::<char>::empty())));
    assert(!m.fts.contains_key(newid)) by {
        if m.fts.contains_key(newid) {
            let kk = choose|kk: Key| m.commits.contains_key(kk) && m.commits[kk].rowid == newid;
        }
    }
    // Rows other than `k` keep their rowids and entries.
    assert forall|k2: Key| #[trigger] m2.commits.contains_key(k2) implies m2.fts.contains_key(m2.commits[k2].rowid)
        && m2.fts[m2.commits[k2].rowid] == row_values(m2.commits[k2]) by {
        if k2 != k {
            assert(m.commits.contains_key(k2));
            assert(m.commits[k2].rowid < newid);
            if let Some(o) = prev {
                assert(m.commits[k2].rowid != o.0);
            }
        }
    }
    assert forall|r: int| #[trigger] m2.fts.contains_key(r) implies exists|k3: Key| m2.commits.contains_key(k3) && #[trigger] m2.commits[k3].rowid == r by {
        if r == newid {
            assert(m2.commits[k].rowid == r);
        } else {
            assert(m.fts.contains_key(r));
            let k3 = choose|k3: Key| m.commits.contains_key(k3) && m.commits[k3].rowid == r;
            if k3 == k {
                assert(prev is Some);
            } else {
                assert(m2.commits[k3].rowid == r);
            }
        }
    }
    assert forall|k1: Key, k2: Key|
        #[trigger] m2.commits.contains_key(k1) && #[trigger] m2.commits.contains_key(k2) && k1 != k2
            implies m2.commits[k1].rowid != m2.commits[k2].rowid by {
        if k1 != k && k2 != k {
            assert(m.commits.contains_key(k1) && m.commits.contains_key(k2));
        } else if k1 == k {
            assert(m.commits.contains_key(k2));
        } else {
            assert(m.commits.contains_key(k1));
        }
    }
    assert(m2.commits.dom() =~= m.commits.dom().insert(k));
}

/// The plan of a patch upsert: replace the blob; if the commit row exists,
/// delete its index entry with its current values, set the new preview and
/// index the row again with it.
pub open spec fn upsert_patch_ops(prev: ReadRow, k: Key, blob: Seq<u8>, preview: Seq<char>) -> Seq<Op> {
    seq![Op::ReplacePatch { key: k, blob }] + match prev {
        Some(o) => seq![
            Op::FtsDelete { rowid: o.0, values: o.1 },
            Op::SetPreview { key: k, preview },
            Op::FtsInsert { key: k, values: (o.1.0, o.1.1, preview) },
        ],
        None => Seq::empty(),
    }
}

/// The writes that store a patch, given the compressed blob and what the
/// commit's row held before (`None` when there is no row). The preview set
/// is the first 500 characters of the patch's preview text.
pub fn upsert_patch_plan(prev: &Option<IndexedRow>, patch: &CommitPatch, blob: Vec<u8>) -> (r: Vec<StoreOp>)
    ensures
        ops_view(r@) == upsert_patch_ops(
            read_view(*prev),
            (patch.repo_id as int, patch.sha@),
            blob@,
            take_chars(patch.patch_preview@, PREVIEW_CHARS as nat),
        ),
{
    let ghost b = blob@;
    let preview = prefix_chars(patch.patch_preview.as_str(), PREVIEW_CHARS);
    let mut ops: Vec<StoreOp> = Vec::new();
    ops.push(StoreOp::ReplacePatch { repo_id: patch.repo_id, sha: patch.sha.clone(), blob });
    match prev {
        Some(o) => {
            ops.push(
                StoreOp::FtsDelete {
                    rowid: o.rowid,
                    subject: o.subject.clone(),
                    body: clone_opt(&o.body),
                    preview: o.preview.clone(),
                },
            );
            ops.push(StoreOp::SetPreview { repo_id: patch.repo_id, sha: patch.sha.clone(), preview: preview.clone() });
            ops.push(
                StoreOp::FtsInsert {
                    repo_id: patch.repo_id,
                    sha: patch.sha.clone(),
                    subject: o.subject.clone(),
                    body: clone_opt(&o.body),
                    preview,
                },
            );
        },
        None => {},
    }
    assert(ops_view(ops@) =~= upsert_patch_ops(
        read_view(*prev),
        (patch.repo_id as int, patch.sha@),
        b,
        take_chars(patch.patch_preview@, PREVIEW_CHARS as nat),
    ));
    ops
}

/// The plan that stores a vector: make sure the commit has an embedding id,
/// delete any vector under it, insert the new one.
pub open spec fn store_embedding_ops(k: Key, display: Display) -> Seq<Op> {
    seq![Op::EnsureEmbedKey { key: k }, Op::DeleteEmbedding { key: k }, Op::InsertEmbedding { key: k, display }]
}

/// The writes that store a commit's vector with its display fields; the
/// vector itself is bound by the caller to the insert.
pub fn store_embedding_plan(
    repo_id: i64,
    sha: &str,
    subject: &str,
    author_name: &str,
    repo_name: &str,
    author_time: i64,
    patch_preview: Option<&str>,
) -> (r: Vec<StoreOp>)
    ensures
        ops_view(r@) == store_embedding_ops(
            (repo_id as int, sha@),
            (sha@, subject@, repo_name@, author_name@, author_time as int, match patch_preview {
                Some(p) => Some(p@),
                None => None,
            }),
        ),
{
    let mut ops: Vec<StoreOp> = Vec::new();
    ops.push(StoreOp::EnsureEmbedKey { repo_id, sha: String::from_str(sha) });
    ops.push(StoreOp::DeleteEmbedding { repo_id, sha: String::from_str(sha) });
    let preview = match patch_preview {
        Some(p) => Some(String::from_str(p)),
        None => None,
    };
    ops.push(
        StoreOp::InsertEmbedding {
            repo_id,
            sha: String::from_str(sha),
            subject: String::from_str(subject),
            repo_name: String::from_str(repo_name),
            author_name: String::from_str(author_name),
            author_time,
            patch_preview: preview,
        },
    );
    assert(ops_view(ops@) =~= store_embedding_ops(
        (repo_id as int, sha@),
        (sha@, subject@, repo_name@, author_name@, author_time as int, match patch_preview {
            Some(p) => Some(p@),
            None => None,
        }),
    ));
    ops
}

/// The plan that removes a repository: patches, changed files, sync state,
/// vectors, embedding ids, commits, a rebuild of the text index, and last
/// the repository row.
pub open spec fn remove_repo_ops(repo_id: int) -> Seq<Op> {
    seq![
        Op::DeletePatches { repo_id },
        Op::DeleteFiles { repo_id },
        Op::DeleteState { repo_id },
        Op::DeleteEmbeddings { repo_id },
        Op::DeleteEmbedKeys { repo_id },
        Op::DeleteCommits { repo_id },
        Op::RebuildFts,
        Op::DeleteRepo { repo_id },
    ]
}

/// The writes that remove a repository and everything that refers to it.
pub fn remove_repo_plan(repo_id: i64) -> (r: Vec<StoreOp>)
    ensures
        ops_view(r@) == remove_repo_ops(repo_id as int),
{
    let mut ops: Vec<StoreOp> = Vec::new();
    ops.push(StoreOp::DeletePatches { repo_id });
    ops.push(StoreOp::DeleteFiles { repo_id });
    ops.push(StoreOp::DeleteState { repo_id });
    ops.push(StoreOp::DeleteEmbeddings { repo_id });
    ops.push(StoreOp::DeleteEmbedKeys { repo_id });
    ops.push(StoreOp::DeleteCommits { repo_id });
    ops.push(StoreOp::RebuildFts);
    ops.push(StoreOp::DeleteRepo { repo_id });
    assert(ops_view(ops@) =~= remove_repo_ops(repo_id as int));
    ops
}

proof fn lemma_apply_one(m: IndexModel, a: Op)
    ensures
        apply_all(m, seq![a]) == apply(m, a),
{
    assert(seq![a].drop_last() =~= Seq::<Op>::empty());
    assert(apply_all(m, Seq::<Op>::empty()) == m);
}

proof fn lemma_apply_concat(m: IndexModel, p: Seq<Op>, q: Seq<Op>)
    ensures
        apply_all(m, p + q) == apply_all(apply_all(m, p), q),
    decreases q.len(),
{
    if q.len() == 0 {
        assert(p + q =~= p);
    } else {
        assert((p + q).drop_last() =~= p + q.drop_last());
        assert((p + q).last() == q.last());
        lemma_apply_concat(m, p, q.drop_last());
    }
}

/// Storing a patch in a coherent index, given the commit's row as read
/// before, keeps the index coherent; afterwards the stored blob is the new
/// one and, where the commit has a row, its preview is `preview` and the
/// text index holds the row's subject and body with that preview.
pub proof fn lemma_upsert_patch(m: IndexModel, prev: ReadRow, k: Key, blob: Seq<u8>, preview: Seq<char>)
    requires
        fts_coherent(m),
        prev == model_read(m, k),
    ensures
        ({
            let m2 = apply_all(m, upsert_patch_ops(prev, k, blob, preview));
            &&& fts_coherent(m2)
            &&& m2.patches.contains_key(k) && m2.patches[k] == blob
            &&& m2.commits.dom() == m.commits.dom()
            &&& (m2.commits.contains_key(k) ==> m2.commits[k].preview == preview
                && m2.fts[m2.commits[k].rowid] == (m.commits[k].subject, m.commits[k].body, preview)
                && m2.commits[k].rowid == m.commits[k].rowid && m2.commits[k].columns == m.commits[k].columns
                && m2.commits[k].subject == m.commits[k].subject && m2.commits[k].body == m.commits[k].body)
            &&& forall|k2: Key| k2 != k && #[trigger] m.commits.contains_key(k2) ==> m2.commits[k2] == m.commits[k2]
        }),
{
    let first = seq![Op::ReplacePatch { key: k, blob }];
    let ops = upsert_patch_ops(prev, k, blob, preview);
    lemma_apply_one(m, first[0]);
    assert(first =~= seq![first[0]]);
    let m0 = apply(m, first[0]);
    assert(m0.commits == m.commits && m0.fts == m.fts);
    match prev {
        None => {
            assert(ops =~= first);
            assert(m0.commits.dom() =~= m.commits.dom());
        },
        Some(o) => {
            let d = Op::FtsDelete { rowid: o.0, values: o.1 };
            let sp = Op::SetPreview { key: k, preview };
            let ins = Op::FtsInsert { key: k, values: (o.1.0, o.1.1, preview) };
            assert(ops =~= (first + seq![d]) + seq![sp, ins]);
            lemma_apply_two(m, first + seq![d], sp, ins);
            assert((first + seq![d]).drop_last() =~= first);
            assert((first + seq![d]).last() == d);
            let m1 = apply(m0, d);
            assert(apply_all(m, first + seq![d]) == m1);
            let m2 = apply(apply(m1, sp), ins);
            let rid = o.0;
            assert(m1.fts == m.fts.remove(rid));
            assert(m2.commits == m.commits.insert(k, Row { preview, ..m.commits[k] }));
            assert(m2.fts == m.fts.remove(rid).insert(rid, (o.1.0, o.1.1, preview)));
            assert(m2.fts == m.fts.insert(rid, (o.1.0, o.1.1, preview)));
            assert forall|k2: Key| #[trigger] m2.commits.contains_key(k2) implies m2.fts.contains_key(m2.commits[k2].rowid)
                && m2.fts[m2.commits[k2].rowid] == row_values(m2.commits[k2]) by {
                if k2 != k {
                    assert(m.commits.contains_key(k2));
                }
            }
            assert forall|r: int| #[trigger] m2.fts.contains_key(r) implies exists|k3: Key| m2.commits.contains_key(k3) && #[trigger] m2.commits[k3].rowid == r by {
                if r == rid {
                    assert(m2.commits[k].rowid == r);
                } else {
                    let k3 = choose|k3: Key| m.commits.contains_key(k3) && m.commits[k3].rowid == r;
                    assert(m2.commits[k3].rowid == r);
                }
            }
            assert forall|k1: Key, k2: Key|
                #[trigger] m2.commits.contains_key(k1) && #[trigger] m2.commits.contains_key(k2) && k1 != k2
                    implies m2.commits[k1].rowid != m2.commits[k2].rowid by {
                assert(m.commits.contains_key(k1) && m.commits.contains_key(k2));
            }
            assert(m2.commits.dom() =~= m.commits.dom());
        },
    }
}

/// Storing a vector keeps the vector table coherent; afterwards the commit
/// has one embedding id and one vector under it, with the given display
/// fields, and storing it again
/// changes neither the ids nor the vectors.
pub proof fn lemma_store_embedding(m: IndexModel, k: Key, display: Display)
    requires
        embed_coherent(m),
    ensures
        ({
            let ops = store_embedding_ops(k, display);
            let m2 = apply_all(m, ops);
            let m3 = apply_all(m2, ops);
            &&& embed_coherent(m2)
            &&& m2.embed_keys.contains_key(k)
            &&& m2.embeddings.contains_key(m2.embed_keys[k]) && m2.embeddings[m2.embed_keys[k]] == display
            &&& m2.embed_keys.dom() == m.embed_keys.dom().insert(k)
            &&& m3.embed_keys == m2.embed_keys
            &&& m3.embeddings == m2.embeddings
        }),
{
    let e = Op::EnsureEmbedKey { key: k };
    let d = Op::DeleteEmbedding { key: k };
    let i = Op::InsertEmbedding { key: k, display };
    let ops = store_embedding_ops(k, display);
    assert(ops =~= seq![e] + seq![d, i]);
    lemma_apply_two(m, seq![e], d, i);
    lemma_apply_one(m, e);
    lemma_apply_two(apply_all(m, ops), seq![e], d, i);
    lemma_apply_one(apply_all(m, ops), e);
    let m0 = apply(m, e);
    let m2 = apply(apply(m0, d), i);
    let id = m0.embed_keys[k];
    assert(m0.embed_keys.contains_key(k));
    assert(m2.embed_keys == m0.embed_keys);
    assert(m2.embeddings == m.embeddings.remove(id).insert(id, display));
    if !m.embed_keys.contains_key(k) {
        assert(m0.embed_keys == m.embed_keys.insert(k, m.next_embed_id));
        assert forall|k1: Key, k2: Key|
            #[trigger] m2.embed_keys.contains_key(k1) && #[trigger] m2.embed_keys.contains_key(k2) && k1 != k2
                implies m2.embed_keys[k1] != m2.embed_keys[k2] by {
            if k1 != k && k2 != k {
                assert(m.embed_keys.contains_key(k1) && m.embed_keys.contains_key(k2));
            } else if k1 == k {
                assert(m.embed_keys.contains_key(k2));
            } else {
                assert(m.embed_keys.contains_key(k1));
            }
        }
    }
    assert forall|x: int| #[trigger] m2.embeddings.contains_key(x) implies exists|k3: Key| m2.embed_keys.contains_key(k3) && #[trigger] m2.embed_keys[k3] == x by {
        if x == id {
            assert(m2.embed_keys[k] == x);
        } else {
            let k3 = choose|k3: Key| m.embed_keys.contains_key(k3) && m.embed_keys[k3] == x;
            assert(m2.embed_keys[k3] == x);
        }
    }
    assert(m2.embed_keys.dom() =~= m.embed_keys.dom().insert(k));
    let m3 = apply_all(m2, ops);
    assert(m3.embeddings =~= m2.embeddings);
}

/// Removing a repository from a coherent index leaves it coherent, with no
/// repository row, commit row, text-index entry, patch or embedding id of
/// that repository: every entry the text index still holds belongs to a
/// commit of another repository.
pub proof fn lemma_remove_repo(m: IndexModel, repo_id: int)
    requires
        fts_coherent(m),
        embed_coherent(m),
    ensures
        ({
            let m2 = apply_all(m, remove_repo_ops(repo_id));
            &&& fts_coherent(m2)
            &&& embed_coherent(m2)
            &&& !m2.repos.contains(repo_id)
            &&& forall|r: int| #[trigger] m.repos.contains(r) && r != repo_id ==> m2.repos.contains(r)
            &&& forall|k: Key| #[trigger] m.patches.contains_key(k) && k.0 != repo_id ==> m2.patches.contains_key(k)
            &&& forall|k: Key| #[trigger] m2.commits.contains_key(k) ==> k.0 != repo_id
            &&& forall|r: int| #[trigger] m2.fts.contains_key(r) ==> exists|k: Key|
                m2.commits.contains_key(k) && #[trigger] m2.commits[k].rowid == r && k.0 != repo_id
            &&& forall|k: Key| #[trigger] m2.patches.contains_key(k) ==> k.0 != repo_id
            &&& forall|k: Key| #[trigger] m2.files.contains_key(k) ==> k.0 != repo_id
            &&& forall|k: Key| #[trigger] m2.embed_keys.contains_key(k) ==> k.0 != repo_id
            &&& forall|k: Key| #[trigger] m.commits.contains_key(k) && k.0 != repo_id ==> m2.commits.contains_key(k)
        }),
{
    let ops = remove_repo_ops(repo_id);
    let m1 = apply(m, ops[0]);
    let m2 = apply(m1, ops[1]);
    let m3 = apply(m2, ops[2]);
    let m4 = apply(m3, ops[3]);
    let m5 = apply(m4, ops[4]);
    let m6 = apply(m5, ops[5]);
    let m7 = apply(m6, ops[6]);
    let m8 = apply(m7, ops[7]);
    assert(apply_all(m, ops) == m8) by {
        assert(ops.subrange(0, 8) =~= ops);
        assert(apply_all(m, ops.subrange(0, 0)) == m) by {
            assert(ops.subrange(0, 0) =~= Seq::<Op>::empty());
        }
        assert(ops.subrange(0, 1).drop_last() =~= ops.subrange(0, 0));
        assert(ops.subrange(0, 2).drop_last() =~= ops.subrange(0, 1));
        assert(ops.subrange(0, 3).drop_last() =~= ops.subrange(0, 2));
        assert(ops.subrange(0, 4).drop_last() =~= ops.subrange(0, 3));
        assert(ops.subrange(0, 5).drop_last() =~= ops.subrange(0, 4));
        assert(ops.subrange(0, 6).drop_last() =~= ops.subrange(0, 5));
        assert(ops.subrange(0, 7).drop_last() =~= ops.subrange(0, 6));
        assert(ops.subrange(0, 8).drop_last() =~= ops.subrange(0, 7));
        assert(apply_all(m, ops.subrange(0, 1)) == m1);
        assert(apply_all(m, ops.subrange(0, 2)) == m2);
        assert(apply_all(m, ops.subrange(0, 3)) == m3);
        assert(apply_all(m, ops.subrange(0, 4)) == m4);
        assert(apply_all(m, ops.subrange(0, 5)) == m5);
        assert(apply_all(m, ops.subrange(0, 6)) == m6);
        assert(apply_all(m, ops.subrange(0, 7)) == m7);
    }
    let cs = m8.commits;
    assert(cs == m.commits.restrict(m.commits.dom().filter(|k: Key| k.0 != repo_id)));
    assert(m8.fts == rebuilt(cs));
    assert forall|k: Key| #[trigger] cs.contains_key(k) implies m8.fts.contains_key(cs[k].rowid)
        && m8.fts[cs[k].rowid] == row_values(cs[k]) by {
        let r = cs[k].rowid;
        assert(cs.contains_key(k) && cs[k].rowid == r);
        let k2 = choose|k2: Key| cs.contains_key(k2) && cs[k2].rowid == r;
        assert(m.commits.contains_key(k) && m.commits.contains_key(k2));
        assert(k2 == k);
    }
    assert forall|r: int| #[trigger] m8.fts.contains_key(r) implies exists|k: Key|
        cs.contains_key(k) && #[trigger] cs[k].rowid == r && k.0 != repo_id by {
        let k = choose|k: Key| cs.contains_key(k) && cs[k].rowid == r;
        assert(cs.contains_key(k) && cs[k].rowid == r && k.0 != repo_id);
    }
    assert forall|k1: Key, k2: Key|
        #[trigger] cs.contains_key(k1) && #[trigger] cs.contains_key(k2) && k1 != k2 implies cs[k1].rowid != cs[k2].rowid by {
        assert(m.commits.contains_key(k1) && m.commits.contains_key(k2));
    }
    let ek = m8.embed_keys;
    assert(ek == m.embed_keys.restrict(m.embed_keys.dom().filter(|k: Key| k.0 != repo_id)));
    assert forall|x: int| #[trigger] m8.embeddings.contains_key(x) implies exists|k: Key| ek.contains_key(k) && #[trigger] ek[k] == x by {
        assert(m.embeddings.contains_key(x));
        let k = choose|k: Key| m.embed_keys.contains_key(k) && m.embed_keys[k] == x;
        assert(k.0 != repo_id);
        assert(ek.contains_key(k) && ek[k] == x);
    }
    assert forall|k1: Key, k2: Key|
        #[trigger] ek.contains_key(k1) && #[trigger] ek.contains_key(k2) && k1 != k2 implies ek[k1] != ek[k2] by {
        assert(m.embed_keys.contains_key(k1) && m.embed_keys.contains_key(k2));
    }
}

/// A text value, or SQL null.
pub open spec fn opt_arg(v: Option<String>) -> SqlArg {
    match v {
        Some(s) => SqlArg::Text(s@),
        None => SqlArg::Null,
    }
}

/// The SQL of an operation and the values bound to `?1`, `?2`, ... in order.
/// The vector of an embedding insert is bound after these, as `?8`.
pub open spec fn statement_of(op: StoreOp) -> (Seq<char>, Seq<SqlArg>) {
    match op {
        StoreOp::FtsDelete { rowid, subject, body, preview } => (
            "INSERT INTO commits_fts(commits_fts, rowid, subject, body, patch_preview) VALUES('delete', ?1, ?2, ?3, ?4)"@,
            seq![SqlArg::Int(rowid as int), SqlArg::Text(subject@), opt_arg(body), SqlArg::Text(preview@)],
        ),
        StoreOp::ReplaceCommit { commit } => (
            "INSERT OR REPLACE INTO commits (repo_id, sha, author_name, author_email, committer_name, committer_email, author_time, commit_time, subject, body, parent_count, patch_preview) VALUES (?1, ?2, ?3, ?4, ?5, ?6, ?7, ?8, ?9, ?10, ?11, '')"@,
            seq![
                SqlArg::Int(commit.repo_id as int),
                SqlArg::Text(commit.sha@),
                SqlArg::Text(commit.author_name@),
                SqlArg::Text(commit.author_email@),
                SqlArg::Text(commit.committer_name@),
                SqlArg::Text(commit.committer_email@),
                SqlArg::Int(commit.author_time as int),
                SqlArg::Int(commit.commit_time as int),
                SqlArg::Text(commit.subject@),
                opt_arg(commit.body),
                SqlArg::Int(commit.parent_count as int),
            ],
        ),
        StoreOp::FtsInsert { repo_id, sha, subject, body, preview } => (
            "INSERT INTO commits_fts(rowid, subject, body, patch_preview) SELECT rowid, ?3, ?4, ?5 FROM commits WHERE repo_id = ?1 AND sha = ?2"@,
            seq![SqlArg::Int(repo_id as int), SqlArg::Text(sha@), SqlArg::Text(subject@), opt_arg(body), SqlArg::Text(preview@)],
        ),
        StoreOp::ReplacePatch { repo_id, sha, blob } => (
            "INSERT OR REPLACE INTO commit_patches (repo_id, sha, patch_blob) VALUES (?1, ?2, ?3)"@,
            seq![SqlArg::Int(repo_id as int), SqlArg::Text(sha@), SqlArg::Blob(blob@)],
        ),
        StoreOp::SetPreview { repo_id, sha, preview } => (
            "UPDATE commits SET patch_preview = ?3 WHERE repo_id = ?1 AND sha = ?2"@,
            seq![SqlArg::Int(repo_id as int), SqlArg::Text(sha@), SqlArg::Text(preview@)],
        ),
        StoreOp::EnsureEmbedKey { repo_id, sha } => (
            "INSERT OR IGNORE INTO commit_embed_map (repo_id, sha) VALUES (?1, ?2)"@,
            seq![SqlArg::Int(repo_id as int), SqlArg::Text(sha@)],
        ),
        StoreOp::DeleteEmbedding { repo_id, sha } => (
            "DELETE FROM commit_embeddings WHERE embed_id = (SELECT embed_id FROM commit_embed_map WHERE repo_id = ?1 AND sha = ?2)"@,
            seq![SqlArg::Int(repo_id as int), SqlArg::Text(sha@)],
        ),
        StoreOp::InsertEmbedding { repo_id, sha, subject, repo_name, author_name, author_time, patch_preview } => (
            "INSERT INTO commit_embeddings (embed_id, embedding, sha, subject, repo_name, author_name, author_time, patch_preview) SELECT embed_id, ?8, ?2, ?3, ?4, ?5, ?6, ?7 FROM commit_embed_map WHERE repo_id = ?1 AND sha = ?2"@,
            seq![
                SqlArg::Int(repo_id as int),
                SqlArg::Text(sha@),
                SqlArg::Text(subject@),
                SqlArg::Text(repo_name@),
                SqlArg::Text(author_name@),
                SqlArg::Int(author_time as int),
                opt_arg(patch_preview),
            ],
        ),
        StoreOp::DeletePatches { repo_id } => (
            "DELETE FROM commit_patches WHERE repo_id = ?1"@,
            seq![SqlArg::Int(repo_id as int)],
        ),
        StoreOp::ClearCommitFiles { repo_id, sha } => (
            "DELETE FROM commit_files WHERE repo_id = ?1 AND sha = ?2"@,
            seq![SqlArg::Int(repo_id as int), SqlArg::Text(sha@)],
        ),
        StoreOp::InsertFile { file } => (
            "INSERT INTO commit_files (repo_id, sha, path, status, old_path) VALUES (?1, ?2, ?3, ?4, ?5)"@,
            seq![
                SqlArg::Int(file.repo_id as int),
                SqlArg::Text(file.sha@),
                SqlArg::Text(file.path@),
                SqlArg::Text(status_code(file.status)),
                opt_arg(file.old_path),
            ],
        ),
        StoreOp::DeleteFiles { repo_id } => (
            "DELETE FROM commit_files WHERE repo_id = ?1"@,
            seq![SqlArg::Int(repo_id as int)],
        ),
        StoreOp::DeleteState { repo_id } => (
            "DELETE FROM ingest_state WHERE repo_id = ?1"@,
            seq![SqlArg::Int(repo_id as int)],
        ),
        StoreOp::DeleteEmbeddings { repo_id } => (
            "DELETE FROM commit_embeddings WHERE embed_id IN (SELECT embed_id FROM commit_embed_map WHERE repo_id = ?1)"@,
            seq![SqlArg::Int(repo_id as int)],
        ),
        StoreOp::DeleteEmbedKeys { repo_id } => (
            "DELETE FROM commit_embed_map WHERE repo_id = ?1"@,
            seq![SqlArg::Int(repo_id as int)],
        ),
        StoreOp::DeleteCommits { repo_id } => (
            "DELETE FROM commits WHERE repo_id = ?1"@,
            seq![SqlArg::Int(repo_id as int)],
        ),
        StoreOp::RebuildFts => ("INSERT INTO commits_fts(commits_fts) VALUES('rebuild')"@, Seq::empty()),
        StoreOp::DeleteRepo { repo_id } => (
            "DELETE FROM repos WHERE repo_id = ?1"@,
            seq![SqlArg::Int(repo_id as int)],
        ),
    }
}

fn opt_value(v: &Option<String>) -> (r: SqlValue)
    ensures
        arg_of(r) == opt_arg(*v),
{
    match v {
        Some(s) => SqlValue::Text(s.clone()),
        None => SqlValue::Null,
    }
}

fn query(sql: &str, params: Vec<SqlValue>) -> (r: SqlQuery)
    ensures
        r.sql@ == sql@,
        r.params@ == params@,
{
    SqlQuery { sql: String::from_str(sql), params }
}

/// The statement that performs an operation.
pub fn statement(op: &StoreOp) -> (r: SqlQuery)
    ensures
        r.sql@ == statement_of(*op).0,
        r.args() == statement_of(*op).1,
{
    let mut p: Vec<SqlValue> = Vec::new();
    let r = match op {
        StoreOp::FtsDelete { rowid, subject, body, preview } => {
            p.push(SqlValue::Int(*rowid));
            p.push(SqlValue::Text(subject.clone()));
            p.push(opt_value(body));
            p.push(SqlValue::Text(preview.clone()));
            query("INSERT INTO commits_fts(commits_fts, rowid, subject, body, patch_preview) VALUES('delete', ?1, ?2, ?3, ?4)", p)
        },
        StoreOp::ReplaceCommit { commit } => {
            p.push(SqlValue::Int(commit.repo_id));
            p.push(SqlValue::Text(commit.sha.clone()));
            p.push(SqlValue::Text(commit.author_name.clone()));
            p.push(SqlValue::Text(commit.author_email.clone()));
            p.push(SqlValue::Text(commit.committer_name.clone()));
            p.push(SqlValue::Text(commit.committer_email.clone()));
            p.push(SqlValue::Int(commit.author_time));
            p.push(SqlValue::Int(commit.commit_time));
            p.push(SqlValue::Text(commit.subject.clone()));
            p.push(opt_value(&commit.body));
            p.push(SqlValue::Int(commit.parent_count as i64));
            query("INSERT OR REPLACE INTO commits (repo_id, sha, author_name, author_email, committer_name, committer_email, author_time, commit_time, subject, body, parent_count, patch_preview) VALUES (?1, ?2, ?3, ?4, ?5, ?6, ?7, ?8, ?9, ?10, ?11, '')", p)
        },
        StoreOp::FtsInsert { repo_id, sha, subject, body, preview } => {
            p.push(SqlValue::Int(*repo_id));
            p.push(SqlValue::Text(sha.clone()));
            p.push(SqlValue::Text(subject.clone()));
            p.push(opt_value(body));
            p.push(SqlValue::Text(preview.clone()));
            query("INSERT INTO commits_fts(rowid, subject, body, patch_preview) SELECT rowid, ?3, ?4, ?5 FROM commits WHERE repo_id = ?1 AND sha = ?2", p)
        },
        StoreOp::ReplacePatch { repo_id, sha, blob } => {
            p.push(SqlValue::Int(*repo_id));
            p.push(SqlValue::Text(sha.clone()));
            p.push(SqlValue::Blob(copy_bytes(blob)));
            query("INSERT OR REPLACE INTO commit_patches (repo_id, sha, patch_blob) VALUES (?1, ?2, ?3)", p)
        },
        StoreOp::SetPreview { repo_id, sha, preview } => {
            p.push(SqlValue::Int(*repo_id));
            p.push(SqlValue::Text(sha.clone()));
            p.push(SqlValue::Text(preview.clone()));
            query("UPDATE commits SET patch_preview = ?3 WHERE repo_id = ?1 AND sha = ?2", p)
        },
        StoreOp::EnsureEmbedKey { repo_id, sha } => {
            p.push(SqlValue::Int(*repo_id));
            p.push(SqlValue::Text(sha.clone()));
            query("INSERT OR IGNORE INTO commit_embed_map (repo_id, sha) VALUES (?1, ?2)", p)
        },
        StoreOp::DeleteEmbedding { repo_id, sha } => {
            p.push(SqlValue::Int(*repo_id));
            p.push(SqlValue::Text(sha.clone()));
            query("DELETE FROM commit_embeddings WHERE embed_id = (SELECT embed_id FROM commit_embed_map WHERE repo_id = ?1 AND sha = ?2)", p)
        },
        StoreOp::InsertEmbedding { repo_id, sha, subject, repo_name, author_name, author_time, patch_preview } => {
            p.push(SqlValue::Int(*repo_id));
            p.push(SqlValue::Text(sha.clone()));
            p.push(SqlValue::Text(subject.clone()));
            p.push(SqlValue::Text(repo_name.clone()));
            p.push(SqlValue::Text(author_name.clone()));
            p.push(SqlValue::Int(*author_time));
            p.push(opt_value(patch_preview));
            query("INSERT INTO commit_embeddings (embed_id, embedding, sha, subject, repo_name, author_name, author_time, patch_preview) SELECT embed_id, ?8, ?2, ?3, ?4, ?5, ?6, ?7 FROM commit_embed_map WHERE repo_id = ?1 AND sha = ?2", p)
        },
        StoreOp::DeletePatches { repo_id } => {
            p.push(SqlValue::Int(*repo_id));
            query("DELETE FROM commit_patches WHERE repo_id = ?1", p)
        },
        StoreOp::ClearCommitFiles { repo_id, sha } => {
            p.push(SqlValue::Int(*repo_id));
            p.push(SqlValue::Text(sha.clone()));
            query("DELETE FROM commit_files WHERE repo_id = ?1 AND sha = ?2", p)
        },
        StoreOp::InsertFile { file } => {
            p.push(SqlValue::Int(file.repo_id));
            p.push(SqlValue::Text(file.sha.clone()));
            p.push(SqlValue::Text(file.path.clone()));
            p.push(SqlValue::Text(String::from_str(file.status.as_str())));
            p.push(opt_value(&file.old_path));
            query("INSERT INTO commit_files (repo_id, sha, path, status, old_path) VALUES (?1, ?2, ?3, ?4, ?5)", p)
        },
        StoreOp::DeleteFiles { repo_id } => {
            p.push(SqlValue::Int(*repo_id));
            query("DELETE FROM commit_files WHERE repo_id = ?1", p)
        },
        StoreOp::DeleteState { repo_id } => {
            p.push(SqlValue::Int(*repo_id));
            query("DELETE FROM ingest_state WHERE repo_id = ?1", p)
        },
        StoreOp::DeleteEmbeddings { repo_id } => {
            p.push(SqlValue::Int(*repo_id));
            query("DELETE FROM commit_embeddings WHERE embed_id IN (SELECT embed_id FROM commit_embed_map WHERE repo_id = ?1)", p)
        },
        StoreOp::DeleteEmbedKeys { repo_id } => {
            p.push(SqlValue::Int(*repo_id));
            query("DELETE FROM commit_embed_map WHERE repo_id = ?1", p)
        },
        StoreOp::DeleteCommits { repo_id } => {
            p.push(SqlValue::Int(*repo_id));
            query("DELETE FROM commits WHERE repo_id = ?1", p)
        },
        StoreOp::RebuildFts => query("INSERT INTO commits_fts(commits_fts) VALUES('rebuild')", p),
        StoreOp::DeleteRepo { repo_id } => {
            p.push(SqlValue::Int(*repo_id));
            query("DELETE FROM repos WHERE repo_id = ?1", p)
        },
    };
    assert(r.args() =~= statement_of(*op).1);
    r
}

fn copy_bytes(b: &Vec<u8>) -> (r: Vec<u8>)
    ensures
        r@ == b@,
{
    let mut r: Vec<u8> = Vec::new();
    let mut i: usize = 0;
    while i < b.len()
        invariant
            i <= b@.len(),
            r@ == b@.subrange(0, i as int),
        decreases b@.len() - i,
    {
        r.push(b[i]);
        i = i + 1;
        assert(r@ =~= b@.subrange(0, i as int));
    }
    assert(b@.subrange(0, b@.len() as int) =~= b@);
    r
}

/// The plan that records a commit's changed files: nothing for an empty
/// list; else the rows of the first file's commit are cleared and each file
/// is inserted in order.
pub open spec fn upsert_files_ops(files: Seq<CommitFile>) -> Seq<Op> {
    if files.len() == 0 {
        Seq::empty()
    } else {
        seq![Op::ClearCommitFiles { key: (files[0].repo_id as int, files[0].sha@) }] + files.map_values(
            |f: CommitFile| Op::InsertFile { key: (f.repo_id as int, f.sha@), entry: file_view(f) },
        )
    }
}

fn copy_file(f: &CommitFile) -> (r: CommitFile)
    ensures
        r.repo_id == f.repo_id,
        r.sha@ == f.sha@,
        file_view(r) == file_view(*f),
{
    CommitFile {
        repo_id: f.repo_id,
        sha: f.sha.clone(),
        path: f.path.clone(),
        status: f.status,
        old_path: clone_opt(&f.old_path),
    }
}

/// The writes that record a commit's changed files; callers pass the files
/// of one commit.
pub fn upsert_files_plan(files: &Vec<CommitFile>) -> (r: Vec<StoreOp>)
    ensures
        ops_view(r@) == upsert_files_ops(files@),
{
    let mut ops: Vec<StoreOp> = Vec::new();
    if files.len() == 0 {
        assert(ops_view(ops@) =~= upsert_files_ops(files@));
        return ops;
    }
    ops.push(StoreOp::ClearCommitFiles { repo_id: files[0].repo_id, sha: files[0].sha.clone() });
    let ghost head = ops_view(ops@);
    let mut i: usize = 0;
    while i < files.len()
        invariant
            i <= files@.len(),
            files@.len() > 0,
            head == seq![Op::ClearCommitFiles { key: (files@[0].repo_id as int, files@[0].sha@) }],
            ops_view(ops@) == head + files@.subrange(0, i as int).map_values(
                |f: CommitFile| Op::InsertFile { key: (f.repo_id as int, f.sha@), entry: file_view(f) },
            ),
        decreases files@.len() - i,
    {
        let ghost before = ops@;
        ops.push(StoreOp::InsertFile { file: copy_file(&files[i]) });
        i = i + 1;
        assert(ops_view(ops@) =~= ops_view(before).push(Op::InsertFile { key: (files@[i - 1].repo_id as int, files@[i - 1].sha@), entry: file_view(files@[i - 1]) }));
        assert(files@.subrange(0, i as int).map_values(
            |f: CommitFile| Op::InsertFile { key: (f.repo_id as int, f.sha@), entry: file_view(f) },
        ) =~= files@.subrange(0, i - 1).map_values(
            |f: CommitFile| Op::InsertFile { key: (f.repo_id as int, f.sha@), entry: file_view(f) },
        ).push(Op::InsertFile { key: (files@[i - 1].repo_id as int, files@[i - 1].sha@), entry: file_view(files@[i - 1]) }));
    }
    assert(files@.subrange(0, files@.len() as int) =~= files@);
    ops
}

proof fn lemma_insert_files(m: IndexModel, k: Key, fs: Seq<CommitFile>)
    requires
        forall|j: int| 0 <= j < fs.len() ==> (#[trigger] fs[j]).repo_id as int == k.0 && fs[j].sha@ == k.1,
    ensures
        ({
            let m2 = apply_all(m, fs.map_values(|f: CommitFile| Op::InsertFile { key: (f.repo_id as int, f.sha@), entry: file_view(f) }));
            &&& files_of(m2, k) == files_of(m, k) + fs.map_values(|f: CommitFile| file_view(f))
            &&& forall|k2: Key| k2 != k ==> #[trigger] files_of(m2, k2) == files_of(m, k2)
            &&& m2.commits == m.commits && m2.fts == m.fts
        }),
    decreases fs.len(),
{
    let ops = fs.map_values(|f: CommitFile| Op::InsertFile { key: (f.repo_id as int, f.sha@), entry: file_view(f) });
    if fs.len() == 0 {
        assert(ops =~= Seq::<Op>::empty());
        assert(fs.map_values(|f: CommitFile| file_view(f)) =~= Seq::<FileEntry>::empty());
        assert(files_of(m, k) + Seq::<FileEntry>::empty() =~= files_of(m, k));
    } else {
        let rest = fs.drop_last();
        assert forall|j: int| 0 <= j < rest.len() implies (#[trigger] rest[j]).repo_id as int == k.0 && rest[j].sha@ == k.1 by {
            assert(rest[j] == fs[j]);
        }
        lemma_insert_files(m, k, rest);
        assert(ops.drop_last() =~= rest.map_values(|f: CommitFile| Op::InsertFile { key: (f.repo_id as int, f.sha@), entry: file_view(f) }));
        let last = fs.last();
        assert(last == fs[fs.len() - 1]);
        assert(fs.map_values(|f: CommitFile| file_view(f)) =~= rest.map_values(|f: CommitFile| file_view(f)).push(file_view(last)));
        let mr = apply_all(m, ops.drop_last());
        assert(ops.last() == Op::InsertFile { key: (last.repo_id as int, last.sha@), entry: file_view(last) });
        assert((last.repo_id as int, last.sha@) == k);
        let m2 = apply(mr, ops.last());
        assert(apply_all(m, ops) == m2);
        assert(files_of(m2, k) == files_of(mr, k).push(file_view(last)));
        assert(files_of(m, k) + rest.map_values(|f: CommitFile| file_view(f)).push(file_view(last)) =~= (files_of(m, k)
            + rest.map_values(|f: CommitFile| file_view(f))).push(file_view(last)));
        assert forall|k2: Key| k2 != k implies #[trigger] files_of(m2, k2) == files_of(m, k2) by {
            assert(files_of(m2, k2) == files_of(mr, k2));
        }
    }
}

/// Recording the changed files of one commit replaces exactly that commit's
/// file rows with the given files, in order, and touches no other commit's.
pub proof fn lemma_upsert_files(m: IndexModel, k: Key, files: Seq<CommitFile>)
    requires
        forall|j: int| 0 <= j < files.len() ==> (#[trigger] files[j]).repo_id as int == k.0 && files[j].sha@ == k.1,
    ensures
        ({
            let m2 = apply_all(m, upsert_files_ops(files));
            &&& files.len() > 0 ==> files_of(m2, k) == files.map_values(|f: CommitFile| file_view(f))
            &&& forall|k2: Key| k2 != k ==> #[trigger] files_of(m2, k2) == files_of(m, k2)
        }),
{
    if files.len() > 0 {
        let c = Op::ClearCommitFiles { key: k };
        let ins = files.map_values(|f: CommitFile| Op::InsertFile { key: (f.repo_id as int, f.sha@), entry: file_view(f) });
        assert(files[0].repo_id as int == k.0 && files[0].sha@ == k.1);
        assert((files[0].repo_id as int, files[0].sha@) == k);
        assert(upsert_files_ops(files) == seq![c] + ins);
        lemma_apply_concat(m, seq![c], ins);
        lemma_apply_one(m, c);
        let m1 = apply(m, c);
        assert(files_of(m1, k) == Seq::<FileEntry>::empty());
        lemma_insert_files(m1, k, files);
        assert(Seq::<FileEntry>::empty() + files.map_values(|f: CommitFile| file_view(f)) =~= files.map_values(|f: CommitFile| file_view(f)));
        assert forall|k2: Key| k2 != k implies #[trigger] files_of(m1, k2) == files_of(m, k2) by {}
    } else {
        assert(upsert_files_ops(files) =~= Seq::<Op>::empty());
    }
}

/// The model after `n` upserts of the same commit, each reading the row first.
pub open spec fn upsert_commit_n(
    m: IndexModel,
    k: Key,
    subject: Seq<char>,
    body: Option<Seq<char>>,
    columns: Columns,
    n: nat,
) -> IndexModel
    decreases n,
{
    if n == 0 {
        m
    } else {
        let m1 = upsert_commit_n(m, k, subject, body, columns, (n - 1) as nat);
        apply_all(m1, upsert_commit_ops(model_read(m1, k), k, subject, body, columns))
    }
}

/// Upserting the same commit `n >= 1` times leaves exactly one row for it,
/// holding its values with an empty preview, indexed once under its rowid
/// with those values; the index stays coherent and other rows keep theirs.
pub proof fn lemma_upsert_commit_repeated(
    m: IndexModel,
    k: Key,
    subject: Seq<char>,
    body: Option<Seq<char>>,
    columns: Columns,
    n: nat,
)
    requires
        fts_coherent(m),
        n >= 1,
    ensures
        ({
            let mn = upsert_commit_n(m, k, subject, body, columns, n);
            &&& fts_coherent(mn)
            &&& mn.commits.contains_key(k)
            &&& mn.commits[k].subject == subject && mn.commits[k].body == body
            &&& mn.commits[k].columns == columns && mn.commits[k].preview.len() == 0
            &&& mn.fts[mn.commits[k].rowid] == (subject, body, Seq::<char>::empty())
            &&& mn.commits.dom() == m.commits.dom().insert(k)
            &&& forall|k2: Key| k2 != k && #[trigger] m.commits.contains_key(k2) ==> mn.commits[k2] == m.commits[k2]
        }),
    decreases n,
{
    let m1 = upsert_commit_n(m, k, subject, body, columns, (n - 1) as nat);
    if n == 1 {
        lemma_upsert_commit(m, model_read(m, k), k, subject, body, columns);
    } else {
        lemma_upsert_commit_repeated(m, k, subject, body, columns, (n - 1) as nat);
        lemma_upsert_commit(m1, model_read(m1, k), k, subject, body, columns);
        let mn = upsert_commit_n(m, k, subject, body, columns, n);
        assert(mn.commits.dom() =~= m.commits.dom().insert(k));
        assert forall|k2: Key| k2 != k && #[trigger] m.commits.contains_key(k2) implies mn.commits[k2] == m.commits[k2] by {
            assert(m1.commits.contains_key(k2));
        }
    }
}

/// The model after `n` stores of the same patch, each reading the row first.
pub open spec fn upsert_patch_n(m: IndexModel, k: Key, blob: Seq<u8>, preview: Seq<char>, n: nat) -> IndexModel
    decreases n,
{
    if n == 0 {
        m
    } else {
        let m1 = upsert_patch_n(m, k, blob, preview, (n - 1) as nat);
        apply_all(m1, upsert_patch_ops(model_read(m1, k), k, blob, preview))
    }
}

/// Storing the same patch `n >= 1` times leaves one blob for the commit, the
/// given one, and, where the commit has a row, the given preview on it and
/// in its index entry; the index stays coherent and other rows keep theirs.
pub proof fn lemma_upsert_patch_repeated(m: IndexModel, k: Key, blob: Seq<u8>, preview: Seq<char>, n: nat)
    requires
        fts_coherent(m),
        n >= 1,
    ensures
        ({
            let mn = upsert_patch_n(m, k, blob, preview, n);
            &&& fts_coherent(mn)
            &&& mn.patches.contains_key(k) && mn.patches[k] == blob
            &&& mn.commits.dom() == m.commits.dom()
            &&& (mn.commits.contains_key(k) ==> mn.commits[k].preview == preview
                && mn.fts[mn.commits[k].rowid] == (m.commits[k].subject, m.commits[k].body, preview)
                && mn.commits[k].columns == m.commits[k].columns)
            &&& forall|k2: Key| k2 != k && #[trigger] m.commits.contains_key(k2) ==> mn.commits[k2] == m.commits[k2]
        }),
    decreases n,
{
    let m1 = upsert_patch_n(m, k, blob, preview, (n - 1) as nat);
    if n == 1 {
        lemma_upsert_patch(m, model_read(m, k), k, blob, preview);
    } else {
        lemma_upsert_patch_repeated(m, k, blob, preview, (n - 1) as nat);
        lemma_upsert_patch(m1, model_read(m1, k), k, blob, preview);
        let mn = upsert_patch_n(m, k, blob, preview, n);
        assert forall|k2: Key| k2 != k && #[trigger] m.commits.contains_key(k2) implies mn.commits[k2] == m.commits[k2] by {
            assert(m1.commits.contains_key(k2));
        }
    }
}

} // verus!
