//! The per-commit rules of a repository walk: which commits are skipped or
//! filtered, which changed files are kept, and how the patch text is cut.
use vstd::prelude::*;
use vstd::string::*;
use crate::ignore::{ignored_by, is_ignored, IgnoreConfig};
use crate::text::{eq_ascii_nocase, same_ignoring_ascii_case};
use crate::types::{CommitFile, FileStatus, SyncSummary};

verus! {

/// Walks repositories with libgit2; the walk itself runs outside the verified
/// library and consults the rules of this module for each commit.
#[derive(Debug, Clone, Copy)]
pub struct Git2Ingester;

impl Git2Ingester {
    /// The ingester.
    pub fn new() -> (r: Self) {
        Git2Ingester
    }
}

impl Default for Git2Ingester {
    fn default() -> (r: Self) {
        Git2Ingester::new()
    }
}

/// The revisions tried, in order, for the tip of a repository with a default
/// branch `b`: `refs/heads/b`, then `b` itself; `HEAD` is the fallback after them.
pub open spec fn tip_spec_list(branch: Option<Seq<char>>) -> Seq<Seq<char>> {
    match branch {
        Some(b) => seq!["refs/heads/"@ + b, b],
        None => Seq::empty(),
    }
}

/// The revisions to try for the tip before falling back to `HEAD`.
pub fn tip_specs(default_branch: &Option<String>) -> (r: Vec<String>)
    ensures
        r@.map_values(|s: String| s@) == tip_spec_list(opt_view(*default_branch)),
{
    let mut r: Vec<String> = Vec::new();
    match default_branch {
        Some(b) => {
            let mut full = String::from_str("refs/heads/");
            full.push_str(b.as_str());
            r.push(full);
            r.push(b.clone());
        },
        None => {},
    }
    assert(r@.map_values(|s: String| s@) =~= tip_spec_list(opt_view(*default_branch)));
    r
}

/// The references tried, in order, for the tip of the `upstream` remote.
pub open spec fn upstream_ref_list() -> Seq<Seq<char>> {
    seq!["refs/remotes/upstream/HEAD"@, "refs/remotes/upstream/main"@, "refs/remotes/upstream/master"@]
}

/// The references to try for the upstream tip.
pub fn upstream_refs() -> (r: Vec<String>)
    ensures
        r@.map_values(|s: String| s@) == upstream_ref_list(),
{
    let mut r: Vec<String> = Vec::new();
    r.push(String::from_str("refs/remotes/upstream/HEAD"));
    r.push(String::from_str("refs/remotes/upstream/main"));
    r.push(String::from_str("refs/remotes/upstream/master"));
    assert(r@.map_values(|s: String| s@) =~= upstream_ref_list());
    r
}

/// The kinds of change a tree-to-tree diff reports for one file.
#[derive(Debug, Clone, Copy, PartialEq, Eq, Structural)]
pub enum DeltaKind {
    Unmodified,
    Added,
    Deleted,
    Modified,
    Renamed,
    Copied,
    Ignored,
    Untracked,
    Typechange,
    Unreadable,
    Conflicted,
}

/// A path of one side of a diff entry: absent, present but not valid UTF-8,
/// or text.
#[derive(Debug, Clone)]
pub enum DeltaPath {
    Absent,
    NotText,
    Text(String),
}

/// The path as text, when it is text.
pub open spec fn path_text(p: DeltaPath) -> Option<Seq<char>> {
    match p {
        DeltaPath::Text(s) => Some(s@),
        _ => None,
    }
}

/// One file of a diff, as plain values: its change kind, its old and new
/// paths, and whether either side is binary.
#[derive(Debug, Clone)]
pub struct DeltaInfo {
    pub kind: DeltaKind,
    pub old_path: DeltaPath,
    pub new_path: DeltaPath,
    pub binary: bool,
}

/// The view of an optional string.
pub open spec fn opt_view(o: Option<String>) -> Option<Seq<char>> {
    match o {
        Some(s) => Some(s@),
        None => None,
    }
}

/// The path a changed file is recorded under: the old one for a deletion,
/// else the new one when there is one, else the old one; `None` when that
/// path is not text.
pub open spec fn delta_path(d: DeltaInfo) -> Option<Seq<char>> {
    if d.kind == DeltaKind::Deleted {
        path_text(d.old_path)
    } else if !(d.new_path is Absent) {
        path_text(d.new_path)
    } else {
        path_text(d.old_path)
    }
}

/// The status recorded for a diff entry: that of its kind, except that a
/// rename whose old path is not text is recorded as `Unknown`, so that an
/// old path is recorded exactly for renames.
pub open spec fn entry_status(d: DeltaInfo) -> FileStatus {
    if d.kind == DeltaKind::Renamed && path_text(d.old_path) is None {
        FileStatus::Unknown
    } else {
        status_of(d.kind)
    }
}

/// The status recorded for a change kind.
pub open spec fn status_of(k: DeltaKind) -> FileStatus {
    match k {
        DeltaKind::Added | DeltaKind::Untracked => FileStatus::Added,
        DeltaKind::Modified | DeltaKind::Typechange => FileStatus::Modified,
        DeltaKind::Deleted => FileStatus::Deleted,
        DeltaKind::Renamed => FileStatus::Renamed,
        DeltaKind::Copied => FileStatus::Copied,
        _ => FileStatus::Unknown,
    }
}

/// A changed file is recorded: not binary, with a path, outside every excluded prefix.
pub open spec fn file_kept(d: DeltaInfo, prefixes: Seq<Seq<char>>) -> bool {
    !d.binary && delta_path(d) is Some && !ignored_by(delta_path(d).unwrap(), prefixes)
}

/// A recorded file as plain values: path, status, and the old path of a rename.
pub open spec fn file_entry(d: DeltaInfo) -> (Seq<char>, FileStatus, Option<Seq<char>>) {
    (
        delta_path(d).unwrap(),
        entry_status(d),
        if d.kind == DeltaKind::Renamed { path_text(d.old_path) } else { None },
    )
}

/// The files recorded for a diff, in diff order.
pub open spec fn kept_files(ds: Seq<DeltaInfo>, prefixes: Seq<Seq<char>>) -> Seq<
    (Seq<char>, FileStatus, Option<Seq<char>>),
>
    decreases ds.len(),
{
    if ds.len() == 0 {
        Seq::empty()
    } else {
        let rest = kept_files(ds.drop_last(), prefixes);
        if file_kept(ds.last(), prefixes) {
            rest.push(file_entry(ds.last()))
        } else {
            rest
        }
    }
}

/// A commit file as plain values.
pub open spec fn file_view(f: CommitFile) -> (Seq<char>, FileStatus, Option<Seq<char>>) {
    (f.path@, f.status, opt_view(f.old_path))
}

/// A copy of an optional string.
pub fn clone_opt(o: &Option<String>) -> (r: Option<String>)
    ensures
        opt_view(r) == opt_view(*o),
{
    match o {
        Some(s) => Some(s.clone()),
        None => None,
    }
}

fn status_for(k: DeltaKind) -> (r: FileStatus)
    ensures
        r == status_of(k),
{
    match k {
        DeltaKind::Added | DeltaKind::Untracked => FileStatus::Added,
        DeltaKind::Modified | DeltaKind::Typechange => FileStatus::Modified,
        DeltaKind::Deleted => FileStatus::Deleted,
        DeltaKind::Renamed => FileStatus::Renamed,
        DeltaKind::Copied => FileStatus::Copied,
        _ => FileStatus::Unknown,
    }
}

fn text_of(p: &DeltaPath) -> (r: Option<String>)
    ensures
        opt_view(r) == path_text(*p),
{
    match p {
        DeltaPath::Text(s) => Some(s.clone()),
        _ => None,
    }
}

fn path_for(d: &DeltaInfo) -> (r: Option<String>)
    ensures
        opt_view(r) == delta_path(*d),
{
    if d.kind == DeltaKind::Deleted {
        text_of(&d.old_path)
    } else if !matches!(d.new_path, DeltaPath::Absent) {
        text_of(&d.new_path)
    } else {
        text_of(&d.old_path)
    }
}

/// The changed-file records of one commit: binary files, files without a
/// path and files under an excluded prefix are left out; the rest keep diff order.
pub fn commit_files(deltas: &Vec<DeltaInfo>, repo_id: i64, sha: &str, config: &IgnoreConfig) -> (r: Vec<
    CommitFile,
>)
    ensures
        r@.map_values(|f: CommitFile| file_view(f)) == kept_files(deltas@, config.prefixes()),
        forall|i: int| 0 <= i < r@.len() ==> (#[trigger] r@[i]).repo_id == repo_id && r@[i].sha@ == sha@,
        forall|i: int| 0 <= i < r@.len() ==> ((#[trigger] r@[i]).old_path is Some <==> r@[i].status == FileStatus::Renamed),
{
    let mut files: Vec<CommitFile> = Vec::new();
    let mut i: usize = 0;
    while i < deltas.len()
        invariant
            i <= deltas@.len(),
            files@.map_values(|f: CommitFile| file_view(f)) == kept_files(
                deltas@.subrange(0, i as int),
                config.prefixes(),
            ),
            forall|j: int|
                0 <= j < files@.len() ==> (#[trigger] files@[j]).repo_id == repo_id && files@[j].sha@
                    == sha@,
            forall|j: int| 0 <= j < files@.len() ==> ((#[trigger] files@[j]).old_path is Some <==> files@[j].status == FileStatus::Renamed),
        decreases deltas@.len() - i,
    {
        let d = &deltas[i];
        let ghost sub = deltas@.subrange(0, i + 1);
        assert(sub.drop_last() =~= deltas@.subrange(0, i as int));
        assert(sub.last() == *d);
        if !d.binary {
            let p = path_for(d);
            match p {
                Some(path) => {
                    if !is_ignored(path.as_str(), config) {
                        let old_path = if d.kind == DeltaKind::Renamed {
                            text_of(&d.old_path)
                        } else {
                            None
                        };
                        let status = if d.kind == DeltaKind::Renamed && old_path.is_none() {
                            FileStatus::Unknown
                        } else {
                            status_for(d.kind)
                        };
                        let f = CommitFile { repo_id, sha: String::from_str(sha), path, status, old_path };
                        let ghost before = files@;
                        files.push(f);
                        assert(files@.map_values(|f: CommitFile| file_view(f)) =~= before.map_values(
                            |f: CommitFile| file_view(f),
                        ).push(file_entry(*d)));
                    }
                },
                None => {},
            }
        }
        i = i + 1;
    }
    assert(deltas@.subrange(0, deltas@.len() as int) =~= deltas@);
    files
}

/// Whether a diff's hunks are left out of the patch text: binary, or under an
/// excluded prefix by its new path (or old path, when there is no new one);
/// a path that is not text excludes nothing.
pub open spec fn patch_skipped(d: DeltaInfo, prefixes: Seq<Seq<char>>) -> bool {
    d.binary || {
        let p = if !(d.new_path is Absent) { path_text(d.new_path) } else { path_text(d.old_path) };
        p is Some && ignored_by(p.unwrap(), prefixes)
    }
}

/// Decides whether the hunks of a diff entry stay out of the patch text.
pub fn skip_in_patch(d: &DeltaInfo, config: &IgnoreConfig) -> (r: bool)
    ensures
        r == patch_skipped(*d, config.prefixes()),
{
    if d.binary {
        return true;
    }
    let p = if !matches!(d.new_path, DeltaPath::Absent) {
        &d.new_path
    } else {
        &d.old_path
    };
    match p {
        DeltaPath::Text(path) => is_ignored(path.as_str(), config),
        _ => false,
    }
}

/// Accumulates the text of a patch, line by line, up to a byte budget.
pub struct PatchText {
    pub text: String,
    pub truncated: bool,
    pub max_bytes: usize,
}

/// Length in bytes of a text in UTF-8.
pub open spec fn byte_len(s: Seq<char>) -> nat {
    vstd::utf8::encode_utf8(s).len()
}

impl PatchText {
    /// The accumulated text fits the budget.
    pub open spec fn wf(&self) -> bool {
        byte_len(self.text@) <= self.max_bytes
    }

    /// An empty patch text with the given budget.
    pub fn new(max_bytes: usize) -> (r: Self)
        ensures
            r.text@ == Seq::<char>::empty(),
            !r.truncated,
            r.max_bytes == max_bytes,
            r.wf(),
    {
        let r = PatchText { text: String::new(), truncated: false, max_bytes };
        assert(vstd::utf8::encode_utf8(Seq::<char>::empty()).len() == 0);
        r
    }

    /// Offers one diff line. A skipped delta, a line that is not valid UTF-8
    /// (`None`) or a text already cut adds nothing; a line that would take the
    /// text past its budget cuts it for good; any other line is appended.
    pub fn push_line(&mut self, line: Option<&str>, skipped: bool)
        requires
            old(self).wf(),
        ensures
            final(self).wf(),
            final(self).max_bytes == old(self).max_bytes,
            skipped || old(self).truncated || line is None ==> final(self).text@ == old(self).text@
                && final(self).truncated == old(self).truncated,
            (!skipped && !old(self).truncated && line is Some) ==> {
                let l = line.unwrap();
                if byte_len(old(self).text@) + byte_len(l@) > old(self).max_bytes {
                    final(self).truncated && final(self).text@ == old(self).text@
                } else {
                    !final(self).truncated && final(self).text@ == old(self).text@ + l@
                }
            },
    {
        if skipped || self.truncated {
            return;
        }
        match line {
            None => {},
            Some(l) => {
                let have = self.text.as_str().as_bytes().len();
                let add = l.as_bytes().len();
                assert(have == byte_len(self.text@));
                assert(add == byte_len(l@));
                if add > self.max_bytes - have {
                    self.truncated = true;
                } else {
                    let ghost before = self.text@;
                    self.text.push_str(l);
                    proof {
                        crate::text::lemma_encode_utf8_concat(before, l@);
                    }
                }
            },
        }
    }

    /// The text, or `None` when nothing was kept.
    pub fn finish(self) -> (r: Option<String>)
        ensures
            r is None <==> self.text@.len() == 0,
            r matches Some(t) ==> t@ == self.text@,
    {
        if self.text.as_str().unicode_len() == 0 {
            None
        } else {
            Some(self.text)
        }
    }
}

/// What a walk does with one commit it reaches.
#[derive(Debug, Clone, Copy, PartialEq, Eq, Structural)]
pub enum CommitAction {
    /// The commit is in the index already: count it and move on.
    AlreadyIndexed,
    /// The author does not match the repository's author filter: count it and move on.
    Filtered,
    /// Write the commit, its files and its patch.
    Index,
}

/// The action for a commit: `exists` is the index lookup (`None` when it
/// failed, in which case the commit is indexed anyway), `filter` the
/// repository's author filter, compared without regard to ASCII case.
pub open spec fn action_for(exists: Option<bool>, email: Seq<char>, filter: Option<Seq<char>>) -> CommitAction {
    if exists == Some(true) {
        CommitAction::AlreadyIndexed
    } else if filter is Some && !eq_ascii_nocase(email, filter.unwrap()) {
        CommitAction::Filtered
    } else {
        CommitAction::Index
    }
}

/// Decides what the walk does with a commit.
pub fn decide_commit(exists: Option<bool>, author_email: &str, author_filter: &Option<String>) -> (r:
    CommitAction)
    ensures
        r == action_for(exists, author_email@, opt_view(*author_filter)),
{
    match exists {
        Some(true) => {
            return CommitAction::AlreadyIndexed;
        },
        _ => {},
    }
    match author_filter {
        Some(f) => {
            if !same_ignoring_ascii_case(author_email, f.as_str()) {
                return CommitAction::Filtered;
            }
        },
        None => {},
    }
    CommitAction::Index
}

/// The counts of a summary: (indexed, already indexed, filtered).
pub open spec fn counts(s: SyncSummary) -> (nat, nat, nat) {
    (s.commits_indexed as nat, s.commits_already_indexed as nat, s.commits_filtered as nat)
}

/// Counts after deciding a commit: a skipped commit is counted under its
/// reason; a commit to index is not counted yet.
pub open spec fn decided_counts(c: (nat, nat, nat), a: CommitAction) -> (nat, nat, nat) {
    match a {
        CommitAction::AlreadyIndexed => (c.0, c.1 + 1, c.2),
        CommitAction::Filtered => (c.0, c.1, c.2 + 1),
        CommitAction::Index => c,
    }
}

/// Counts after the commit row write: indexed when it succeeded.
pub open spec fn written_counts(c: (nat, nat, nat), written: bool) -> (nat, nat, nat) {
    if written { (c.0 + 1, c.1, c.2) } else { c }
}

/// Counts after one commit of the walk: its index lookup `exists`, author
/// e-mail, and whether its row write succeeded (looked at only when it is
/// indexed). The changed-file and patch writes that follow a successful row
/// write do not change the counts; they only add warnings.
pub open spec fn step_counts(
    c: (nat, nat, nat),
    exists: Option<bool>,
    email: Seq<char>,
    filter: Option<Seq<char>>,
    written: bool,
) -> (nat, nat, nat) {
    let a = action_for(exists, email, filter);
    if a == CommitAction::Index {
        written_counts(c, written)
    } else {
        decided_counts(c, a)
    }
}

impl SyncSummary {
    /// A summary with no counts and no warnings.
    pub fn empty() -> (r: Self)
        ensures
            counts(r) == (0nat, 0nat, 0nat),
            r.errors@.len() == 0,
    {
        SyncSummary { commits_indexed: 0, commits_already_indexed: 0, commits_filtered: 0, errors: Vec::new() }
    }

    /// First half of a walk step: decides what to do with a commit and counts
    /// it when it is skipped. On `Index` the caller writes the commit row and
    /// then calls `end_commit`; it writes files and patch only after a
    /// successful row write.
    pub fn begin_commit(&mut self, exists: Option<bool>, author_email: &str, author_filter: &Option<String>) -> (r:
        CommitAction)
        requires
            old(self).commits_already_indexed < usize::MAX,
            old(self).commits_filtered < usize::MAX,
        ensures
            r == action_for(exists, author_email@, opt_view(*author_filter)),
            counts(*final(self)) == decided_counts(counts(*old(self)), r),
            final(self).errors@ == old(self).errors@,
    {
        let a = decide_commit(exists, author_email, author_filter);
        match a {
            CommitAction::AlreadyIndexed => self.commits_already_indexed = self.commits_already_indexed + 1,
            CommitAction::Filtered => self.commits_filtered = self.commits_filtered + 1,
            CommitAction::Index => {},
        }
        a
    }

    /// Second half of a walk step for a commit to index: counts it as indexed
    /// when its row write succeeded.
    pub fn end_commit(&mut self, written: bool)
        requires
            old(self).commits_indexed < usize::MAX,
        ensures
            counts(*final(self)) == written_counts(counts(*old(self)), written),
            final(self).errors@ == old(self).errors@,
    {
        if written {
            self.commits_indexed = self.commits_indexed + 1;
        }
    }

    /// Records a warning; the counts stay.
    pub fn warn(&mut self, message: String)
        ensures
            final(self).errors@ == old(self).errors@.push(message),
            final(self).commits_indexed == old(self).commits_indexed,
            final(self).commits_already_indexed == old(self).commits_already_indexed,
            final(self).commits_filtered == old(self).commits_filtered,
    {
        self.errors.push(message);
    }
}

/// Counts of a walk, from an empty summary, over commits given as (index
/// lookup, author e-mail, row write succeeded): the fold of `step_counts`,
/// which `begin_commit` and `end_commit` perform one commit at a time.
pub open spec fn tally(walk: Seq<(Option<bool>, Seq<char>, bool)>, filter: Option<Seq<char>>) -> (nat, nat, nat)
    decreases walk.len(),
{
    if walk.len() == 0 {
        (0, 0, 0)
    } else {
        step_counts(tally(walk.drop_last(), filter), walk.last().0, walk.last().1, filter, walk.last().2)
    }
}

/// Number of e-mails in `emails` that match `e` up to ASCII case.
pub open spec fn count_matching(emails: Seq<Seq<char>>, e: Seq<char>) -> nat
    decreases emails.len(),
{
    if emails.len() == 0 {
        0
    } else {
        count_matching(emails.drop_last(), e) + if eq_ascii_nocase(emails.last(), e) { 1nat } else { 0nat }
    }
}

/// A walk over commits none of which is indexed yet, every row write succeeding.
pub open spec fn fresh_walk(emails: Seq<Seq<char>>) -> Seq<(Option<bool>, Seq<char>, bool)> {
    emails.map_values(|e: Seq<char>| (Some(false), e, true))
}

/// With an author filter `e`, a walk over new commits indexes exactly those
/// whose author e-mail equals `e` up to ASCII case, and counts every other
/// one as filtered.
pub proof fn lemma_author_filter(emails: Seq<Seq<char>>, e: Seq<char>)
    ensures
        tally(fresh_walk(emails), Some(e)).0 == count_matching(emails, e),
        tally(fresh_walk(emails), Some(e)).2 == emails.len() - count_matching(emails, e),
        tally(fresh_walk(emails), Some(e)).1 == 0,
        forall|k: int|
            0 <= k < emails.len() && action_for(Some(false), #[trigger] emails[k], Some(e)) == CommitAction::Index
                ==> eq_ascii_nocase(emails[k], e),
    decreases emails.len(),
{
    if emails.len() > 0 {
        assert(fresh_walk(emails).drop_last() =~= fresh_walk(emails.drop_last()));
        lemma_author_filter(emails.drop_last(), e);
    }
}

/// A second walk over an unchanged history, where every commit is already in
/// the index, indexes nothing and counts every commit as already indexed.
pub proof fn lemma_incremental_skip(walk: Seq<(Option<bool>, Seq<char>, bool)>, filter: Option<Seq<char>>)
    requires
        forall|k: int| 0 <= k < walk.len() ==> (#[trigger] walk[k]).0 == Some(true),
    ensures
        tally(walk, filter) == (0nat, walk.len(), 0nat),
    decreases walk.len(),
{
    if walk.len() > 0 {
        assert(walk.last() == walk[walk.len() - 1]);
        lemma_incremental_skip(walk.drop_last(), filter);
    }
}

/// The paths under which files of a diff are recorded.
pub open spec fn recorded_paths(ds: Seq<DeltaInfo>, prefixes: Seq<Seq<char>>) -> Set<Seq<char>> {
    Set::new(|p: Seq<char>| exists|i: int| 0 <= i < kept_files(ds, prefixes).len() && #[trigger] kept_files(ds, prefixes)[i].0 == p)
}

/// The changed paths of a diff that lie under none of the prefixes.
pub open spec fn allowed_paths(ds: Seq<DeltaInfo>, prefixes: Seq<Seq<char>>) -> Set<Seq<char>> {
    Set::new(|p: Seq<char>| exists|j: int| 0 <= j < ds.len() && delta_path(#[trigger] ds[j]) == Some(p) && !ignored_by(p, prefixes))
}

/// The recorded paths of a commit are exactly its changed paths that lie
/// under none of the excluded prefixes (for diffs without binary files).
pub proof fn lemma_ignore_correctness(ds: Seq<DeltaInfo>, prefixes: Seq<Seq<char>>)
    requires
        forall|j: int| 0 <= j < ds.len() ==> !(#[trigger] ds[j]).binary && delta_path(ds[j]) is Some,
    ensures
        recorded_paths(ds, prefixes) == allowed_paths(ds, prefixes),
    decreases ds.len(),
{
    if ds.len() > 0 {
        let rest = ds.drop_last();
        assert forall|j: int| 0 <= j < rest.len() implies !(#[trigger] rest[j]).binary && delta_path(rest[j]) is Some by {
            assert(rest[j] == ds[j]);
        }
        lemma_ignore_correctness(rest, prefixes);
        let kf = kept_files(ds, prefixes);
        let kr = kept_files(rest, prefixes);
        let d = ds.last();
        assert(d == ds[ds.len() - 1]);
        assert forall|p: Seq<char>| recorded_paths(ds, prefixes).contains(p) implies allowed_paths(ds, prefixes).contains(p) by {
            let i = choose|i: int| 0 <= i < kf.len() && #[trigger] kf[i].0 == p;
            if i < kr.len() {
                assert(kf[i] == kr[i]);
                assert(recorded_paths(rest, prefixes).contains(p));
                let j = choose|j: int| 0 <= j < rest.len() && delta_path(#[trigger] rest[j]) == Some(p) && !ignored_by(p, prefixes);
                assert(ds[j] == rest[j]);
            } else {
                assert(file_kept(d, prefixes));
                assert(kf[i] == file_entry(d));
            }
        }
        assert forall|p: Seq<char>| allowed_paths(ds, prefixes).contains(p) implies recorded_paths(ds, prefixes).contains(p) by {
            let j = choose|j: int| 0 <= j < ds.len() && delta_path(#[trigger] ds[j]) == Some(p) && !ignored_by(p, prefixes);
            if j < rest.len() {
                assert(rest[j] == ds[j]);
                assert(allowed_paths(rest, prefixes).contains(p));
                let i = choose|i: int| 0 <= i < kr.len() && #[trigger] kr[i].0 == p;
                assert(kf[i] == kr[i]);
            } else {
                assert(j == ds.len() - 1);
                assert(delta_path(d) == Some(p));
                assert(file_kept(d, prefixes));
                assert(kf == kr.push(file_entry(d)));
                assert(kf[kr.len() as int] == file_entry(d));
                assert(kf[kr.len() as int].0 == p);
            }
        }
        assert(recorded_paths(ds, prefixes) =~= allowed_paths(ds, prefixes));
    } else {
        assert(recorded_paths(ds, prefixes) =~= allowed_paths(ds, prefixes));
    }
}

} // verus!
