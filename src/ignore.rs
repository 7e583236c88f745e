//! Path exclusion: which changed files and patch hunks the index leaves out.
use vstd::prelude::*;
use vstd::string::*;
use crate::text::{clone_strings, has_prefix, starts_with_chars};

verus! {

/// Path prefixes to leave out of the index, and the largest patch text kept.
#[derive(Debug, Clone)]
pub struct IgnoreConfig {
    pub path_prefixes: Vec<String>,
    pub max_patch_bytes: usize,
}

/// The largest patch text kept by default: one mebibyte.
pub const DEFAULT_MAX_PATCH_BYTES: usize = 1048576;

/// The prefixes as character sequences.
pub open spec fn prefixes_view(v: Seq<String>) -> Seq<Seq<char>> {
    v.map_values(|s: String| s@)
}

/// `path` begins with one of `prefixes`.
pub open spec fn ignored_by(path: Seq<char>, prefixes: Seq<Seq<char>>) -> bool {
    exists|i: int| 0 <= i < prefixes.len() && starts_with_chars(path, #[trigger] prefixes[i])
}

impl IgnoreConfig {
    /// The view of the prefix list.
    pub open spec fn prefixes(&self) -> Seq<Seq<char>> {
        prefixes_view(self.path_prefixes@)
    }
}

impl Default for IgnoreConfig {
    /// Leaves out `node_modules/`, `vendor/`, `dist/` and `.git/`, and keeps
    /// patch text up to one mebibyte.
    fn default() -> (r: Self)
        ensures
            r.prefixes() == seq![
                "node_modules/"@,
                "vendor/"@,
                "dist/"@,
                ".git/"@,
            ],
            r.max_patch_bytes == DEFAULT_MAX_PATCH_BYTES,
    {
        let mut v: Vec<String> = Vec::new();
        v.push(String::from_str("node_modules/"));
        v.push(String::from_str("vendor/"));
        v.push(String::from_str("dist/"));
        v.push(String::from_str(".git/"));
        let r = IgnoreConfig { path_prefixes: v, max_patch_bytes: DEFAULT_MAX_PATCH_BYTES };
        assert(r.prefixes() =~= seq!["node_modules/"@, "vendor/"@, "dist/"@, ".git/"@]);
        r
    }
}

/// Whether `path` falls under one of the configured prefixes.
pub fn is_ignored(path: &str, config: &IgnoreConfig) -> (r: bool)
    ensures
        r == ignored_by(path@, config.prefixes()),
{
    let n = config.path_prefixes.len();
    let mut i: usize = 0;
    while i < n
        invariant
            n == config.path_prefixes@.len(),
            i <= n,
            forall|k: int| 0 <= k < i ==> !starts_with_chars(path@, #[trigger] config.prefixes()[k]),
        decreases n - i,
    {
        if has_prefix(path, config.path_prefixes[i].as_str()) {
            assert(starts_with_chars(path@, config.prefixes()[i as int]));
            return true;
        }
        i = i + 1;
    }
    false
}

/// The prefix list after adding each of `extra` that is not yet present, in order.
pub open spec fn merged_prefixes(base: Seq<Seq<char>>, extra: Seq<Seq<char>>) -> Seq<Seq<char>>
    decreases extra.len(),
{
    if extra.len() == 0 {
        base
    } else {
        let m = merged_prefixes(base, extra.drop_last());
        if m.contains(extra.last()) {
            m
        } else {
            m.push(extra.last())
        }
    }
}

fn contains_string(v: &Vec<String>, s: &String) -> (r: bool)
    ensures
        r == prefixes_view(v@).contains(s@),
{
    let mut i: usize = 0;
    while i < v.len()
        invariant
            i <= v@.len(),
            forall|k: int| 0 <= k < i ==> v@[k]@ != s@,
        decreases v@.len() - i,
    {
        if v[i] == *s {
            assert(prefixes_view(v@)[i as int] == s@);
            return true;
        }
        i = i + 1;
    }
    proof {
        if prefixes_view(v@).contains(s@) {
            let k = choose|k: int| 0 <= k < prefixes_view(v@).len() && prefixes_view(v@)[k] == s@;
            assert(v@[k]@ == s@);
        }
    }
    false
}

/// The configuration a repository is synchronised with: the global prefixes,
/// then the repository's own exclusions that are not among them, in order.
pub fn effective_config(config: &IgnoreConfig, repo_prefixes: &Vec<String>) -> (r: IgnoreConfig)
    ensures
        r.prefixes() == merged_prefixes(config.prefixes(), prefixes_view(repo_prefixes@)),
        r.max_patch_bytes == config.max_patch_bytes,
{
    let mut merged = clone_strings(&config.path_prefixes);
    assert(prefixes_view(merged@) =~= config.prefixes());
    let mut i: usize = 0;
    while i < repo_prefixes.len()
        invariant
            i <= repo_prefixes@.len(),
            prefixes_view(merged@) == merged_prefixes(
                config.prefixes(),
                prefixes_view(repo_prefixes@).subrange(0, i as int),
            ),
        decreases repo_prefixes@.len() - i,
    {
        let ghost extra = prefixes_view(repo_prefixes@);
        assert(extra.subrange(0, i + 1).drop_last() =~= extra.subrange(0, i as int));
        if !contains_string(&merged, &repo_prefixes[i]) {
            let ghost before = merged@;
            merged.push(repo_prefixes[i].clone());
            assert(prefixes_view(merged@) =~= prefixes_view(before).push(repo_prefixes@[i as int]@));
        }
        i = i + 1;
    }
    assert(prefixes_view(repo_prefixes@).subrange(0, repo_prefixes@.len() as int) =~= prefixes_view(
        repo_prefixes@,
    ));
    IgnoreConfig { path_prefixes: merged, max_patch_bytes: config.max_patch_bytes }
}

} // verus!
