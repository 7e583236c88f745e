//! The statements the index runs for its dynamic queries: SQL text with
//! numbered placeholders, and the values bound to them in the same order.
use vstd::prelude::*;
use vstd::string::*;
use crate::codec::{exclude_prefixes_json, prefixes_json};
use crate::dates::{decimal, push_decimal};
use crate::embed::{join_with, strings_view};
use crate::ingest::opt_view;
use crate::types::{RepoUpdate, SearchOpts, SemanticSearchOpts, TouchOpts};

verus! {

/// A value bound to a placeholder.
#[derive(Debug, Clone)]
pub enum SqlValue {
    Null,
    Int(i64),
    Text(String),
    Blob(Vec<u8>),
}

/// A bound value as plain data.
pub enum SqlArg {
    Null,
    Int(int),
    Text(Seq<char>),
    Blob(Seq<u8>),
}

/// The plain form of a bound value.
pub open spec fn arg_of(v: SqlValue) -> SqlArg {
    match v {
        SqlValue::Null => SqlArg::Null,
        SqlValue::Int(i) => SqlArg::Int(i as int),
        SqlValue::Text(s) => SqlArg::Text(s@),
        SqlValue::Blob(b) => SqlArg::Blob(b@),
    }
}

/// A statement and the values for its placeholders `?1`, `?2`, ... in order.
#[derive(Debug, Clone)]
pub struct SqlQuery {
    pub sql: String,
    pub params: Vec<SqlValue>,
}

impl SqlQuery {
    /// The bound values as plain data.
    pub open spec fn args(&self) -> Seq<SqlArg> {
        self.params@.map_values(|v: SqlValue| arg_of(v))
    }
}

/// Most repository names (or path substrings) a filter may bind: SQLite
/// refuses statements with more than 32766 placeholders.
pub const MAX_FILTER_REPOS: usize = 32000;

/// A repository filter that fits in one statement.
pub open spec fn repos_fit(repos: Option<Vec<String>>) -> bool {
    match repos {
        Some(v) => v@.len() <= MAX_FILTER_REPOS,
        None => true,
    }
}

/// Rows returned when a query names no limit.
pub const DEFAULT_LIMIT: usize = 50;

/// The placeholder for the `k`-th bound value.
pub open spec fn placeholder(k: nat) -> Seq<char> {
    seq!['?'] + decimal(k)
}

/// Placeholders `?from` .. `?(from + count - 1)`, separated by commas.
pub open spec fn placeholder_list(from: nat, count: nat) -> Seq<char>
    decreases count,
{
    if count == 0 {
        Seq::empty()
    } else if count == 1 {
        placeholder(from)
    } else {
        placeholder_list(from, (count - 1) as nat) + seq![','] + placeholder((from + count - 1) as nat)
    }
}

fn push_placeholder(s: &mut String, k: u64)
    ensures
        final(s)@ == old(s)@ + placeholder(k as nat),
{
    let ghost start = s@;
    s.push('?');
    push_decimal(s, k);
    assert(s@ =~= start + placeholder(k as nat));
}

fn push_placeholder_list(s: &mut String, from: u64, count: u64)
    requires
        from + count <= u64::MAX,
    ensures
        final(s)@ == old(s)@ + placeholder_list(from as nat, count as nat),
{
    let ghost start = s@;
    let mut i: u64 = 0;
    while i < count
        invariant
            i <= count,
            from + count <= u64::MAX,
            s@ == start + placeholder_list(from as nat, i as nat),
        decreases count - i,
    {
        let ghost before = s@;
        if i > 0 {
            s.push(',');
        }
        push_placeholder(s, from + i);
        i = i + 1;
        assert(s@ =~= start + placeholder_list(from as nat, i as nat));
    }
}

/// The row limit bound to a query: the given one, or the default, as a
/// signed integer (saturating).
pub open spec fn limit_arg(limit: Option<usize>, default: usize) -> int {
    let l = match limit {
        Some(l) => l,
        None => default,
    };
    if l > i64::MAX { i64::MAX as int } else { l as int }
}

fn limit_value(limit: Option<usize>, default: usize) -> (r: i64)
    ensures
        r == limit_arg(limit, default),
{
    let l = match limit {
        Some(l) => l,
        None => default,
    };
    if l as u64 > 0x7fff_ffff_ffff_ffffu64 {
        i64::MAX
    } else {
        l as i64
    }
}

/// The filters shared by searches and path lookups: `since` bound as `?start`,
/// then the repository names, each bound in turn.
pub open spec fn filter_sql(since: bool, repos: Option<nat>, start: nat) -> Seq<char> {
    let since_part = if since { " AND c.author_time >= "@ + placeholder(start) } else { Seq::empty() };
    let next = if since { start + 1 } else { start };
    let repo_part = match repos {
        Some(n) => " AND r.name IN ("@ + placeholder_list(next as nat, n) + ")"@,
        None => Seq::empty(),
    };
    since_part + repo_part
}

/// Values bound for the shared filters, in placeholder order.
pub open spec fn filter_args(since: Option<i64>, repos: Option<Seq<String>>) -> Seq<SqlArg> {
    let s = match since {
        Some(t) => seq![SqlArg::Int(t as int)],
        None => Seq::empty(),
    };
    let r = match repos {
        Some(v) => v.map_values(|n: String| SqlArg::Text(n@)),
        None => Seq::empty(),
    };
    s + r
}

/// Number of values bound for the shared filters.
pub open spec fn filter_count(since: Option<i64>, repos: Option<Seq<String>>) -> nat {
    (if since is Some { 1nat } else { 0nat }) + match repos {
        Some(v) => v.len(),
        None => 0nat,
    }
}

/// Number of repository names of a filter, if one is given.
pub open spec fn repo_count(repos: Option<Vec<String>>) -> Option<nat> {
    match repos {
        Some(v) => Some(v@.len()),
        None => None,
    }
}

/// The repository names of a filter, if one is given.
pub open spec fn repo_names(repos: Option<Vec<String>>) -> Option<Seq<String>> {
    match repos {
        Some(v) => Some(v@),
        None => None,
    }
}

fn push_filters(sql: &mut String, params: &mut Vec<SqlValue>, since: Option<i64>, repos: &Option<Vec<String>>)
    requires
        old(params)@.len() + 1 + match repos {
            Some(v) => v@.len(),
            None => 0,
        } < 1000000,
    ensures
        final(sql)@ == old(sql)@ + filter_sql(since is Some, repo_count(*repos), (old(params)@.len() + 1) as nat),
        final(params)@.map_values(|v: SqlValue| arg_of(v)) == old(params)@.map_values(|v: SqlValue| arg_of(v))
            + filter_args(since, repo_names(*repos)),
        final(params)@.len() == old(params)@.len() + filter_count(since, repo_names(*repos)),
{
    let ghost start_sql = sql@;
    let ghost start_params = params@;
    let start = params.len() as u64 + 1;
    match since {
        Some(t) => {
            sql.push_str(" AND c.author_time >= ");
            push_placeholder(sql, start);
            params.push(SqlValue::Int(t));
        },
        None => {},
    }
    let ghost mid_sql = sql@;
    let ghost mid_params = params@;
    assert(mid_params.map_values(|v: SqlValue| arg_of(v)) =~= start_params.map_values(|v: SqlValue| arg_of(v)) + match since {
        Some(t) => seq![SqlArg::Int(t as int)],
        None => Seq::<SqlArg>::empty(),
    });
    match repos {
        Some(names) => {
            sql.push_str(" AND r.name IN (");
            let next = params.len() as u64 + 1;
            push_placeholder_list(sql, next, names.len() as u64);
            sql.push_str(")");
            let mut i: usize = 0;
            while i < names.len()
                invariant
                    i <= names@.len(),
                    mid_params.len() + names@.len() < 1000000,
                    params@.len() == mid_params.len() + i,
                    params@.map_values(|v: SqlValue| arg_of(v)) == mid_params.map_values(|v: SqlValue| arg_of(v))
                        + names@.subrange(0, i as int).map_values(|n: String| SqlArg::Text(n@)),
                decreases names@.len() - i,
            {
                let ghost before = params@;
                params.push(SqlValue::Text(names[i].clone()));
                i = i + 1;
                assert(names@.subrange(0, i as int).map_values(|n: String| SqlArg::Text(n@)) =~= names@.subrange(
                    0,
                    i - 1,
                ).map_values(|n: String| SqlArg::Text(n@)).push(SqlArg::Text(names@[i - 1]@)));
                assert(params@.map_values(|v: SqlValue| arg_of(v)) =~= before.map_values(|v: SqlValue| arg_of(v)).push(
                    SqlArg::Text(names@[i - 1]@),
                ));
            }
            assert(names@.subrange(0, names@.len() as int) =~= names@);
        },
        None => {},
    }
    assert(sql@ =~= start_sql + filter_sql(since is Some, repo_count(*repos), (start_params.len() + 1) as nat));
    assert(params@.map_values(|v: SqlValue| arg_of(v)) =~= start_params.map_values(|v: SqlValue| arg_of(v)) + filter_args(
        since,
        repo_names(*repos),
    ));
}

/// Columns and joins of a full-text search; the match text is `?1`.
pub open spec fn search_head() -> Seq<char> {
    "SELECT c.repo_id, c.sha, c.subject, c.author_name, c.author_time, c.patch_preview, r.name FROM commits_fts JOIN commits c ON c.rowid = commits_fts.rowid JOIN repos r ON r.repo_id = c.repo_id WHERE commits_fts MATCH ?1"@
}

/// Columns and joins of a path lookup; the LIKE pattern is `?1`.
pub open spec fn touches_head() -> Seq<char> {
    "SELECT cf.path, cf.status, c.sha, c.subject, c.author_time, r.name FROM commit_files cf JOIN commits c ON cf.repo_id = c.repo_id AND cf.sha = c.sha JOIN repos r ON r.repo_id = c.repo_id WHERE cf.path LIKE ?1"@
}

/// Newest first, then the limit placeholder.
pub open spec fn order_tail(limit_index: nat) -> Seq<char> {
    " ORDER BY c.author_time DESC LIMIT "@ + placeholder(limit_index)
}

/// `f.path LIKE ?k` for placeholders `from` .. `from + count - 1`, joined by `OR`.
pub open spec fn like_list(from: nat, count: nat) -> Seq<char>
    decreases count,
{
    if count == 0 {
        Seq::empty()
    } else if count == 1 {
        "f.path LIKE "@ + placeholder(from)
    } else {
        like_list(from, (count - 1) as nat) + " OR f.path LIKE "@ + placeholder((from + count - 1) as nat)
    }
}

/// The path filter of a search, its patterns bound from `?start` on: a commit
/// stays when one of its changed paths contains one of the substrings; an
/// empty list keeps nothing.
pub open spec fn paths_sql(paths: Option<nat>, start: nat) -> Seq<char> {
    match paths {
        None => Seq::empty(),
        Some(n) => if n == 0 {
            " AND 0"@
        } else {
            " AND EXISTS (SELECT 1 FROM commit_files f WHERE f.repo_id = c.repo_id AND f.sha = c.sha AND ("@
                + like_list(start, n) + "))"@
        },
    }
}

/// The LIKE pattern matching paths that contain `s`.
pub open spec fn like_pattern(s: Seq<char>) -> Seq<char> {
    seq!['%'] + s + seq!['%']
}

/// Values bound for the path filter, in placeholder order.
pub open spec fn paths_args(paths: Option<Seq<String>>) -> Seq<SqlArg> {
    match paths {
        Some(v) => v.map_values(|p: String| SqlArg::Text(like_pattern(p@))),
        None => Seq::empty(),
    }
}

/// A filtered query: head, filters from `?2` on, then the path filter,
/// ordering, and the limit in the last placeholder; bound values in the same order.
pub open spec fn filtered_query(
    head: Seq<char>,
    first: SqlArg,
    since: Option<i64>,
    repos: Option<Vec<String>>,
    paths: Option<Vec<String>>,
    limit: int,
    q: SqlQuery,
) -> bool {
    let n = filter_count(since, repo_names(repos));
    let np = match repo_count(paths) {
        Some(c) => c,
        None => 0,
    };
    &&& q.sql@ == head + filter_sql(since is Some, repo_count(repos), 2) + paths_sql(repo_count(paths), n + 2)
        + order_tail(n + np + 2)
    &&& q.args() == seq![first] + filter_args(since, repo_names(repos)) + paths_args(repo_names(paths)) + seq![
        SqlArg::Int(limit),
    ]
}

fn push_paths(sql: &mut String, params: &mut Vec<SqlValue>, paths: &Option<Vec<String>>)
    requires
        old(params)@.len() < 100000,
        repos_fit(*paths),
    ensures
        final(sql)@ == old(sql)@ + paths_sql(repo_count(*paths), (old(params)@.len() + 1) as nat),
        final(params)@.map_values(|v: SqlValue| arg_of(v)) == old(params)@.map_values(|v: SqlValue| arg_of(v))
            + paths_args(repo_names(*paths)),
        final(params)@.len() == old(params)@.len() + match repo_count(*paths) {
            Some(c) => c,
            None => 0,
        },
{
    let ghost start_sql = sql@;
    let ghost start_params = params@;
    let start = params.len() as u64 + 1;
    match paths {
        None => {
            assert(params@.map_values(|v: SqlValue| arg_of(v)) =~= start_params.map_values(|v: SqlValue| arg_of(v)) + paths_args(
                repo_names(*paths),
            ));
            assert(sql@ =~= start_sql + paths_sql(repo_count(*paths), (start_params.len() + 1) as nat));
        },
        Some(v) => {
            if v.len() == 0 {
                sql.push_str(" AND 0");
                assert(params@.map_values(|x: SqlValue| arg_of(x)) =~= start_params.map_values(|x: SqlValue| arg_of(x))
                    + paths_args(repo_names(*paths)));
                return;
            }
            sql.push_str(" AND EXISTS (SELECT 1 FROM commit_files f WHERE f.repo_id = c.repo_id AND f.sha = c.sha AND (");
            let ghost s1 = sql@;
            let mut i: usize = 0;
            while i < v.len()
                invariant
                    i <= v@.len(),
                    v@.len() <= MAX_FILTER_REPOS,
                    start == start_params.len() + 1,
                    start_params.len() < 100000,
                    params@.len() == start_params.len() + i,
                    sql@ == s1 + like_list(start as nat, i as nat),
                    params@.map_values(|x: SqlValue| arg_of(x)) == start_params.map_values(|x: SqlValue| arg_of(x))
                        + v@.subrange(0, i as int).map_values(|p: String| SqlArg::Text(like_pattern(p@))),
                decreases v@.len() - i,
            {
                if i > 0 {
                    sql.push_str(" OR f.path LIKE ");
                } else {
                    sql.push_str("f.path LIKE ");
                }
                push_placeholder(sql, start + i as u64);
                let mut pattern = String::new();
                pattern.push('%');
                pattern.push_str(v[i].as_str());
                pattern.push('%');
                assert(pattern@ =~= like_pattern(v@[i as int]@));
                let ghost before = params@;
                params.push(SqlValue::Text(pattern));
                i = i + 1;
                assert(sql@ =~= s1 + like_list(start as nat, i as nat));
                assert(v@.subrange(0, i as int).map_values(|p: String| SqlArg::Text(like_pattern(p@))) =~= v@.subrange(
                    0,
                    i - 1,
                ).map_values(|p: String| SqlArg::Text(like_pattern(p@))).push(SqlArg::Text(like_pattern(v@[i - 1]@))));
                assert(params@.map_values(|x: SqlValue| arg_of(x)) =~= before.map_values(|x: SqlValue| arg_of(x)).push(
                    SqlArg::Text(like_pattern(v@[i - 1]@)),
                ));
            }
            sql.push_str("))");
            assert(v@.subrange(0, v@.len() as int) =~= v@);
            assert(sql@ =~= start_sql + paths_sql(repo_count(*paths), (start_params.len() + 1) as nat));
        },
    }
}

fn filtered(
    head: &str,
    first: SqlValue,
    since: Option<i64>,
    repos: &Option<Vec<String>>,
    paths: &Option<Vec<String>>,
    limit: i64,
) -> (r: SqlQuery)
    requires
        repos_fit(*repos),
        repos_fit(*paths),
    ensures
        filtered_query(head@, arg_of(first), since, *repos, *paths, limit as int, r),
{
    let ghost first_arg = arg_of(first);
    let mut sql = String::from_str(head);
    let mut params: Vec<SqlValue> = Vec::new();
    params.push(first);
    assert(params@.map_values(|v: SqlValue| arg_of(v)) =~= seq![first_arg]);
    push_filters(&mut sql, &mut params, since, repos);
    let ghost s1 = sql@;
    let ghost a1 = params@.map_values(|v: SqlValue| arg_of(v));
    push_paths(&mut sql, &mut params, paths);
    sql.push_str(" ORDER BY c.author_time DESC LIMIT ");
    let k = params.len() as u64 + 1;
    push_placeholder(&mut sql, k);
    let ghost before = params@;
    params.push(SqlValue::Int(limit));
    assert(params@.map_values(|v: SqlValue| arg_of(v)) =~= before.map_values(|v: SqlValue| arg_of(v)).push(
        SqlArg::Int(limit as int),
    ));
    let r = SqlQuery { sql, params };
    let ghost n = filter_count(since, repo_names(*repos));
    let ghost np = match repo_count(*paths) {
        Some(c) => c,
        None => 0,
    };
    assert(r.sql@ =~= head@ + filter_sql(since is Some, repo_count(*repos), 2) + paths_sql(repo_count(*paths), n + 2)
        + order_tail(n + np + 2));
    assert(r.args() =~= seq![first_arg] + filter_args(since, repo_names(*repos)) + paths_args(repo_names(*paths))
        + seq![SqlArg::Int(limit as int)]);
    r
}

/// The full-text search statement: match text first, then `since` and the
/// repository names when given, then the path substrings, then the limit
/// (50 by default).
pub fn search_query(query: &str, opts: &SearchOpts) -> (r: SqlQuery)
    requires
        repos_fit(opts.repos),
        repos_fit(opts.paths),
    ensures
        filtered_query(
            search_head(),
            SqlArg::Text(query@),
            opts.since,
            opts.repos,
            opts.paths,
            limit_arg(opts.limit, DEFAULT_LIMIT),
            r,
        ),
{
    let limit = limit_value(opts.limit, DEFAULT_LIMIT);
    filtered(
        "SELECT c.repo_id, c.sha, c.subject, c.author_name, c.author_time, c.patch_preview, r.name FROM commits_fts JOIN commits c ON c.rowid = commits_fts.rowid JOIN repos r ON r.repo_id = c.repo_id WHERE commits_fts MATCH ?1",
        SqlValue::Text(String::from_str(query)),
        opts.since,
        &opts.repos,
        &opts.paths,
        limit,
    )
}

/// The path lookup statement: a substring pattern on the path first, then
/// `since` and the repository names when given, then the limit (50 by default).
pub fn touches_query(path_substring: &str, opts: &TouchOpts) -> (r: SqlQuery)
    requires
        repos_fit(opts.repos),
    ensures
        filtered_query(
            touches_head(),
            SqlArg::Text(like_pattern(path_substring@)),
            opts.since,
            opts.repos,
            None,
            limit_arg(opts.limit, DEFAULT_LIMIT),
            r,
        ),
{
    let limit = limit_value(opts.limit, DEFAULT_LIMIT);
    let mut pattern = String::new();
    pattern.push('%');
    pattern.push_str(path_substring);
    pattern.push('%');
    assert(pattern@ =~= like_pattern(path_substring@));
    filtered(
        "SELECT cf.path, cf.status, c.sha, c.subject, c.author_time, r.name FROM commit_files cf JOIN commits c ON cf.repo_id = c.repo_id AND cf.sha = c.sha JOIN repos r ON r.repo_id = c.repo_id WHERE cf.path LIKE ?1",
        SqlValue::Text(pattern),
        opts.since,
        &opts.repos,
        &None,
        limit,
    )
}

/// `col = ?k` for each column in turn, separated by commas.
pub open spec fn assignments(cols: Seq<Seq<char>>) -> Seq<char>
    decreases cols.len(),
{
    if cols.len() == 0 {
        Seq::empty()
    } else if cols.len() == 1 {
        cols[0] + " = "@ + placeholder(1)
    } else {
        assignments(cols.drop_last()) + ", "@ + cols.last() + " = "@ + placeholder(cols.len())
    }
}

/// A text value, or SQL null.
pub open spec fn text_or_null(v: Option<String>) -> SqlArg {
    match v {
        Some(s) => SqlArg::Text(s@),
        None => SqlArg::Null,
    }
}

/// The change of the fork-of column, if any.
pub open spec fn fork_set(u: RepoUpdate) -> Seq<(Seq<char>, SqlArg)> {
    match u.fork_of {
        Some(v) => seq![("fork_of"@, text_or_null(v))],
        None => Seq::empty(),
    }
}

/// The change of the author filter, if any.
pub open spec fn author_set(u: RepoUpdate) -> Seq<(Seq<char>, SqlArg)> {
    match u.author_filter {
        Some(v) => seq![("author_filter"@, text_or_null(v))],
        None => Seq::empty(),
    }
}

/// The change of the exclusion list, stored as JSON, if any.
pub open spec fn prefixes_set(u: RepoUpdate) -> Seq<(Seq<char>, SqlArg)> {
    match u.exclude_prefixes {
        Some(v) => seq![("exclude_prefixes"@, SqlArg::Text(prefixes_json(strings_view(v@))))],
        None => Seq::empty(),
    }
}

/// The change of the default branch, if any.
pub open spec fn branch_set(u: RepoUpdate) -> Seq<(Seq<char>, SqlArg)> {
    match u.default_branch {
        Some(v) => seq![("default_branch"@, text_or_null(v))],
        None => Seq::empty(),
    }
}

/// The change of the embedding flag, stored as 0 or 1, if any.
pub open spec fn embed_set(u: RepoUpdate) -> Seq<(Seq<char>, SqlArg)> {
    match u.embed_enabled {
        Some(f) => seq![("embed_enabled"@, SqlArg::Int(if f { 1int } else { 0int }))],
        None => Seq::empty(),
    }
}

/// The column changes of an update, in the order fork, author filter,
/// exclusions, default branch, embedding flag.
pub open spec fn update_sets(u: RepoUpdate) -> Seq<(Seq<char>, SqlArg)> {
    fork_set(u) + author_set(u) + prefixes_set(u) + branch_set(u) + embed_set(u)
}

fn text_value(v: &Option<String>) -> (r: SqlValue)
    ensures
        arg_of(r) == text_or_null(*v),
{
    match v {
        Some(s) => SqlValue::Text(s.clone()),
        None => SqlValue::Null,
    }
}

/// The statement so far holds the assignments of `sets` and binds their values.
spec fn update_so_far(sql: Seq<char>, params: Seq<SqlValue>, sets: Seq<(Seq<char>, SqlArg)>) -> bool {
    &&& sql == "UPDATE repos SET "@ + assignments(sets.map_values(|p: (Seq<char>, SqlArg)| p.0))
    &&& params.map_values(|v: SqlValue| arg_of(v)) == sets.map_values(|p: (Seq<char>, SqlArg)| p.1)
    &&& params.len() == sets.len()
}

fn add_set(sql: &mut String, params: &mut Vec<SqlValue>, sets: Ghost<Seq<(Seq<char>, SqlArg)>>, col: &str, v: SqlValue)
    requires
        update_so_far(old(sql)@, old(params)@, sets@),
        sets@.len() < 8,
    ensures
        update_so_far(final(sql)@, final(params)@, sets@.push((col@, arg_of(v)))),
{
    let ghost s2 = sets@.push((col@, arg_of(v)));
    let ghost cols = sets@.map_values(|p: (Seq<char>, SqlArg)| p.0);
    let ghost cols2 = s2.map_values(|p: (Seq<char>, SqlArg)| p.0);
    let ghost before = params@;
    assert(cols2 =~= cols.push(col@));
    assert(cols2.drop_last() =~= cols);
    if params.len() > 0 {
        sql.push_str(", ");
    }
    sql.push_str(col);
    sql.push_str(" = ");
    push_placeholder(sql, params.len() as u64 + 1);
    params.push(v);
    assert(sql@ =~= "UPDATE repos SET "@ + assignments(cols2));
    assert(params@.map_values(|x: SqlValue| arg_of(x)) =~= before.map_values(|x: SqlValue| arg_of(x)).push(arg_of(v)));
    assert(s2.map_values(|p: (Seq<char>, SqlArg)| p.1) =~= sets@.map_values(|p: (Seq<char>, SqlArg)| p.1).push(arg_of(v)));
}

/// The statement that applies an update to repository `repo_id`, or `None`
/// when the update changes nothing. Each changed column is bound in turn;
/// the repository id is bound last.
pub fn update_repo_query(repo_id: i64, update: &RepoUpdate) -> (r: Option<SqlQuery>)
    ensures
        update_sets(*update).len() == 0 <==> r is None,
        r matches Some(q) ==> {
            let sets = update_sets(*update);
            &&& q.sql@ == "UPDATE repos SET "@ + assignments(sets.map_values(|p: (Seq<char>, SqlArg)| p.0))
                + " WHERE repo_id = "@ + placeholder(sets.len() + 1)
            &&& q.args() == sets.map_values(|p: (Seq<char>, SqlArg)| p.1).push(SqlArg::Int(repo_id as int))
        },
{
    let mut sql = String::from_str("UPDATE repos SET ");
    let mut params: Vec<SqlValue> = Vec::new();
    let ghost mut sets: Seq<(Seq<char>, SqlArg)> = Seq::empty();
    assert(sql@ =~= "UPDATE repos SET "@ + assignments(Seq::<Seq<char>>::empty()));
    assert(sets.map_values(|p: (Seq<char>, SqlArg)| p.0) =~= Seq::<Seq<char>>::empty());
    assert(params@.map_values(|v: SqlValue| arg_of(v)) =~= sets.map_values(|p: (Seq<char>, SqlArg)| p.1));
    let ghost a = fork_set(*update);
    if let Some(v) = &update.fork_of {
        let val = text_value(v);
        add_set(&mut sql, &mut params, Ghost(sets), "fork_of", val);
        proof { sets = sets.push(("fork_of"@, text_or_null(*v))); }
    }
    assert(sets =~= a);
    let ghost b = author_set(*update);
    if let Some(v) = &update.author_filter {
        let val = text_value(v);
        add_set(&mut sql, &mut params, Ghost(sets), "author_filter", val);
        proof { sets = sets.push(("author_filter"@, text_or_null(*v))); }
    }
    assert(sets =~= a + b);
    let ghost c = prefixes_set(*update);
    if let Some(v) = &update.exclude_prefixes {
        let json = exclude_prefixes_json(v);
        let ghost j = json@;
        add_set(&mut sql, &mut params, Ghost(sets), "exclude_prefixes", SqlValue::Text(json));
        proof { sets = sets.push(("exclude_prefixes"@, SqlArg::Text(j))); }
    }
    assert(sets =~= a + b + c);
    let ghost d = branch_set(*update);
    if let Some(v) = &update.default_branch {
        let val = text_value(v);
        add_set(&mut sql, &mut params, Ghost(sets), "default_branch", val);
        proof { sets = sets.push(("default_branch"@, text_or_null(*v))); }
    }
    assert(sets =~= a + b + c + d);
    let ghost e = embed_set(*update);
    if let Some(f) = update.embed_enabled {
        let flag: i64 = if f { 1 } else { 0 };
        add_set(&mut sql, &mut params, Ghost(sets), "embed_enabled", SqlValue::Int(flag));
        proof { sets = sets.push(("embed_enabled"@, SqlArg::Int(flag as int))); }
    }
    assert(sets =~= update_sets(*update));
    if params.len() == 0 {
        return None;
    }
    let ghost before = params@;
    sql.push_str(" WHERE repo_id = ");
    push_placeholder(&mut sql, params.len() as u64 + 1);
    params.push(SqlValue::Int(repo_id));
    assert(params@.map_values(|x: SqlValue| arg_of(x)) =~= before.map_values(|x: SqlValue| arg_of(x)).push(
        SqlArg::Int(repo_id as int),
    ));
    Some(SqlQuery { sql, params })
}

/// Neighbours returned when a semantic search names no limit.
pub const DEFAULT_NEIGHBOURS: usize = 10;

/// The nearest-neighbour statement; the query vector is bound first, as `?1`.
pub open spec fn semantic_sql() -> Seq<char> {
    "SELECT ce.repo_name, ce.sha, ce.subject, ce.author_name, ce.author_time, ce.patch_preview, distance FROM commit_embeddings ce WHERE ce.embedding MATCH ?1 AND k = ?2 AND ('' = ?3 OR ce.repo_name IN (SELECT value FROM json_each(?3))) AND (?4 = 0 OR ce.author_time >= ?4) ORDER BY distance"@
}

/// The values for `?2`.. `?4` of a semantic search: the neighbour count
/// (10 by default), the repository names as a JSON array or the empty text
/// for all repositories, and the lower time bound or 0 for none.
pub open spec fn semantic_args(opts: SemanticSearchOpts) -> Seq<SqlArg> {
    seq![
        SqlArg::Int(limit_arg(opts.limit, DEFAULT_NEIGHBOURS)),
        SqlArg::Text(match opts.repos {
            Some(v) => prefixes_json(strings_view(v@)),
            None => Seq::empty(),
        }),
        SqlArg::Int(match opts.since {
            Some(t) => t as int,
            None => 0,
        }),
    ]
}

/// The nearest-neighbour statement and its values after the query vector,
/// which the caller binds as `?1`.
pub fn semantic_query(opts: &SemanticSearchOpts) -> (r: SqlQuery)
    ensures
        r.sql@ == semantic_sql(),
        r.args() == semantic_args(*opts),
{
    let mut params: Vec<SqlValue> = Vec::new();
    params.push(SqlValue::Int(limit_value(opts.limit, DEFAULT_NEIGHBOURS)));
    let repos = match &opts.repos {
        Some(v) => exclude_prefixes_json(v),
        None => String::new(),
    };
    params.push(SqlValue::Text(repos));
    let since: i64 = match opts.since {
        Some(t) => t,
        None => 0,
    };
    params.push(SqlValue::Int(since));
    let r = SqlQuery {
        sql: String::from_str(
            "SELECT ce.repo_name, ce.sha, ce.subject, ce.author_name, ce.author_time, ce.patch_preview, distance FROM commit_embeddings ce WHERE ce.embedding MATCH ?1 AND k = ?2 AND ('' = ?3 OR ce.repo_name IN (SELECT value FROM json_each(?3))) AND (?4 = 0 OR ce.author_time >= ?4) ORDER BY distance",
        ),
        params,
    };
    assert(r.args() =~= semantic_args(*opts));
    r
}

} // verus!
