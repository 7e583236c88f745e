//! Checks and messages of the command-line front end.
use vstd::prelude::*;
use vstd::string::*;
use crate::text::{has_prefix, starts_with_chars};
use crate::message::{chars_of, string_of};
use crate::types::CommitmuxError;

verus! {

/// A URL a repository can be cloned from: it starts with one of the schemes
/// git accepts.
pub open spec fn git_url_ok(url: Seq<char>) -> bool {
    starts_with_chars(url, "https://"@) || starts_with_chars(url, "http://"@) || starts_with_chars(url, "git@"@)
        || starts_with_chars(url, "git://"@) || starts_with_chars(url, "ssh://"@)
}

/// The complaint about a URL that is not a git URL.
pub open spec fn bad_url_text(url: Seq<char>) -> Seq<char> {
    "'"@ + url + "' is not a valid git URL (expected https://, http://, git@, git://, or ssh://)"@
}

/// Accepts a git URL; anything else is a configuration error naming it.
pub fn validate_git_url(url: &str) -> (r: Result<(), CommitmuxError>)
    ensures
        git_url_ok(url@) <==> r is Ok,
        r matches Err(e) ==> e matches CommitmuxError::Config(m) && m@ == bad_url_text(url@),
{
    if has_prefix(url, "https://") || has_prefix(url, "http://") || has_prefix(url, "git@") || has_prefix(
        url,
        "git://",
    ) || has_prefix(url, "ssh://") {
        return Ok(());
    }
    let mut m = String::from_str("'");
    m.push_str(url);
    m.push_str("' is not a valid git URL (expected https://, http://, git@, git://, or ssh://)");
    Err(CommitmuxError::Config(m))
}

/// The hint given when the database file does not exist yet.
pub open spec fn db_missing_text(path: Seq<char>) -> Seq<char> {
    "Database not found at "@ + path + ". Run 'commitmux init' first."@
}

/// Tells the user how to create a database that is missing.
pub fn db_not_found_message(path: &str) -> (r: String)
    ensures
        r@ == db_missing_text(path@),
{
    let mut m = String::from_str("Database not found at ");
    m.push_str(path);
    m.push_str(". Run 'commitmux init' first.");
    m
}

/// `s` without any run of `c` at its end.
pub open spec fn trim_trailing(s: Seq<char>, c: char) -> Seq<char>
    decreases s.len(),
{
    if s.len() > 0 && s.last() == c {
        trim_trailing(s.drop_last(), c)
    } else {
        s
    }
}

/// The part of `s` after its last `/` (all of `s` when it has none).
pub open spec fn last_segment(s: Seq<char>) -> Seq<char>
    decreases s.len(),
{
    if s.len() == 0 || s.last() == '/' {
        Seq::empty()
    } else {
        last_segment(s.drop_last()).push(s.last())
    }
}

/// `s` without any repetition of `.git` at its end.
pub open spec fn strip_git(s: Seq<char>) -> Seq<char>
    decreases s.len(),
{
    if s.len() >= 4 && s.subrange(s.len() - 4, s.len() as int) == ".git"@ {
        strip_git(s.subrange(0, s.len() - 4))
    } else {
        s
    }
}

/// The repository name derived from a clone URL: its last path segment,
/// trailing slashes and `.git` suffixes removed.
pub open spec fn url_repo_name(url: Seq<char>) -> Seq<char> {
    strip_git(last_segment(trim_trailing(url, '/')))
}

proof fn lemma_last_segment_from(s: Seq<char>, a: int)
    requires
        0 <= a <= s.len(),
        a == 0 || s[a - 1] == '/',
        forall|k: int| a <= k < s.len() ==> s[k] != '/',
    ensures
        last_segment(s) == s.subrange(a, s.len() as int),
    decreases s.len(),
{
    if s.len() == a {
        if s.len() > 0 {
            assert(s.last() == '/');
        }
        assert(s.subrange(a, s.len() as int) =~= Seq::<char>::empty());
    } else {
        let d = s.drop_last();
        assert forall|k: int| a <= k < d.len() implies d[k] != '/' by {
            assert(d[k] == s[k]);
        }
        if a > 0 {
            assert(d[a - 1] == s[a - 1]);
        }
        lemma_last_segment_from(d, a);
        assert(s.subrange(a, s.len() as int) =~= d.subrange(a, d.len() as int).push(s.last()));
    }
}

/// Derives a repository name from a clone URL.
pub fn repo_name_from_url(url: &str) -> (r: String)
    ensures
        r@ == url_repo_name(url@),
{
    let cs = chars_of(url);
    let ghost s = cs@;
    let mut end: usize = cs.len();
    assert(s.subrange(0, end as int) =~= s);
    while end > 0 && cs[end - 1] == '/'
        invariant
            end <= cs@.len(),
            s == cs@,
            trim_trailing(s, '/') == trim_trailing(s.subrange(0, end as int), '/'),
        decreases end,
    {
        assert(s.subrange(0, end as int).drop_last() =~= s.subrange(0, end - 1));
        end = end - 1;
    }
    let ghost t = s.subrange(0, end as int);
    assert(trim_trailing(t, '/') == t);
    let mut start: usize = end;
    while start > 0 && cs[start - 1] != '/'
        invariant
            start <= end,
            end <= cs@.len(),
            s == cs@,
            t == s.subrange(0, end as int),
            forall|k: int| start <= k < end ==> s[k] != '/',
        decreases start,
    {
        start = start - 1;
    }
    proof {
        assert forall|k: int| start <= k < t.len() implies t[k] != '/' by {
            assert(t[k] == s[k]);
        }
        if start > 0 {
            assert(t[start - 1] == s[start - 1]);
        }
        lemma_last_segment_from(t, start as int);
        assert(t.subrange(start as int, end as int) =~= s.subrange(start as int, end as int));
    }
    let mut stop: usize = end;
    while stop - start >= 4 && cs[stop - 4] == '.' && cs[stop - 3] == 'g' && cs[stop - 2] == 'i' && cs[stop - 1] == 't'
        invariant
            start <= stop <= end,
            end <= cs@.len(),
            s == cs@,
            strip_git(s.subrange(start as int, end as int)) == strip_git(s.subrange(start as int, stop as int)),
        decreases stop,
    {
        proof {
            reveal_strlit(".git");
            let u = s.subrange(start as int, stop as int);
            assert(u.subrange(u.len() - 4, u.len() as int) =~= ".git"@);
            assert(u.subrange(0, u.len() - 4) =~= s.subrange(start as int, stop - 4));
        }
        stop = stop - 4;
    }
    proof {
        reveal_strlit(".git");
        let u = s.subrange(start as int, stop as int);
        if u.len() >= 4 && u.subrange(u.len() - 4, u.len() as int) == ".git"@ {
            assert(u.subrange(u.len() - 4, u.len() as int)[0] == '.');
            assert(u.subrange(u.len() - 4, u.len() as int)[1] == 'g');
            assert(u.subrange(u.len() - 4, u.len() as int)[2] == 'i');
            assert(u.subrange(u.len() - 4, u.len() as int)[3] == 't');
        }
    }
    string_of(&cs, start, stop)
}

} // verus!
