//! Shaping stored rows into what the index hands out: previews, excerpts and
//! commit details.
use vstd::prelude::*;
use vstd::string::*;
use crate::dates::{format_iso_date, iso_date_text};
use crate::text::{prefix_chars, take_chars};
use crate::types::{CommitDetail, CommitFileDetail, CommitPatch};

verus! {

/// Characters of patch text kept as a commit's preview.
pub const PREVIEW_CHARS: usize = 500;

/// Characters of the preview shown with a search hit.
pub const EXCERPT_CHARS: usize = 300;

/// The preview stored for a patch: its first 500 characters.
pub fn patch_preview(text: &str) -> (r: String)
    ensures
        r@ == take_chars(text@, PREVIEW_CHARS as nat),
{
    prefix_chars(text, PREVIEW_CHARS)
}

/// The excerpt shown with a search hit: the first 300 characters of the preview.
pub fn patch_excerpt(preview: &str) -> (r: String)
    ensures
        r@ == take_chars(preview@, EXCERPT_CHARS as nat),
{
    prefix_chars(preview, EXCERPT_CHARS)
}

/// The patch record written for a commit's patch text: the text's bytes,
/// which the store compresses, and its first 500 characters as preview.
pub fn patch_record(repo_id: i64, sha: &str, text: &str) -> (r: CommitPatch)
    ensures
        r.repo_id == repo_id,
        r.sha@ == sha@,
        r.patch_blob@ == vstd::utf8::encode_utf8(text@),
        r.patch_preview@ == take_chars(text@, PREVIEW_CHARS as nat),
{
    let bytes = text.as_bytes_vec();
    CommitPatch {
        repo_id,
        sha: String::from_str(sha),
        patch_blob: bytes,
        patch_preview: patch_preview(text),
    }
}

/// The detail of a commit, its author time given as ISO 8601 UTC.
pub fn commit_detail(
    repo: &str,
    sha: String,
    subject: String,
    body: Option<String>,
    author: String,
    author_time: i64,
    changed_files: Vec<CommitFileDetail>,
) -> (r: CommitDetail)
    ensures
        r.repo@ == repo@,
        r.sha == sha,
        r.subject == subject,
        r.body == body,
        r.author == author,
        r.date@ == iso_date_text(author_time),
        r.changed_files == changed_files,
{
    CommitDetail {
        repo: String::from_str(repo),
        sha,
        subject,
        body,
        author,
        date: format_iso_date(author_time),
        changed_files,
    }
}

} // verus!
