//! Embedding documents for commits, the embedding settings, and the counts of
//! a backfill run.
use vstd::prelude::*;
use vstd::string::*;
use crate::message::{trim, trimmed};
use crate::ingest::opt_view;
use crate::types::{CommitmuxError, EmbedCommit};

verus! {

/// Bytes of a patch preview kept in an embedding document.
pub const DOC_PATCH_BYTES: usize = 1600;

/// Length of one character in UTF-8.
pub open spec fn char_width(c: char) -> nat {
    vstd::utf8::encode_scalar(c as u32).len()
}

fn width(c: char) -> (r: usize)
    ensures
        r == char_width(c),
        1 <= r <= 4,
{
    let v = c as u32;
    if v <= 0x7f {
        1
    } else if 0x80 <= v && v <= 0x7ff {
        2
    } else if 0x800 <= v && v <= 0xffff && !(0xd800 <= v && v <= 0xdfff) {
        3
    } else {
        4
    }
}

/// Number of leading characters of `s` whose UTF-8 encoding fits in `n` bytes.
pub open spec fn fitting_chars(s: Seq<char>, n: nat) -> nat
    decreases s.len(),
{
    if s.len() == 0 || char_width(s[0]) > n {
        0
    } else {
        1 + fitting_chars(s.drop_first(), (n - char_width(s[0])) as nat)
    }
}

/// The longest prefix of `s` that fits in `n` bytes of UTF-8.
pub open spec fn cut_bytes(s: Seq<char>, n: nat) -> Seq<char> {
    s.subrange(0, fitting_chars(s, n) as int)
}

/// Copies the longest prefix of `s` that fits in `n` bytes of UTF-8.
pub fn prefix_bytes(s: &str, n: usize) -> (r: String)
    ensures
        r@ == cut_bytes(s@, n as nat),
{
    let len = s.unicode_len();
    let mut r = String::new();
    let mut i: usize = 0;
    let mut room: usize = n;
    assert(s@.subrange(0, len as int) =~= s@);
    while i < len
        invariant
            len == s@.len(),
            i <= len,
            r@ == s@.subrange(0, i as int),
            fitting_chars(s@, n as nat) == i + fitting_chars(s@.subrange(i as int, len as int), room as nat),
        ensures
            i <= len,
            r@ == s@.subrange(0, i as int),
            fitting_chars(s@, n as nat) == i,
        decreases len - i,
    {
        let c = s.get_char(i);
        let w = width(c);
        let ghost t = s@.subrange(i as int, len as int);
        assert(t[0] == c);
        assert(t.drop_first() =~= s@.subrange(i + 1, len as int));
        if w > room {
            assert(fitting_chars(t, room as nat) == 0);
            break;
        }
        r.push(c);
        room = room - w;
        i = i + 1;
        assert(r@ =~= s@.subrange(0, i as int));
    }
    proof {
        if i == len {
            assert(s@.subrange(len as int, len as int).len() == 0);
        }
    }
    r
}

/// Items joined with a separator.
pub open spec fn join_with(items: Seq<Seq<char>>, sep: Seq<char>) -> Seq<char>
    decreases items.len(),
{
    if items.len() == 0 {
        Seq::empty()
    } else if items.len() == 1 {
        items[0]
    } else {
        join_with(items.drop_last(), sep) + sep + items.last()
    }
}

/// The strings of a list as character sequences.
pub open spec fn strings_view(v: Seq<String>) -> Seq<Seq<char>> {
    v.map_values(|s: String| s@)
}

/// The document embedded for a commit: the subject; then, separated by blank
/// lines, the body if it is not blank, the list of changed files, and the
/// patch preview cut to its first 1600 bytes when it is not empty.
pub open spec fn embed_doc(
    subject: Seq<char>,
    body: Option<Seq<char>>,
    files: Seq<Seq<char>>,
    preview: Option<Seq<char>>,
) -> Seq<char> {
    let with_body = match body {
        Some(b) => if trim(b).len() > 0 { subject + "\n\n"@ + b } else { subject },
        None => subject,
    };
    let with_files = if files.len() > 0 {
        with_body + "\n\nFiles changed: "@ + join_with(files, ", "@)
    } else {
        with_body
    };
    match preview {
        Some(p) => if p.len() > 0 {
            with_files + "\n\n"@ + cut_bytes(p, DOC_PATCH_BYTES as nat)
        } else {
            with_files
        },
        None => with_files,
    }
}

fn push_joined(doc: &mut String, items: &Vec<String>, sep: &str)
    ensures
        final(doc)@ == old(doc)@ + join_with(strings_view(items@), sep@),
{
    let ghost start = doc@;
    let mut i: usize = 0;
    while i < items.len()
        invariant
            i <= items@.len(),
            doc@ == start + join_with(strings_view(items@.subrange(0, i as int)), sep@),
        decreases items@.len() - i,
    {
        let ghost before = doc@;
        if i > 0 {
            doc.push_str(sep);
        }
        doc.push_str(items[i].as_str());
        proof {
            let sub = strings_view(items@.subrange(0, i + 1));
            assert(sub.drop_last() =~= strings_view(items@.subrange(0, i as int)));
            assert(sub.last() == items@[i as int]@);
            if i == 0 {
                assert(doc@ =~= start + join_with(sub, sep@));
            } else {
                assert(doc@ =~= start + join_with(sub, sep@));
            }
        }
        i = i + 1;
    }
    assert(items@.subrange(0, items@.len() as int) =~= items@);
}

/// Builds the embedding document of a commit.
pub fn build_embed_doc(commit: &EmbedCommit) -> (r: String)
    ensures
        r@ == embed_doc(
            commit.subject@,
            opt_view(commit.body),
            strings_view(commit.files_changed@),
            opt_view(commit.patch_preview),
        ),
{
    let mut doc = commit.subject.clone();
    let ghost s1 = doc@;
    match &commit.body {
        Some(body) => {
            let t = trimmed(body.as_str());
            if t.as_str().unicode_len() > 0 {
                doc.push_str("\n\n");
                doc.push_str(body.as_str());
            }
        },
        None => {},
    }
    let ghost s2 = doc@;
    if commit.files_changed.len() > 0 {
        doc.push_str("\n\nFiles changed: ");
        push_joined(&mut doc, &commit.files_changed, ", ");
        assert(commit.files_changed@.len() > 0);
    }
    assert(strings_view(commit.files_changed@).len() == commit.files_changed@.len());
    match &commit.patch_preview {
        Some(preview) => {
            if preview.as_str().unicode_len() > 0 {
                let cut = prefix_bytes(preview.as_str(), DOC_PATCH_BYTES);
                doc.push_str("\n\n");
                doc.push_str(cut.as_str());
            }
        },
        None => {},
    }
    doc
}

/// Where embeddings are computed: the model name and the service endpoint.
#[derive(Debug, Clone)]
pub struct EmbedConfig {
    pub model: String,
    pub endpoint: String,
}

/// The model used when the settings name none.
pub open spec fn default_model() -> Seq<char> {
    "nomic-embed-text"@
}

/// The endpoint used when the settings name none.
pub open spec fn default_endpoint() -> Seq<char> {
    "http://localhost:11434/v1"@
}

/// A source of string settings, such as the index's `config` table.
pub trait Store {
    /// The value the store holds under `key`, if any.
    spec fn setting(&self, key: &str) -> Option<String>;

    /// Looks up the value stored under `key`; on success it is `setting(key)`.
    fn get_config(&self, key: &str) -> (r: Result<Option<String>, CommitmuxError>)
        ensures
            r matches Ok(v) ==> opt_view(v) == opt_view(self.setting(key));
}

/// A looked-up setting, or its default.
pub open spec fn or_default(v: Option<Seq<char>>, d: Seq<char>) -> Seq<char> {
    match v {
        Some(x) => x,
        None => d,
    }
}

impl EmbedConfig {
    /// The settings from looked-up values, each falling back to its default.
    pub fn from_settings(model: Option<String>, endpoint: Option<String>) -> (r: Self)
        ensures
            r.model@ == match opt_view(model) {
                Some(m) => m,
                None => default_model(),
            },
            r.endpoint@ == match opt_view(endpoint) {
                Some(e) => e,
                None => default_endpoint(),
            },
    {
        let model = match model {
            Some(m) => m,
            None => String::from_str("nomic-embed-text"),
        };
        let endpoint = match endpoint {
            Some(e) => e,
            None => String::from_str("http://localhost:11434/v1"),
        };
        EmbedConfig { model, endpoint }
    }

    /// Reads `embed.model` and `embed.endpoint` from the store; a missing
    /// value takes its default and a failed lookup is returned as the error.
    pub fn from_store<S: Store>(store: &S) -> (r: Result<Self, CommitmuxError>)
        ensures
            r matches Ok(c) ==> c.model@ == or_default(opt_view(store.setting("embed.model")), default_model())
                && c.endpoint@ == or_default(opt_view(store.setting("embed.endpoint")), default_endpoint()),
    {
        let model = match store.get_config("embed.model") {
            Ok(v) => v,
            Err(e) => {
                return Err(e);
            },
        };
        let endpoint = match store.get_config("embed.endpoint") {
            Ok(v) => v,
            Err(e) => {
                return Err(e);
            },
        };
        Ok(EmbedConfig::from_settings(model, endpoint))
    }
}

/// Counts of an embedding backfill.
#[derive(Debug, Clone)]
pub struct EmbedSummary {
    pub embedded: usize,
    pub skipped: usize,
    pub failed: usize,
}

impl EmbedSummary {
    /// No commit handled yet.
    pub fn new() -> (r: Self)
        ensures
            r.embedded == 0 && r.skipped == 0 && r.failed == 0,
    {
        EmbedSummary { embedded: 0, skipped: 0, failed: 0 }
    }

    /// Counts one commit: embedded when both the embedding call and the write
    /// of its vector succeeded, failed otherwise.
    pub fn record(&mut self, stored: bool)
        requires
            old(self).embedded < usize::MAX,
            old(self).failed < usize::MAX,
        ensures
            final(self).embedded == old(self).embedded + if stored { 1int } else { 0int },
            final(self).failed == old(self).failed + if stored { 0int } else { 1int },
            final(self).skipped == old(self).skipped,
    {
        if stored {
            self.embedded = self.embedded + 1;
        } else {
            self.failed = self.failed + 1;
        }
    }
}

/// Attempts allowed per commit within one backfill run; a commit that keeps
/// failing is left for a later run, so the run ends.
pub const MAX_EMBED_ATTEMPTS: usize = 3;

/// Attempts recorded for `sha` in a list of (sha, attempts) pairs: those of
/// its first pair, or 0.
pub open spec fn attempts_in(entries: Seq<(Seq<char>, nat)>, sha: Seq<char>) -> nat
    decreases entries.len(),
{
    if entries.len() == 0 {
        0
    } else if entries[0].0 == sha {
        entries[0].1
    } else {
        attempts_in(entries.drop_first(), sha)
    }
}

/// Embedding attempts made per commit during a backfill run.
pub struct AttemptLedger {
    entries: Vec<(String, usize)>,
}

impl AttemptLedger {
    /// The (sha, attempts) pairs as plain values.
    pub closed spec fn view_entries(&self) -> Seq<(Seq<char>, nat)> {
        self.entries@.map_values(|e: (String, usize)| (e.0@, e.1 as nat))
    }

    /// Attempts made on `sha` so far.
    pub open spec fn attempts(&self, sha: Seq<char>) -> nat {
        attempts_in(self.view_entries(), sha)
    }

    /// A ledger with no attempts.
    pub fn new() -> (r: Self)
        ensures
            forall|sha: Seq<char>| r.attempts(sha) == 0,
    {
        let r = AttemptLedger { entries: Vec::new() };
        assert(r.view_entries() =~= Seq::<(Seq<char>, nat)>::empty());
        r
    }

    fn find(&self, sha: &str) -> (r: Option<usize>)
        ensures
            match r {
                Some(i) => i < self.entries@.len() && self.entries@[i as int].0@ == sha@
                    && attempts_in(self.view_entries(), sha@) == self.entries@[i as int].1
                    && forall|j: int| 0 <= j < i ==> self.entries@[j].0@ != sha@,
                None => attempts_in(self.view_entries(), sha@) == 0
                    && forall|j: int| 0 <= j < self.entries@.len() ==> self.entries@[j].0@ != sha@,
            },
    {
        let mut i: usize = 0;
        assert(self.view_entries().len() == self.entries@.len());
        assert(self.view_entries().subrange(0, self.entries@.len() as int) =~= self.view_entries());
        while i < self.entries.len()
            invariant
                i <= self.entries@.len(),
                self.view_entries().len() == self.entries@.len(),
                forall|j: int| 0 <= j < i ==> self.entries@[j].0@ != sha@,
                attempts_in(self.view_entries(), sha@) == attempts_in(self.view_entries().subrange(i as int, self.entries@.len() as int), sha@),
            decreases self.entries@.len() - i,
        {
            let ghost rest = self.view_entries().subrange(i as int, self.entries@.len() as int);
            if crate::text::same_text(self.entries[i].0.as_str(), sha) {
                assert(rest[0] == (self.entries@[i as int].0@, self.entries@[i as int].1 as nat));
                return Some(i);
            }
            assert(rest.drop_first() =~= self.view_entries().subrange(i + 1, self.entries@.len() as int));
            assert(rest[0].0 == self.entries@[i as int].0@);
            i = i + 1;
        }
        None
    }

    /// Whether `sha` may be tried again.
    pub fn may_try(&self, sha: &str) -> (r: bool)
        ensures
            r == (self.attempts(sha@) < MAX_EMBED_ATTEMPTS),
    {
        match self.find(sha) {
            Some(i) => self.entries[i].1 < MAX_EMBED_ATTEMPTS,
            None => true,
        }
    }

    /// Number of commits that used up their attempts.
    pub open spec fn exhausted(&self) -> nat {
        exhausted_in(self.view_entries())
    }

    /// Counts the commits that used up their attempts.
    pub fn exhausted_count(&self) -> (r: usize)
        ensures
            r == self.exhausted(),
    {
        let n = self.entries.len();
        let mut i: usize = 0;
        let mut c: usize = 0;
        assert(self.view_entries().len() == n);
        while i < n
            invariant
                n == self.entries@.len(),
                self.view_entries().len() == n,
                i <= n,
                c <= i,
                c == exhausted_in(self.view_entries().subrange(0, i as int)),
            decreases n - i,
        {
            let ghost sub = self.view_entries().subrange(0, i + 1);
            assert(sub.drop_last() =~= self.view_entries().subrange(0, i as int));
            if self.entries[i].1 >= MAX_EMBED_ATTEMPTS {
                c = c + 1;
            }
            i = i + 1;
        }
        assert(self.view_entries().subrange(0, n as int) =~= self.view_entries());
        c
    }

    /// How many commits to fetch for the next batch: the batch size plus the
    /// commits already given up, so that those cannot fill a batch and hide
    /// commits that can still be tried. A batch in which nothing can be tried
    /// then means there is nothing left to do.
    pub fn fetch_limit(&self, batch_size: usize) -> (r: usize)
        ensures
            r == if self.exhausted() + batch_size > usize::MAX { usize::MAX as int } else { self.exhausted() + batch_size },
    {
        let e = self.exhausted_count();
        if e > usize::MAX - batch_size {
            usize::MAX
        } else {
            e + batch_size
        }
    }

    /// Positions, in order, of the commits of a batch that may still be tried.
    pub fn pick(&self, shas: &Vec<String>) -> (r: Vec<usize>)
        ensures
            forall|k: int| 0 <= k < r@.len() ==> (#[trigger] r@[k]) < shas@.len()
                && self.attempts(shas@[r@[k] as int]@) < MAX_EMBED_ATTEMPTS,
            forall|k: int, l: int| 0 <= k < l < r@.len() ==> #[trigger] r@[k] < #[trigger] r@[l],
            forall|j: int| 0 <= j < shas@.len() && self.attempts(#[trigger] shas@[j]@) < MAX_EMBED_ATTEMPTS
                ==> r@.contains(j as usize),
    {
        let mut r: Vec<usize> = Vec::new();
        let mut i: usize = 0;
        while i < shas.len()
            invariant
                i <= shas@.len(),
                forall|k: int| 0 <= k < r@.len() ==> (#[trigger] r@[k]) < i
                    && self.attempts(shas@[r@[k] as int]@) < MAX_EMBED_ATTEMPTS,
                forall|k: int, l: int| 0 <= k < l < r@.len() ==> #[trigger] r@[k] < #[trigger] r@[l],
                forall|j: int| 0 <= j < i && self.attempts(#[trigger] shas@[j]@) < MAX_EMBED_ATTEMPTS
                    ==> r@.contains(j as usize),
            decreases shas@.len() - i,
        {
            if self.may_try(shas[i].as_str()) {
                let ghost before = r@;
                r.push(i);
                assert forall|j: int| 0 <= j < i + 1 && self.attempts(#[trigger] shas@[j]@) < MAX_EMBED_ATTEMPTS
                    implies r@.contains(j as usize) by {
                    if j < i {
                        let k = choose|k: int| 0 <= k < before.len() && before[k] == j as usize;
                        assert(r@[k] == j as usize);
                    } else {
                        assert(r@[before.len() as int] == i);
                    }
                }
            }
            i = i + 1;
        }
        r
    }

    /// Records one more attempt on `sha`; the other commits keep theirs.
    pub fn note(&mut self, sha: &str)
        requires
            old(self).attempts(sha@) < MAX_EMBED_ATTEMPTS,
        ensures
            final(self).attempts(sha@) == old(self).attempts(sha@) + 1,
            forall|o: Seq<char>| o != sha@ ==> #[trigger] final(self).attempts(o) == old(self).attempts(o),
    {
        let ghost before = self.view_entries();
        match self.find(sha) {
            Some(i) => {
                let n = self.entries[i].1;
                let name = self.entries[i].0.clone();
                self.entries.set(i, (name, n + 1));
                proof {
                    let after = self.view_entries();
                    assert(after =~= before.update(i as int, (sha@, (n + 1) as nat)));
                    lemma_attempts_update(before, i as int, sha@, (n + 1) as nat);
                }
            },
            None => {
                self.entries.push((String::from_str(sha), 1));
                proof {
                    let after = self.view_entries();
                    assert(after =~= before.push((sha@, 1nat)));
                    lemma_attempts_push(before, sha@, 1);
                }
            },
        }
    }
}

/// Number of pairs whose attempts reached the cap.
pub open spec fn exhausted_in(entries: Seq<(Seq<char>, nat)>) -> nat
    decreases entries.len(),
{
    if entries.len() == 0 {
        0
    } else {
        exhausted_in(entries.drop_last()) + if entries.last().1 >= MAX_EMBED_ATTEMPTS { 1nat } else { 0nat }
    }
}

proof fn lemma_attempts_update(e: Seq<(Seq<char>, nat)>, i: int, sha: Seq<char>, n: nat)
    requires
        0 <= i < e.len(),
        e[i].0 == sha,
        forall|j: int| 0 <= j < i ==> e[j].0 != sha,
    ensures
        attempts_in(e.update(i, (sha, n)), sha) == n,
        forall|o: Seq<char>| o != sha ==> #[trigger] attempts_in(e.update(i, (sha, n)), o) == attempts_in(e, o),
    decreases i,
{
    let u = e.update(i, (sha, n));
    if i > 0 {
        assert(u.drop_first() =~= e.drop_first().update(i - 1, (sha, n)));
        lemma_attempts_update(e.drop_first(), i - 1, sha, n);
        assert(u[0] == e[0]);
        assert forall|o: Seq<char>| o != sha implies #[trigger] attempts_in(u, o) == attempts_in(e, o) by {
            assert(attempts_in(e.drop_first().update(i - 1, (sha, n)), o) == attempts_in(e.drop_first(), o));
        }
    } else {
        assert(u.drop_first() =~= e.drop_first());
        assert forall|o: Seq<char>| o != sha implies #[trigger] attempts_in(u, o) == attempts_in(e, o) by {
            assert(u[0].0 == sha);
        }
    }
}

proof fn lemma_attempts_push(e: Seq<(Seq<char>, nat)>, sha: Seq<char>, n: nat)
    requires
        forall|j: int| 0 <= j < e.len() ==> e[j].0 != sha,
    ensures
        attempts_in(e.push((sha, n)), sha) == n,
        forall|o: Seq<char>| o != sha ==> #[trigger] attempts_in(e.push((sha, n)), o) == attempts_in(e, o),
    decreases e.len(),
{
    let p = e.push((sha, n));
    if e.len() > 0 {
        assert(p.drop_first() =~= e.drop_first().push((sha, n)));
        assert forall|j: int| 0 <= j < e.drop_first().len() implies e.drop_first()[j].0 != sha by {
            assert(e.drop_first()[j] == e[j + 1]);
        }
        lemma_attempts_push(e.drop_first(), sha, n);
        assert(p[0] == e[0]);
        assert forall|o: Seq<char>| o != sha implies #[trigger] attempts_in(p, o) == attempts_in(e, o) by {
            assert(attempts_in(e.drop_first().push((sha, n)), o) == attempts_in(e.drop_first(), o));
        }
    } else {
        assert(p.drop_first() =~= Seq::<(Seq<char>, nat)>::empty());
        assert forall|o: Seq<char>| o != sha implies #[trigger] attempts_in(p, o) == attempts_in(e, o) by {
            assert(p[0].0 == sha);
            assert(attempts_in(Seq::<(Seq<char>, nat)>::empty(), o) == 0);
        }
    }
}

} // verus!
