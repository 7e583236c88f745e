//! Encodings of stored values: compressed patch blobs, their decoded text,
//! and the JSON array in which a repository's exclusions are kept.
use vstd::prelude::*;
use vstd::string::*;
use crate::embed::strings_view;
use crate::text::{prefix_chars, take_chars};
use crate::types::CommitmuxError;

verus! {

/// The zstd frame, at compression level 3, of `data`.
pub uninterp spec fn zstd_frame(data: Seq<u8>) -> Seq<u8>;

/// The text that `String::from_utf8_lossy` makes of bytes that are not valid UTF-8.
pub uninterp spec fn utf8_lossy(bytes: Seq<u8>) -> Seq<char>;

/// A lower-case hexadecimal digit.
pub open spec fn hex_digit(d: nat) -> char {
    if d == 0 { '0' } else if d == 1 { '1' } else if d == 2 { '2' } else if d == 3 { '3' }
    else if d == 4 { '4' } else if d == 5 { '5' } else if d == 6 { '6' } else if d == 7 { '7' }
    else if d == 8 { '8' } else if d == 9 { '9' } else if d == 10 { 'a' } else if d == 11 { 'b' }
    else if d == 12 { 'c' } else if d == 13 { 'd' } else if d == 14 { 'e' } else { 'f' }
}

/// One character inside a JSON string: quote and backslash escaped, the
/// control characters as `\b`, `\f`, `\n`, `\r`, `\t` or `\u00XX`, any
/// other character as it is.
pub open spec fn json_char(c: char) -> Seq<char> {
    if c == '"' {
        seq!['\\', '"']
    } else if c == '\\' {
        seq!['\\', '\\']
    } else if c == '\u{8}' {
        seq!['\\', 'b']
    } else if c == '\u{c}' {
        seq!['\\', 'f']
    } else if c == '\n' {
        seq!['\\', 'n']
    } else if c == '\r' {
        seq!['\\', 'r']
    } else if c == '\t' {
        seq!['\\', 't']
    } else if (c as u32) < 0x20 {
        seq!['\\', 'u', '0', '0', hex_digit((c as u32 / 16) as nat), hex_digit((c as u32 % 16) as nat)]
    } else {
        seq![c]
    }
}

/// The escaped characters of a string.
pub open spec fn json_chars(s: Seq<char>) -> Seq<char>
    decreases s.len(),
{
    if s.len() == 0 {
        Seq::empty()
    } else {
        json_chars(s.drop_last()) + json_char(s.last())
    }
}

/// A string as a JSON string literal.
pub open spec fn json_string(s: Seq<char>) -> Seq<char> {
    seq!['"'] + json_chars(s) + seq!['"']
}

/// Items as JSON string literals, separated by commas.
pub open spec fn json_items(items: Seq<Seq<char>>) -> Seq<char>
    decreases items.len(),
{
    if items.len() == 0 {
        Seq::empty()
    } else if items.len() == 1 {
        json_string(items[0])
    } else {
        json_items(items.drop_last()) + seq![','] + json_string(items.last())
    }
}

/// The compact JSON array of strings that `serde_json` writes.
pub open spec fn json_of_strings(items: Seq<Seq<char>>) -> Seq<char> {
    seq!['['] + json_items(items) + seq![']']
}

/// The array of strings `serde_json` reads from a text, if it reads one.
pub uninterp spec fn strings_of_json(text: Seq<char>) -> Option<Seq<Seq<char>>>;

/// Relies on `zstd::encode_all` at level 3: it succeeds (setting the level
/// and an empty dictionary cannot fail, nor can writing into a `Vec`), and
/// the result is the frame of the input.
#[verifier::external_body]
fn zstd_encode(data: &[u8]) -> (r: Result<Vec<u8>, CommitmuxError>)
    ensures
        r is Ok && r.unwrap()@ == zstd_frame(data@),
{
    match zstd::encode_all(data, 3) {
        Ok(b) => Ok(b),
        Err(e) => Err(CommitmuxError::Io(e.to_string())),
    }
}

/// Relies on `zstd::decode_all`: a frame made by `zstd::encode_all` decodes
/// to the data it was made from.
#[verifier::external_body]
fn zstd_decode(blob: &[u8]) -> (r: Result<Vec<u8>, CommitmuxError>)
    ensures
        match r {
            Ok(x) => forall|d: Seq<u8>| blob@ == #[trigger] zstd_frame(d) ==> x@ == d,
            Err(_) => forall|d: Seq<u8>| blob@ != #[trigger] zstd_frame(d),
        },
{
    match zstd::decode_all(blob) {
        Ok(b) => Ok(b),
        Err(e) => Err(CommitmuxError::Io(e.to_string())),
    }
}

/// Text of bytes read as UTF-8, each invalid sequence replaced by U+FFFD.
pub open spec fn lossy_text(bytes: Seq<u8>) -> Seq<char> {
    if vstd::utf8::valid_utf8(bytes) {
        vstd::utf8::decode_utf8(bytes)
    } else {
        utf8_lossy(bytes)
    }
}

/// Relies on `String::from_utf8_lossy`: valid UTF-8 is decoded unchanged.
#[verifier::external_body]
fn decode_lossy(bytes: &[u8]) -> (r: String)
    ensures
        vstd::utf8::valid_utf8(bytes@) ==> r@ == vstd::utf8::decode_utf8(bytes@),
        !vstd::utf8::valid_utf8(bytes@) ==> r@ == utf8_lossy(bytes@),
{
    String::from_utf8_lossy(bytes).into_owned()
}

/// Relies on `serde_json::to_string` for a list of strings: it cannot fail
/// (strings serialize without error and there are no map keys), and writes
/// the compact array with serde_json's escapes.
#[verifier::external_body]
fn json_encode_strings(items: &Vec<String>) -> (r: Option<String>)
    ensures
        r is Some && r.unwrap()@ == json_of_strings(strings_view(items@)),
{
    serde_json::to_string(items).ok()
}

/// Relies on `serde_json::from_str` into a list of strings.
#[verifier::external_body]
fn json_decode_strings(text: &str) -> (r: Option<Vec<String>>)
    ensures
        match r {
            Some(v) => strings_of_json(text@) == Some(strings_view(v@)),
            None => strings_of_json(text@) is None,
        },
{
    serde_json::from_str::<Vec<String>>(text).ok()
}

/// The stored blob of a patch: its bytes, compressed.
pub fn compress_patch(patch_bytes: &Vec<u8>) -> (r: Result<Vec<u8>, CommitmuxError>)
    ensures
        r is Ok,
        r matches Ok(b) ==> b@ == zstd_frame(patch_bytes@),
{
    zstd_encode(patch_bytes.as_slice())
}

/// The patch text served for decompressed bytes: read as UTF-8 with
/// replacement, then cut to `max_chars` characters when a limit is given.
pub open spec fn served_text(bytes: Seq<u8>, max_chars: Option<usize>) -> Seq<char> {
    match max_chars {
        Some(m) => take_chars(lossy_text(bytes), m as nat),
        None => lossy_text(bytes),
    }
}

/// Turns decompressed patch bytes into the text served to callers.
pub fn patch_text_of(bytes: &Vec<u8>, max_chars: Option<usize>) -> (r: String)
    ensures
        r@ == served_text(bytes@, max_chars),
{
    let text = decode_lossy(bytes.as_slice());
    match max_chars {
        Some(m) => prefix_chars(text.as_str(), m),
        None => text,
    }
}

/// Decompresses a stored blob into the text served to callers; a blob made
/// from some bytes always yields the text of those bytes.
pub fn decode_patch(blob: &Vec<u8>, max_chars: Option<usize>) -> (r: Result<String, CommitmuxError>)
    ensures
        forall|d: Seq<u8>|
            blob@ == #[trigger] zstd_frame(d) ==> (r matches Ok(t) && t@ == served_text(d, max_chars)),
{
    match zstd_decode(blob.as_slice()) {
        Ok(bytes) => Ok(patch_text_of(&bytes, max_chars)),
        Err(e) => Err(e),
    }
}

/// A patch stored from text `t` is served back as `t` itself when no limit
/// is given: the blob of its UTF-8 bytes decodes to exactly that text.
pub proof fn lemma_patch_round_trip(t: Seq<char>)
    ensures
        served_text(vstd::utf8::encode_utf8(t), None) == t,
{
    vstd::utf8::encode_utf8_valid_utf8(t);
    vstd::utf8::encode_utf8_decode_utf8(t);
}

/// The exclusion list kept for a repository: its JSON text.
pub open spec fn prefixes_json(items: Seq<Seq<char>>) -> Seq<char> {
    json_of_strings(items)
}

/// Writes a repository's exclusion list as a JSON array.
pub fn exclude_prefixes_json(items: &Vec<String>) -> (r: String)
    ensures
        r@ == prefixes_json(strings_view(items@)),
{
    json_encode_strings(items).unwrap()
}

/// The exclusion list read back from its stored text: empty when the column
/// is null or does not hold an array of strings.
pub open spec fn prefixes_from(stored: Option<Seq<char>>) -> Seq<Seq<char>> {
    match stored {
        Some(t) => match strings_of_json(t) {
            Some(v) => v,
            None => Seq::empty(),
        },
        None => Seq::empty(),
    }
}

/// Reads a repository's exclusion list from its stored text.
pub fn parse_exclude_prefixes(stored: Option<String>) -> (r: Vec<String>)
    ensures
        strings_view(r@) == prefixes_from(crate::ingest::opt_view(stored)),
{
    match stored {
        Some(t) => match json_decode_strings(t.as_str()) {
            Some(v) => v,
            None => {
                let v: Vec<String> = Vec::new();
                assert(strings_view(v@) =~= Seq::<Seq<char>>::empty());
                v
            },
        },
        None => {
            let v: Vec<String> = Vec::new();
            assert(strings_view(v@) =~= Seq::<Seq<char>>::empty());
            v
        },
    }
}

} // verus!
