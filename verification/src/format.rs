//! File formats and their detection from a file's path.
use vstd::prelude::*;

use crate::codec::{
    json_document, json_pretty_text, print_json, print_toml, print_yaml, read_json, read_toml,
    read_yaml, toml_document, toml_text, yaml_document, yaml_text,
};
use crate::error::ConfigPatchError;
use crate::null_laws::{law_nulls_as_text_keeps_null_less, null_less};
use crate::nulls::{nulls_as_text, nulls_to_text};
use crate::numbers::numbers_valid;
use crate::value::{wf, Json, Value};

verus! {

/// A configuration file format.
#[derive(Debug, Clone, Copy, PartialEq, Eq, Structural)]
pub enum Format {
    Json,
    Yaml,
    Toml,
}

// ---------------------------------------------------------------------------
// Specification
// ---------------------------------------------------------------------------

/// Index of the last occurrence of `c` in `s`, or -1.
pub open spec fn last_index_of(s: Seq<char>, c: char) -> int
    decreases s.len(),
{
    if s.len() == 0 {
        -1
    } else if s.last() == c {
        s.len() - 1
    } else {
        last_index_of(s.drop_last(), c)
    }
}

/// The last index of a character lies within the text and holds that character.
pub proof fn lemma_last_index_of_bounds(s: Seq<char>, c: char)
    ensures
        -1 <= last_index_of(s, c) < s.len(),
        last_index_of(s, c) >= 0 ==> s[last_index_of(s, c)] == c,
    decreases s.len(),
{
    if s.len() > 0 && s.last() != c {
        lemma_last_index_of_bounds(s.drop_last(), c);
    }
}

/// The final component of a `/`-separated path: its last segment that is
/// neither empty nor `.`; none when there is no such segment or when it is
/// `..`.
pub open spec fn file_name(path: Seq<char>) -> Option<Seq<char>>
    decreases path.len(),
{
    let p = last_index_of(path, '/');
    let seg = path.subrange(p + 1, path.len() as int);
    if seg.len() == 0 || seg == seq!['.'] {
        if p < 0 {
            None
        } else {
            proof {
                lemma_last_index_of_bounds(path, '/');
            }
            file_name(path.subrange(0, p))
        }
    } else if seg == seq!['.', '.'] {
        None
    } else {
        Some(seg)
    }
}

/// The extension of a file name: the text after its last `.`; none when the
/// name has no `.` or only a leading one.
pub open spec fn name_extension(name: Seq<char>) -> Option<Seq<char>> {
    let p = last_index_of(name, '.');
    if p <= 0 {
        None
    } else {
        Some(name.subrange(p + 1, name.len() as int))
    }
}

/// The extension of the file that a path names.
pub open spec fn path_extension(path: Seq<char>) -> Option<Seq<char>> {
    match file_name(path) {
        Some(name) => name_extension(name),
        None => None,
    }
}

/// The format that a lower-case extension stands for.
pub open spec fn format_for(ext: Seq<char>) -> Option<Format> {
    if ext == "json"@ {
        Some(Format::Json)
    } else if ext == "yaml"@ || ext == "yml"@ {
        Some(Format::Yaml)
    } else if ext == "toml"@ {
        Some(Format::Toml)
    } else {
        None
    }
}

/// `r` is an unsupported-format error with the message `msg`.
pub open spec fn is_unsupported<T>(r: Result<T, ConfigPatchError>, msg: Seq<char>) -> bool {
    r matches Err(ConfigPatchError::UnsupportedFormat(m)) && m@ == msg
}

/// Name for what `str::to_lowercase` returns: the lower-case equivalent of a
/// text under Unicode's case mapping.
pub uninterp spec fn lowercase(s: Seq<char>) -> Seq<char>;

/// Every character of the text is ASCII.
pub open spec fn is_ascii_text(s: Seq<char>) -> bool {
    forall|i: int| 0 <= i < s.len() ==> (#[trigger] s[i] as u32) < 128
}

/// An ASCII upper-case letter as its lower-case letter; any other character
/// as it is.
pub open spec fn ascii_lower_char(c: char) -> char {
    if 65 <= (c as u32) <= 90 {
        ((c as u32) + 32) as char
    } else {
        c
    }
}

/// A text with each ASCII upper-case letter lower-cased.
pub open spec fn ascii_lower(s: Seq<char>) -> Seq<char> {
    Seq::new(s.len(), |i: int| ascii_lower_char(s[i]))
}

/// The lower-case form of a text: for ASCII text, its ASCII upper-case
/// letters lower-cased; for any other, what `str::to_lowercase` returns.
pub open spec fn lowered(s: Seq<char>) -> Seq<char> {
    if is_ascii_text(s) {
        ascii_lower(s)
    } else {
        lowercase(s)
    }
}

/// The result of detecting a path's format, given the lower-case form of its
/// extension.
pub open spec fn detect_result(lower: Seq<char>, r: Result<Format, ConfigPatchError>) -> bool {
    match format_for(lower) {
        Some(f) => r == Ok::<Format, ConfigPatchError>(f),
        None => is_unsupported(r, "Unsupported file extension: ."@ + lower),
    }
}

// ---------------------------------------------------------------------------
// Implementation
// ---------------------------------------------------------------------------

/// Calls `str::to_lowercase`, which maps each character to its lower-case
/// form under Unicode's case mapping. Its result is named by [`lowercase`].
/// On ASCII text that mapping turns `A`..`Z` into `a`..`z` and keeps every
/// other character, as the documentation's example shows.
/// Nothing more of it is stated.
#[verifier::external_body]
fn to_lowercase(s: &str) -> (r: String)
    ensures
        r@ == lowercase(s@),
        is_ascii_text(s@) ==> r@ == ascii_lower(s@),
{
    s.to_lowercase()
}

/// The characters of a text.
fn chars_of(s: &str) -> (r: Vec<char>)
    ensures
        r@ == s@,
{
    let n = s.unicode_len();
    let mut r: Vec<char> = Vec::new();
    for i in 0..n
        invariant
            n == s@.len(),
            r@ == s@.take(i as int),
    {
        r.push(s.get_char(i));
        assert(r@ =~= s@.take(i + 1));
    }
    assert(s@.take(n as int) =~= s@);
    r
}

/// Whether two texts are equal.
fn text_equals(a: &str, b: &str) -> (r: bool)
    ensures
        r == (a@ == b@),
{
    let n = a.unicode_len();
    let m = b.unicode_len();
    if n != m {
        return false;
    }
    for i in 0..n
        invariant
            n == a@.len(),
            n == b@.len(),
            a@.take(i as int) == b@.take(i as int),
    {
        if a.get_char(i) != b.get_char(i) {
            assert(a@[i as int] != b@[i as int]);
            return false;
        }
        assert(a@.take(i + 1) =~= a@.take(i as int).push(a@[i as int]));
        assert(b@.take(i + 1) =~= b@.take(i as int).push(b@[i as int]));
    }
    assert(a@.take(n as int) =~= a@);
    assert(b@.take(n as int) =~= b@);
    true
}

/// Index of the last `c` among the first `end` characters, or none.
fn last_index_before(s: &Vec<char>, c: char, end: usize) -> (r: Option<usize>)
    requires
        end <= s@.len(),
    ensures
        match r {
            Some(p) => p as int == last_index_of(s@.subrange(0, end as int), c),
            None => last_index_of(s@.subrange(0, end as int), c) == -1,
        },
{
    let mut k = end;
    while k > 0
        invariant
            k <= end <= s@.len(),
            last_index_of(s@.subrange(0, end as int), c) == last_index_of(s@.subrange(0, k as int), c),
        decreases k,
    {
        assert(s@.subrange(0, k as int).drop_last() =~= s@.subrange(0, k - 1));
        if s[k - 1] == c {
            return Some(k - 1);
        }
        k = k - 1;
    }
    None
}

/// The position of the final component of a path, as the range of its
/// characters.
#[verifier::spinoff_prover]
#[verifier::rlimit(30)]
fn file_name_range(s: &Vec<char>) -> (r: Option<(usize, usize)>)
    ensures
        match r {
            Some((a, b)) => a <= b <= s@.len() && file_name(s@) == Some(s@.subrange(a as int, b as int)),
            None => file_name(s@) is None,
        },
{
    let mut end = s.len();
    assert(s@.subrange(0, end as int) =~= s@);
    loop
        invariant
            end <= s@.len(),
            file_name(s@) == file_name(s@.subrange(0, end as int)),
        decreases end,
    {
        let ghost t = s@.subrange(0, end as int);
        let found = last_index_before(s, '/', end);
        proof {
            lemma_last_index_of_bounds(t, '/');
        }
        let start = match found {
            Some(p) => p + 1,
            None => 0,
        };
        let ghost seg = t.subrange(last_index_of(t, '/') + 1, t.len() as int);
        assert(seg =~= s@.subrange(start as int, end as int));
        let len = end - start;
        if len == 0 || (len == 1 && s[start] == '.') {
            assert(seg.len() == 0 || seg =~= seq!['.']);
            match found {
                Some(p) => {
                    assert(t.subrange(0, p as int) =~= s@.subrange(0, p as int));
                    end = p;
                },
                None => {
                    return None;
                },
            }
        } else if len == 2 && s[start] == '.' && s[start + 1] == '.' {
            assert(seg =~= seq!['.', '.']);
            return None;
        } else {
            assert(seg.len() != 0);
            assert(seg != seq!['.']) by {
                if seg == seq!['.'] {
                    assert(seg[0] == s@[start as int]);
                }
            }
            assert(seg != seq!['.', '.']) by {
                if seg == seq!['.', '.'] {
                    assert(seg[0] == s@[start as int]);
                    assert(seg[1] == s@[start + 1]);
                }
            }
            return Some((start, end));
        }
    }
}

/// The range of a path's characters that hold the extension of the file it
/// names.
fn extension_range(s: &Vec<char>) -> (r: Option<(usize, usize)>)
    ensures
        match r {
            Some((a, b)) => a <= b <= s@.len() && path_extension(s@) == Some(
                s@.subrange(a as int, b as int),
            ),
            None => path_extension(s@) is None,
        },
{
    match file_name_range(s) {
        None => None,
        Some((a, b)) => {
            let ghost name = s@.subrange(a as int, b as int);
            let mut k = b;
            assert(name.subrange(0, b - a) =~= name);
            while k > a
                invariant
                    a <= k <= b <= s@.len(),
                    name == s@.subrange(a as int, b as int),
                    file_name(s@) == Some(name),
                    last_index_of(name, '.') == last_index_of(name.subrange(0, k - a), '.'),
                decreases k,
            {
                assert(name.subrange(0, k - a).drop_last() =~= name.subrange(0, k - a - 1));
                if s[k - 1] == '.' {
                    assert(name.subrange(0, k - a).last() == '.');
                    assert(last_index_of(name, '.') == k - a - 1);
                    if k - 1 == a {
                        return None;
                    }
                    assert(name.subrange(k - a, name.len() as int) =~= s@.subrange(k as int, b as int));
                    return Some((k, b));
                }
                k = k - 1;
            }
            assert(name.subrange(0, 0) =~= Seq::<char>::empty());
            None
        },
    }
}

/// The format that a lower-case extension stands for, or the error that
/// names an unsupported extension.
pub fn format_from_extension(lower: &str) -> (r: Result<Format, ConfigPatchError>)
    ensures
        match format_for(lower@) {
            Some(f) => r == Ok::<Format, ConfigPatchError>(f),
            None => is_unsupported(r, "Unsupported file extension: ."@ + lower@),
        },
{
    if text_equals(lower, "json") {
        Ok(Format::Json)
    } else if text_equals(lower, "yaml") || text_equals(lower, "yml") {
        Ok(Format::Yaml)
    } else if text_equals(lower, "toml") {
        Ok(Format::Toml)
    } else {
        let msg = String::from_str("Unsupported file extension: .").concat(lower);
        Err(ConfigPatchError::UnsupportedFormat(msg))
    }
}

/// Detects a file's format from the extension of the file its path names,
/// compared without regard to case: `json`, `yaml` or `yml`, and `toml`.
pub fn detect(path: &str) -> (r: Result<Format, ConfigPatchError>)
    ensures
        match path_extension(path@) {
            None => is_unsupported(r, "No file extension found: "@ + path@),
            Some(ext) => detect_result(lowered(ext), r),
        },
{
    let chars = chars_of(path);
    match extension_range(&chars) {
        None => {
            let msg = String::from_str("No file extension found: ").concat(path);
            Err(ConfigPatchError::UnsupportedFormat(msg))
        },
        Some((a, b)) => {
            let ext = path.substring_char(a, b);
            let lower = to_lowercase(ext);
            format_from_extension(lower.as_str())
        },
    }
}

/// The format of the output: the forced one if given, else the one detected
/// from the output path.
pub fn output_format(forced: Option<Format>, output: &str) -> (r: Result<Format, ConfigPatchError>)
    ensures
        match forced {
            Some(f) => r == Ok::<Format, ConfigPatchError>(f),
            None => match path_extension(output@) {
                None => is_unsupported(r, "No file extension found: "@ + output@),
                Some(ext) => detect_result(lowered(ext), r),
            },
        },
{
    match forced {
        Some(f) => Ok(f),
        None => detect(output),
    }
}

/// The document that a text in the given format holds, if it holds one.
pub open spec fn document(format: Format, text: Seq<char>) -> Option<Json> {
    match format {
        Format::Json => json_document(text),
        Format::Yaml => yaml_document(text),
        Format::Toml => toml_document(text),
    }
}

/// The text that a document is written as in the given format, if it can be
/// written. TOML has no null, so each null is written as the text `null`.
pub open spec fn printed(format: Format, doc: Json) -> Option<Seq<char>> {
    match format {
        Format::Json => json_pretty_text(doc),
        Format::Yaml => yaml_text(doc),
        Format::Toml => toml_text(nulls_as_text(doc)),
    }
}

/// Parses a file's content in the format that its path names.
pub fn parse(content: &str, path: &str) -> (r: Result<Value, ConfigPatchError>)
    ensures
        match path_extension(path@) {
            None => is_unsupported(r, "No file extension found: "@ + path@),
            Some(ext) => match format_for(lowered(ext)) {
                None => is_unsupported(r, "Unsupported file extension: ."@ + lowered(ext)),
                Some(f) => match document(f, content@) {
                    Some(j) => r matches Ok(v) && v@ == j,
                    None => r matches Err(ConfigPatchError::ParseError { path: p, .. }) && p@
                        == path@,
                },
            },
        },
        r matches Ok(v) ==> wf(v@) && numbers_valid(v@),
{
    let format = match detect(path) {
        Ok(f) => f,
        Err(e) => {
            return Err(e);
        },
    };
    let read = match format {
        Format::Json => read_json(content),
        Format::Yaml => read_yaml(content),
        Format::Toml => read_toml(content),
    };
    match read {
        Ok(v) => Ok(v),
        Err(message) => Err(ConfigPatchError::ParseError { path: String::from_str(path), message }),
    }
}

/// Writes a document in the given format.
pub fn serialize(value: &Value, format: Format) -> (r: Result<String, ConfigPatchError>)
    ensures
        match printed(format, value@) {
            Some(s) => r matches Ok(t) && t@ == s,
            None => r matches Err(ConfigPatchError::WriteError(_)),
        },
        format == Format::Json && numbers_valid(value@) ==> r is Ok,
{
    let printed = match format {
        Format::Json => print_json(value),
        Format::Yaml => print_yaml(value),
        Format::Toml => {
            let text_nulls = nulls_to_text(value);
            print_toml(&text_nulls)
        },
    };
    match printed {
        Ok(s) => Ok(s),
        Err(message) => Err(ConfigPatchError::WriteError(message)),
    }
}

/// Each format is read by its own reader, and written by its own printer; a
/// JSON or YAML document is written as it is, and TOML changes only its
/// nulls, so a document without nulls is written as it is in TOML too.
pub proof fn law_formats_use_their_codec(text: Seq<char>, doc: Json)
    ensures
        document(Format::Json, text) == json_document(text),
        document(Format::Yaml, text) == yaml_document(text),
        document(Format::Toml, text) == toml_document(text),
        printed(Format::Json, doc) == json_pretty_text(doc),
        printed(Format::Yaml, doc) == yaml_text(doc),
        null_less(doc) ==> printed(Format::Toml, doc) == toml_text(doc),
{
    if null_less(doc) {
        law_nulls_as_text_keeps_null_less(doc);
    }
}

} // verus!
