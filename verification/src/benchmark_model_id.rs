//! Normalise provider-reported model ids before storing or sharing benchmarks.
//!
//! llama-server echoes its `--model` argument (often an absolute GGUF path);
//! Ollama-backed runs may report a blob path under `.ollama/models/blobs/`.
//! Hub-style ids such as `meta-llama/Llama-3.1-8B-Instruct` must survive.

use vstd::prelude::*;
use vstd::string::{StrSliceExecFns, StringExecFns};
use vstd::utf8::{encode_scalar, encode_utf8, is_ascii_chars, is_ascii_chars_encode_utf8};

use crate::utf8_len::{lemma_ascii_byte_is_char, lemma_encode_utf8_concat, lemma_encode_utf8_first};

verus! {

/// Outcome of [`normalize_benchmark_model_id`].
#[derive(Debug, Clone, PartialEq, Eq)]
pub struct NormalizedModelId {
    pub id: String,
    /// The stored id is a basename stripped from a machine-specific absolute
    /// path that does not identify the model for human readers (not a GGUF
    /// file name or Ollama `sha256-…` blob id).
    pub opaque: bool,
}

/// A path separator character (`/` or `\`).
pub open spec fn is_separator(c: char) -> bool {
    c == '/' || c == '\\'
}

/// A path separator byte (`/` or `\`).
pub open spec fn is_separator_byte(b: u8) -> bool {
    b == 0x2F || b == 0x5C
}

/// `s` contains `/` or `\`.
pub open spec fn has_separator(s: Seq<char>) -> bool {
    s.contains('/') || s.contains('\\')
}

/// `s` looks like an absolute filesystem path: it starts with `/` or `\`, or
/// its UTF-8 bytes read `?:/` or `?:\` at the front (a drive letter).
pub open spec fn looks_absolute(s: Seq<char>) -> bool {
    let b = encode_utf8(s);
    ||| s.len() > 0 && is_separator(s[0])
    ||| b.len() >= 3 && b[1] == 0x3A && is_separator_byte(b[2])
}

/// ASCII lower-casing of one byte (`u8::to_ascii_lowercase`).
pub open spec fn ascii_lower(b: u8) -> u8 {
    if 0x41 <= b <= 0x5A {
        (b + 32) as u8
    } else {
        b
    }
}

/// The UTF-8 bytes of `s`, ASCII-lower-cased, end in `.gguf`.
pub open spec fn ends_in_gguf(s: Seq<char>) -> bool {
    let b = encode_utf8(s);
    let n = b.len();
    &&& n >= 5
    &&& ascii_lower(b[n - 5]) == 0x2E
    &&& ascii_lower(b[n - 4]) == 0x67
    &&& ascii_lower(b[n - 3]) == 0x67
    &&& ascii_lower(b[n - 2]) == 0x75
    &&& ascii_lower(b[n - 1]) == 0x66
}

/// An ASCII hexadecimal digit byte (`u8::is_ascii_hexdigit`).
pub open spec fn is_hex_digit_byte(b: u8) -> bool {
    ||| 0x30 <= b <= 0x39
    ||| 0x41 <= b <= 0x46
    ||| 0x61 <= b <= 0x66
}

/// The bytes of `sha256-`.
pub open spec fn sha256_prefix() -> Seq<u8> {
    seq![0x73u8, 0x68, 0x61, 0x32, 0x35, 0x36, 0x2D]
}

/// Ollama content-addressed blob file name: `sha256-` and 64 hex digits.
pub open spec fn is_ollama_blob_name(s: Seq<char>) -> bool {
    let b = encode_utf8(s);
    &&& b.len() == 71
    &&& b.subrange(0, 7) == sha256_prefix()
    &&& forall|i: int| 7 <= i < 71 ==> is_hex_digit_byte(#[trigger] b[i])
}

/// The last path component of `s`: what follows its last `/` or `\` (all of
/// `s` when it has none).
pub open spec fn basename_of(s: Seq<char>) -> Seq<char>
    decreases s.len(),
{
    if s.len() == 0 {
        s
    } else if is_separator(s.last()) {
        Seq::empty()
    } else {
        basename_of(s.drop_last()).push(s.last())
    }
}

/// The stored id and the opaque flag for a raw model id:
/// an absolute path to a `.gguf` file becomes its file name; a path ending in
/// an Ollama blob id becomes that blob id; another absolute path becomes its
/// basename, flagged opaque; anything else is kept as it is.
pub open spec fn normalized_model_id(s: Seq<char>) -> (Seq<char>, bool) {
    if looks_absolute(s) && ends_in_gguf(s) {
        (basename_of(s), false)
    } else if has_separator(s) && is_ollama_blob_name(basename_of(s)) {
        (basename_of(s), false)
    } else if looks_absolute(s) {
        (basename_of(s), true)
    } else {
        (s, false)
    }
}

fn contains_char(s: &str, c: char) -> (res: bool)
    ensures
        res == s@.contains(c),
{
    let n = s.unicode_len();
    let mut i: usize = 0;
    while i < n
        invariant
            n == s@.len(),
            i <= n,
            forall|j: int| 0 <= j < i ==> s@[j] != c,
        decreases n - i,
    {
        if s.get_char(i) == c {
            assert(s@[i as int] == c);
            return true;
        }
        i = i + 1;
    }
    false
}

/// Returns true when `id` looks like an absolute filesystem path.
fn is_absolute_path(id: &str) -> (res: bool)
    ensures
        res == looks_absolute(id@),
{
    if id.unicode_len() > 0 {
        let c = id.get_char(0);
        if c == '/' || c == '\\' {
            return true;
        }
    }
    let b = id.as_bytes();
    // `?:/` or `?:\` at the front, `?` being any one byte.
    b.len() >= 3 && b[1] == 0x3A && (b[2] == 0x2F || b[2] == 0x5C)
}

/// `std::path::MAIN_SEPARATOR`, the platform's primary path separator.
/// Nothing is stated of which character it is.
#[verifier::external_body]
fn main_separator() -> char {
    std::path::MAIN_SEPARATOR
}

/// `s` contains the platform separator `main_sep`, or `/` or `\` where that is
/// not the platform separator.
pub open spec fn contains_path_separator(s: Seq<char>, main_sep: char) -> bool {
    ||| s.contains(main_sep)
    ||| main_sep != '/' && s.contains('/')
    ||| main_sep != '\\' && s.contains('\\')
}

/// True when `id` contains the platform separator, `/` or `\`.
fn has_path_separator(id: &str) -> (res: bool)
    ensures
        exists|main_sep: char| res == #[trigger] contains_path_separator(id@, main_sep),
        has_separator(id@) ==> res,
{
    let sep = main_separator();
    let res = contains_char(id, sep) || (sep != '/' && contains_char(id, '/')) || (sep != '\\'
        && contains_char(id, '\\'));
    assert(res == contains_path_separator(id@, sep));
    res
}

/// The last path component of `id`.
fn basename(id: &str) -> (res: &str)
    ensures
        res@ == basename_of(id@),
{
    let n = id.unicode_len();
    let mut i = n;
    assert(id@.subrange(0, n as int) =~= id@);
    assert(id@.subrange(n as int, n as int) =~= Seq::<char>::empty());
    while i > 0
        invariant
            n == id@.len(),
            i <= n,
            basename_of(id@) == basename_of(id@.subrange(0, i as int)) + id@.subrange(
                i as int,
                n as int,
            ),
        decreases i,
    {
        let c = id.get_char(i - 1);
        let ghost pre = id@.subrange(0, i as int);
        assert(pre.drop_last() =~= id@.subrange(0, i - 1));
        assert(pre.last() == c);
        if c == '/' || c == '\\' {
            return id.substring_char(i, n);
        }
        assert(id@.subrange(i - 1, n as int) =~= seq![c] + id@.subrange(i as int, n as int));
        assert(basename_of(pre) + id@.subrange(i as int, n as int) =~= basename_of(pre.drop_last())
            + id@.subrange(i - 1, n as int));
        i = i - 1;
    }
    assert(id@.subrange(0, 0) =~= Seq::<char>::empty());
    assert(id@.subrange(0, n as int) =~= id@);
    id.substring_char(0, n)
}

fn ascii_lowercase(b: u8) -> (res: u8)
    ensures
        res == ascii_lower(b),
{
    if 0x41 <= b && b <= 0x5A {
        b + 32
    } else {
        b
    }
}

/// `id.to_ascii_lowercase().ends_with(".gguf")`, compared byte by byte.
fn has_gguf_extension(id: &str) -> (res: bool)
    ensures
        res == ends_in_gguf(id@),
{
    let b = id.as_bytes();
    let n = b.len();
    if n < 5 {
        return false;
    }
    // The bytes of `.gguf`.
    ascii_lowercase(b[n - 5]) == 0x2E && ascii_lowercase(b[n - 4]) == 0x67 && ascii_lowercase(
        b[n - 3],
    ) == 0x67 && ascii_lowercase(b[n - 2]) == 0x75 && ascii_lowercase(b[n - 1]) == 0x66
}

fn is_hex_digit(b: u8) -> (res: bool)
    ensures
        res == is_hex_digit_byte(b),
{
    (0x30 <= b && b <= 0x39) || (0x41 <= b && b <= 0x46) || (0x61 <= b && b <= 0x66)
}

/// Ollama content-addressed blob file name (`sha256-` + 64 hex digits).
fn is_ollama_blob_basename(name: &str) -> (res: bool)
    ensures
        res == is_ollama_blob_name(name@),
{
    let b = name.as_bytes();
    if b.len() < 7 {
        return false;
    }
    // The bytes of `sha256-`.
    if !(b[0] == 0x73 && b[1] == 0x68 && b[2] == 0x61 && b[3] == 0x32 && b[4] == 0x35 && b[5]
        == 0x36 && b[6] == 0x2D) {
        assert(b@.subrange(0, 7) != sha256_prefix()) by {
            let p = b@.subrange(0, 7);
            assert(p[0] == b@[0] && p[1] == b@[1] && p[2] == b@[2] && p[3] == b@[3]);
            assert(p[4] == b@[4] && p[5] == b@[5] && p[6] == b@[6]);
        }
        return false;
    }
    assert(b@.subrange(0, 7) =~= sha256_prefix());
    if b.len() - 7 != 64 {
        return false;
    }
    let mut i: usize = 7;
    while i < 71
        invariant
            b@ == encode_utf8(name@),
            b@.len() == 71,
            7 <= i <= 71,
            forall|j: int| 7 <= j < i ==> is_hex_digit_byte(#[trigger] b@[j]),
        decreases 71 - i,
    {
        if !is_hex_digit(b[i]) {
            return false;
        }
        i = i + 1;
    }
    true
}

/// A basename holds no path separator.
pub proof fn lemma_basename_has_no_separator(s: Seq<char>)
    ensures
        !has_separator(basename_of(s)),
    decreases s.len(),
{
    if s.len() > 0 && !is_separator(s.last()) {
        let p = s.drop_last();
        lemma_basename_has_no_separator(p);
        let b = basename_of(s);
        assert(b == basename_of(p).push(s.last()));
        assert forall|i: int| 0 <= i < b.len() implies !is_separator(#[trigger] b[i]) by {
            if i < b.len() - 1 {
                assert(b[i] == basename_of(p)[i]);
                if is_separator(b[i]) {
                    assert(basename_of(p).contains(b[i]));
                }
            }
        }
    } else if s.len() > 0 {
        assert(basename_of(s) =~= Seq::<char>::empty());
    }
}

/// A basename is a suffix of the text it was taken from.
pub proof fn lemma_basename_is_suffix(s: Seq<char>)
    ensures
        basename_of(s).len() <= s.len(),
        basename_of(s) == s.subrange(s.len() - basename_of(s).len(), s.len() as int),
    decreases s.len(),
{
    if s.len() == 0 {
        assert(s.subrange(0, 0) =~= s);
    } else if is_separator(s.last()) {
        assert(s.subrange(s.len() as int, s.len() as int) =~= Seq::<char>::empty());
    } else {
        let p = s.drop_last();
        lemma_basename_is_suffix(p);
        let k = basename_of(p).len();
        assert(basename_of(s) =~= s.subrange(s.len() - (k + 1), s.len() as int));
    }
}

/// Text with no path separator is its own basename.
proof fn lemma_basename_without_separator(s: Seq<char>)
    requires
        !has_separator(s),
    ensures
        basename_of(s) == s,
    decreases s.len(),
{
    if s.len() > 0 {
        let p = s.drop_last();
        assert(!is_separator(s.last())) by {
            assert(s.contains(s[s.len() - 1]));
        }
        assert(!has_separator(p)) by {
            if p.contains('/') {
                let i = choose|i: int| 0 <= i < p.len() && p[i] == '/';
                assert(s[i] == '/');
            }
            if p.contains('\\') {
                let i = choose|i: int| 0 <= i < p.len() && p[i] == '\\';
                assert(s[i] == '\\');
            }
        }
        lemma_basename_without_separator(p);
        assert(p.push(s.last()) =~= s);
    }
}

/// Text with no path separator does not look like an absolute path.
proof fn lemma_no_separator_not_absolute(s: Seq<char>)
    requires
        !has_separator(s),
    ensures
        !looks_absolute(s),
{
    if s.len() > 0 {
        assert(!is_separator(s[0])) by {
            assert(s.contains(s[0]));
        }
    }
    let b = encode_utf8(s);
    if b.len() >= 3 && b[1] == 0x3A && is_separator_byte(b[2]) {
        lemma_ascii_byte_is_char(s, 2);
        let j = choose|j: int| 0 <= j < s.len() && s[j] as u32 == b[2] as u32;
        vstd::utf8::char_u32_cast(s[j], s[j] as u32);
        vstd::utf8::char_u32_cast('/', '/' as u32);
        vstd::utf8::char_u32_cast('\\', '\\' as u32);
        assert(s[j] == '/' || s[j] == '\\');
        assert(s.contains(s[j]));
    }
}

/// An Ollama blob name does not look like an absolute path.
proof fn lemma_blob_name_not_absolute(s: Seq<char>)
    requires
        is_ollama_blob_name(s),
    ensures
        !looks_absolute(s),
{
    let b = encode_utf8(s);
    assert(b[0] == b.subrange(0, 7)[0]);
    assert(b[1] == b.subrange(0, 7)[1]);
    if s.len() == 0 {
        assert(b.len() == 0);
    } else {
        lemma_encode_utf8_first(s);
    }
}

/// Apply storage/share policy to a raw model id.
pub fn normalize_benchmark_model_id(id: &str) -> (res: NormalizedModelId)
    ensures
        (res.id@, res.opaque) == normalized_model_id(id@),
{
    // (1) Absolute path to a `.gguf` file → bare file name.
    if is_absolute_path(id) && has_gguf_extension(id) {
        return NormalizedModelId { id: String::from_str(basename(id)), opaque: false };
    }

    // (2) Path whose final component is an Ollama blob id.
    if has_path_separator(id) {
        let base = basename(id);
        if is_ollama_blob_basename(base) {
            proof {
                if !has_separator(id@) {
                    lemma_basename_without_separator(id@);
                    lemma_blob_name_not_absolute(id@);
                }
            }
            return NormalizedModelId { id: String::from_str(base), opaque: false };
        }
    }

    // (3) Other absolute paths → basename only; flag as opaque for local audit.
    if is_absolute_path(id) {
        return NormalizedModelId { id: String::from_str(basename(id)), opaque: true };
    }
    NormalizedModelId { id: String::from_str(id), opaque: false }
}

/// Normalising is idempotent: a stored id normalises to itself, never opaque.
pub proof fn lemma_normalize_idempotent(s: Seq<char>)
    ensures
        normalized_model_id(normalized_model_id(s).0) == (normalized_model_id(s).0, false),
{
    let r = normalized_model_id(s).0;
    if looks_absolute(s) || (has_separator(s) && is_ollama_blob_name(basename_of(s))) {
        lemma_basename_has_no_separator(s);
        assert(r == basename_of(s));
        lemma_no_separator_not_absolute(r);
    }
}

/// Ids that are not absolute paths and do not end in an Ollama blob id, such
/// as hub-style ids, are kept as they are and not flagged opaque.
pub proof fn lemma_normalize_keeps_logical_ids(s: Seq<char>)
    requires
        !looks_absolute(s),
        !is_ollama_blob_name(basename_of(s)),
    ensures
        normalized_model_id(s) == (s, false),
{
}

/// Ids without any path separator are kept as they are and not flagged opaque.
pub proof fn lemma_normalize_keeps_bare_names(s: Seq<char>)
    requires
        !has_separator(s),
    ensures
        normalized_model_id(s) == (s, false),
{
    lemma_no_separator_not_absolute(s);
}

/// The stored id is always a suffix of the raw id.
pub proof fn lemma_normalized_id_is_suffix(s: Seq<char>)
    ensures
        normalized_model_id(s).0.len() <= s.len(),
        normalized_model_id(s).0 == s.subrange(
            s.len() - normalized_model_id(s).0.len(),
            s.len() as int,
        ),
{
    lemma_basename_is_suffix(s);
    assert(s.subrange(0, s.len() as int) =~= s);
}

/// An absolute path is never stored whole: the stored id holds no path separator.
pub proof fn lemma_absolute_paths_lose_directories(s: Seq<char>)
    requires
        looks_absolute(s),
    ensures
        !has_separator(normalized_model_id(s).0),
{
    lemma_basename_has_no_separator(s);
}

/// Only absolute paths that are neither GGUF files nor Ollama blobs are flagged opaque.
pub proof fn lemma_opaque_only_for_unrecognised_absolute_paths(s: Seq<char>)
    ensures
        normalized_model_id(s).1 <==> (looks_absolute(s) && !ends_in_gguf(s) && !(has_separator(
            s,
        ) && is_ollama_blob_name(basename_of(s)))),
{
}

/// ASCII text encodes as one byte per character, each byte the character's code.
proof fn lemma_ascii_text_bytes(t: Seq<char>)
    requires
        is_ascii_chars(t),
    ensures
        encode_utf8(t).len() == t.len(),
        forall|i: int| 0 <= i < t.len() ==> #[trigger] encode_utf8(t)[i] == t[i] as u8,
{
    is_ascii_chars_encode_utf8(t);
}

/// `s` begins with a one-byte character, a colon and a path separator, as a
/// drive-letter path such as `C:\models` does.
pub open spec fn starts_with_drive(s: Seq<char>) -> bool {
    &&& s.len() >= 3
    &&& (s[0] as u32) < 0x80
    &&& s[1] == ':'
    &&& is_separator(s[2])
}

proof fn lemma_absolute_forms(s: Seq<char>)
    requires
        (s.len() > 0 && is_separator(s[0])) || starts_with_drive(s),
    ensures
        looks_absolute(s),
{
    if starts_with_drive(s) && !(s.len() > 0 && is_separator(s[0])) {
        let s1 = s.drop_first();
        let s2 = s1.drop_first();
        lemma_encode_utf8_first(s);
        lemma_encode_utf8_first(s1);
        lemma_encode_utf8_first(s2);
        assert(s1[0] == ':' && is_separator(s2[0]));
        assert(encode_scalar(s[0] as u32).len() == 1);
        assert(encode_scalar(s1[0] as u32).len() == 1);
        let b = encode_utf8(s);
        assert(b[1] == encode_utf8(s1)[0]);
        assert(encode_utf8(s1)[1] == encode_utf8(s2)[0]);
        assert(b[2] == encode_utf8(s2)[0]);
    }
}

/// A path that starts with `/` or `\`, or with a drive letter, is stored as its
/// last path component only: no directory of the local machine is kept.
pub proof fn lemma_absolute_path_stored_as_basename(s: Seq<char>)
    requires
        (s.len() > 0 && (s[0] == '/' || s[0] == '\\')) || starts_with_drive(s),
    ensures
        normalized_model_id(s).0 == basename_of(s),
        !has_separator(normalized_model_id(s).0),
        normalized_model_id(s).0 != s,
{
    lemma_absolute_forms(s);
    lemma_basename_has_no_separator(s);
    if s.len() > 0 && is_separator(s[0]) {
        assert(s.contains(s[0]));
    } else {
        assert(s.contains(s[2]));
    }
}

/// A path that starts with `/` or `\`, or with a drive letter, and ends in
/// `.gguf` (any ASCII case) is stored as its GGUF file name, not flagged opaque.
pub proof fn lemma_absolute_gguf_path_keeps_file_name(s: Seq<char>)
    requires
        (s.len() > 0 && (s[0] == '/' || s[0] == '\\')) || starts_with_drive(s),
        s.len() >= 5,
        s[s.len() - 5] == '.',
        s[s.len() - 4] == 'g' || s[s.len() - 4] == 'G',
        s[s.len() - 3] == 'g' || s[s.len() - 3] == 'G',
        s[s.len() - 2] == 'u' || s[s.len() - 2] == 'U',
        s[s.len() - 1] == 'f' || s[s.len() - 1] == 'F',
    ensures
        normalized_model_id(s) == (basename_of(s), false),
{
    lemma_absolute_forms(s);
    let n = s.len();
    let p = s.subrange(0, n - 5);
    let t = s.subrange(n - 5, n as int);
    assert(s =~= p + t);
    lemma_encode_utf8_concat(p, t);
    assert(is_ascii_chars(t)) by {
        assert forall|i: int| 0 <= i < t.len() implies '\0' <= #[trigger] t[i] <= '\u{7f}' by {
            assert(t[i] == s[n - 5 + i]);
        }
    }
    lemma_ascii_text_bytes(t);
    let b = encode_utf8(s);
    let m = b.len();
    assert(m == encode_utf8(p).len() + 5);
    assert forall|i: int| 0 <= i < 5 implies b[m - 5 + i] == t[i] as u8 by {
        assert(b[m - 5 + i] == encode_utf8(t)[i]);
    }
    assert(t[0] == s[n - 5] && t[1] == s[n - 4] && t[2] == s[n - 3] && t[3] == s[n - 2] && t[4]
        == s[n - 1]);
    assert(b[m - 5] == t[0] as u8 && b[m - 4] == t[1] as u8 && b[m - 3] == t[2] as u8);
    assert(b[m - 2] == t[3] as u8 && b[m - 1] == t[4] as u8);
    assert(ends_in_gguf(s));
}

/// An ASCII hexadecimal digit character.
pub open spec fn is_hex_digit_char(c: char) -> bool {
    ||| '0' <= c <= '9'
    ||| 'a' <= c <= 'f'
    ||| 'A' <= c <= 'F'
}

/// A path whose last component is `sha256-` and 64 hex digits is stored as
/// that blob id, not flagged opaque.
pub proof fn lemma_blob_path_keeps_blob_id(s: Seq<char>)
    requires
        has_separator(s),
        basename_of(s).len() == 71,
        basename_of(s).subrange(0, 7) == seq!['s', 'h', 'a', '2', '5', '6', '-'],
        forall|i: int| 7 <= i < 71 ==> is_hex_digit_char(#[trigger] basename_of(s)[i]),
    ensures
        normalized_model_id(s) == (basename_of(s), false),
{
    let t = basename_of(s);
    let pre = t.subrange(0, 7);
    assert(is_ascii_chars(t)) by {
        assert forall|i: int| 0 <= i < t.len() implies '\0' <= #[trigger] t[i] <= '\u{7f}' by {
            if i < 7 {
                assert(t[i] == pre[i]);
            } else {
                assert(is_hex_digit_char(t[i]));
            }
        }
    }
    lemma_ascii_text_bytes(t);
    let b = encode_utf8(t);
    assert(b.subrange(0, 7) =~= sha256_prefix()) by {
        assert forall|i: int| 0 <= i < 7 implies b[i] == pre[i] as u8 by {
            assert(t[i] == pre[i]);
        }
    }
    assert forall|i: int| 7 <= i < 71 implies is_hex_digit_byte(#[trigger] b[i]) by {
        assert(b[i] == t[i] as u8);
        assert(is_hex_digit_char(t[i]));
    }
    assert(is_ollama_blob_name(t));
}

} // verus!
