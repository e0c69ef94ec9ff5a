//! Portable file locations as relative URLs, `file://`, or `memory://`.
//!
//! Relative URLs in session and composition files keep projects portable;
//! absolute filesystem references are stored only as `file://…`. Paths are
//! `/`-separated strings with Unix meaning (a path is absolute when it starts
//! with `/`).
use vstd::prelude::*;
use vstd::utf8::*;

use crate::text::{
    chars_of, chars_start_with, concat2, concat3, push_char, replace_char, replace_char_spec, starts_with,
    starts_with_spec, string_from, string_of, trim_bounds, trim_spec,
};

verus! {

// ---------------------------------------------------------------------------
// std::path and UTF-8 calls
// ---------------------------------------------------------------------------

/// Name for what `Path::parent` answers for a path.
pub uninterp spec fn path_parent_of(p: Seq<char>) -> Option<Seq<char>>;

/// Name for what `Path::strip_prefix` answers for a path and a base.
pub uninterp spec fn path_strip_prefix_of(p: Seq<char>, base: Seq<char>) -> Option<Seq<char>>;

/// `Path::parent`: the path without its final component, if it has one.
/// Which string that is (component rules) is left to std.
#[verifier::external_body]
pub(crate) fn path_parent(p: &str) -> (out: Option<String>)
    ensures
        match out {
            Some(q) => path_parent_of(p@) == Some(q@),
            None => path_parent_of(p@) is None,
        },
{
    match std::path::Path::new(p).parent() {
        Some(q) => Some(q.to_string_lossy().into_owned()),
        None => None,
    }
}

/// `Path::strip_prefix`: the rest of `p` after the components of `base`, or
/// `None` when `base` is not a component prefix of `p`.
#[verifier::external_body]
pub(crate) fn path_strip_prefix(p: &str, base: &str) -> (out: Option<String>)
    ensures
        match out {
            Some(q) => path_strip_prefix_of(p@, base@) == Some(q@),
            None => path_strip_prefix_of(p@, base@) is None,
        },
{
    match std::path::Path::new(p).strip_prefix(base) {
        Ok(rest) => Some(rest.to_string_lossy().into_owned()),
        Err(_) => None,
    }
}

/// Name for what `Path::extension` answers for a path.
pub uninterp spec fn path_extension_of(p: Seq<char>) -> Option<Seq<char>>;

/// Name for what `Path::file_name` answers for a path.
pub uninterp spec fn path_file_name_of(p: Seq<char>) -> Option<Seq<char>>;

/// Name for what `Path::file_stem` answers for a path.
pub uninterp spec fn path_file_stem_of(p: Seq<char>) -> Option<Seq<char>>;

/// `Path::extension`: the part of the final component after its last `.`,
/// if any. Which part that is (dot-file and component rules) is left to std.
#[verifier::external_body]
pub(crate) fn path_extension(p: &str) -> (out: Option<String>)
    ensures
        match out {
            Some(e) => path_extension_of(p@) == Some(e@),
            None => path_extension_of(p@) is None,
        },
{
    match std::path::Path::new(p).extension() {
        Some(e) => Some(e.to_string_lossy().into_owned()),
        None => None,
    }
}

/// `Path::file_name`: the final component of the path, if any.
#[verifier::external_body]
pub(crate) fn path_file_name(p: &str) -> (out: Option<String>)
    ensures
        match out {
            Some(e) => path_file_name_of(p@) == Some(e@),
            None => path_file_name_of(p@) is None,
        },
{
    match std::path::Path::new(p).file_name() {
        Some(e) => Some(e.to_string_lossy().into_owned()),
        None => None,
    }
}

/// `Path::file_stem`: the final component without its extension, if any.
#[verifier::external_body]
pub(crate) fn path_file_stem(p: &str) -> (out: Option<String>)
    ensures
        match out {
            Some(e) => path_file_stem_of(p@) == Some(e@),
            None => path_file_stem_of(p@) is None,
        },
{
    match std::path::Path::new(p).file_stem() {
        Some(e) => Some(e.to_string_lossy().into_owned()),
        None => None,
    }
}

/// `Path::exists`: whether the filesystem reports something at `p`. The
/// answer depends on the disk, so nothing is promised about it.
#[verifier::external_body]
pub(crate) fn path_exists(p: &str) -> (out: bool)
{
    std::path::Path::new(p).exists()
}

/// `Path::canonicalize`: the absolute, symlink-free form of `p` as the
/// filesystem reports it, or `None` when it cannot be resolved. The answer
/// depends on the disk, so nothing is promised about it.
#[verifier::external_body]
pub(crate) fn canonicalize(p: &str) -> (out: Option<String>)
{
    match std::path::Path::new(p).canonicalize() {
        Ok(c) => Some(c.to_string_lossy().into_owned()),
        Err(_) => None,
    }
}

/// `String::from_utf8`: the string whose UTF-8 encoding is `bytes`, or
/// `None` when `bytes` is not valid UTF-8.
#[verifier::external_body]
pub(crate) fn string_from_utf8(bytes: Vec<u8>) -> (out: Option<String>)
    ensures
        out is Some <==> valid_utf8(bytes@),
        out matches Some(s) ==> s@ == decode_utf8(bytes@),
{
    match String::from_utf8(bytes) {
        Ok(s) => Some(s),
        Err(_) => None,
    }
}

// ---------------------------------------------------------------------------
// Path rules
// ---------------------------------------------------------------------------

/// A Unix path is absolute when it starts with the root `/`.
pub open spec fn is_absolute_spec(p: Seq<char>) -> bool {
    p.len() > 0 && p[0] == '/'
}

/// `PathBuf::join` on Unix: an absolute `rel` replaces `base`; otherwise
/// `rel` is appended, with a `/` in between unless `base` is empty or
/// already ends in `/`.
pub open spec fn path_join_spec(base: Seq<char>, rel: Seq<char>) -> Seq<char> {
    if is_absolute_spec(rel) {
        rel
    } else if base.len() == 0 || base.last() == '/' {
        base + rel
    } else {
        base + seq!['/'] + rel
    }
}

/// Join `rel` onto `base` with Unix path rules.
pub fn path_join(base: &str, rel: &str) -> (out: String)
    ensures
        out@ == path_join_spec(base@, rel@),
{
    let r = chars_of(rel);
    if r.len() > 0 && r[0] == '/' {
        return string_of(&r);
    }
    let b = chars_of(base);
    let mut out = string_of(&b);
    if b.len() > 0 && b[b.len() - 1] != '/' {
        push_char(&mut out, '/');
    }
    out.append(rel);
    proof {
        if b@.len() > 0 {
            assert(b@.last() == b@[b@.len() - 1]);
        }
    }
    out
}

/// Path named by the body of a `file://` URL: the body itself when it
/// starts with `/`, else the body behind a leading `/`.
pub open spec fn file_url_body_path(rest: Seq<char>) -> Seq<char> {
    if is_absolute_spec(rest) { rest } else { seq!['/'] + rest }
}

/// The path a decoded `file://` URL body names.
pub fn path_from_file_url_body(rest: &str) -> (out: String)
    ensures
        out@ == file_url_body_path(rest@),
{
    let cs = chars_of(rest);
    if cs.len() > 0 && cs[0] == '/' {
        string_of(&cs)
    } else {
        let mut out = String::new();
        push_char(&mut out, '/');
        out.append(rest);
        out
    }
}

// ---------------------------------------------------------------------------
// Percent decoding
// ---------------------------------------------------------------------------

/// Value of one hexadecimal digit byte.
pub open spec fn hex_digit(b: u8) -> Option<u8> {
    if 48 <= b <= 57 {
        Some((b - 48) as u8)
    } else if 97 <= b <= 102 {
        Some((b - 87) as u8)
    } else if 65 <= b <= 70 {
        Some((b - 55) as u8)
    } else {
        None
    }
}

/// Value of the two bytes after `%`, read as `u8::from_str_radix(_, 16)`
/// reads them: two hex digits, or `+` and one hex digit.
pub open spec fn hex_pair(b1: u8, b2: u8) -> Option<u8> {
    if b1 == 43 {
        hex_digit(b2)
    } else {
        match (hex_digit(b1), hex_digit(b2)) {
            (Some(h), Some(l)) => Some((h * 16 + l) as u8),
            _ => None,
        }
    }
}

/// Bytes of `bs` with every `%XY` escape decoded; `None` on a bad escape.
pub open spec fn percent_decode_bytes(bs: Seq<u8>) -> Option<Seq<u8>>
    decreases bs.len(),
{
    if bs.len() == 0 {
        Some(Seq::empty())
    } else if bs[0] == 37 {
        if bs.len() < 3 {
            None
        } else {
            match hex_pair(bs[1], bs[2]) {
                None => None,
                Some(v) => match percent_decode_bytes(bs.skip(3)) {
                    None => None,
                    Some(r) => Some(seq![v] + r),
                },
            }
        }
    } else {
        match percent_decode_bytes(bs.skip(1)) {
            None => None,
            Some(r) => Some(seq![bs[0]] + r),
        }
    }
}

/// Percent-decoding of a string: decode the escapes of its UTF-8 bytes and
/// read the result as UTF-8.
pub open spec fn percent_decode_spec(input: Seq<char>) -> Option<Seq<char>> {
    match percent_decode_bytes(encode_utf8(input)) {
        None => None,
        Some(b) => if valid_utf8(b) { Some(decode_utf8(b)) } else { None },
    }
}

/// Hexadecimal digit value of an ASCII byte, upper or lower case.
pub open spec fn hex_value(b: u8) -> int {
    if 48 <= b <= 57 { b - 48 } else if 97 <= b <= 102 { b - 87 } else { b - 55 }
}

/// `b` is an ASCII hexadecimal digit: `0`-`9`, `a`-`f` or `A`-`F`.
pub open spec fn is_hex_byte(b: u8) -> bool {
    (48 <= b <= 57) || (97 <= b <= 102) || (65 <= b <= 70)
}

/// The ASCII lowercase of a byte.
pub open spec fn lower_byte(b: u8) -> u8 {
    if 65 <= b <= 90 { (b + 32) as u8 } else { b }
}

/// An escape `%XY` of two hexadecimal digits, in either case, decodes to the
/// byte `16 * X + Y`, followed by the decoding of the rest.
pub proof fn lemma_escape_decodes_to_byte(x: u8, y: u8, rest: Seq<u8>)
    requires
        is_hex_byte(x),
        is_hex_byte(y),
    ensures
        percent_decode_bytes(seq![37u8, x, y] + rest) == match percent_decode_bytes(rest) {
            None => None,
            Some(r) => Some(seq![(16 * hex_value(x) + hex_value(y)) as u8] + r),
        },
{
    let s = seq![37u8, x, y] + rest;
    assert(s[0] == 37u8 && s[1] == x && s[2] == y);
    assert(s.skip(3) =~= rest);
}

/// Decoding does not depend on the case of the hexadecimal digits of an
/// escape: `%C3` and `%c3` decode alike.
pub proof fn lemma_escape_case_insensitive(x: u8, y: u8, rest: Seq<u8>)
    requires
        is_hex_byte(x),
        is_hex_byte(y),
    ensures
        percent_decode_bytes(seq![37u8, x, y] + rest)
            == percent_decode_bytes(seq![37u8, lower_byte(x), lower_byte(y)] + rest),
{
    lemma_escape_decodes_to_byte(x, y, rest);
    lemma_escape_decodes_to_byte(lower_byte(x), lower_byte(y), rest);
}

fn hex_digit_exec(b: u8) -> (out: Option<u8>)
    ensures
        out == hex_digit(b),
{
    if 48 <= b && b <= 57 {
        Some(b - 48)
    } else if 97 <= b && b <= 102 {
        Some(b - 87)
    } else if 65 <= b && b <= 70 {
        Some(b - 55)
    } else {
        None
    }
}

fn hex_pair_exec(b1: u8, b2: u8) -> (out: Option<u8>)
    ensures
        out == hex_pair(b1, b2),
{
    if b1 == 43 {
        return hex_digit_exec(b2);
    }
    match (hex_digit_exec(b1), hex_digit_exec(b2)) {
        (Some(h), Some(l)) => Some(h * 16 + l),
        _ => None,
    }
}

/// Decode `%XY` escapes; `None` when an escape is cut short, is not hex, or
/// the decoded bytes are not UTF-8.
pub fn percent_decode(input: &str) -> (out: Option<String>)
    ensures
        match out {
            Some(s) => percent_decode_spec(input@) == Some(s@),
            None => percent_decode_spec(input@) is None,
        },
{
    let bytes = input.as_bytes();
    let ghost bs = bytes@;
    let mut out: Vec<u8> = Vec::new();
    let mut i: usize = 0;
    proof {
        assert(bs.skip(0) =~= bs);
    }
    while i < bytes.len()
        invariant
            i <= bs.len(),
            bytes@ == bs,
            bs == encode_utf8(input@),
            percent_decode_bytes(bs) == match percent_decode_bytes(bs.skip(i as int)) {
                None => None,
                Some(r) => Some(out@ + r),
            },
        decreases bs.len() - i,
    {
        let ghost rest = bs.skip(i as int);
        if bytes[i] == 37 {
            if bytes.len() - i <= 2 {
                assert(rest.len() < 3);
                return None;
            }
            let v = match hex_pair_exec(bytes[i + 1], bytes[i + 2]) {
                Some(v) => v,
                None => {
                    assert(rest[1] == bs[i + 1] && rest[2] == bs[i + 2]);
                    return None;
                },
            };
            proof {
                assert(rest[1] == bs[i + 1] && rest[2] == bs[i + 2]);
                assert(rest.skip(3) =~= bs.skip(i + 3));
                match percent_decode_bytes(bs.skip(i + 3)) {
                    None => {},
                    Some(r) => {
                        assert(out@ + (seq![v] + r) =~= out@.push(v) + r);
                    },
                }
            }
            out.push(v);
            i = i + 3;
        } else {
            let b = bytes[i];
            proof {
                assert(rest[0] == b);
                assert(rest.skip(1) =~= bs.skip(i + 1));
                match percent_decode_bytes(bs.skip(i + 1)) {
                    None => {},
                    Some(r) => {
                        assert(out@ + (seq![b] + r) =~= out@.push(b) + r);
                    },
                }
            }
            out.push(b);
            i = i + 1;
        }
    }
    proof {
        assert(bs.skip(bs.len() as int) =~= Seq::<u8>::empty());
        assert(out@ + Seq::<u8>::empty() =~= out@);
    }
    string_from_utf8(out)
}

// ---------------------------------------------------------------------------
// Locations
// ---------------------------------------------------------------------------

/// Why a location could not be used.
#[derive(Clone, Debug, PartialEq, Eq)]
pub enum LocationError {
    /// The URL is empty (after trimming).
    EmptyUrl,
    /// A `file://` URL holds a bad `%` escape or decodes to invalid UTF-8.
    InvalidPercentEncoding,
    /// A relative URL was resolved without a document base.
    NeedsBase { url: String },
    /// The base given for a relative URL could not itself be resolved.
    InvalidBase { url: String },
    /// The location has no parent directory.
    NoParent,
}

impl LocationError {
    /// Human-readable description of the error.
    pub fn message(&self) -> (out: String)
        ensures
            self matches LocationError::NeedsBase { url } ==> out@ == "relative URL `"@ + url@ + "` requires a document base location"@,
            self matches LocationError::InvalidBase { url } ==> out@ == "invalid base location for relative URL "@ + url@,
            self is EmptyUrl ==> out@ == "empty file URL"@,
            self is InvalidPercentEncoding ==> out@ == "invalid percent-encoding in file URL"@,
            self is NoParent ==> out@ == "URL has no parent"@,
    {
        match self {
            LocationError::EmptyUrl => String::from_str("empty file URL"),
            LocationError::InvalidPercentEncoding => String::from_str("invalid percent-encoding in file URL"),
            LocationError::NeedsBase { url } => concat3("relative URL `", url.as_str(), "` requires a document base location"),
            LocationError::InvalidBase { url } => concat2("invalid base location for relative URL ", url.as_str()),
            LocationError::NoParent => String::from_str("URL has no parent"),
        }
    }
}

/// Outcome of resolving a location, over character sequences.
pub enum Resolved {
    Path(Seq<char>),
    Empty,
    BadPercent,
    NeedsBase(Seq<char>),
    BadBase(Seq<char>),
}

/// `r` is the executable form of the outcome `s`.
pub open spec fn result_is(r: Result<String, LocationError>, s: Resolved) -> bool {
    match s {
        Resolved::Path(p) => r matches Ok(q) && q@ == p,
        Resolved::Empty => r matches Err(LocationError::EmptyUrl),
        Resolved::BadPercent => r matches Err(LocationError::InvalidPercentEncoding),
        Resolved::NeedsBase(u) => r matches Err(LocationError::NeedsBase { url }) && url@ == u,
        Resolved::BadBase(u) => r matches Err(LocationError::InvalidBase { url }) && url@ == u,
    }
}

/// Resolution of an already trimmed URL with no base: `memory://` and
/// absolute paths are kept, `file://` bodies are percent-decoded, relative
/// URLs need a base.
pub open spec fn resolve_plain(url: Seq<char>) -> Resolved {
    if url.len() == 0 {
        Resolved::Empty
    } else if starts_with_spec(url, "memory://"@) {
        Resolved::Path(url)
    } else if starts_with_spec(url, "file://"@) {
        match percent_decode_spec(url.skip("file://"@.len() as int)) {
            None => Resolved::BadPercent,
            Some(d) => Resolved::Path(file_url_body_path(d)),
        }
    } else if is_absolute_spec(url) {
        Resolved::Path(url)
    } else {
        Resolved::NeedsBase(url)
    }
}

/// Resolution of a stored location against an optional base location: a
/// relative URL is joined onto the resolved base.
pub open spec fn resolve_spec(raw: Seq<char>, base: Option<Seq<char>>) -> Resolved {
    match resolve_plain(trim_spec(raw)) {
        Resolved::NeedsBase(u) => match base {
            None => Resolved::NeedsBase(u),
            Some(b) => match resolve_plain(trim_spec(b)) {
                Resolved::Path(bp) => Resolved::Path(path_join_spec(bp, u)),
                _ => Resolved::BadBase(u),
            },
        },
        other => other,
    }
}

/// Resolution of a stored location against an optional base directory path.
pub open spec fn resolve_against_spec(raw: Seq<char>, base: Option<Seq<char>>) -> Resolved {
    match resolve_plain(trim_spec(raw)) {
        Resolved::NeedsBase(u) => match base {
            None => Resolved::NeedsBase(u),
            Some(b) => Resolved::Path(path_join_spec(b, u)),
        },
        other => other,
    }
}

/// The stored form is relative: not `memory://`, not `file://`, not absolute.
pub open spec fn is_relative_spec(raw: Seq<char>) -> bool {
    !starts_with_spec(raw, "memory://"@) && !starts_with_spec(raw, "file://"@) && !is_absolute_spec(raw)
}

/// The `file://` URL of an absolute path, `\` separators turned into `/`.
pub open spec fn file_url_of(abs: Seq<char>) -> Seq<char> {
    let s = replace_char_spec(abs, '\\', '/');
    if is_absolute_spec(s) { "file://"@ + s } else { "file:///"@ + s }
}

/// Stored form of a filesystem path: `memory://` paths are kept, anything
/// else becomes the `file://` URL of its canonical form (`canonical`, or the
/// path itself when it could not be canonicalized).
pub open spec fn encode_absolute_spec(path: Seq<char>, canonical: Option<Seq<char>>) -> Seq<char> {
    if starts_with_spec(path, "memory://"@) {
        path
    } else {
        match canonical {
            Some(c) => file_url_of(c),
            None => file_url_of(path),
        }
    }
}

/// Relative form of `path` under `base`: the component-wise rest of `path`
/// after `base` when non-empty, else the same for their canonical forms.
pub open spec fn relative_to_spec(
    path: Seq<char>,
    base: Seq<char>,
    canon_path: Option<Seq<char>>,
    canon_base: Option<Seq<char>>,
) -> Option<Seq<char>> {
    match path_strip_prefix_of(path, base) {
        Some(rel) if rel.len() > 0 => Some(replace_char_spec(rel, '\\', '/')),
        _ => match (canon_path, canon_base) {
            (Some(cp), Some(cb)) => match path_strip_prefix_of(cp, cb) {
                Some(rel) if rel.len() > 0 => Some(replace_char_spec(rel, '\\', '/')),
                _ => None,
            },
            _ => None,
        },
    }
}

/// Stored form preferring a URL relative to `base`.
pub open spec fn relative_location_spec(
    path: Seq<char>,
    base: Seq<char>,
    canon_path: Option<Seq<char>>,
    canon_base: Option<Seq<char>>,
    canon_abs: Option<Seq<char>>,
) -> Seq<char> {
    if starts_with_spec(path, "memory://"@) {
        path
    } else {
        match relative_to_spec(path, base, canon_path, canon_base) {
            Some(rel) => rel,
            None => encode_absolute_spec(path, canon_abs),
        }
    }
}

/// View of an optional string.
pub open spec fn opt_view(o: Option<String>) -> Option<Seq<char>> {
    match o {
        Some(s) => Some(s@),
        None => None,
    }
}

fn resolve_trimmed(url: &[char]) -> (out: Result<String, LocationError>)
    ensures
        result_is(out, resolve_plain(url@)),
{
    if url.len() == 0 {
        return Err(LocationError::EmptyUrl);
    }
    if chars_start_with(url, "memory://") {
        return Ok(string_of(url));
    }
    if chars_start_with(url, "file://") {
        let p = chars_of("file://");
        let rest = string_from(url, p.len(), url.len());
        proof {
            assert(url@.subrange(p@.len() as int, url@.len() as int) =~= url@.skip("file://"@.len() as int));
        }
        return match percent_decode(rest.as_str()) {
            None => Err(LocationError::InvalidPercentEncoding),
            Some(decoded) => Ok(path_from_file_url_body(decoded.as_str())),
        };
    }
    if url[0] == '/' {
        return Ok(string_of(url));
    }
    Err(LocationError::NeedsBase { url: string_of(url) })
}

fn trimmed_chars(s: &str) -> (out: Vec<char>)
    ensures
        out@ == trim_spec(s@),
{
    let cs = chars_of(s);
    let (lo, hi) = trim_bounds(&cs);
    let mut out: Vec<char> = Vec::new();
    let mut i: usize = lo;
    while i < hi
        invariant
            lo <= i <= hi,
            hi <= cs@.len(),
            out@ =~= cs@.subrange(lo as int, i as int),
        decreases hi - i,
    {
        out.push(cs[i]);
        i = i + 1;
    }
    out
}

/// A document or media location in portable URL form.
///
/// Stored forms: a relative path with `/` separators (`takes/a.wav`), an
/// absolute `file://…` URL, or `memory://…` for in-memory media.
#[derive(Clone, Debug, PartialEq, Eq, Hash)]
pub struct Location {
    raw: String,
}

impl View for Location {
    type V = Seq<char>;

    closed spec fn view(&self) -> Seq<char> {
        self.raw@
    }
}

impl Location {
    /// Parse a path, `file://`, relative URL, or `memory://` string; the
    /// stored form is the input with surrounding whitespace removed.
    pub fn parse(input: &str) -> (out: Result<Location, LocationError>)
        ensures
            out is Ok <==> trim_spec(input@).len() > 0,
            out matches Ok(l) ==> l@ == trim_spec(input@),
            out matches Err(e) ==> e is EmptyUrl,
    {
        let cs = chars_of(input);
        let (lo, hi) = trim_bounds(&cs);
        if lo == hi {
            return Err(LocationError::EmptyUrl);
        }
        Ok(Location { raw: string_from(&cs, lo, hi) })
    }

    /// Stored form of `path` given its canonical form (`None` when the path
    /// could not be canonicalized).
    pub fn from_canonical(path: &str, canonical: Option<&str>) -> (out: Location)
        ensures
            out@ == encode_absolute_spec(path@, match canonical { Some(c) => Some(c@), None => None }),
    {
        if starts_with(path, "memory://") {
            return Location { raw: String::from_str(path) };
        }
        let abs = match canonical {
            Some(c) => c,
            None => path,
        };
        let s = replace_char(abs, '\\', '/');
        let cs = chars_of(s.as_str());
        if cs.len() > 0 && cs[0] == '/' {
            Location { raw: concat2("file://", s.as_str()) }
        } else {
            Location { raw: concat2("file:///", s.as_str()) }
        }
    }

    /// Encode a filesystem path as an absolute `file://` URL (or keep `memory://`).
    pub fn from_path(path: &str) -> (out: Location)
        ensures
            exists|c: Option<Seq<char>>| out@ == encode_absolute_spec(path@, c),
    {
        if starts_with(path, "memory://") {
            let out = Location::from_canonical(path, None);
            assert(out@ == encode_absolute_spec(path@, None));
            return out;
        }
        let canonical = canonicalize(path);
        let out = match &canonical {
            Some(c) => Location::from_canonical(path, Some(c.as_str())),
            None => Location::from_canonical(path, None),
        };
        assert(out@ == encode_absolute_spec(path@, opt_view(canonical)));
        out
    }

    /// Relative form of `path` under `base` given their canonical forms.
    pub fn relative_from(path: &str, base: &str, canon_path: Option<&str>, canon_base: Option<&str>) -> (out: Option<String>)
        ensures
            opt_view(out) == relative_to_spec(
                path@,
                base@,
                match canon_path { Some(c) => Some(c@), None => None },
                match canon_base { Some(c) => Some(c@), None => None },
            ),
    {
        match path_strip_prefix(path, base) {
            Some(rel) => {
                if rel.as_str().unicode_len() > 0 {
                    return Some(replace_char(rel.as_str(), '\\', '/'));
                }
            },
            None => {},
        }
        match (canon_path, canon_base) {
            (Some(cp), Some(cb)) => match path_strip_prefix(cp, cb) {
                Some(rel) => {
                    if rel.as_str().unicode_len() > 0 {
                        Some(replace_char(rel.as_str(), '\\', '/'))
                    } else {
                        None
                    }
                },
                None => None,
            },
            _ => None,
        }
    }

    /// Relative form of `path` under `base`, trying the paths as given and
    /// then their canonical forms.
    pub fn relative_to(path: &str, base: &str) -> (out: Option<String>)
        ensures
            exists|cp: Option<Seq<char>>, cb: Option<Seq<char>>| opt_view(out) == relative_to_spec(path@, base@, cp, cb),
    {
        let direct = Location::relative_from(path, base, None, None);
        if direct.is_some() {
            assert(opt_view(direct) == relative_to_spec(path@, base@, None, None));
            return direct;
        }
        let cp = canonicalize(path);
        let cb = match &cp {
            Some(_) => canonicalize(base),
            None => None,
        };
        let out = match (&cp, &cb) {
            (Some(p), Some(b)) => Location::relative_from(path, base, Some(p.as_str()), Some(b.as_str())),
            _ => None,
        };
        assert(opt_view(out) == relative_to_spec(path@, base@, opt_view(cp), opt_view(cb)));
        out
    }

    /// Prefer a relative URL when `path` is under `base`; otherwise absolute `file://`.
    pub fn from_path_relative_to(path: &str, base: &str) -> (out: Location)
        ensures
            exists|cp: Option<Seq<char>>, cb: Option<Seq<char>>, ca: Option<Seq<char>>|
                out@ == relative_location_spec(path@, base@, cp, cb, ca),
    {
        if starts_with(path, "memory://") {
            let out = Location { raw: String::from_str(path) };
            assert(out@ == relative_location_spec(path@, base@, None, None, None));
            return out;
        }
        let rel = Location::relative_to(path, base);
        match rel {
            Some(r) => {
                let ghost (cp, cb) = choose|cp: Option<Seq<char>>, cb: Option<Seq<char>>| opt_view(Some(r)) == relative_to_spec(path@, base@, cp, cb);
                let out = Location { raw: r };
                assert(out@ == relative_location_spec(path@, base@, cp, cb, None));
                out
            },
            None => {
                let ghost (cp, cb) = choose|cp: Option<Seq<char>>, cb: Option<Seq<char>>| opt_view(None) == relative_to_spec(path@, base@, cp, cb);
                let out = Location::from_path(path);
                let ghost ca = choose|c: Option<Seq<char>>| out@ == encode_absolute_spec(path@, c);
                assert(out@ == relative_location_spec(path@, base@, cp, cb, ca));
                out
            },
        }
    }

    /// Serialized form used on disk and in scripts.
    pub fn as_str(&self) -> (out: &str)
        ensures
            out@ == self@,
    {
        self.raw.as_str()
    }

    /// True when this is an in-memory / synthetic location.
    pub fn is_memory(&self) -> (out: bool)
        ensures
            out == starts_with_spec(self@, "memory://"@),
    {
        starts_with(self.raw.as_str(), "memory://")
    }

    /// True when the stored form is a relative URL (not `file://`, not
    /// `memory://`, not an absolute path).
    pub fn is_relative(&self) -> (out: bool)
        ensures
            out == is_relative_spec(self@),
    {
        if self.is_memory() || starts_with(self.raw.as_str(), "file://") {
            return false;
        }
        let cs = chars_of(self.raw.as_str());
        !(cs.len() > 0 && cs[0] == '/')
    }

    /// Resolve to a filesystem path. Relative locations need `base` (the
    /// location of the owning document's directory) and are never resolved
    /// against the working directory.
    pub fn resolve(&self, base: Option<&Location>) -> (out: Result<String, LocationError>)
        ensures
            result_is(out, resolve_spec(self@, match base { Some(b) => Some(b@), None => None })),
    {
        let url = trimmed_chars(self.raw.as_str());
        let plain = resolve_trimmed(&url);
        match plain {
            Err(LocationError::NeedsBase { url: u }) => match base {
                None => Err(LocationError::NeedsBase { url: u }),
                Some(b) => {
                    let bt = trimmed_chars(b.raw.as_str());
                    match resolve_trimmed(&bt) {
                        Ok(base_path) => Ok(path_join(base_path.as_str(), u.as_str())),
                        Err(_) => Err(LocationError::InvalidBase { url: u }),
                    }
                },
            },
            other => other,
        }
    }

    /// Native path for absolute, `file://` and `memory://` locations;
    /// relative locations need [`Self::resolve`] with a base.
    pub fn as_path(&self) -> (out: Result<String, LocationError>)
        ensures
            is_relative_spec(self@) ==> result_is(out, Resolved::NeedsBase(self@)),
            !is_relative_spec(self@) ==> result_is(out, resolve_spec(self@, None)),
    {
        if self.is_relative() {
            return Err(LocationError::NeedsBase { url: self.raw.clone() });
        }
        self.resolve(None)
    }

    /// Resolve against an optional directory path; relative locations are
    /// joined onto `base` as given.
    pub fn resolve_against_path(&self, base: Option<&str>) -> (out: Result<String, LocationError>)
        ensures
            result_is(out, resolve_against_spec(self@, match base { Some(b) => Some(b@), None => None })),
    {
        let url = trimmed_chars(self.raw.as_str());
        let plain = resolve_trimmed(&url);
        match plain {
            Err(LocationError::NeedsBase { url: u }) => match base {
                None => Err(LocationError::NeedsBase { url: u }),
                Some(b) => Ok(path_join(b, u.as_str())),
            },
            other => other,
        }
    }

    /// Parent directory as a location: for relative URLs the parent path
    /// (which must be non-empty), otherwise the `file://` URL of the parent
    /// of the resolved path.
    pub fn parent(&self) -> (out: Result<Location, LocationError>)
        ensures
            is_relative_spec(self@) ==> match path_parent_of(self@) {
                Some(p) if p.len() > 0 => {
                    let q = trim_spec(replace_char_spec(p, '\\', '/'));
                    &&& (out is Ok <==> q.len() > 0)
                    &&& (out matches Ok(l) ==> l@ == q)
                    &&& (out matches Err(e) ==> e is EmptyUrl)
                },
                _ => (out matches Err(e) && e is NoParent),
            },
            !is_relative_spec(self@) && resolve_spec(self@, None) is Path && path_parent_of(resolve_spec(self@, None)->Path_0) is Some
                ==> (out matches Ok(l) && exists|c: Option<Seq<char>>| l@ == encode_absolute_spec(path_parent_of(resolve_spec(self@, None)->Path_0)->0, c)),
            !is_relative_spec(self@) && resolve_spec(self@, None) is Path && path_parent_of(resolve_spec(self@, None)->Path_0) is None
                ==> (out matches Err(e) && e is NoParent),
            !is_relative_spec(self@) && !(resolve_spec(self@, None) is Path) ==> (out matches Err(e) && result_is(Err(e), resolve_spec(self@, None))),
    {
        if self.is_relative() {
            return match path_parent(self.raw.as_str()) {
                Some(p) => {
                    if p.as_str().unicode_len() > 0 {
                        let fixed = replace_char(p.as_str(), '\\', '/');
                        Location::parse(fixed.as_str())
                    } else {
                        Err(LocationError::NoParent)
                    }
                },
                None => Err(LocationError::NoParent),
            };
        }
        let resolved = self.as_path();
        let path = match resolved {
            Ok(p) => p,
            Err(e) => {
                assert(result_is(Err(e), resolve_spec(self@, None)));
                return Err(e);
            },
        };
        assert(resolve_spec(self@, None) == Resolved::Path(path@));
        match path_parent(path.as_str()) {
            Some(q) => {
                let l = Location::from_path(q.as_str());
                assert(path_parent_of(path@) == Some(q@));
                let ghost c = choose|c: Option<Seq<char>>| l@ == encode_absolute_spec(q@, c);
                assert(l@ == encode_absolute_spec(q@, c));
                assert(path_parent_of(resolve_spec(self@, None)->Path_0)->0 == q@);
                assert(exists|c: Option<Seq<char>>| l@ == encode_absolute_spec(path_parent_of(resolve_spec(self@, None)->Path_0)->0, c));
                Ok(l)
            },
            None => Err(LocationError::NoParent),
        }
    }
}

/// Relative locations are never resolved against the working directory:
/// without a base, resolving one (either way) reports that it needs a base.
pub proof fn lemma_relative_needs_base(raw: Seq<char>)
    requires
        trim_spec(raw).len() > 0,
        is_relative_spec(trim_spec(raw)),
    ensures
        resolve_spec(raw, None) == Resolved::NeedsBase(trim_spec(raw)),
        resolve_against_spec(raw, None) == Resolved::NeedsBase(trim_spec(raw)),
{
}

/// Resolving against a base location is resolving against the path that
/// base location resolves to.
pub proof fn lemma_base_location_is_its_path(raw: Seq<char>, base: Seq<char>, base_path: Seq<char>)
    requires
        resolve_plain(trim_spec(base)) == Resolved::Path(base_path),
    ensures
        resolve_spec(raw, Some(base)) == resolve_against_spec(raw, Some(base_path)),
{
}

/// A path under `base` is stored as its relative part (with `/`
/// separators), and resolving that stored form against `base` joins the
/// relative part back onto `base`. Stated for relative parts that are kept
/// as they are by trimming and that read as relative URLs.
pub proof fn lemma_relative_round_trip(
    path: Seq<char>,
    base: Seq<char>,
    rest: Seq<char>,
    canon_path: Option<Seq<char>>,
    canon_base: Option<Seq<char>>,
    canon_abs: Option<Seq<char>>,
)
    requires
        !starts_with_spec(path, "memory://"@),
        path_strip_prefix_of(path, base) == Some(rest),
        rest.len() > 0,
        trim_spec(replace_char_spec(rest, '\\', '/')) == replace_char_spec(rest, '\\', '/'),
        is_relative_spec(replace_char_spec(rest, '\\', '/')),
    ensures
        ({
            let rel = replace_char_spec(rest, '\\', '/');
            &&& relative_location_spec(path, base, canon_path, canon_base, canon_abs) == rel
            &&& resolve_against_spec(rel, Some(base)) == Resolved::Path(path_join_spec(base, rel))
        }),
{
    let rel = replace_char_spec(rest, '\\', '/');
    assert(rel.len() == rest.len());
    assert(rel.len() > 0);
    assert(!starts_with_spec(rel, "memory://"@));
}

} // verus!
