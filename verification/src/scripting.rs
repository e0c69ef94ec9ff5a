//! Text rules of the scripting host: log levels, shebang stripping, file
//! extension filters, relative path joins and the default module search
//! templates.
use vstd::prelude::*;

use crate::location::{path_extension, path_extension_of, path_join, path_join_spec};
use crate::text::{
    replace_char, replace_char_spec, ascii_lower_all, chars_of, chars_start_with, chars_to_ascii_lower, concat2, push_char, starts_with_spec,
    string_from, string_of, trim_bounds, trim_spec,
};

verus! {

/// Profile for the enclosing application process.
#[derive(Clone, Debug)]
pub struct HostProfile {
    /// Read-only `app.name` (e.g. `"field-assist"`, `"field-batch"`).
    pub name: &'static str,
    /// Optional config directory for `field.include` and user scripts.
    pub config_dir: Option<String>,
}

/// Captured print / expression output of one evaluation.
#[derive(Clone, Debug, PartialEq, Eq)]
pub struct EvalOutput {
    /// Lines written with `print`.
    pub prints: Vec<String>,
    /// Stringified return value(s), if any.
    pub result: Option<String>,
    /// Runtime error message, if any.
    pub error: Option<String>,
}

/// Log severity for [`LogEntry`].
#[derive(Clone, Copy, Debug, PartialEq, Eq, Structural)]
pub enum LogLevel {
    /// Informational.
    Info,
    /// Warning.
    Warn,
    /// Error.
    Error,
}

impl LogLevel {
    /// Lowercase label.
    pub fn as_str(self) -> (out: &'static str)
        ensures
            self is Info ==> out@ == "info"@,
            self is Warn ==> out@ == "warn"@,
            self is Error ==> out@ == "error"@,
    {
        match self {
            LogLevel::Info => "info",
            LogLevel::Warn => "warn",
            LogLevel::Error => "error",
        }
    }
}

/// One structured log line from `field.log`.
#[derive(Clone, Debug, PartialEq, Eq)]
pub struct LogEntry {
    /// Severity.
    pub level: LogLevel,
    /// Topic tag.
    pub topic: String,
    /// Message body.
    pub message: String,
}

/// Result of resuming a stateful workflow after a session is loaded.
#[derive(Clone, Debug, PartialEq, Eq)]
pub enum ResumeWorkflow {
    /// The session names no workflow (`None` in the scripting API).
    NoWorkflow,
    /// The workflow was resumed.
    Resumed,
    /// The session names an unknown or one-shot workflow.
    Unknown {
        /// Persisted workflow name.
        name: String,
    },
}

/// How an export profile selects composition channels.
#[derive(Clone, Debug, PartialEq, Eq)]
pub enum ExportChannels {
    /// Every composition channel.
    All,
    /// Explicit 0-based channel indices.
    Indices(Vec<usize>),
}

/// Horizontal placement of a workflow toolbar control.
#[derive(Clone, Copy, Debug, PartialEq, Eq, Structural)]
pub enum ToolbarAlign {
    Left,
    Right,
}

/// What a toolbar path entry's browse button picks.
#[derive(Clone, Copy, Debug, PartialEq, Eq, Structural)]
pub enum PathBrowse {
    File,
    Directory,
}

// ---------------------------------------------------------------------------
// Shebang
// ---------------------------------------------------------------------------

/// Index of the first `c` in `s` at or after `from`.
pub open spec fn find_char_from(s: Seq<char>, c: char, from: int) -> Option<int>
    decreases s.len() - from,
{
    if from < 0 || from >= s.len() {
        None
    } else if s[from] == c {
        Some(from)
    } else {
        find_char_from(s, c, from + 1)
    }
}

/// `s` without a leading byte-order mark.
pub open spec fn strip_bom(s: Seq<char>) -> Seq<char> {
    if s.len() > 0 && s[0] == '\u{feff}' { s.skip(1) } else { s }
}

/// Script text after a leading byte-order mark and a `#!` line are removed;
/// a `#!` line without a newline leaves nothing.
pub open spec fn strip_shebang_spec(s: Seq<char>) -> Seq<char> {
    let t = strip_bom(s);
    if t.len() >= 2 && t[0] == '#' && t[1] == '!' {
        match find_char_from(t, '\n', 2) {
            Some(i) => t.skip(i + 1),
            None => Seq::empty(),
        }
    } else {
        t
    }
}

/// Drop a leading byte-order mark and Unix shebang line from script text.
pub fn strip_shebang(source: &str) -> (out: &str)
    ensures
        out@ == strip_shebang_spec(source@),
{
    let cs = chars_of(source);
    let n = cs.len();
    let start: usize = if n > 0 && cs[0] == '\u{feff}' { 1 } else { 0 };
    let ghost t = strip_bom(source@);
    proof {
        assert(t =~= cs@.subrange(start as int, n as int));
    }
    if n - start >= 2 && cs[start] == '#' && cs[start + 1] == '!' {
        let mut i: usize = start + 2;
        while i < n && cs[i] != '\n'
            invariant
                start + 2 <= i <= n,
                n == cs@.len(),
                cs@ == source@,
                t =~= cs@.subrange(start as int, n as int),
                find_char_from(t, '\n', 2) == find_char_from(t, '\n', i - start),
            decreases n - i,
        {
            proof {
                assert(t[i - start] == cs@[i as int]);
            }
            i = i + 1;
        }
        if i < n {
            proof {
                assert(t[i - start] == cs@[i as int]);
                assert(t.skip(i - start + 1) =~= source@.subrange(i + 1, n as int));
            }
            source.substring_char(i + 1, n)
        } else {
            proof {
                assert(source@.subrange(n as int, n as int) =~= Seq::<char>::empty());
            }
            source.substring_char(n, n)
        }
    } else {
        source.substring_char(start, n)
    }
}

// ---------------------------------------------------------------------------
// Extension filters
// ---------------------------------------------------------------------------

/// `s` without leading `.` characters.
pub open spec fn drop_leading_dots(s: Seq<char>) -> Seq<char>
    decreases s.len(),
{
    if s.len() > 0 && s[0] == '.' { drop_leading_dots(s.drop_first()) } else { s }
}

/// An extension filter token normalized: trimmed, leading dots removed,
/// ASCII-lowercased.
pub open spec fn normalize_extension_spec(value: Seq<char>) -> Seq<char> {
    ascii_lower_all(drop_leading_dots(trim_spec(value)))
}

/// Normalize an extension filter token.
pub fn normalize_extension(value: &str) -> (out: String)
    ensures
        out@ == normalize_extension_spec(value@),
{
    let cs = chars_of(value);
    let (lo, hi) = trim_bounds(&cs);
    let ghost t = cs@.subrange(lo as int, hi as int);
    let mut start = lo;
    proof {
        assert(cs@.subrange(start as int, hi as int) =~= t);
    }
    while start < hi && cs[start] == '.'
        invariant
            lo <= start <= hi,
            hi <= cs@.len(),
            drop_leading_dots(t) == drop_leading_dots(cs@.subrange(start as int, hi as int)),
        decreases hi - start,
    {
        proof {
            assert(cs@.subrange(start as int, hi as int).drop_first() =~= cs@.subrange(start + 1, hi as int));
        }
        start = start + 1;
    }
    let mut kept: Vec<char> = Vec::new();
    let mut i = start;
    while i < hi
        invariant
            start <= i <= hi,
            hi <= cs@.len(),
            kept@ =~= cs@.subrange(start as int, i as int),
        decreases hi - i,
    {
        kept.push(cs[i]);
        i = i + 1;
    }
    let lower = chars_to_ascii_lower(&kept);
    string_of(&lower)
}

/// Character views of a list of strings.
pub open spec fn string_views(s: Seq<String>) -> Seq<Seq<char>> {
    s.map_values(|e: String| e@)
}

/// Whether the extension of `basename`, ASCII-lowercased, is one of `extensions`.
pub open spec fn extension_matches_spec(basename: Seq<char>, extensions: Seq<Seq<char>>) -> bool {
    match path_extension_of(basename) {
        None => false,
        Some(ext) => extensions.contains(ascii_lower_all(ext)),
    }
}

/// Whether `basename` has one of the (normalized) `extensions`.
pub fn extension_matches(basename: &str, extensions: &[String]) -> (out: bool)
    ensures
        out == extension_matches_spec(basename@, string_views(extensions@)),
{
    let ext = match path_extension(basename) {
        Some(e) => e,
        None => return false,
    };
    let ec = chars_of(ext.as_str());
    let lower_chars = chars_to_ascii_lower(&ec);
    let lower = string_of(&lower_chars);
    let ghost wanted = string_views(extensions@);
    let mut i: usize = 0;
    while i < extensions.len()
        invariant
            i <= extensions@.len(),
            wanted == string_views(extensions@),
            lower@ == ascii_lower_all(ext@),
            path_extension_of(basename@) == Some(ext@),
            forall|k: int| 0 <= k < i ==> #[trigger] wanted[k] != lower@,
        decreases extensions.len() - i,
    {
        if extensions[i] == lower {
            proof {
                assert(wanted[i as int] == lower@);
                assert(wanted.contains(lower@));
            }
            return true;
        }
        i = i + 1;
    }
    proof {
        assert(!wanted.contains(lower@));
    }
    false
}

/// Relative path of `name` inside `dir` (`dir` empty means the root).
pub open spec fn join_rel_spec(dir: Seq<char>, name: Seq<char>) -> Seq<char> {
    if dir.len() == 0 { name } else { dir + seq!['/'] + name }
}

/// Join a relative directory and a file name with `/`.
pub fn join_rel(dir: &str, name: &str) -> (out: String)
    ensures
        out@ == join_rel_spec(dir@, name@),
{
    if dir.unicode_len() == 0 {
        return String::from_str(name);
    }
    let mut out = String::from_str(dir);
    push_char(&mut out, '/');
    out.append(name);
    out
}

// ---------------------------------------------------------------------------
// Module search templates
// ---------------------------------------------------------------------------

/// Default `package.path`: templates under the config directory (when
/// given) and then the working directory.
pub open spec fn local_lua_path_spec(config_dir: Option<Seq<char>>) -> Seq<char> {
    match config_dir {
        Some(base) => base + "/?.lua;"@ + base + "/?/init.lua;./?.lua;./?/init.lua"@,
        None => "./?.lua;./?/init.lua"@,
    }
}

/// Default `package.cpath` on Unix (shared objects `.so`).
pub open spec fn local_c_path_spec(config_dir: Option<Seq<char>>) -> Seq<char> {
    match config_dir {
        Some(base) => base + "/?.so;./?.so"@,
        None => "./?.so"@,
    }
}

/// Default Lua module search path for an optional config directory.
pub fn local_lua_path(config_dir: Option<&str>) -> (out: String)
    ensures
        out@ == local_lua_path_spec(match config_dir { Some(c) => Some(c@), None => None }),
{
    match config_dir {
        Some(base) => {
            let mut out = String::from_str(base);
            out.append("/?.lua;");
            out.append(base);
            out.append("/?/init.lua;./?.lua;./?/init.lua");
            out
        },
        None => String::from_str("./?.lua;./?/init.lua"),
    }
}

/// Default native module search path for an optional config directory.
pub fn local_c_path(config_dir: Option<&str>) -> (out: String)
    ensures
        out@ == local_c_path_spec(match config_dir { Some(c) => Some(c@), None => None }),
{
    match config_dir {
        Some(base) => concat2(base, "/?.so;./?.so"),
        None => String::from_str("./?.so"),
    }
}

/// `s` without trailing `/` and `\\` characters.
pub open spec fn trim_end_separators(s: Seq<char>) -> Seq<char>
    decreases s.len(),
{
    if s.len() > 0 && (s.last() == '/' || s.last() == '\\') { trim_end_separators(s.drop_last()) } else { s }
}

/// A module template is one of the defaults: relative to the working
/// directory, or inside the config directory.
pub open spec fn is_default_local_template_spec(template: Seq<char>, config_dir: Option<Seq<char>>) -> bool {
    if starts_with_spec(template, "./"@) || starts_with_spec(template, ".\\"@) {
        true
    } else {
        match config_dir {
            None => false,
            Some(c) => {
                let config = trim_end_separators(c);
                &&& config.len() > 0
                &&& starts_with_spec(template, config)
                &&& (template.len() == config.len() || template[config.len() as int] == '/' || template[config.len() as int] == '\\')
            },
        }
    }
}

/// Whether `template` is a default template (cwd-relative or under the config directory).
pub fn is_default_local_template(template: &str, config_dir: Option<&str>) -> (out: bool)
    ensures
        out == is_default_local_template_spec(template@, match config_dir { Some(c) => Some(c@), None => None }),
{
    let t = chars_of(template);
    if chars_start_with(&t, "./") || chars_start_with(&t, ".\\") {
        return true;
    }
    let c = match config_dir {
        Some(c) => chars_of(c),
        None => return false,
    };
    let mut end = c.len();
    proof {
        assert(c@.subrange(0, end as int) =~= c@);
    }
    while end > 0 && (c[end - 1] == '/' || c[end - 1] == '\\')
        invariant
            end <= c@.len(),
            trim_end_separators(c@) == trim_end_separators(c@.subrange(0, end as int)),
        decreases end,
    {
        proof {
            assert(c@.subrange(0, end as int).drop_last() =~= c@.subrange(0, end - 1));
        }
        end = end - 1;
    }
    let ghost config = c@.subrange(0, end as int);
    proof {
        if end > 0 {
            assert(config.last() == c@[end - 1]);
        }
        assert(trim_end_separators(config) == config);
    }
    if end == 0 {
        return false;
    }
    if end > t.len() {
        return false;
    }
    let mut i: usize = 0;
    while i < end
        invariant
            i <= end,
            end <= t@.len(),
            end <= c@.len(),
            config == c@.subrange(0, end as int),
            trim_end_separators(c@) == config,
            t@ == template@,
            config_dir matches Some(cd) && cd@ == c@,
            !starts_with_spec(template@, "./"@),
            !starts_with_spec(template@, ".\\"@),
            forall|k: int| 0 <= k < i ==> t@[k] == c@[k],
        decreases end - i,
    {
        if t[i] != c[i] {
            proof {
                assert(t@.subrange(0, end as int)[i as int] != config[i as int]);
                assert(t@.subrange(0, end as int) != config);
            }
            return false;
        }
        i = i + 1;
    }
    proof {
        assert(t@.subrange(0, end as int) =~= config);
    }
    end == t.len() || t[end] == '/' || t[end] == '\\'
}

/// The pieces of `s` between `;` separators (one piece for a string with no `;`).
pub open spec fn split_semicolons(s: Seq<char>) -> Seq<Seq<char>>
    decreases s.len(),
{
    if s.len() == 0 {
        seq![Seq::<char>::empty()]
    } else {
        let parts = split_semicolons(s.drop_last());
        if s.last() == ';' {
            parts.push(Seq::empty())
        } else {
            parts.update(parts.len() - 1, parts.last().push(s.last()))
        }
    }
}

/// Pieces joined with `;` between them.
pub open spec fn join_semicolons(parts: Seq<Seq<char>>) -> Seq<char>
    decreases parts.len(),
{
    if parts.len() == 0 {
        Seq::empty()
    } else if parts.len() == 1 {
        parts[0]
    } else {
        join_semicolons(parts.drop_last()) + seq![';'] + parts.last()
    }
}

/// Non-empty templates that are not defaults, in order.
pub open spec fn system_templates(parts: Seq<Seq<char>>, config_dir: Option<Seq<char>>) -> Seq<Seq<char>>
    decreases parts.len(),
{
    if parts.len() == 0 {
        Seq::empty()
    } else {
        let rest = system_templates(parts.drop_last(), config_dir);
        let t = parts.last();
        if t.len() > 0 && !is_default_local_template_spec(t, config_dir) { rest.push(t) } else { rest }
    }
}

proof fn lemma_split_nonempty(s: Seq<char>)
    ensures
        split_semicolons(s).len() >= 1,
    decreases s.len(),
{
    if s.len() > 0 {
        lemma_split_nonempty(s.drop_last());
    }
}

/// The search templates of `path` that are not defaults: the system-wide
/// ones kept aside until system package paths are enabled.
pub fn system_templates_only(path: &str, config_dir: Option<&str>) -> (out: String)
    ensures
        out@ == join_semicolons(system_templates(
            split_semicolons(path@),
            match config_dir { Some(c) => Some(c@), None => None },
        )),
{
    let cs = chars_of(path);
    let ghost cfg = match config_dir { Some(c) => Some(c@), None => None };
    // Split into pieces.
    let mut pieces: Vec<Vec<char>> = Vec::new();
    let mut current: Vec<char> = Vec::new();
    let mut i: usize = 0;
    proof {
        assert(cs@.subrange(0, 0) =~= Seq::<char>::empty());
    }
    while i < cs.len()
        invariant
            i <= cs@.len(),
            cs@ == path@,
            pieces@.map_values(|p: Vec<char>| p@).push(current@) =~= split_semicolons(cs@.subrange(0, i as int)),
        decreases cs.len() - i,
    {
        let c = cs[i];
        let ghost before = pieces@.map_values(|p: Vec<char>| p@).push(current@);
        proof {
            assert(cs@.subrange(0, i + 1).drop_last() =~= cs@.subrange(0, i as int));
            lemma_split_nonempty(cs@.subrange(0, i as int));
        }
        if c == ';' {
            let done = current;
            pieces.push(done);
            current = Vec::new();
            proof {
                assert(pieces@.map_values(|p: Vec<char>| p@).push(current@) =~= before.push(Seq::<char>::empty()));
            }
        } else {
            current.push(c);
            proof {
                assert(pieces@.map_values(|p: Vec<char>| p@).push(current@) =~= before.update(before.len() - 1, before.last().push(c)));
            }
        }
        i = i + 1;
    }
    pieces.push(current);
    proof {
        assert(cs@.subrange(0, cs@.len() as int) =~= cs@);
    }
    let ghost parts = pieces@.map_values(|p: Vec<char>| p@);
    assert(parts =~= split_semicolons(path@));
    // Keep the system templates and join them.
    let mut out = String::new();
    let mut any = false;
    let mut k: usize = 0;
    while k < pieces.len()
        invariant
            k <= pieces@.len(),
            parts == pieces@.map_values(|p: Vec<char>| p@),
            any == (system_templates(parts.subrange(0, k as int), cfg).len() > 0),
            out@ == join_semicolons(system_templates(parts.subrange(0, k as int), cfg)),
            cfg == match config_dir { Some(c) => Some(c@), None => None },
        decreases pieces.len() - k,
    {
        let piece = string_of(pieces[k].as_slice());
        proof {
            assert(parts.subrange(0, k + 1).drop_last() =~= parts.subrange(0, k as int));
            assert(parts.subrange(0, k + 1).last() == piece@);
        }
        if piece.as_str().unicode_len() > 0 && !is_default_local_template(piece.as_str(), config_dir) {
            if any {
                push_char(&mut out, ';');
            }
            out.append(piece.as_str());
            proof {
                let prev = system_templates(parts.subrange(0, k as int), cfg);
                let next = prev.push(piece@);
                assert(next.drop_last() =~= prev);
                if !any {
                    assert(join_semicolons(next) =~= piece@);
                }
            }
            any = true;
        }
        k = k + 1;
    }
    proof {
        assert(parts.subrange(0, pieces@.len() as int) =~= parts);
    }
    out
}

/// Decimal digits of `n`, most significant first.
pub open spec fn decimal_spec(n: nat) -> Seq<char>
    decreases n,
{
    if n < 10 {
        seq![(('0' as u32) + n) as char]
    } else {
        decimal_spec(n / 10).push((('0' as u32) + (n % 10)) as char)
    }
}

fn push_decimal(out: &mut String, n: u64)
    ensures
        final(out)@ == old(out)@ + decimal_spec(n as nat),
    decreases n,
{
    if n >= 10 {
        push_decimal(out, n / 10);
    }
    let d = (n % 10) as u8;
    push_char(out, (48u8 + d) as char);
    proof {
        assert((('0' as u32) + (n % 10) as nat) as char == (48u8 + d) as char);
    }
}

/// Modification time of a media file as whole seconds since the Unix epoch,
/// in decimal (times before the epoch are passed as 0).
pub fn format_modified(unix_secs: u64) -> (out: String)
    ensures
        out@ == decimal_spec(unix_secs as nat),
{
    let mut out = String::new();
    push_decimal(&mut out, unix_secs);
    proof {
        assert(Seq::<char>::empty() + decimal_spec(unix_secs as nat) =~= decimal_spec(unix_secs as nat));
    }
    out
}

// ---------------------------------------------------------------------------
// Found files
// ---------------------------------------------------------------------------

/// `a` sorts strictly before `b`, comparing characters (code points) left to
/// right; for UTF-8 text this is the byte order `String`'s `Ord` uses.
pub open spec fn lex_lt(a: Seq<char>, b: Seq<char>) -> bool
    decreases a.len(),
{
    if a.len() == 0 {
        b.len() > 0
    } else if b.len() == 0 {
        false
    } else if (a[0] as u32) != (b[0] as u32) {
        (a[0] as u32) < (b[0] as u32)
    } else {
        lex_lt(a.drop_first(), b.drop_first())
    }
}

/// `a` sorts before or equal to `b`.
pub open spec fn lex_le(a: Seq<char>, b: Seq<char>) -> bool {
    !lex_lt(b, a)
}

pub proof fn lemma_lex_lt_asym(a: Seq<char>, b: Seq<char>)
    ensures
        lex_lt(a, b) ==> !lex_lt(b, a),
    decreases a.len(),
{
    if a.len() > 0 && b.len() > 0 && (a[0] as u32) == (b[0] as u32) {
        lemma_lex_lt_asym(a.drop_first(), b.drop_first());
    }
}

pub proof fn lemma_lex_le_trans(a: Seq<char>, b: Seq<char>, c: Seq<char>)
    requires
        lex_le(a, b),
        lex_le(b, c),
    ensures
        lex_le(a, c),
    decreases a.len(),
{
    if a.len() > 0 && b.len() > 0 && c.len() > 0 {
        let (x, y, z) = (a[0] as u32, b[0] as u32, c[0] as u32);
        assert(x <= y);
        assert(y <= z);
        if x == y && y == z {
            lemma_lex_le_trans(a.drop_first(), b.drop_first(), c.drop_first());
        }
    }
}

/// Strings in non-decreasing order.
pub open spec fn sorted_strings(s: Seq<Seq<char>>) -> bool {
    forall|i: int, j: int| #![trigger s[i], s[j]] 0 <= i < j < s.len() ==> lex_le(s[i], s[j])
}

/// `a` sorts strictly before `b`.
pub fn str_lt(a: &str, b: &str) -> (out: bool)
    ensures
        out == lex_lt(a@, b@),
{
    let x = chars_of(a);
    let y = chars_of(b);
    let mut i: usize = 0;
    proof {
        assert(x@.skip(0) =~= x@);
        assert(y@.skip(0) =~= y@);
    }
    while i < x.len() && i < y.len()
        invariant
            i <= x@.len(),
            i <= y@.len(),
            x@ == a@,
            y@ == b@,
            lex_lt(a@, b@) == lex_lt(x@.skip(i as int), y@.skip(i as int)),
        decreases x.len() - i,
    {
        proof {
            assert(x@.skip(i as int)[0] == x@[i as int]);
            assert(y@.skip(i as int)[0] == y@[i as int]);
        }
        if (x[i] as u32) != (y[i] as u32) {
            return (x[i] as u32) < (y[i] as u32);
        }
        proof {
            assert(x@.skip(i as int).drop_first() =~= x@.skip(i + 1));
            assert(y@.skip(i as int).drop_first() =~= y@.skip(i + 1));
        }
        i = i + 1;
    }
    i == x.len() && i < y.len()
}

/// Views of `(directory, basename)` entries.
pub open spec fn entry_views(entries: Seq<(String, String)>) -> Seq<(Seq<char>, Seq<char>)> {
    entries.map_values(|e: (String, String)| (e.0@, e.1@))
}

/// Relative paths of the entries kept by the extension filter, in walk order.
pub open spec fn selected_paths(entries: Seq<(Seq<char>, Seq<char>)>, extensions: Option<Seq<Seq<char>>>) -> Seq<Seq<char>>
    decreases entries.len(),
{
    if entries.len() == 0 {
        Seq::empty()
    } else {
        let rest = selected_paths(entries.drop_last(), extensions);
        let (dir, name) = entries.last();
        let keep = match extensions {
            None => true,
            Some(exts) => extension_matches_spec(name, exts),
        };
        if keep { rest.push(join_rel_spec(dir, name)) } else { rest }
    }
}

/// Sorted relative paths of the files found by a directory walk, optionally
/// keeping only the given (normalized, lowercase) extensions. Each entry is
/// the `/`-separated directory relative to the root and the file name.
pub fn find_files(entries: &[(String, String)], extensions: Option<&[String]>) -> (out: Vec<String>)
    ensures
        sorted_strings(string_views(out@)),
        string_views(out@).to_multiset() == selected_paths(
            entry_views(entries@),
            match extensions { Some(e) => Some(string_views(e@)), None => None },
        ).to_multiset(),
{
    broadcast use vstd::seq_lib::group_to_multiset_ensures;

    let ghost exts = match extensions { Some(e) => Some(string_views(e@)), None => None };
    let ghost ev = entry_views(entries@);
    let mut out: Vec<String> = Vec::new();
    let mut i: usize = 0;
    while i < entries.len()
        invariant
            i <= entries@.len(),
            ev == entry_views(entries@),
            exts == match extensions { Some(e) => Some(string_views(e@)), None => None },
            sorted_strings(string_views(out@)),
            string_views(out@).to_multiset() == selected_paths(ev.subrange(0, i as int), exts).to_multiset(),
        decreases entries.len() - i,
    {
        let (dir, name) = &entries[i];
        proof {
            assert(ev.subrange(0, i + 1).drop_last() =~= ev.subrange(0, i as int));
            assert(ev.subrange(0, i + 1).last() == (dir@, name@));
        }
        let keep = match extensions {
            None => true,
            Some(exts_exec) => extension_matches(name.as_str(), exts_exec),
        };
        if !keep {
            proof {
                assert(selected_paths(ev.subrange(0, i + 1), exts) == selected_paths(ev.subrange(0, i as int), exts));
            }
        }
        if keep {
            let path = join_rel(dir.as_str(), name.as_str());
            let mut p: usize = out.len();
            while p > 0 && str_lt(path.as_str(), out[p - 1].as_str())
                invariant
                    p <= out@.len(),
                    forall|k: int| p <= k < out@.len() ==> #[trigger] lex_lt(path@, out@[k]@),
                decreases p,
            {
                p = p - 1;
            }
            let ghost old_out = out@;
            let ghost old_views = string_views(old_out);
            let ghost pv = path@;
            out.insert(p, path);
            proof {
                let nv = string_views(out@);
                assert(nv =~= old_views.insert(p as int, pv));
                old_views.insert_ensures(p as int, pv);
                vstd::seq_lib::to_multiset_insert(old_views, p as int, pv);
                let prev = selected_paths(ev.subrange(0, i as int), exts);
                assert(selected_paths(ev.subrange(0, i + 1), exts) == prev.push(pv));
                vstd::seq_lib::to_multiset_build(prev, pv);
                assert(nv.to_multiset() == selected_paths(ev.subrange(0, i + 1), exts).to_multiset());
                if p > 0 {
                    assert(!lex_lt(pv, old_views[p - 1]));
                }
                assert forall|a: int, b: int| #![trigger nv[a], nv[b]] 0 <= a < b < nv.len() implies lex_le(nv[a], nv[b]) by {
                    if a < p && b < p {
                        assert(nv[a] == old_views[a] && nv[b] == old_views[b]);
                    } else if a < p && b == p {
                        assert(nv[a] == old_views[a]);
                        if a < p - 1 {
                            assert(lex_le(old_views[a], old_views[p - 1]));
                        } else {
                            lemma_lex_lt_asym(old_views[a], old_views[a]);
                        }
                        lemma_lex_le_trans(old_views[a], old_views[p - 1], pv);
                    } else if a < p && b > p {
                        assert(nv[a] == old_views[a] && nv[b] == old_views[b - 1]);
                    } else if a == p {
                        assert(nv[b] == old_views[b - 1]);
                        assert(lex_lt(pv, old_out[b - 1]@));
                        lemma_lex_lt_asym(pv, old_views[b - 1]);
                    } else {
                        assert(nv[a] == old_views[a - 1] && nv[b] == old_views[b - 1]);
                    }
                }
            }
        }
        i = i + 1;
    }
    proof {
        assert(ev.subrange(0, entries@.len() as int) =~= ev);
    }
    out
}

// ---------------------------------------------------------------------------
// Checksums
// ---------------------------------------------------------------------------

/// The 32-byte BLAKE3 digest of `input`, as `blake3::hash` computes it.
pub uninterp spec fn blake3_hash_of(input: Seq<u8>) -> Seq<u8>;

/// `blake3::hash`: the default 32-byte BLAKE3 digest of `input`, as bytes.
/// The digest itself is named by `blake3_hash_of`; the contract adds only its
/// length (`OUT_LEN`).
#[verifier::external_body]
fn blake3_hash(input: &[u8]) -> (out: Vec<u8>)
    ensures
        out@ == blake3_hash_of(input@),
        out@.len() == 32,
{
    blake3::hash(input).as_bytes().to_vec()
}

/// Lowercase hexadecimal digit of a nibble.
pub open spec fn hex_char(d: int) -> char {
    if d < 10 {
        (48 + d) as char
    } else {
        (87 + d) as char
    }
}

/// Lowercase hexadecimal of `bytes`, two digits per byte, high nibble first.
pub open spec fn hex_lower_spec(bytes: Seq<u8>) -> Seq<char> {
    Seq::new(2 * bytes.len(), |i: int|
        if i % 2 == 0 { hex_char((bytes[i / 2] / 16) as int) } else { hex_char((bytes[i / 2] % 16) as int) })
}

fn hex_digit(d: u8) -> (out: char)
    requires
        d < 16,
    ensures
        out == hex_char(d as int),
{
    if d < 10 {
        (48u8 + d) as char
    } else {
        (87u8 + d) as char
    }
}

/// Lowercase hexadecimal of `bytes` (the form of `blake3::Hash::to_hex`).
pub fn hex_lower(bytes: &[u8]) -> (out: String)
    ensures
        out@ == hex_lower_spec(bytes@),
{
    let mut out = String::new();
    let mut i: usize = 0;
    while i < bytes.len()
        invariant
            i <= bytes@.len(),
            out@ == hex_lower_spec(bytes@.take(i as int)),
        decreases bytes.len() - i,
    {
        let b = bytes[i];
        let ghost prev = out@;
        push_char(&mut out, hex_digit(b / 16));
        push_char(&mut out, hex_digit(b % 16));
        proof {
            let next = bytes@.take(i + 1);
            assert forall|k: int| 0 <= k < 2 * i implies #[trigger] hex_lower_spec(next)[k] == prev[k] by {
                assert(next[k / 2] == bytes@.take(i as int)[k / 2]);
            }
            assert(next[i as int] == b);
            assert((2 * i) / 2 == i);
            assert((2 * i + 1) / 2 == i);
            assert(out@ =~= hex_lower_spec(next));
        }
        i = i + 1;
    }
    proof {
        assert(bytes@.take(bytes@.len() as int) =~= bytes@);
    }
    out
}

/// The checksum algorithm a request names: ASCII-lowercased, `blake3` when
/// none is given; any name but `blake3` is refused.
pub open spec fn checksum_algorithm_spec(algo: Option<Seq<char>>) -> Result<Seq<char>, Seq<char>> {
    let a = match algo {
        None => "blake3"@,
        Some(s) => ascii_lower_all(s),
    };
    if a == "blake3"@ {
        Ok(a)
    } else {
        Err("unsupported checksum algorithm `"@ + a + "`"@)
    }
}

/// What a checksum request gives: the lowercase hexadecimal BLAKE3 digest
/// of the bytes when the algorithm is accepted, else the refusal.
pub open spec fn checksum_spec(bytes: Seq<u8>, algo: Option<Seq<char>>) -> Result<Seq<char>, Seq<char>> {
    match checksum_algorithm_spec(algo) {
        Ok(_) => Ok(hex_lower_spec(blake3_hash_of(bytes))),
        Err(e) => Err(e),
    }
}

/// Check the algorithm of a checksum request (default `blake3`).
pub fn checksum_algorithm(algo: Option<&str>) -> (out: Result<String, String>)
    ensures
        match out {
            Ok(a) => checksum_algorithm_spec(opt_str_view(algo)) == Ok::<Seq<char>, Seq<char>>(a@),
            Err(e) => checksum_algorithm_spec(opt_str_view(algo)) == Err::<Seq<char>, Seq<char>>(e@),
        },
{
    let name = match algo {
        None => String::from_str("blake3"),
        Some(s) => {
            let cs = chars_of(s);
            let lower = chars_to_ascii_lower(&cs);
            string_of(lower.as_slice())
        },
    };
    let want = String::from_str("blake3");
    if name == want {
        Ok(name)
    } else {
        let mut msg = concat2("unsupported checksum algorithm `", name.as_str());
        push_char(&mut msg, '`');
        proof {
            reveal_strlit("`");
            assert(msg@ =~= "unsupported checksum algorithm `"@ + name@ + "`"@);
        }
        Err(msg)
    }
}

/// Checksum of a file's bytes with the named algorithm (default `blake3`).
pub fn checksum(bytes: &[u8], algo: Option<&str>) -> (out: Result<String, String>)
    ensures
        match out {
            Ok(h) => checksum_spec(bytes@, opt_str_view(algo)) == Ok::<Seq<char>, Seq<char>>(h@),
            Err(e) => checksum_spec(bytes@, opt_str_view(algo)) == Err::<Seq<char>, Seq<char>>(e@),
        },
{
    match checksum_algorithm(algo) {
        Ok(_) => {
            let digest = blake3_hash(bytes);
            Ok(hex_lower(digest.as_slice()))
        },
        Err(e) => Err(e),
    }
}

/// Views of an optional string.
pub open spec fn opt_str_view(o: Option<&str>) -> Option<Seq<char>> {
    match o {
        Some(s) => Some(s@),
        None => None,
    }
}

/// The user config directory from the environment's values: under
/// `$XDG_CONFIG_HOME` when set, else `~/.config`, as `FieldAssist`.
pub open spec fn user_config_dir_spec(xdg_config_home: Option<Seq<char>>, home: Option<Seq<char>>) -> Option<Seq<char>> {
    match xdg_config_home {
        Some(x) => Some(path_join_spec(x, "FieldAssist"@)),
        None => match home {
            Some(h) => Some(path_join_spec(path_join_spec(h, ".config"@), "FieldAssist"@)),
            None => None,
        },
    }
}

/// FieldAssist / field-batch user config directory, given the values of
/// `XDG_CONFIG_HOME` and `HOME` (either may be unset).
pub fn user_config_dir_from(xdg_config_home: Option<&str>, home: Option<&str>) -> (out: Option<String>)
    ensures
        opt_view(out) == user_config_dir_spec(opt_str_view(xdg_config_home), opt_str_view(home)),
{
    match xdg_config_home {
        Some(x) => Some(path_join(x, "FieldAssist")),
        None => match home {
            Some(h) => {
                let config = path_join(h, ".config");
                Some(path_join(config.as_str(), "FieldAssist"))
            },
            None => None,
        },
    }
}

/// Views of an optional owned string.
pub open spec fn opt_view(o: Option<String>) -> Option<Seq<char>> {
    match o {
        Some(s) => Some(s@),
        None => None,
    }
}

// ---------------------------------------------------------------------------
// Workflow toolbar fields
// ---------------------------------------------------------------------------

/// Icon names a toolbar control accepts (after `-` becomes `_`).
pub open spec fn toolbar_icon_names() -> Seq<Seq<char>> {
    seq!["check"@, "circle_check"@, "circle_x"@, "circle_alert"@, "arrow_left"@, "arrow_right"@]
}

/// A toolbar icon name: hyphens read as underscores, and the result must be
/// one of the known icons.
pub open spec fn toolbar_icon_spec(name: Seq<char>) -> Result<Seq<char>, Seq<char>> {
    let n = replace_char_spec(name, '-', '_');
    if toolbar_icon_names().contains(n) {
        Ok(n)
    } else {
        Err("icon must be \"check\", \"circle-check\", \"circle-x\", \"circle-alert\", \"arrow-left\", or \"arrow-right\", got `"@ + n + "`"@)
    }
}

/// Check a toolbar icon name.
pub fn parse_toolbar_icon(name: &str) -> (out: Result<String, String>)
    ensures
        match out {
            Ok(n) => toolbar_icon_spec(name@) == Ok::<Seq<char>, Seq<char>>(n@),
            Err(e) => toolbar_icon_spec(name@) == Err::<Seq<char>, Seq<char>>(e@),
        },
{
    let normalized = replace_char(name, '-', '_');
    let names = ["check", "circle_check", "circle_x", "circle_alert", "arrow_left", "arrow_right"];
    proof {
        assert(names@.map_values(|x: &str| x@) =~= toolbar_icon_names());
    }
    let mut i: usize = 0;
    while i < 6
        invariant
            i <= 6,
            names@.map_values(|x: &str| x@) == toolbar_icon_names(),
            normalized@ == replace_char_spec(name@, '-', '_'),
            forall|k: int| 0 <= k < i ==> toolbar_icon_names()[k] != normalized@,
        decreases 6 - i,
    {
        let candidate = String::from_str(names[i]);
        proof {
            assert(names@.map_values(|x: &str| x@)[i as int] == names@[i as int]@);
        }
        if normalized == candidate {
            proof {
                assert(toolbar_icon_names()[i as int] == normalized@);
                assert(toolbar_icon_names().contains(normalized@));
            }
            return Ok(normalized);
        }
        i = i + 1;
    }
    let mut msg = String::from_str(
        "icon must be \"check\", \"circle-check\", \"circle-x\", \"circle-alert\", \"arrow-left\", or \"arrow-right\", got `",
    );
    msg.append(normalized.as_str());
    push_char(&mut msg, '`');
    proof {
        reveal_strlit("`");
        assert(!toolbar_icon_names().contains(normalized@));
        assert(msg@ =~= "icon must be \"check\", \"circle-check\", \"circle-x\", \"circle-alert\", \"arrow-left\", or \"arrow-right\", got `"@ + normalized@ + "`"@);
    }
    Err(msg)
}

/// A present, non-empty field value.
pub open spec fn non_empty_field(v: Option<Seq<char>>) -> Option<Seq<char>> {
    match v {
        Some(s) => if s.len() > 0 { Some(s) } else { None },
        None => None,
    }
}

/// `(id, label)` of a toolbar button: either one stands in for a missing
/// other; with neither, a button is refused (with a message that says why
/// when it has an icon). Empty values count as missing.
pub open spec fn button_names_spec(id: Option<Seq<char>>, label: Option<Seq<char>>, has_icon: bool) -> Result<(Seq<char>, Seq<char>), Seq<char>> {
    match (non_empty_field(id), non_empty_field(label)) {
        (Some(i), Some(l)) => Ok((i, l)),
        (Some(i), None) => Ok((i, i)),
        (None, Some(l)) => Ok((l, l)),
        (None, None) => if has_icon {
            Err("button with icon needs id or label for accessibility"@)
        } else {
            Err("button id or label is required"@)
        },
    }
}

/// Id and label of a toolbar button.
pub fn button_names(id: Option<&str>, label: Option<&str>, has_icon: bool) -> (out: Result<(String, String), String>)
    ensures
        match out {
            Ok((i, l)) => button_names_spec(opt_str_view(id), opt_str_view(label), has_icon)
                == Ok::<(Seq<char>, Seq<char>), Seq<char>>((i@, l@)),
            Err(e) => button_names_spec(opt_str_view(id), opt_str_view(label), has_icon)
                == Err::<(Seq<char>, Seq<char>), Seq<char>>(e@),
        },
{
    let id = match id {
        Some(s) => if s.unicode_len() > 0 { Some(s) } else { None },
        None => None,
    };
    let label = match label {
        Some(s) => if s.unicode_len() > 0 { Some(s) } else { None },
        None => None,
    };
    match (id, label) {
        (Some(i), Some(l)) => Ok((String::from_str(i), String::from_str(l))),
        (Some(i), None) => Ok((String::from_str(i), String::from_str(i))),
        (None, Some(l)) => Ok((String::from_str(l), String::from_str(l))),
        (None, None) => if has_icon {
            Err(String::from_str("button with icon needs id or label for accessibility"))
        } else {
            Err(String::from_str("button id or label is required"))
        },
    }
}

/// Placement named by a toolbar `align` field.
pub fn parse_align_name(text: &str) -> (out: Result<ToolbarAlign, String>)
    ensures
        text@ == "left"@ ==> out == Ok::<ToolbarAlign, String>(ToolbarAlign::Left),
        text@ == "right"@ ==> out == Ok::<ToolbarAlign, String>(ToolbarAlign::Right),
        text@ != "left"@ && text@ != "right"@ ==> (out matches Err(e) && e@ == "align must be \"left\" or \"right\", got `"@ + text@ + "`"@),
{
    proof {
        reveal_strlit("left");
        reveal_strlit("right");
        assert("left"@.len() != "right"@.len());
    }
    let t = String::from_str(text);
    if t == String::from_str("left") {
        Ok(ToolbarAlign::Left)
    } else if t == String::from_str("right") {
        Ok(ToolbarAlign::Right)
    } else {
        let mut msg = concat2("align must be \"left\" or \"right\", got `", text);
        push_char(&mut msg, '`');
        proof {
            reveal_strlit("`");
            assert(msg@ =~= "align must be \"left\" or \"right\", got `"@ + text@ + "`"@);
        }
        Err(msg)
    }
}

/// Browse mode named by a toolbar `browse` field.
pub fn parse_browse_name(text: &str) -> (out: Result<PathBrowse, String>)
    ensures
        text@ == "file"@ ==> out == Ok::<PathBrowse, String>(PathBrowse::File),
        text@ == "directory"@ ==> out == Ok::<PathBrowse, String>(PathBrowse::Directory),
        text@ != "file"@ && text@ != "directory"@ ==> (out matches Err(e)
            && e@ == "browse must be \"file\", \"directory\", or false, got `"@ + text@ + "`"@),
{
    proof {
        reveal_strlit("file");
        reveal_strlit("directory");
        assert("file"@.len() != "directory"@.len());
    }
    let t = String::from_str(text);
    if t == String::from_str("file") {
        Ok(PathBrowse::File)
    } else if t == String::from_str("directory") {
        Ok(PathBrowse::Directory)
    } else {
        let mut msg = concat2("browse must be \"file\", \"directory\", or false, got `", text);
        push_char(&mut msg, '`');
        proof {
            reveal_strlit("`");
            assert(msg@ =~= "browse must be \"file\", \"directory\", or false, got `"@ + text@ + "`"@);
        }
        Err(msg)
    }
}

/// Icon a toggle shows when on: the given icon name, `check` when none
/// (or an empty one) is given.
pub fn toggle_on_icon(name: Option<&str>) -> (out: Result<String, String>)
    ensures
        non_empty_field(opt_str_view(name)) is None ==> (out matches Ok(n) && n@ == "check"@),
        non_empty_field(opt_str_view(name)) matches Some(v) ==> match out {
            Ok(n) => toolbar_icon_spec(v) == Ok::<Seq<char>, Seq<char>>(n@),
            Err(e) => toolbar_icon_spec(v) == Err::<Seq<char>, Seq<char>>(e@),
        },
{
    match name {
        Some(v) => if v.unicode_len() > 0 { parse_toolbar_icon(v) } else { Ok(String::from_str("check")) },
        None => Ok(String::from_str("check")),
    }
}

} // verus!
