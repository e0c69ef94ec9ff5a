//! Character-level text rules shared by the library: trimming, prefixes,
//! ASCII case folding and replacement, over the `Seq<char>` view of strings.
use vstd::prelude::*;

verus! {

/// The Unicode `White_Space` property (PropList.txt): tab through carriage
/// return, space, next line, no-break space, ogham space mark, the en quad
/// through hair space block, line and paragraph separators, narrow no-break
/// space, medium mathematical space and ideographic space.
pub open spec fn is_whitespace_char(c: char) -> bool {
    let u = c as u32;
    ||| 0x09 <= u <= 0x0d
    ||| u == 0x20
    ||| u == 0x85
    ||| u == 0xa0
    ||| u == 0x1680
    ||| 0x2000 <= u <= 0x200a
    ||| u == 0x2028
    ||| u == 0x2029
    ||| u == 0x202f
    ||| u == 0x205f
    ||| u == 0x3000
}

/// Whether `c` has the Unicode `White_Space` property (as `char::is_whitespace`
/// answers): one of the 25 code points listed by [`is_whitespace_char`].
pub(crate) fn char_is_whitespace(c: char) -> (out: bool)
    ensures
        out == is_whitespace_char(c),
{
    let u = c as u32;
    (0x09 <= u && u <= 0x0d) || u == 0x20 || u == 0x85 || u == 0xa0 || u == 0x1680
        || (0x2000 <= u && u <= 0x200a) || u == 0x2028 || u == 0x2029 || u == 0x202f
        || u == 0x205f || u == 0x3000
}

/// `String::push`: appends one character at the end of the string.
#[verifier::external_body]
pub(crate) fn push_char(s: &mut String, c: char)
    ensures
        final(s)@ == old(s)@.push(c),
{
    s.push(c)
}

/// The characters of `s`, in order.
pub fn chars_of(s: &str) -> (out: Vec<char>)
    ensures
        out@ == s@,
{
    let n = s.unicode_len();
    let mut out: Vec<char> = Vec::new();
    let mut i: usize = 0;
    while i < n
        invariant
            n == s@.len(),
            i <= n,
            out@ =~= s@.subrange(0, i as int),
        decreases n - i,
    {
        out.push(s.get_char(i));
        i = i + 1;
    }
    proof {
        assert(s@.subrange(0, n as int) =~= s@);
    }
    out
}

/// A string holding exactly the characters `cs[from..to]`.
pub fn string_from(cs: &[char], from: usize, to: usize) -> (out: String)
    requires
        from <= to <= cs@.len(),
    ensures
        out@ == cs@.subrange(from as int, to as int),
{
    let mut out = String::new();
    let mut i: usize = from;
    while i < to
        invariant
            from <= i <= to,
            to <= cs@.len(),
            out@ =~= cs@.subrange(from as int, i as int),
        decreases to - i,
    {
        push_char(&mut out, cs[i]);
        i = i + 1;
    }
    out
}

/// A string holding exactly the characters of `cs`.
pub fn string_of(cs: &[char]) -> (out: String)
    ensures
        out@ == cs@,
{
    let out = string_from(cs, 0, cs.len());
    proof {
        assert(cs@.subrange(0, cs@.len() as int) =~= cs@);
    }
    out
}

/// `s` with leading whitespace removed.
pub open spec fn trim_start_spec(s: Seq<char>) -> Seq<char>
    decreases s.len(),
{
    if s.len() > 0 && is_whitespace_char(s[0]) {
        trim_start_spec(s.drop_first())
    } else {
        s
    }
}

/// `s` with trailing whitespace removed.
pub open spec fn trim_end_spec(s: Seq<char>) -> Seq<char>
    decreases s.len(),
{
    if s.len() > 0 && is_whitespace_char(s.last()) {
        trim_end_spec(s.drop_last())
    } else {
        s
    }
}

/// `s` with leading and trailing whitespace removed (`str::trim`).
pub open spec fn trim_spec(s: Seq<char>) -> Seq<char> {
    trim_end_spec(trim_start_spec(s))
}

/// Bounds `(lo, hi)` of the trimmed part of `cs`.
pub fn trim_bounds(cs: &[char]) -> (out: (usize, usize))
    ensures
        out.0 <= out.1 <= cs@.len(),
        cs@.subrange(out.0 as int, out.1 as int) == trim_spec(cs@),
{
    let n = cs.len();
    let mut lo: usize = 0;
    proof {
        assert(cs@.subrange(0, n as int) =~= cs@);
    }
    while lo < n && char_is_whitespace(cs[lo])
        invariant
            lo <= n,
            n == cs@.len(),
            trim_start_spec(cs@) == trim_start_spec(cs@.subrange(lo as int, n as int)),
        decreases n - lo,
    {
        proof {
            let t = cs@.subrange(lo as int, n as int);
            assert(t.drop_first() =~= cs@.subrange(lo + 1, n as int));
        }
        lo = lo + 1;
    }
    let ghost started = cs@.subrange(lo as int, n as int);
    assert(trim_start_spec(started) == started);
    let mut hi: usize = n;
    proof {
        assert(cs@.subrange(lo as int, hi as int) =~= started);
    }
    while hi > lo && char_is_whitespace(cs[hi - 1])
        invariant
            lo <= hi <= n,
            n == cs@.len(),
            trim_end_spec(started) == trim_end_spec(cs@.subrange(lo as int, hi as int)),
        decreases hi - lo,
    {
        proof {
            let t = cs@.subrange(lo as int, hi as int);
            assert(t.drop_last() =~= cs@.subrange(lo as int, hi - 1));
            assert(t.last() == cs@[hi - 1]);
        }
        hi = hi - 1;
    }
    (lo, hi)
}

/// `str::trim` as a new string.
pub fn trim(s: &str) -> (out: String)
    ensures
        out@ == trim_spec(s@),
{
    let cs = chars_of(s);
    let (lo, hi) = trim_bounds(&cs);
    string_from(&cs, lo, hi)
}

/// `s` starts with `prefix`.
pub open spec fn starts_with_spec(s: Seq<char>, prefix: Seq<char>) -> bool {
    prefix.len() <= s.len() && s.subrange(0, prefix.len() as int) == prefix
}

/// Whether the characters of `cs` start with those of `prefix`.
pub fn chars_start_with(cs: &[char], prefix: &str) -> (out: bool)
    ensures
        out == starts_with_spec(cs@, prefix@),
{
    let p = chars_of(prefix);
    if p.len() > cs.len() {
        return false;
    }
    let mut i: usize = 0;
    while i < p.len()
        invariant
            i <= p@.len(),
            p@ == prefix@,
            p@.len() <= cs@.len(),
            forall|k: int| 0 <= k < i ==> cs@[k] == p@[k],
        decreases p.len() - i,
    {
        if cs[i] != p[i] {
            proof {
                assert(cs@.subrange(0, p@.len() as int)[i as int] != p@[i as int]);
            }
            return false;
        }
        i = i + 1;
    }
    proof {
        assert(cs@.subrange(0, p@.len() as int) =~= p@);
    }
    true
}

/// Whether `s` starts with `prefix`.
pub fn starts_with(s: &str, prefix: &str) -> (out: bool)
    ensures
        out == starts_with_spec(s@, prefix@),
{
    let cs = chars_of(s);
    chars_start_with(&cs, prefix)
}

/// ASCII lowercase of one character (`char::to_ascii_lowercase`).
pub open spec fn ascii_lower(c: char) -> char {
    if 'A' <= c && c <= 'Z' { ((c as u32) + 32) as char } else { c }
}

/// ASCII lowercase of every character.
pub open spec fn ascii_lower_all(s: Seq<char>) -> Seq<char> {
    s.map_values(|c: char| ascii_lower(c))
}

/// Lowercase an ASCII letter, leave every other character as is.
pub fn to_ascii_lower(c: char) -> (out: char)
    ensures
        out == ascii_lower(c),
{
    if 'A' <= c && c <= 'Z' {
        let b = c as u8;
        (b + 32) as char
    } else {
        c
    }
}

/// `str::to_ascii_lowercase` over characters.
pub fn chars_to_ascii_lower(cs: &[char]) -> (out: Vec<char>)
    ensures
        out@ == ascii_lower_all(cs@),
{
    let mut out: Vec<char> = Vec::new();
    let mut i: usize = 0;
    while i < cs.len()
        invariant
            i <= cs@.len(),
            out@ =~= ascii_lower_all(cs@).subrange(0, i as int),
        decreases cs.len() - i,
    {
        out.push(to_ascii_lower(cs[i]));
        i = i + 1;
    }
    proof {
        assert(ascii_lower_all(cs@).subrange(0, cs@.len() as int) =~= ascii_lower_all(cs@));
    }
    out
}

/// `str::eq_ignore_ascii_case`.
pub open spec fn eq_ignore_ascii_case_spec(a: Seq<char>, b: Seq<char>) -> bool {
    ascii_lower_all(a) == ascii_lower_all(b)
}

/// Whether `a` and `b` are equal up to ASCII case.
pub fn eq_ignore_ascii_case(a: &str, b: &str) -> (out: bool)
    ensures
        out == eq_ignore_ascii_case_spec(a@, b@),
{
    let x = chars_of(a);
    let y = chars_of(b);
    let lx = chars_to_ascii_lower(&x);
    let ly = chars_to_ascii_lower(&y);
    if lx.len() != ly.len() {
        proof {
            assert(ascii_lower_all(a@).len() != ascii_lower_all(b@).len());
        }
        return false;
    }
    let mut i: usize = 0;
    while i < lx.len()
        invariant
            i <= lx@.len(),
            lx@.len() == ly@.len(),
            lx@ == ascii_lower_all(a@),
            ly@ == ascii_lower_all(b@),
            forall|k: int| 0 <= k < i ==> lx@[k] == ly@[k],
        decreases lx.len() - i,
    {
        if lx[i] != ly[i] {
            return false;
        }
        i = i + 1;
    }
    proof {
        assert(lx@ =~= ly@);
    }
    true
}

/// Every `from` replaced by `to` (`str::replace` with one-character patterns).
pub open spec fn replace_char_spec(s: Seq<char>, from: char, to: char) -> Seq<char> {
    s.map_values(|c: char| if c == from { to } else { c })
}

/// Replace every `from` character by `to`.
pub fn replace_char(s: &str, from: char, to: char) -> (out: String)
    ensures
        out@ == replace_char_spec(s@, from, to),
{
    let cs = chars_of(s);
    let mut out = String::new();
    let mut i: usize = 0;
    while i < cs.len()
        invariant
            i <= cs@.len(),
            cs@ == s@,
            out@ =~= replace_char_spec(s@, from, to).subrange(0, i as int),
        decreases cs.len() - i,
    {
        let c = cs[i];
        push_char(&mut out, if c == from { to } else { c });
        i = i + 1;
    }
    proof {
        assert(replace_char_spec(s@, from, to).subrange(0, cs@.len() as int) =~= replace_char_spec(s@, from, to));
    }
    out
}

/// A new string `a` followed by `b`.
pub fn concat2(a: &str, b: &str) -> (out: String)
    ensures
        out@ == a@ + b@,
{
    let mut out = String::from_str(a);
    out.append(b);
    out
}

/// A new string `a`, `b`, `c` in order.
pub fn concat3(a: &str, b: &str, c: &str) -> (out: String)
    ensures
        out@ == a@ + b@ + c@,
{
    let mut out = String::from_str(a);
    out.append(b);
    out.append(c);
    out
}

} // verus!
