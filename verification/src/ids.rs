//! Prefixed identities: a composition is named `comp:<uuid>` across saves and
//! sessions. The UUID itself (minting, parsing, formatting) comes from the
//! `uuid` crate; the prefix rules are this library's.
use vstd::prelude::*;

use crate::text::{chars_of, starts_with_spec, string_from, trim, trim_spec};

verus! {

/// What `uuid::Uuid::parse_str` gives for `text`: the UUID's 128-bit value,
/// or the text of the crate's error.
pub uninterp spec fn uuid_parse_of(text: Seq<char>) -> Result<u128, Seq<char>>;

/// `uuid::Uuid::parse_str`, read back as the 128-bit value (`as_u128`), or
/// the error's text. Which spellings parse and the wording of each error are
/// the crate's own; the contract names them by `uuid_parse_of` and says no more.
#[verifier::external_body]
fn uuid_parse(text: &str) -> (out: Result<u128, String>)
    ensures
        match out {
            Ok(n) => uuid_parse_of(text@) == Ok::<u128, Seq<char>>(n),
            Err(e) => uuid_parse_of(text@) == Err::<u128, Seq<char>>(e@),
        },
{
    match uuid::Uuid::parse_str(text) {
        Ok(u) => Ok(u.as_u128()),
        Err(e) => Err(e.to_string()),
    }
}

/// The 128-bit value is a random (version 4, RFC 4122 variant) UUID: the
/// version nibble is 4 and the two variant bits are `10`.
pub open spec fn is_v4(n: u128) -> bool {
    &&& (n >> 76u128) & 0xfu128 == 4u128
    &&& (n >> 62u128) & 0x3u128 == 2u128
}

/// `uuid::Uuid::new_v4`: a fresh random UUID. The crate masks random bits so
/// that the version is 4 and the variant RFC 4122; the other 122 bits are
/// random, so nothing more is stated.
#[verifier::external_body]
fn uuid_new_v4() -> (out: u128)
    ensures
        is_v4(out),
{
    uuid::Uuid::new_v4().as_u128()
}

/// Lowercase hexadecimal digit for `d` in `0..16`.
pub open spec fn hex_digit_char(d: int) -> char {
    if d < 10 {
        (('0' as int) + d) as char
    } else {
        (('a' as int) + d - 10) as char
    }
}

/// Hexadecimal digit `k` of `n`, most significant first (`k` in `0..32`).
pub open spec fn nibble(n: u128, k: int) -> int {
    ((n >> ((124 - 4 * k) as u128)) & 0xfu128) as int
}

/// Which of the 32 digits sits at position `i` of the hyphenated form.
pub open spec fn hyphenated_digit(i: int) -> int {
    if i < 8 {
        i
    } else if i < 13 {
        i - 1
    } else if i < 18 {
        i - 2
    } else if i < 23 {
        i - 3
    } else {
        i - 4
    }
}

/// The hyphenated lowercase form of a UUID: 32 hexadecimal digits of the
/// big-endian value, grouped 8-4-4-4-12.
pub open spec fn hyphenated_spec(n: u128) -> Seq<char> {
    Seq::new(36, |i: int|
        if i == 8 || i == 13 || i == 18 || i == 23 { '-' } else { hex_digit_char(nibble(n, hyphenated_digit(i))) })
}

/// `Display` of `uuid::Uuid` (its `LowerHex`): the hyphenated lowercase form.
#[verifier::external_body]
fn uuid_hyphenated(n: u128) -> (out: String)
    ensures
        out@ == hyphenated_spec(n),
{
    uuid::Uuid::from_u128(n).to_string()
}

/// The index of the first `c` in `s`, if any.
pub open spec fn has_char(s: Seq<char>, c: char) -> bool {
    exists|i: int| 0 <= i < s.len() && s[i] == c
}

/// What reading `prefix:uuid` from `s` gives: the text is trimmed; with the
/// prefix and a colon the rest is the UUID; another colon-bearing text is
/// refused; a bare UUID is accepted as it is.
pub open spec fn prefixed_uuid_spec(prefix: Seq<char>, s: Seq<char>) -> Result<u128, Seq<char>> {
    let t = trim_spec(s);
    let tag = prefix.push(':');
    let bad = |e: Seq<char>| "invalid "@ + prefix + " uuid `"@ + t + "`: "@ + e;
    if starts_with_spec(t, tag) {
        match uuid_parse_of(t.skip(tag.len() as int)) {
            Ok(n) => Ok(n),
            Err(e) => Err(bad(e)),
        }
    } else if has_char(t, ':') {
        Err("expected `"@ + prefix + ":<uuid>`, got `"@ + t + "`"@)
    } else {
        match uuid_parse_of(t) {
            Ok(n) => Ok(n),
            Err(e) => Err(bad(e)),
        }
    }
}

fn push_str(out: &mut String, s: &str)
    ensures
        final(out)@ == old(out)@ + s@,
{
    out.append(s);
}

/// Parse `prefix:uuid`, or a bare uuid (accepted for hand-edited files).
pub fn parse_prefixed_uuid(prefix: &str, s: &str) -> (out: Result<u128, String>)
    ensures
        match out {
            Ok(n) => prefixed_uuid_spec(prefix@, s@) == Ok::<u128, Seq<char>>(n),
            Err(e) => prefixed_uuid_spec(prefix@, s@) == Err::<u128, Seq<char>>(e@),
        },
{
    let t = trim(s);
    let cs = chars_of(t.as_str());
    let mut tag = String::from_str(prefix);
    push_str(&mut tag, ":");
    proof {
        reveal_strlit(":");
        assert(tag@ =~= prefix@.push(':'));
    }
    let tc = chars_of(tag.as_str());
    let mut starts = tc.len() <= cs.len();
    let mut i: usize = 0;
    while starts && i < tc.len()
        invariant
            tc@ == tag@,
            cs@ == t@,
            i <= tc@.len(),
            starts ==> tc@.len() <= cs@.len(),
            starts ==> forall|k: int| 0 <= k < i ==> cs@[k] == tc@[k],
            !starts ==> !starts_with_spec(t@, tag@),
        decreases tc.len() - i,
    {
        if cs[i] != tc[i] {
            proof {
                assert(t@.subrange(0, tag@.len() as int)[i as int] != tag@[i as int]);
            }
            starts = false;
            i = tc.len();
        } else {
            i = i + 1;
        }
    }
    proof {
        if starts {
            assert(t@.subrange(0, tag@.len() as int) =~= tag@);
        }
    }
    let uuid_text = if starts {
        let rest = string_from(&cs, tc.len(), cs.len());
        proof {
            assert(rest@ =~= t@.skip(tag@.len() as int));
        }
        rest
    } else {
        let mut k: usize = 0;
        while k < cs.len()
            invariant
                k <= cs@.len(),
                cs@ == t@,
                t@ == trim_spec(s@),
                !starts_with_spec(t@, prefix@.push(':')),
                forall|j: int| 0 <= j < k ==> cs@[j] != ':',
            decreases cs.len() - k,
        {
            if cs[k] == ':' {
                let mut msg = String::from_str("expected `");
                push_str(&mut msg, prefix);
                push_str(&mut msg, ":<uuid>`, got `");
                push_str(&mut msg, t.as_str());
                push_str(&mut msg, "`");
                proof {
                    assert(has_char(t@, ':'));
                }
                return Err(msg);
            }
            k = k + 1;
        }
        t.clone()
    };
    match uuid_parse(uuid_text.as_str()) {
        Ok(n) => Ok(n),
        Err(e) => {
            let mut msg = String::from_str("invalid ");
            push_str(&mut msg, prefix);
            push_str(&mut msg, " uuid `");
            push_str(&mut msg, t.as_str());
            push_str(&mut msg, "`: ");
            push_str(&mut msg, e.as_str());
            Err(msg)
        },
    }
}

/// Stable identity of a composition across saves and sessions
/// (`comp:<uuid>`), held as the UUID's 128-bit value.
#[derive(Clone, Copy, Debug, PartialEq, Eq, Hash, Structural)]
pub struct CompositionId(pub u128);

impl CompositionId {
    /// Mint a new random composition id.
    pub fn new() -> (out: Self)
        ensures
            is_v4(out.0),
    {
        CompositionId(uuid_new_v4())
    }

    /// Build from a fixed 128-bit value.
    pub fn from_u128(n: u128) -> (out: Self)
        ensures
            out.0 == n,
    {
        CompositionId(n)
    }

    /// `comp:` followed by the hyphenated UUID.
    pub fn to_string(&self) -> (out: String)
        ensures
            out@ == "comp:"@ + hyphenated_spec(self.0),
    {
        let mut out = String::from_str("comp:");
        let u = uuid_hyphenated(self.0);
        push_str(&mut out, u.as_str());
        out
    }

    /// Parse `comp:<uuid>` (or a bare uuid).
    pub fn parse(s: &str) -> (out: Result<Self, String>)
        ensures
            match out {
                Ok(id) => prefixed_uuid_spec("comp"@, s@) == Ok::<u128, Seq<char>>(id.0),
                Err(e) => prefixed_uuid_spec("comp"@, s@) == Err::<u128, Seq<char>>(e@),
            },
    {
        match parse_prefixed_uuid("comp", s) {
            Ok(n) => Ok(CompositionId(n)),
            Err(e) => Err(e),
        }
    }
}

impl Default for CompositionId {
    /// A new random id.
    fn default() -> (out: Self)
        ensures
            is_v4(out.0),
    {
        CompositionId::new()
    }
}

impl std::str::FromStr for CompositionId {
    type Err = String;

    fn from_str(s: &str) -> (out: Result<Self, String>)
        ensures
            match out {
                Ok(id) => prefixed_uuid_spec("comp"@, s@) == Ok::<u128, Seq<char>>(id.0),
                Err(e) => prefixed_uuid_spec("comp"@, s@) == Err::<u128, Seq<char>>(e@),
            },
    {
        CompositionId::parse(s)
    }
}

} // verus!
