//! Normalized domain names.
//!
//! A domain name is handled as a sequence of characters. Normalization
//! lower-cases ASCII letters and strips a single trailing `.`; every matcher
//! key and every queried name passes through it before any comparison.

use vstd::prelude::*;
use vstd::string::StrSliceExecFns;

verus! {

/// Lower-case image of a single character: ASCII upper-case letters map to
/// their lower-case counterpart, every other character is unchanged.
pub open spec fn lower_char(c: char) -> char {
    if 'A' <= c && c <= 'Z' {
        ((c as int) + 32) as char
    } else {
        c
    }
}

/// Upper-case image of a single character (ASCII letters only).
pub open spec fn upper_char(c: char) -> char {
    if 'a' <= c && c <= 'z' {
        ((c as int) - 32) as char
    } else {
        c
    }
}

/// Character-wise ASCII lower-casing of a whole name.
pub open spec fn lower_seq(s: Seq<char>) -> Seq<char> {
    s.map_values(|c: char| lower_char(c))
}

/// Character-wise ASCII upper-casing of a whole name.
pub open spec fn upper_seq(s: Seq<char>) -> Seq<char> {
    s.map_values(|c: char| upper_char(c))
}

/// Strips one trailing `.`, if present.
pub open spec fn strip_trailing_dot(s: Seq<char>) -> Seq<char> {
    if s.len() > 0 && s.last() == '.' {
        s.drop_last()
    } else {
        s
    }
}

/// Normalized form of a queried or configured name: ASCII lower-cased, with
/// a single trailing `.` stripped.
pub open spec fn normalize_seq(s: Seq<char>) -> Seq<char> {
    strip_trailing_dot(lower_seq(s))
}

/// The ASCII whitespace characters that token trimming removes.
pub open spec fn is_ws_char(c: char) -> bool {
    c == ' ' || c == '\t' || c == '\n' || c == '\r' || c == '\u{b}' || c == '\u{c}'
}

/// Leading whitespace removed.
pub open spec fn trim_start_seq(s: Seq<char>) -> Seq<char>
    decreases s.len(),
{
    if s.len() > 0 && is_ws_char(s[0]) {
        trim_start_seq(s.drop_first())
    } else {
        s
    }
}

/// Trailing whitespace removed.
pub open spec fn trim_end_seq(s: Seq<char>) -> Seq<char>
    decreases s.len(),
{
    if s.len() > 0 && is_ws_char(s.last()) {
        trim_end_seq(s.drop_last())
    } else {
        s
    }
}

/// Leading and trailing whitespace removed.
pub open spec fn trim_seq(s: Seq<char>) -> Seq<char> {
    trim_end_seq(trim_start_seq(s))
}

/// A token of the form `*.base` declares a suffix-wildcard entry.
pub open spec fn is_wildcard_token(t: Seq<char>) -> bool {
    t.len() >= 2 && t[0] == '*' && t[1] == '.'
}

/// Executable ASCII lower-casing of one character.
pub fn to_lower_char(c: char) -> (r: char)
    ensures
        r == lower_char(c),
{
    if 'A' <= c && c <= 'Z' {
        (((c as u32) + 32) as u8) as char
    } else {
        c
    }
}

/// Executable whitespace test.
pub fn is_ws(c: char) -> (r: bool)
    ensures
        r == is_ws_char(c),
{
    c == ' ' || c == '\t' || c == '\n' || c == '\r' || c == '\u{b}' || c == '\u{c}'
}

/// The characters of a string slice, as a vector.
pub fn chars_of(s: &str) -> (r: Vec<char>)
    ensures
        r@ == s@,
{
    let n = s.unicode_len();
    let mut r: Vec<char> = Vec::new();
    let mut i: usize = 0;
    while i < n
        invariant
            i <= n,
            n == s@.len(),
            r@ == s@.take(i as int),
        decreases n - i,
    {
        let c = s.get_char(i);
        r.push(c);
        proof {
            assert(s@.take(i + 1 as int) =~= s@.take(i as int).push(s@[i as int]));
        }
        i = i + 1;
    }
    proof {
        assert(s@.take(n as int) =~= s@);
    }
    r
}

/// Element-wise equality of two character vectors.
pub fn chars_eq(a: &Vec<char>, b: &Vec<char>) -> (r: bool)
    ensures
        r == (a@ == b@),
{
    if a.len() != b.len() {
        proof {
            assert(a@ != b@);
        }
        return false;
    }
    let n = a.len();
    let mut i: usize = 0;
    while i < n
        invariant
            i <= n,
            n == a@.len() == b@.len(),
            forall|k: int| 0 <= k < i ==> a@[k] == b@[k],
        decreases n - i,
    {
        if a[i] != b[i] {
            proof {
                assert(a@ != b@);
            }
            return false;
        }
        i = i + 1;
    }
    proof {
        assert(a@ =~= b@);
    }
    true
}

/// ASCII lower-casing of a whole vector of characters.
pub fn to_lower_vec(v: &Vec<char>) -> (r: Vec<char>)
    ensures
        r@ == lower_seq(v@),
{
    let n = v.len();
    let mut r: Vec<char> = Vec::new();
    let mut i: usize = 0;
    while i < n
        invariant
            i <= n,
            n == v@.len(),
            r@ == lower_seq(v@.take(i as int)),
        decreases n - i,
    {
        r.push(to_lower_char(v[i]));
        proof {
            assert(lower_seq(v@.take(i + 1 as int)) =~= lower_seq(v@.take(i as int)).push(
                lower_char(v@[i as int]),
            ));
        }
        i = i + 1;
    }
    proof {
        assert(v@.take(n as int) =~= v@);
    }
    r
}

/// Normalizes a name: ASCII lower-case, then strip a single trailing `.`.
pub fn normalize_chars(v: &Vec<char>) -> (r: Vec<char>)
    ensures
        r@ == normalize_seq(v@),
{
    let mut r = to_lower_vec(v);
    if r.len() > 0 && r[r.len() - 1] == '.' {
        r.pop();
        proof {
            assert(r@ =~= strip_trailing_dot(lower_seq(v@)));
        }
    }
    r
}

/// Removes leading and trailing whitespace from a vector of characters.
pub fn trim_chars(v: &Vec<char>) -> (r: Vec<char>)
    ensures
        r@ == trim_seq(v@),
{
    let n = v.len();
    let mut start: usize = 0;
    while start < n && is_ws(v[start])
        invariant
            start <= n,
            n == v@.len(),
            forall|k: int| 0 <= k < start ==> is_ws_char(v@[k]),
        decreases n - start,
    {
        start = start + 1;
    }
    proof {
        lemma_trim_start(v@, start as int);
    }
    let mut end: usize = n;
    while end > start && is_ws(v[end - 1])
        invariant
            start <= end <= n,
            n == v@.len(),
            forall|k: int| 0 <= k < start ==> is_ws_char(v@[k]),
            start < end ==> !is_ws_char(v@[start as int]),
            forall|k: int| end <= k < n ==> is_ws_char(v@[k]),
        decreases end,
    {
        end = end - 1;
    }
    let mut r: Vec<char> = Vec::new();
    let mut i: usize = start;
    while i < end
        invariant
            start <= i <= end <= n,
            n == v@.len(),
            r@ == v@.subrange(start as int, i as int),
        decreases end - i,
    {
        r.push(v[i]);
        proof {
            assert(v@.subrange(start as int, i + 1 as int) =~= v@.subrange(
                start as int,
                i as int,
            ).push(v@[i as int]));
        }
        i = i + 1;
    }
    proof {
        lemma_trim_end(v@.skip(start as int), end - start as int);
        assert(r@ =~= v@.skip(start as int).take(end - start as int));
    }
    r
}

/// Dropping all-whitespace prefixes one character at a time reaches the same
/// sequence as skipping to the first non-whitespace position at once.
pub(crate) proof fn lemma_trim_start(s: Seq<char>, start: int)
    requires
        0 <= start <= s.len(),
        forall|k: int| 0 <= k < start ==> is_ws_char(s[k]),
        start < s.len() ==> !is_ws_char(s[start]),
    ensures
        trim_start_seq(s) == s.skip(start),
    decreases start,
{
    if start == 0 {
        if s.len() > 0 && is_ws_char(s[0]) {
            assert(false);
        }
        assert(s.skip(0) =~= s);
    } else {
        assert(is_ws_char(s[0]));
        lemma_trim_start(s.drop_first(), start - 1);
        assert(s.drop_first().skip(start - 1) =~= s.skip(start));
    }
}

/// Dropping all-whitespace suffixes one character at a time reaches the same
/// sequence as truncating at the last non-whitespace position at once.
proof fn lemma_trim_end(s: Seq<char>, end: int)
    requires
        0 <= end <= s.len(),
        forall|k: int| end <= k < s.len() ==> is_ws_char(s[k]),
        end > 0 ==> !is_ws_char(s[end - 1]),
    ensures
        trim_end_seq(s) == s.take(end),
    decreases s.len(),
{
    if end == s.len() {
        if s.len() > 0 && is_ws_char(s.last()) {
            assert(false);
        }
        assert(s.take(end) =~= s);
    } else {
        assert(is_ws_char(s.last()));
        lemma_trim_end(s.drop_last(), end);
        assert(s.drop_last().take(end) =~= s.take(end));
    }
}

/// Relies on `String::push`: appends exactly one character.
#[verifier::external_body]
fn push_char(s: &mut String, c: char)
    ensures
        final(s)@ == old(s)@.push(c),
{
    s.push(c);
}

/// A string holding exactly the given characters.
pub fn chars_to_string(v: &Vec<char>) -> (r: String)
    ensures
        r@ == v@,
{
    let n = v.len();
    let mut r = String::new();
    let mut i: usize = 0;
    while i < n
        invariant
            i <= n,
            n == v@.len(),
            r@ == v@.take(i as int),
        decreases n - i,
    {
        push_char(&mut r, v[i]);
        proof {
            assert(v@.take(i + 1 as int) =~= v@.take(i as int).push(v@[i as int]));
        }
        i = i + 1;
    }
    proof {
        assert(v@.take(n as int) =~= v@);
    }
    r
}

} // verus!
