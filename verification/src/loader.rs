//! The loader: turning blocklist file contents into matcher tokens.
//!
//! Two shapes of input arrive here. Locally configured lists hold one token
//! per line, with blank lines and `#` comments ignored. Downloaded lists may
//! also use hosts-file form (`<ip> <name>`), whose second field is the
//! domain; such lines are validated and lower-cased before they become
//! tokens.

use vstd::prelude::*;
use crate::domain::{
    chars_eq, chars_of, chars_to_string, is_wildcard_token, is_ws, is_ws_char, lemma_trim_start,
    lower_seq, to_lower_vec, trim_chars, trim_seq, trim_start_seq,
};
use crate::matcher::lemma_deep_view_props;

verus! {

/// The position of the first line break, or the whole length if none.
pub open spec fn first_newline(s: Seq<char>) -> int
    decreases s.len(),
{
    if s.len() == 0 {
        0
    } else if s[0] == '\n' {
        0
    } else {
        1 + first_newline(s.drop_first())
    }
}

/// One trailing carriage return removed, as line splitting does.
pub open spec fn strip_cr(s: Seq<char>) -> Seq<char> {
    if s.len() > 0 && s.last() == '\r' {
        s.drop_last()
    } else {
        s
    }
}

/// The lines of a text: split at `\n`, one trailing `\r` per line removed,
/// and no final empty line after a trailing line break.
pub open spec fn split_lines(s: Seq<char>) -> Seq<Seq<char>>
    decreases s.len(),
{
    if s.len() == 0 {
        Seq::empty()
    } else {
        let i = first_newline(s);
        if 0 <= i && i < s.len() {
            seq![strip_cr(s.take(i))] + split_lines(s.skip(i + 1))
        } else {
            seq![strip_cr(s)]
        }
    }
}

/// `first_newline` is the first index holding `\n`.
proof fn lemma_first_newline(s: Seq<char>, i: int)
    requires
        0 <= i <= s.len(),
        forall|k: int| 0 <= k < i ==> s[k] != '\n',
        i < s.len() ==> s[i] == '\n',
    ensures
        first_newline(s) == i,
    decreases i,
{
    if i == 0 {
        if s.len() > 0 {
            assert(s[0] == '\n');
        }
    } else {
        assert(s[0] != '\n');
        lemma_first_newline(s.drop_first(), i - 1);
    }
}

/// Splits a text into its lines.
pub fn split_content_lines(content: &str) -> (r: Vec<Vec<char>>)
    ensures
        r.deep_view() == split_lines(content@),
{
    let s = chars_of(content);
    let n = s.len();
    let mut r: Vec<Vec<char>> = Vec::new();
    let mut pos: usize = 0;
    proof {
        assert(r.deep_view() =~= Seq::<Seq<char>>::empty());
        assert(s@.skip(0) =~= s@);
    }
    while pos < n
        invariant
            pos <= n,
            n == s@.len(),
            s@ == content@,
            r.deep_view() + split_lines(s@.skip(pos as int)) == split_lines(content@),
        decreases n - pos,
    {
        let ghost rest = s@.skip(pos as int);
        // Find the end of the current line.
        let mut j: usize = pos;
        while j < n && s[j] != '\n'
            invariant
                pos <= j <= n,
                n == s@.len(),
                forall|k: int| pos <= k < j ==> s@[k] != '\n',
            decreases n - j,
        {
            j = j + 1;
        }
        proof {
            assert forall|k: int| 0 <= k < j - pos implies rest[k] != '\n' by {
                assert(rest[k] == s@[pos + k]);
            }
            if j < n {
                assert(rest[j - pos] == s@[j as int]);
            }
            lemma_first_newline(rest, j - pos);
        }
        // Copy the line, without one trailing carriage return.
        let end: usize = if j > pos && s[j - 1] == '\r' {
            j - 1
        } else {
            j
        };
        let mut line: Vec<char> = Vec::new();
        let mut k: usize = pos;
        while k < end
            invariant
                pos <= k <= end,
                end <= n == s@.len(),
                line@ == s@.subrange(pos as int, k as int),
            decreases end - k,
        {
            line.push(s[k]);
            proof {
                assert(s@.subrange(pos as int, k + 1 as int) =~= s@.subrange(
                    pos as int,
                    k as int,
                ).push(s@[k as int]));
            }
            k = k + 1;
        }
        proof {
            let fl = rest.take(j - pos);
            assert(fl =~= s@.subrange(pos as int, j as int));
            assert(line@ =~= strip_cr(fl)) by {
                if j > pos && s@[j - 1] == '\r' {
                    assert(fl.last() == s@[j - 1]);
                    assert(line@ =~= fl.drop_last());
                } else {
                    if fl.len() > 0 && fl.last() == '\r' {
                        assert(fl.last() == s@[j - 1]);
                    }
                    assert(line@ =~= fl);
                }
            }
        }
        let ghost oldr = r;
        r.push(line);
        let next = if j < n {
            j + 1
        } else {
            n
        };
        proof {
            lemma_deep_view_props(r);
            lemma_deep_view_props(oldr);
            assert(r.deep_view() =~= oldr.deep_view().push(line@));
            let fl = rest.take(j - pos);
            if j < n {
                assert(rest.skip(j - pos + 1) =~= s@.skip(next as int));
                assert(split_lines(rest) == seq![strip_cr(fl)] + split_lines(
                    s@.skip(next as int),
                ));
                assert(r.deep_view() + split_lines(s@.skip(next as int)) =~= oldr.deep_view()
                    + split_lines(rest));
            } else {
                assert(fl =~= rest);
                assert(split_lines(rest) == seq![strip_cr(rest)]);
                assert(s@.skip(next as int) =~= Seq::<char>::empty());
                assert(split_lines(s@.skip(next as int)) =~= Seq::<Seq<char>>::empty());
                assert(r.deep_view() + split_lines(s@.skip(next as int)) =~= oldr.deep_view()
                    + split_lines(rest));
            }
        }
        pos = next;
    }
    proof {
        assert(split_lines(s@.skip(pos as int)) =~= Seq::<Seq<char>>::empty());
        assert(r.deep_view() =~= r.deep_view() + split_lines(s@.skip(pos as int)));
    }
    r
}

/// The token a configured blocklist line contributes: the line is trimmed;
/// blank lines, `#` comments and, when wildcards are disabled, `*.` tokens
/// contribute nothing.
pub open spec fn config_line_token(line: Seq<char>, enable_wildcards: bool) -> Option<Seq<char>> {
    let t = trim_seq(line);
    if t.len() == 0 || t[0] == '#' {
        None
    } else if !enable_wildcards && is_wildcard_token(t) {
        None
    } else {
        Some(t)
    }
}

/// The tokens of a configured blocklist, line by line.
pub open spec fn config_tokens(lines: Seq<Seq<char>>, enable_wildcards: bool) -> Seq<Seq<char>>
    decreases lines.len(),
{
    if lines.len() == 0 {
        Seq::empty()
    } else {
        let rest = config_tokens(lines.drop_last(), enable_wildcards);
        match config_line_token(lines.last(), enable_wildcards) {
            Some(t) => rest.push(t),
            None => rest,
        }
    }
}

/// Reads the tokens out of a configured blocklist file's contents.
pub fn collect_tokens(content: &str, enable_wildcards: bool) -> (r: Vec<String>)
    ensures
        r.deep_view() == config_tokens(split_lines(content@), enable_wildcards),
{
    let lines = split_content_lines(content);
    let ghost lv = lines.deep_view();
    proof {
        lemma_deep_view_props(lines);
    }
    let n = lines.len();
    let mut r: Vec<String> = Vec::new();
    let mut i: usize = 0;
    proof {
        assert(r.deep_view() =~= config_tokens(lv.take(0), enable_wildcards));
    }
    while i < n
        invariant
            i <= n,
            n == lines@.len(),
            lv == lines.deep_view(),
            lv == split_lines(content@),
            lv.len() == n,
            forall|k: int| 0 <= k < n ==> lv[k] == lines@[k]@,
            r.deep_view() == config_tokens(lv.take(i as int), enable_wildcards),
        decreases n - i,
    {
        let t = trim_chars(&lines[i]);
        let keep: bool = if t.len() == 0 {
            false
        } else if t[0] == '#' {
            false
        } else if !enable_wildcards && t.len() >= 2 && t[0] == '*' && t[1] == '.' {
            false
        } else {
            true
        };
        proof {
            assert(t@ == trim_seq(lv[i as int]));
            assert(lv.take(i + 1 as int).drop_last() =~= lv.take(i as int));
            assert(lv.take(i + 1 as int).last() == lv[i as int]);
        }
        if keep {
            let tok = chars_to_string(&t);
            let ghost prev = r.deep_view();
            r.push(tok);
            proof {
                assert(r.deep_view() =~= prev.push(tok@));
            }
        }
        i = i + 1;
    }
    proof {
        assert(lv.take(n as int) =~= lv);
    }
    r
}

/// A decimal digit.
pub open spec fn is_digit_char(c: char) -> bool {
    '0' <= c && c <= '9'
}

/// The characters a blocklist domain token may hold.
pub open spec fn allowed_domain_char(c: char) -> bool {
    ||| 'a' <= c && c <= 'z'
    ||| 'A' <= c && c <= 'Z'
    ||| is_digit_char(c)
    ||| c == '.'
    ||| c == '-'
    ||| c == '*'
}

/// Whether `p` is a prefix of `s`.
pub open spec fn has_prefix(s: Seq<char>, p: Seq<char>) -> bool {
    p.len() <= s.len() && s.take(p.len() as int) == p
}

/// What a downloaded token must look like to reach the matcher: not a
/// localhost or broadcast name, not an IP, dotted (or a wildcard), not
/// digit-led, and over the domain alphabet only.
pub open spec fn valid_domain(d: Seq<char>) -> bool {
    &&& !(has_prefix(d, "local"@) && !d.contains('.'))
    &&& d != "localhost"@
    &&& !has_prefix(d, "localhost."@)
    &&& d != "broadcasthost"@
    &&& !has_prefix(d, "0.0.0.0"@)
    &&& (d.contains('.') || has_prefix(d, "*."@))
    &&& d.len() > 0 ==> !is_digit_char(d[0])
    &&& forall|i: int| 0 <= i < d.len() ==> allowed_domain_char(d[i])
}

/// Whether a vector of characters contains one.
fn contains_char(v: &Vec<char>, c: char) -> (r: bool)
    ensures
        r == v@.contains(c),
{
    let n = v.len();
    let mut i: usize = 0;
    while i < n
        invariant
            i <= n,
            n == v@.len(),
            forall|k: int| 0 <= k < i ==> v@[k] != c,
        decreases n - i,
    {
        if v[i] == c {
            return true;
        }
        i = i + 1;
    }
    false
}

/// Whether one vector of characters starts with another.
fn prefix_matches(s: &Vec<char>, p: &Vec<char>) -> (r: bool)
    ensures
        r == has_prefix(s@, p@),
{
    let m = p.len();
    if m > s.len() {
        return false;
    }
    let mut i: usize = 0;
    while i < m
        invariant
            i <= m,
            m == p@.len(),
            m <= s@.len(),
            forall|k: int| 0 <= k < i ==> s@[k] == p@[k],
        decreases m - i,
    {
        if s[i] != p[i] {
            proof {
                assert(s@.take(m as int)[i as int] != p@[i as int]);
            }
            return false;
        }
        i = i + 1;
    }
    proof {
        assert(s@.take(m as int) =~= p@);
    }
    true
}

/// Validates a downloaded domain token.
pub fn is_valid_domain(d: &Vec<char>) -> (r: bool)
    ensures
        r == valid_domain(d@),
{
    let has_dot = contains_char(d, '.');
    let local = chars_of("local");
    if prefix_matches(d, &local) && !has_dot {
        return false;
    }
    let localhost = chars_of("localhost");
    if chars_eq(d, &localhost) {
        return false;
    }
    let localhost_dot = chars_of("localhost.");
    if prefix_matches(d, &localhost_dot) {
        return false;
    }
    let broadcast = chars_of("broadcasthost");
    if chars_eq(d, &broadcast) {
        return false;
    }
    let zeros = chars_of("0.0.0.0");
    if prefix_matches(d, &zeros) {
        return false;
    }
    let star = chars_of("*.");
    if !has_dot && !prefix_matches(d, &star) {
        return false;
    }
    if d.len() > 0 {
        let c0 = d[0];
        if '0' <= c0 && c0 <= '9' {
            return false;
        }
    }
    let n = d.len();
    let mut i: usize = 0;
    while i < n
        invariant
            i <= n,
            n == d@.len(),
            forall|k: int| 0 <= k < i ==> allowed_domain_char(d@[k]),
        decreases n - i,
    {
        let c = d[i];
        let ok = ('a' <= c && c <= 'z') || ('A' <= c && c <= 'Z') || ('0' <= c && c <= '9') || c
            == '.' || c == '-' || c == '*';
        if !ok {
            return false;
        }
        i = i + 1;
    }
    true
}

/// The rest of a line once its first whitespace-separated field is read.
pub open spec fn drop_leading_field(s: Seq<char>) -> Seq<char>
    decreases s.len(),
{
    if s.len() > 0 && !is_ws_char(s[0]) {
        drop_leading_field(s.drop_first())
    } else {
        s
    }
}

/// The first whitespace-separated field of a text.
pub open spec fn take_leading_field(s: Seq<char>) -> Seq<char>
    decreases s.len(),
{
    if s.len() > 0 && !is_ws_char(s[0]) {
        seq![s[0]] + take_leading_field(s.drop_first())
    } else {
        Seq::empty()
    }
}

/// The second whitespace-separated field of a trimmed line.
pub open spec fn second_field(t: Seq<char>) -> Seq<char> {
    take_leading_field(trim_start_seq(drop_leading_field(t)))
}

/// The domain a hosts-file style line names: its second field when the line
/// has the `<ip> <name>` shape, otherwise the whole line.
pub open spec fn hosts_line_domain(t: Seq<char>) -> Seq<char> {
    if t.contains(' ') {
        second_field(t)
    } else {
        t
    }
}

/// The token a downloaded blocklist line contributes: blank lines and `#`
/// comments nothing; any other line its domain, validated and lower-cased.
pub open spec fn hosts_line_token(line: Seq<char>) -> Option<Seq<char>> {
    let t = trim_seq(line);
    if t.len() == 0 || t[0] == '#' {
        None
    } else {
        let d = hosts_line_domain(t);
        if d.len() > 0 && valid_domain(d) {
            Some(lower_seq(d))
        } else {
            None
        }
    }
}

/// The tokens of a downloaded blocklist, line by line.
pub open spec fn hosts_tokens(lines: Seq<Seq<char>>) -> Seq<Seq<char>>
    decreases lines.len(),
{
    if lines.len() == 0 {
        Seq::empty()
    } else {
        let rest = hosts_tokens(lines.drop_last());
        match hosts_line_token(lines.last()) {
            Some(t) => rest.push(t),
            None => rest,
        }
    }
}

/// Reading the first field stops at the first whitespace.
proof fn lemma_drop_field(s: Seq<char>, i: int)
    requires
        0 <= i <= s.len(),
        forall|k: int| 0 <= k < i ==> !is_ws_char(s[k]),
        i < s.len() ==> is_ws_char(s[i]),
    ensures
        drop_leading_field(s) == s.skip(i),
    decreases i,
{
    if i == 0 {
        if s.len() > 0 && !is_ws_char(s[0]) {
            assert(false);
        }
        assert(s.skip(0) =~= s);
    } else {
        assert(!is_ws_char(s[0]));
        lemma_drop_field(s.drop_first(), i - 1);
        assert(s.drop_first().skip(i - 1) =~= s.skip(i));
    }
}

/// The first field is everything up to the first whitespace.
proof fn lemma_take_field(s: Seq<char>, m: int)
    requires
        0 <= m <= s.len(),
        forall|k: int| 0 <= k < m ==> !is_ws_char(s[k]),
        m < s.len() ==> is_ws_char(s[m]),
    ensures
        take_leading_field(s) == s.take(m),
    decreases m,
{
    if m == 0 {
        if s.len() > 0 && !is_ws_char(s[0]) {
            assert(false);
        }
        assert(s.take(0) =~= Seq::<char>::empty());
    } else {
        assert(!is_ws_char(s[0]));
        lemma_take_field(s.drop_first(), m - 1);
        assert(seq![s[0]] + s.drop_first().take(m - 1) =~= s.take(m));
    }
}

/// The second whitespace-separated field of a trimmed line.
fn second_field_chars(t: &Vec<char>) -> (r: Vec<char>)
    ensures
        r@ == second_field(t@),
{
    let n = t.len();
    let mut i: usize = 0;
    while i < n && !is_ws(t[i])
        invariant
            i <= n,
            n == t@.len(),
            forall|k: int| 0 <= k < i ==> !is_ws_char(t@[k]),
        decreases n - i,
    {
        i = i + 1;
    }
    proof {
        lemma_drop_field(t@, i as int);
    }
    let mut j: usize = i;
    while j < n && is_ws(t[j])
        invariant
            i <= j <= n,
            n == t@.len(),
            forall|k: int| i <= k < j ==> is_ws_char(t@[k]),
        decreases n - j,
    {
        j = j + 1;
    }
    proof {
        let s2 = t@.skip(i as int);
        assert forall|k: int| 0 <= k < j - i implies is_ws_char(s2[k]) by {
            assert(s2[k] == t@[i + k]);
        }
        if j < n {
            assert(s2[j - i] == t@[j as int]);
        }
        lemma_trim_start(s2, j - i);
        assert(s2.skip(j - i) =~= t@.skip(j as int));
    }
    let mut e: usize = j;
    while e < n && !is_ws(t[e])
        invariant
            j <= e <= n,
            n == t@.len(),
            forall|k: int| j <= k < e ==> !is_ws_char(t@[k]),
        decreases n - e,
    {
        e = e + 1;
    }
    proof {
        let s3 = t@.skip(j as int);
        assert forall|k: int| 0 <= k < e - j implies !is_ws_char(s3[k]) by {
            assert(s3[k] == t@[j + k]);
        }
        if e < n {
            assert(s3[e - j] == t@[e as int]);
        }
        lemma_take_field(s3, e - j);
    }
    let mut r: Vec<char> = Vec::new();
    let mut k: usize = j;
    while k < e
        invariant
            j <= k <= e <= n,
            n == t@.len(),
            r@ == t@.subrange(j as int, k as int),
        decreases e - k,
    {
        r.push(t[k]);
        proof {
            assert(t@.subrange(j as int, k + 1 as int) =~= t@.subrange(j as int, k as int).push(
                t@[k as int],
            ));
        }
        k = k + 1;
    }
    proof {
        assert(r@ =~= t@.skip(j as int).take(e - j as int));
    }
    r
}

/// Parses a downloaded blocklist's contents into domain tokens: hosts-file
/// lines contribute their second field; comments, blanks and invalid tokens
/// are dropped; every kept token is lower-cased.
pub fn parse_blocklist(content: &str) -> (r: Vec<String>)
    ensures
        r.deep_view() == hosts_tokens(split_lines(content@)),
{
    let lines = split_content_lines(content);
    let ghost lv = lines.deep_view();
    proof {
        lemma_deep_view_props(lines);
    }
    let n = lines.len();
    let mut r: Vec<String> = Vec::new();
    let mut i: usize = 0;
    proof {
        assert(r.deep_view() =~= hosts_tokens(lv.take(0)));
    }
    while i < n
        invariant
            i <= n,
            n == lines@.len(),
            lv == lines.deep_view(),
            lv == split_lines(content@),
            lv.len() == n,
            forall|k: int| 0 <= k < n ==> lv[k] == lines@[k]@,
            r.deep_view() == hosts_tokens(lv.take(i as int)),
        decreases n - i,
    {
        proof {
            assert(lv.take(i + 1 as int).drop_last() =~= lv.take(i as int));
            assert(lv.take(i + 1 as int).last() == lv[i as int]);
        }
        let t = trim_chars(&lines[i]);
        let skip_line: bool = if t.len() == 0 {
            true
        } else {
            t[0] == '#'
        };
        if !skip_line {
            let d = if contains_char(&t, ' ') {
                second_field_chars(&t)
            } else {
                t
            };
            if d.len() > 0 && is_valid_domain(&d) {
                let lowered = to_lower_vec(&d);
                let tok = chars_to_string(&lowered);
                let ghost prev = r.deep_view();
                r.push(tok);
                proof {
                    assert(r.deep_view() =~= prev.push(tok@));
                }
            }
        }
        i = i + 1;
    }
    proof {
        assert(lv.take(n as int) =~= lv);
    }
    r
}

/// Whether a list of tokens contains one.
fn contains_string(v: &Vec<String>, x: &String) -> (r: bool)
    ensures
        r == v.deep_view().contains(x@),
{
    let n = v.len();
    let mut i: usize = 0;
    while i < n
        invariant
            i <= n,
            n == v@.len(),
            forall|k: int| 0 <= k < i ==> v.deep_view()[k] != x@,
        decreases n - i,
    {
        if v[i].eq(x) {
            proof {
                assert(v.deep_view()[i as int] == x@);
            }
            return true;
        }
        i = i + 1;
    }
    false
}

/// Collapses duplicate tokens from merged blocklists; which tokens there
/// are is unchanged.
pub fn dedup_domains(domains: Vec<String>) -> (r: Vec<String>)
    ensures
        r.deep_view().no_duplicates(),
        r.deep_view().to_set() == domains.deep_view().to_set(),
{
    let ghost dv = domains.deep_view();
    let n = domains.len();
    let mut r: Vec<String> = Vec::new();
    let mut i: usize = 0;
    proof {
        assert(r.deep_view() =~= Seq::<Seq<char>>::empty());
        assert(r.deep_view().to_set() =~= dv.take(0).to_set());
    }
    while i < n
        invariant
            i <= n,
            n == domains@.len(),
            dv == domains.deep_view(),
            dv.len() == n,
            r.deep_view().no_duplicates(),
            r.deep_view().to_set() == dv.take(i as int).to_set(),
        decreases n - i,
    {
        let d = domains[i].clone();
        proof {
            assert(d@ == dv[i as int]);
            assert(dv.take(i + 1 as int) =~= dv.take(i as int).push(dv[i as int]));
            dv.take(i as int).lemma_push_to_set_commute(dv[i as int]);
        }
        if !contains_string(&r, &d) {
            let ghost prev = r.deep_view();
            r.push(d);
            proof {
                assert(r.deep_view() =~= prev.push(d@));
                assert forall|p: int, q: int|
                    0 <= p < q < r.deep_view().len() implies r.deep_view()[p]
                    != r.deep_view()[q] by {
                    if q == prev.len() {
                        assert(prev[p] != d@);
                    }
                }
                prev.lemma_push_to_set_commute(d@);
            }
        } else {
            proof {
                assert(r.deep_view().to_set().contains(d@));
                assert(r.deep_view().to_set() =~= r.deep_view().to_set().insert(d@));
            }
        }
        i = i + 1;
    }
    proof {
        assert(dv.take(n as int) =~= dv);
    }
    r
}

} // verus!
