//! The matcher's laws: how normalization and wildcard entries interact with
//! the blocking decision, proved once and for all policies.

use vstd::prelude::*;
use crate::domain::{lower_char, lower_seq, normalize_seq, strip_trailing_dot, upper_char, upper_seq};
use crate::matcher::{blocked_in, exact_entries, wildcard_covers, wildcard_entries};

verus! {

/// Pointwise facts about ASCII case mapping: lower-casing is idempotent,
/// upper-casing then lower-casing is plain lower-casing, and case mapping
/// neither creates nor destroys a `.`.
proof fn lemma_lower_char_props(c: char)
    ensures
        lower_char(lower_char(c)) == lower_char(c),
        lower_char(upper_char(c)) == lower_char(c),
        (lower_char(c) == '.') == (c == '.'),
        (upper_char(c) == '.') == (c == '.'),
{
}

/// Lower-casing a whole name is idempotent and keeps `.` positions.
proof fn lemma_lower_seq_props(s: Seq<char>)
    ensures
        lower_seq(lower_seq(s)) == lower_seq(s),
        lower_seq(upper_seq(s)) == lower_seq(s),
        forall|i: int| 0 <= i < s.len() ==> ((#[trigger] lower_seq(s)[i] == '.') == (s[i] == '.')),
{
    assert forall|i: int| 0 <= i < s.len() implies ((#[trigger] lower_seq(s)[i] == '.') == (s[i]
        == '.')) by {
        lemma_lower_char_props(s[i]);
    }
    assert(lower_seq(lower_seq(s)) =~= lower_seq(s)) by {
        assert forall|i: int| 0 <= i < s.len() implies lower_seq(lower_seq(s))[i] == lower_seq(
            s,
        )[i] by {
            lemma_lower_char_props(s[i]);
        }
    }
    assert(lower_seq(upper_seq(s)) =~= lower_seq(s)) by {
        assert forall|i: int| 0 <= i < s.len() implies lower_seq(upper_seq(s))[i] == lower_seq(
            s,
        )[i] by {
            lemma_lower_char_props(s[i]);
        }
    }
}

/// Normalization idempotence: normalizing an already normalized name changes
/// nothing, so the matcher's answer for `d` and for `normalize(d)` is the
/// same. The one family of inputs left out: a name that ends in two dots,
/// where each normalization strips one of them.
pub proof fn lemma_normalize_idempotent(
    exact: Set<Seq<char>>,
    wild: Set<Seq<char>>,
    d: Seq<char>,
)
    requires
        !(d.len() >= 2 && d[d.len() - 1] == '.' && d[d.len() - 2] == '.'),
    ensures
        normalize_seq(normalize_seq(d)) == normalize_seq(d),
        blocked_in(exact, wild, normalize_seq(normalize_seq(d))) == blocked_in(
            exact,
            wild,
            normalize_seq(d),
        ),
{
    lemma_lower_seq_props(d);
    let l = lower_seq(d);
    let n1 = normalize_seq(d);
    if l.len() > 0 && l.last() == '.' {
        assert(d[d.len() - 1] == '.');
        assert(n1 =~= l.drop_last());
    } else {
        assert(n1 == l);
    }
    // The normalized name is already lower-case.
    assert(lower_seq(n1) =~= n1) by {
        assert forall|i: int| 0 <= i < n1.len() implies lower_seq(n1)[i] == n1[i] by {
            assert(n1[i] == l[i]);
            assert(l[i] == lower_char(d[i]));
            lemma_lower_char_props(d[i]);
        }
    }
    // And it does not end with a dot.
    if n1.len() > 0 && n1.last() == '.' {
        if l.len() > 0 && l.last() == '.' {
            assert(n1[n1.len() - 1] == l[l.len() - 2]);
            assert(d[d.len() - 2] == '.');
            assert(false);
        } else {
            assert(d[d.len() - 1] == '.');
            assert(false);
        }
    }
    assert(normalize_seq(n1) == strip_trailing_dot(n1));
    assert(strip_trailing_dot(n1) == n1);
}

/// Case insensitivity: upper-casing a queried name cannot change the
/// matcher's answer, since normalization lower-cases first.
pub proof fn lemma_case_insensitive(exact: Set<Seq<char>>, wild: Set<Seq<char>>, d: Seq<char>)
    ensures
        normalize_seq(upper_seq(d)) == normalize_seq(d),
        blocked_in(exact, wild, normalize_seq(upper_seq(d))) == blocked_in(
            exact,
            wild,
            normalize_seq(d),
        ),
{
    lemma_lower_seq_props(d);
    assert(lower_seq(upper_seq(d)) == lower_seq(d));
}

/// Trailing-dot insensitivity: a single trailing dot on a queried name that
/// does not already end in one cannot change the matcher's answer.
pub proof fn lemma_trailing_dot(exact: Set<Seq<char>>, wild: Set<Seq<char>>, d: Seq<char>)
    requires
        d.len() == 0 || d[d.len() - 1] != '.',
    ensures
        normalize_seq(d.push('.')) == normalize_seq(d),
        blocked_in(exact, wild, normalize_seq(d.push('.'))) == blocked_in(
            exact,
            wild,
            normalize_seq(d),
        ),
{
    lemma_lower_seq_props(d);
    lemma_lower_seq_props(d.push('.'));
    let lp = lower_seq(d.push('.'));
    assert(lp.last() == '.') by {
        assert(d.push('.')[d.len() as int] == '.');
        lemma_lower_char_props('.');
    }
    assert(normalize_seq(d.push('.')) =~= lower_seq(d)) by {
        assert forall|i: int| 0 <= i < d.len() implies lp.drop_last()[i] == lower_seq(d)[i] by {
            assert(d.push('.')[i] == d[i]);
        }
    }
    if d.len() > 0 {
        assert(lower_seq(d).last() == lower_char(d[d.len() - 1]));
        lemma_lower_char_props(d[d.len() - 1]);
    }
    assert(normalize_seq(d) == lower_seq(d));
}

/// Wildcard semantics: a policy holding only the wildcard base `b` blocks
/// every strict subdomain `x.b`, at any depth, and never `b` itself.
pub proof fn lemma_wildcard_strict_subdomains(b: Seq<char>, x: Seq<char>)
    requires
        x.len() > 0,
    ensures
        !blocked_in(Set::<Seq<char>>::empty(), Set::<Seq<char>>::empty().insert(b), b),
        blocked_in(
            Set::<Seq<char>>::empty(),
            Set::<Seq<char>>::empty().insert(b),
            x + seq!['.'] + b,
        ),
        !wildcard_covers(b, b),
        wildcard_covers(b, x + seq!['.'] + b),
{
    let name = x + seq!['.'] + b;
    assert(name.len() == x.len() + 1 + b.len());
    assert(name[name.len() - b.len() - 1] == '.');
    assert(name.skip(name.len() - b.len()) =~= b);
    assert(wildcard_covers(b, name));
    let wild = Set::<Seq<char>>::empty().insert(b);
    assert(wild.contains(b));
    assert forall|b2: Seq<char>| wild.contains(b2) implies !wildcard_covers(b2, b) by {
        assert(b2 == b);
    }
}

/// Independence: adding the wildcard base `b` changes the answer only for
/// names that end in `.b`; every other name keeps its old answer.
pub proof fn lemma_wildcard_independent(
    exact: Set<Seq<char>>,
    wild: Set<Seq<char>>,
    b: Seq<char>,
    d: Seq<char>,
)
    requires
        !wildcard_covers(b, d),
    ensures
        blocked_in(exact, wild.insert(b), d) == blocked_in(exact, wild, d),
{
    if blocked_in(exact, wild.insert(b), d) && !exact.contains(d) {
        let b2 = choose|b2: Seq<char>| wild.insert(b).contains(b2) && wildcard_covers(b2, d);
        assert(b2 != b);
        assert(wild.contains(b2));
    }
    if blocked_in(exact, wild, d) && !exact.contains(d) {
        let b2 = choose|b2: Seq<char>| wild.contains(b2) && wildcard_covers(b2, d);
        assert(wild.insert(b).contains(b2));
    }
}

/// Idempotent install: loading the same token list into a policy that
/// already holds its entries leaves both entry sets unchanged, so `count`
/// and every `is_blocked` answer stay what they were.
pub proof fn lemma_install_idempotent(
    exact: Set<Seq<char>>,
    wild: Set<Seq<char>>,
    tokens: Seq<Seq<char>>,
)
    ensures
        exact.union(exact_entries(tokens)).union(exact_entries(tokens)) == exact.union(
            exact_entries(tokens),
        ),
        wild.union(wildcard_entries(tokens)).union(wildcard_entries(tokens)) == wild.union(
            wildcard_entries(tokens),
        ),
{
    assert(exact.union(exact_entries(tokens)).union(exact_entries(tokens)) =~= exact.union(
        exact_entries(tokens),
    ));
    assert(wild.union(wildcard_entries(tokens)).union(wildcard_entries(tokens)) =~= wild.union(
        wildcard_entries(tokens),
    ));
}

} // verus!
