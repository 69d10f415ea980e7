//! The blocklist matcher: membership of a queried name in the active policy.
//!
//! A policy holds two sets of normalized names: exact entries, which match
//! only the identical name, and wildcard bases, which match every strict
//! subdomain of the base but never the base itself.

use vstd::prelude::*;
use crate::domain::{
    chars_eq, chars_of, is_wildcard_token, normalize_chars, normalize_seq, trim_chars, trim_seq,
};

verus! {

/// A wildcard base `b` covers `name` when `name` is `x.b` for some prefix
/// `x`, that is, when `b` is the suffix of `name` that starts right after
/// some `.`. The base never covers itself.
pub open spec fn wildcard_covers(base: Seq<char>, name: Seq<char>) -> bool {
    &&& name.len() > base.len()
    &&& name[name.len() - base.len() - 1] == '.'
    &&& name.skip(name.len() - base.len()) == base
}

/// A wildcard base covers exactly the names in which it appears as the
/// suffix starting right after some `.`: the suffixes the decision walk
/// probes, one per label boundary, skipping the whole name itself.
pub proof fn lemma_wildcard_covers_iff_dot_suffix(base: Seq<char>, name: Seq<char>)
    ensures
        wildcard_covers(base, name) <==> exists|j: int|
            0 <= j < name.len() && #[trigger] name[j] == '.' && name.skip(j + 1) == base,
{
    if wildcard_covers(base, name) {
        let j = name.len() - base.len() - 1;
        assert(name.skip(j + 1) == base);
        assert(0 <= j < name.len() && name[j] == '.' && name.skip(j + 1) == base);
    }
    if exists|j: int| 0 <= j < name.len() && #[trigger] name[j] == '.' && name.skip(j + 1)
        == base {
        let j = choose|j: int|
            0 <= j < name.len() && #[trigger] name[j] == '.' && name.skip(j + 1) == base;
        assert(name.skip(j + 1).len() == name.len() - j - 1);
        assert(j == name.len() - base.len() - 1);
        assert(name.skip(name.len() - base.len()) == base);
    }
}

/// A normalized name is blocked when it is an exact entry, or when some
/// wildcard base covers it.
pub open spec fn blocked_in(exact: Set<Seq<char>>, wild: Set<Seq<char>>, name: Seq<char>) -> bool {
    exact.contains(name) || exists|b: Seq<char>| #[trigger] wild.contains(b) && wildcard_covers(
        b,
        name,
    )
}

/// Whether a raw configured token declares a wildcard entry.
pub open spec fn token_is_wildcard(t: Seq<char>) -> bool {
    is_wildcard_token(normalize_seq(trim_seq(t)))
}

/// The normalized matcher key that a raw configured token declares: the
/// token is trimmed and normalized, and a leading `*.` is stripped.
pub open spec fn token_base(t: Seq<char>) -> Seq<char> {
    let n = normalize_seq(trim_seq(t));
    if is_wildcard_token(n) {
        n.skip(2)
    } else {
        n
    }
}

/// The exact entries declared by a list of tokens.
pub open spec fn exact_entries(tokens: Seq<Seq<char>>) -> Set<Seq<char>>
    decreases tokens.len(),
{
    if tokens.len() == 0 {
        Set::empty()
    } else {
        let rest = exact_entries(tokens.drop_last());
        if token_is_wildcard(tokens.last()) {
            rest
        } else {
            rest.insert(token_base(tokens.last()))
        }
    }
}

/// The wildcard bases declared by a list of tokens.
pub open spec fn wildcard_entries(tokens: Seq<Seq<char>>) -> Set<Seq<char>>
    decreases tokens.len(),
{
    if tokens.len() == 0 {
        Set::empty()
    } else {
        let rest = wildcard_entries(tokens.drop_last());
        if token_is_wildcard(tokens.last()) {
            rest.insert(token_base(tokens.last()))
        } else {
            rest
        }
    }
}

/// The active policy: exact entries and wildcard bases, each stored without
/// duplicates so that `count` equals the cardinality of the two sets.
pub struct BlocklistManager {
    exact: Vec<Vec<char>>,
    wildcards: Vec<Vec<char>>,
}

impl BlocklistManager {
    /// The set of exact entries.
    pub closed spec fn exact_set(&self) -> Set<Seq<char>> {
        self.exact.deep_view().to_set()
    }

    /// The set of wildcard bases.
    pub closed spec fn wildcard_set(&self) -> Set<Seq<char>> {
        self.wildcards.deep_view().to_set()
    }

    /// Internal well-formedness: entries are stored once each, and the two
    /// stores together stay countable in a `usize`.
    pub closed spec fn wf(&self) -> bool {
        &&& self.exact.deep_view().no_duplicates()
        &&& self.wildcards.deep_view().no_duplicates()
        &&& self.exact@.len() + self.wildcards@.len() <= usize::MAX
    }

    /// The policy's cardinality: exact entries plus wildcard bases.
    pub open spec fn count_spec(&self) -> nat {
        self.exact_set().len() + self.wildcard_set().len()
    }

    /// An empty policy.
    pub fn new() -> (r: Self)
        ensures
            r.wf(),
            r.exact_set() == Set::<Seq<char>>::empty(),
            r.wildcard_set() == Set::<Seq<char>>::empty(),
    {
        let r = BlocklistManager { exact: Vec::new(), wildcards: Vec::new() };
        proof {
            assert(r.exact.deep_view() =~= Seq::<Seq<char>>::empty());
            assert(r.wildcards.deep_view() =~= Seq::<Seq<char>>::empty());
            lemma_empty_to_set::<Seq<char>>();
        }
        r
    }

    /// Whether a queried name is blocked by the active policy. The name is
    /// normalized first; the matcher itself never fails.
    pub fn is_blocked(&self, domain: &str) -> (r: bool)
        ensures
            r == blocked_in(self.exact_set(), self.wildcard_set(), normalize_seq(domain@)),
    {
        let chars = chars_of(domain);
        let norm = normalize_chars(&chars);
        if contains_entry(&self.exact, &norm) {
            return true;
        }
        proof {
            lemma_deep_view_props(self.wildcards);
        }
        let n = self.wildcards.len();
        let mut i: usize = 0;
        while i < n
            invariant
                i <= n,
                n == self.wildcards@.len(),
                norm@ == normalize_seq(domain@),
                self.wildcards.deep_view().len() == n,
                forall|k: int|
                    0 <= k < n ==> self.wildcards.deep_view()[k] == self.wildcards@[k]@,
                forall|k: int|
                    0 <= k < i ==> !wildcard_covers(self.wildcards.deep_view()[k], norm@),
            decreases n - i,
        {
            if covers(&self.wildcards[i], &norm) {
                proof {
                    assert(self.wildcard_set().contains(self.wildcards.deep_view()[i as int]));
                }
                return true;
            }
            i = i + 1;
        }
        proof {
            assert forall|b: Seq<char>|
                self.wildcard_set().contains(b) implies !wildcard_covers(b, norm@) by {
                let k = choose|k: int|
                    0 <= k < self.wildcards.deep_view().len() && self.wildcards.deep_view()[k]
                        == b;
            }
        }
        false
    }

    /// Adds one token to the policy: a `*.`-prefixed token becomes a
    /// wildcard base, any other token an exact entry. Duplicates collapse.
    pub fn add_domain(&mut self, domain: String)
        requires
            old(self).wf(),
            old(self).count_spec() < usize::MAX,
        ensures
            final(self).wf(),
            token_is_wildcard(domain@) ==> {
                &&& final(self).wildcard_set() == old(self).wildcard_set().insert(
                    token_base(domain@),
                )
                &&& final(self).exact_set() == old(self).exact_set()
            },
            !token_is_wildcard(domain@) ==> {
                &&& final(self).exact_set() == old(self).exact_set().insert(token_base(domain@))
                &&& final(self).wildcard_set() == old(self).wildcard_set()
            },
    {
        proof {
            old(self).exact.deep_view().unique_seq_to_set();
            old(self).wildcards.deep_view().unique_seq_to_set();
        }
        let (is_wild, base) = parse_domain(&domain);
        if is_wild {
            insert_unique(&mut self.wildcards, base);
        } else {
            insert_unique(&mut self.exact, base);
        }
    }

    /// Removes one token's entry from the policy, if present.
    pub fn remove_domain(&mut self, domain: &str)
        requires
            old(self).wf(),
        ensures
            final(self).wf(),
            token_is_wildcard(domain@) ==> {
                &&& final(self).wildcard_set() == old(self).wildcard_set().remove(
                    token_base(domain@),
                )
                &&& final(self).exact_set() == old(self).exact_set()
            },
            !token_is_wildcard(domain@) ==> {
                &&& final(self).exact_set() == old(self).exact_set().remove(token_base(domain@))
                &&& final(self).wildcard_set() == old(self).wildcard_set()
            },
    {
        let chars = chars_of(domain);
        let (is_wild, base) = parse_chars(&chars);
        if is_wild {
            remove_entry(&mut self.wildcards, &base);
        } else {
            remove_entry(&mut self.exact, &base);
        }
    }

    /// Loads a list of tokens into the policy; existing entries stay.
    pub fn load_domains(&mut self, domains: Vec<String>)
        requires
            old(self).wf(),
            old(self).count_spec() + domains@.len() <= usize::MAX,
        ensures
            final(self).wf(),
            final(self).exact_set() == old(self).exact_set().union(
                exact_entries(domains.deep_view()),
            ),
            final(self).wildcard_set() == old(self).wildcard_set().union(
                wildcard_entries(domains.deep_view()),
            ),
    {
        let ghost toks: Seq<Seq<char>> = domains.deep_view();
        let n = domains.len();
        let mut i: usize = 0;
        proof {
            assert(self.exact_set() =~= old(self).exact_set().union(
                exact_entries(toks.take(0)),
            ));
            assert(self.wildcard_set() =~= old(self).wildcard_set().union(
                wildcard_entries(toks.take(0)),
            ));
        }
        while i < n
            invariant
                i <= n,
                n == domains@.len(),
                toks == domains.deep_view(),
                self.wf(),
                self.count_spec() <= old(self).count_spec() + i,
                old(self).count_spec() + n <= usize::MAX,
                self.exact_set() == old(self).exact_set().union(exact_entries(toks.take(i as int))),
                self.wildcard_set() == old(self).wildcard_set().union(
                    wildcard_entries(toks.take(i as int)),
                ),
            decreases n - i,
        {
            let ghost pre = *self;
            let domain = domains[i].clone();
            proof {
                assert(domain@ == toks[i as int]);
                pre.exact.deep_view().unique_seq_to_set();
                pre.wildcards.deep_view().unique_seq_to_set();
            }
            self.add_domain(domain);
            proof {
                assert(toks.take(i + 1 as int).drop_last() =~= toks.take(i as int));
                assert(toks.take(i + 1 as int).last() == toks[i as int]);
                assert(self.exact_set() =~= old(self).exact_set().union(
                    exact_entries(toks.take(i + 1 as int)),
                ));
                assert(self.wildcard_set() =~= old(self).wildcard_set().union(
                    wildcard_entries(toks.take(i + 1 as int)),
                ));
            }
            i = i + 1;
        }
        proof {
            assert(toks.take(n as int) =~= toks);
        }
    }

    /// The number of active entries: exact entries plus wildcard bases.
    pub fn count(&self) -> (r: usize)
        requires
            self.wf(),
        ensures
            r == self.count_spec(),
    {
        proof {
            self.exact.deep_view().unique_seq_to_set();
            self.wildcards.deep_view().unique_seq_to_set();
        }
        self.exact.len() + self.wildcards.len()
    }

    /// Empties the policy.
    pub fn clear(&mut self)
        ensures
            final(self).wf(),
            final(self).exact_set() == Set::<Seq<char>>::empty(),
            final(self).wildcard_set() == Set::<Seq<char>>::empty(),
    {
        self.exact.clear();
        self.wildcards.clear();
        proof {
            assert(self.exact.deep_view() =~= Seq::<Seq<char>>::empty());
            assert(self.wildcards.deep_view() =~= Seq::<Seq<char>>::empty());
            lemma_empty_to_set::<Seq<char>>();
        }
    }

    /// Replaces the whole policy by the entries of a fresh token list; a
    /// query observes either the old policy or the new one, never a mix.
    pub fn reload(&mut self, domains: Vec<String>)
        requires
            old(self).wf(),
            domains@.len() < usize::MAX,
        ensures
            final(self).wf(),
            final(self).exact_set() == exact_entries(domains.deep_view()),
            final(self).wildcard_set() == wildcard_entries(domains.deep_view()),
    {
        self.clear();
        self.load_domains(domains);
        proof {
            lemma_empty_to_set::<Seq<char>>();
        }
    }
}

/// An entry list's deep view indexes to the views of its elements.
pub(crate) proof fn lemma_deep_view_props(v: Vec<Vec<char>>)
    ensures
        v.deep_view().len() == v@.len(),
        forall|i: int| 0 <= i < v@.len() ==> v.deep_view()[i] == v@[i]@,
{
    assert forall|i: int| 0 <= i < v@.len() implies v.deep_view()[i] == v@[i]@ by {
        assert(v@[i].deep_view() =~= v@[i]@);
    }
}

/// The empty sequence's set of elements is empty.
proof fn lemma_empty_to_set<A>()
    ensures
        Seq::<A>::empty().to_set() == Set::<A>::empty(),
        forall|s: Set<A>| #[trigger] Set::<A>::empty().union(s) == s,
{
    assert(Seq::<A>::empty().to_set() =~= Set::<A>::empty());
    assert forall|s: Set<A>| #[trigger] Set::<A>::empty().union(s) == s by {
        assert(Set::<A>::empty().union(s) =~= s);
    }
}

/// Splits a raw token into its wildcard flag and its normalized matcher key.
pub fn parse_domain(token: &String) -> (r: (bool, Vec<char>))
    ensures
        r.0 == token_is_wildcard(token@),
        r.1@ == token_base(token@),
{
    let chars = chars_of(token.as_str());
    parse_chars(&chars)
}

/// `parse_domain` on an already exploded token.
fn parse_chars(chars: &Vec<char>) -> (r: (bool, Vec<char>))
    ensures
        r.0 == token_is_wildcard(chars@),
        r.1@ == token_base(chars@),
{
    let trimmed = trim_chars(chars);
    let norm = normalize_chars(&trimmed);
    if norm.len() >= 2 && norm[0] == '*' && norm[1] == '.' {
        let n = norm.len();
        let mut base: Vec<char> = Vec::new();
        let mut i: usize = 2;
        while i < n
            invariant
                2 <= i <= n,
                n == norm@.len(),
                base@ == norm@.subrange(2, i as int),
            decreases n - i,
        {
            base.push(norm[i]);
            proof {
                assert(norm@.subrange(2, i + 1 as int) =~= norm@.subrange(2, i as int).push(
                    norm@[i as int],
                ));
            }
            i = i + 1;
        }
        proof {
            assert(base@ =~= normalize_seq(trim_seq(chars@)).skip(2));
        }
        (true, base)
    } else {
        (false, norm)
    }
}

/// Whether a stored entry list contains a key.
fn contains_entry(entries: &Vec<Vec<char>>, x: &Vec<char>) -> (r: bool)
    ensures
        r == entries.deep_view().to_set().contains(x@),
{
    proof {
        lemma_deep_view_props(*entries);
    }
    let n = entries.len();
    let mut i: usize = 0;
    while i < n
        invariant
            i <= n,
            n == entries@.len(),
            entries.deep_view().len() == n,
            forall|k: int| 0 <= k < n ==> entries.deep_view()[k] == entries@[k]@,
            forall|k: int| 0 <= k < i ==> entries.deep_view()[k] != x@,
        decreases n - i,
    {
        if chars_eq(&entries[i], x) {
            proof {
                assert(entries.deep_view()[i as int] == x@);
            }
            return true;
        }
        i = i + 1;
    }
    proof {
        assert(!entries.deep_view().contains(x@));
    }
    false
}

/// Inserts a key into an entry list unless it is already there.
fn insert_unique(entries: &mut Vec<Vec<char>>, x: Vec<char>)
    requires
        old(entries).deep_view().no_duplicates(),
        old(entries)@.len() < usize::MAX,
    ensures
        final(entries).deep_view().no_duplicates(),
        final(entries).deep_view().to_set() == old(entries).deep_view().to_set().insert(x@),
        final(entries)@.len() == if old(entries).deep_view().to_set().contains(x@) {
            old(entries)@.len() as int
        } else {
            old(entries)@.len() + 1 as int
        },
    {
    if contains_entry(entries, &x) {
        proof {
            assert(entries.deep_view().to_set() =~= old(entries).deep_view().to_set().insert(x@));
        }
    } else {
        let ghost pre = entries.deep_view();
        let ghost prevec = entries@;
        entries.push(x);
        proof {
            lemma_deep_view_props(*entries);
            lemma_deep_view_props(*old(entries));
            assert(entries.deep_view() =~= pre.push(x@));
            assert(!pre.contains(x@));
            assert forall|p: int, q: int|
                0 <= p < q < entries.deep_view().len() implies entries.deep_view()[p]
                != entries.deep_view()[q] by {
                if q == pre.len() {
                    assert(pre[p] != x@);
                }
            }
            pre.lemma_push_to_set_commute(x@);
        }
    }
}

/// Removes a key from an entry list, if present.
fn remove_entry(entries: &mut Vec<Vec<char>>, x: &Vec<char>)
    requires
        old(entries).deep_view().no_duplicates(),
    ensures
        final(entries).deep_view().no_duplicates(),
        final(entries).deep_view().to_set() == old(entries).deep_view().to_set().remove(x@),
        final(entries)@.len() <= old(entries)@.len(),
{
    proof {
        lemma_deep_view_props(*entries);
    }
    let n = entries.len();
    let mut i: usize = 0;
    while i < n
        invariant
            i <= n,
            n == entries@.len(),
            *entries == *old(entries),
            entries.deep_view().no_duplicates(),
            entries.deep_view().len() == n,
            forall|k: int| 0 <= k < n ==> entries.deep_view()[k] == entries@[k]@,
            forall|k: int| 0 <= k < i ==> entries.deep_view()[k] != x@,
        decreases n - i,
    {
        if chars_eq(&entries[i], x) {
            let ghost pre = entries.deep_view();
            entries.remove(i);
            proof {
                lemma_deep_view_props(*entries);
                assert(entries.deep_view() =~= pre.remove(i as int)) by {
                    assert forall|k: int|
                        0 <= k < pre.len() - 1 implies entries.deep_view()[k] == pre.remove(
                        i as int,
                    )[k] by {
                        if k < i {
                            assert(entries@[k] == old(entries)@[k]);
                        } else {
                            assert(entries@[k] == old(entries)@[k + 1]);
                        }
                    }
                }
                lemma_remove_unique(pre, x@, i as int);
            }
            return ;
        }
        i = i + 1;
    }
    proof {
        assert(!entries.deep_view().contains(x@));
        assert(entries.deep_view().to_set() =~= old(entries).deep_view().to_set().remove(x@));
    }
}

/// Removing the only occurrence of a key from a duplicate-free sequence
/// removes exactly that key from its set of elements.
proof fn lemma_remove_unique(s: Seq<Seq<char>>, x: Seq<char>, i: int)
    requires
        s.no_duplicates(),
        0 <= i < s.len(),
        s[i] == x,
    ensures
        s.remove(i).no_duplicates(),
        s.remove(i).to_set() == s.to_set().remove(x),
{
    let r = s.remove(i);
    assert forall|p: int, q: int| 0 <= p < q < r.len() implies r[p] != r[q] by {
        let p0 = if p < i {
            p
        } else {
            p + 1
        };
        let q0 = if q < i {
            q
        } else {
            q + 1
        };
        assert(r[p] == s[p0] && r[q] == s[q0]);
    }
    assert forall|e: Seq<char>| r.to_set().contains(e) implies s.to_set().remove(x).contains(
        e,
    ) by {
        let k = choose|k: int| 0 <= k < r.len() && r[k] == e;
        let k0 = if k < i {
            k
        } else {
            k + 1
        };
        assert(s[k0] == e);
        assert(e != x);
    }
    assert forall|e: Seq<char>| s.to_set().remove(x).contains(e) implies r.to_set().contains(
        e,
    ) by {
        let k = choose|k: int| 0 <= k < s.len() && s[k] == e;
        if k < i {
            assert(r[k] == e);
        } else {
            assert(r[k - 1] == e);
        }
    }
    assert(r.to_set() =~= s.to_set().remove(x));
}

/// Whether a wildcard base covers a normalized name.
fn covers(base: &Vec<char>, name: &Vec<char>) -> (r: bool)
    ensures
        r == wildcard_covers(base@, name@),
{
    if name.len() <= base.len() {
        return false;
    }
    let off = name.len() - base.len();
    if name[off - 1] != '.' {
        return false;
    }
    let n = base.len();
    let mut i: usize = 0;
    while i < n
        invariant
            i <= n,
            n == base@.len(),
            off == name@.len() - base@.len(),
            base@.len() < name@.len() <= usize::MAX,
            forall|k: int| 0 <= k < i ==> name@[off + k] == base@[k],
        decreases n - i,
    {
        if name[off + i] != base[i] {
            proof {
                assert(name@.skip(off as int)[i as int] != base@[i as int]);
            }
            return false;
        }
        i = i + 1;
    }
    proof {
        assert(name@.skip(off as int) =~= base@);
    }
    true
}

} // verus!
