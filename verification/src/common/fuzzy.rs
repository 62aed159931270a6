//! Fuzzy matching (through `nucleo-matcher`) and the stable best-first ranking
//! of scored results.

use vstd::prelude::*;

use nucleo_matcher::pattern::{CaseMatching, Normalization, Pattern};
use nucleo_matcher::{Config, Matcher, Utf32Str};

verus! {

/// What `nucleo-matcher` computes for a query and a haystack: `Some((score,
/// indices))` when the query (parsed with smart case matching and smart
/// normalization) matches, where `indices` are the matched character
/// positions in the haystack, atom by atom; `None` when it does not match.
pub uninterp spec fn fuzzy_match(query: Seq<char>, haystack: Seq<char>) -> Option<(u32, Seq<u32>)>;

/// Every character of `s` is ASCII.
pub open spec fn is_ascii_chars(s: Seq<char>) -> bool {
    forall|i: int| 0 <= i < s.len() ==> (s[i] as u32) < 128
}

/// Matches `query` against `haystack` with `nucleo-matcher`
/// (`Pattern::parse(query, CaseMatching::Smart, Normalization::Smart)`, then
/// `Pattern::indices` with a `Matcher` built from `Config::DEFAULT`). The
/// contract names the result: it is `fuzzy_match` of the two strings. On an
/// ASCII haystack (matched byte by byte) every index is a position in it.
#[verifier::external_body]
pub(crate) fn fuzzy_indices(query: &str, haystack: &str) -> (r: Option<(u32, Vec<u32>)>)
    ensures
        match r {
            Some((score, idx)) => fuzzy_match(query@, haystack@) == Some((score, idx@)),
            None => fuzzy_match(query@, haystack@) is None,
        },
        r matches Some((_, idx)) ==> (is_ascii_chars(haystack@) ==> forall|k: int|
            0 <= k < idx@.len() ==> idx@[k] < haystack@.len()),
{
    let pattern = Pattern::parse(query, CaseMatching::Smart, Normalization::Smart);
    let mut matcher = Matcher::new(Config::DEFAULT);
    let mut buf = Vec::new();
    let mut indices = Vec::new();
    let score = pattern.indices(Utf32Str::new(haystack, &mut buf), &mut matcher, &mut indices)?;
    Some((score, indices))
}

/// Where an entry with `score` goes in a best-first sequence: after every
/// entry scoring at least as much.
pub open spec fn insert_pos<T>(s: Seq<(u32, T)>, score: u32) -> int
    decreases s.len(),
{
    if s.len() == 0 {
        0
    } else if s[0].0 < score {
        0
    } else {
        1 + insert_pos(s.drop_first(), score)
    }
}

/// `s` ordered by score, highest first, entries with equal scores keeping
/// their order in `s` (what a stable sort by descending score yields).
pub open spec fn rank<T>(s: Seq<(u32, T)>) -> Seq<(u32, T)>
    decreases s.len(),
{
    if s.len() == 0 {
        s
    } else {
        let r = rank(s.drop_last());
        r.insert(insert_pos(r, s.last().0), s.last())
    }
}

/// `insert_pos` lands after every entry scoring at least `score` and before
/// the first one scoring less.
pub proof fn lemma_insert_pos_props<T>(s: Seq<(u32, T)>, score: u32)
    ensures
        0 <= insert_pos(s, score) <= s.len(),
        forall|j: int| 0 <= j < insert_pos(s, score) ==> #[trigger] s[j].0 >= score,
        insert_pos(s, score) < s.len() ==> s[insert_pos(s, score)].0 < score,
    decreases s.len(),
{
    if s.len() > 0 && s[0].0 >= score {
        lemma_insert_pos_props(s.drop_first(), score);
        assert forall|j: int| 0 <= j < insert_pos(s, score) implies #[trigger] s[j].0 >= score by {
            if j > 0 {
                assert(s[j] == s.drop_first()[j - 1]);
            }
        }
    }
}

/// Ranking keeps every entry and adds none: the ranked sequence has the same
/// length and each input entry appears in it.
pub proof fn lemma_rank_keeps_entries<T>(s: Seq<(u32, T)>)
    ensures
        rank(s).len() == s.len(),
        forall|k: int| #![trigger s[k]] 0 <= k < s.len() ==> exists|j: int| #![trigger rank(s)[j]] 0 <= j < rank(s).len() && rank(s)[j] == s[k],
    decreases s.len(),
{
    if s.len() > 0 {
        let d = s.drop_last();
        lemma_rank_keeps_entries(d);
        let r = rank(d);
        lemma_insert_pos_props(r, s.last().0);
        let p = insert_pos(r, s.last().0);
        let t = rank(s);
        assert(t == r.insert(p, s.last()));
        assert forall|k: int| #![trigger s[k]] 0 <= k < s.len() implies exists|j: int| #![trigger t[j]] 0 <= j < t.len() && t[j] == s[k] by {
            if k == s.len() - 1 {
                assert(t[p] == s[k]);
            } else {
                assert(d[k] == s[k]);
                assert(exists|j: int| #![trigger r[j]] 0 <= j < r.len() && r[j] == d[k]);
                let j = choose|j: int| #![trigger r[j]] 0 <= j < r.len() && r[j] == d[k];
                if j < p {
                    assert(t[j] == s[k]);
                } else {
                    assert(t[j + 1] == s[k]);
                }
            }
        }
    }
}

/// The ranking is best first: scores never increase along it.
pub proof fn lemma_rank_sorted<T>(s: Seq<(u32, T)>)
    ensures
        forall|i: int, j: int| 0 <= i < j < rank(s).len() ==> #[trigger] rank(s)[i].0 >= #[trigger] rank(s)[j].0,
    decreases s.len(),
{
    if s.len() > 0 {
        let d = s.drop_last();
        lemma_rank_sorted(d);
        lemma_rank_keeps_entries(d);
        let r = rank(d);
        let x = s.last();
        lemma_insert_pos_props(r, x.0);
        let p = insert_pos(r, x.0);
        let t = rank(s);
        assert(t == r.insert(p, x));
        assert forall|i: int, j: int| 0 <= i < j < t.len() implies #[trigger] t[i].0 >= #[trigger] t[j].0 by {
            if j < p {
                assert(t[i] == r[i] && t[j] == r[j]);
            } else if j == p {
                assert(t[i] == r[i]);
            } else if i < p {
                assert(t[i] == r[i] && t[j] == r[j - 1]);
            } else if i == p {
                assert(t[j] == r[j - 1]);
                assert(r[p].0 >= r[j - 1].0);
            } else {
                assert(t[i] == r[i - 1] && t[j] == r[j - 1]);
            }
        }
    }
}

/// Ties keep the input order: when the payloads are increasing positions,
/// entries with equal scores come out in increasing position.
pub proof fn lemma_rank_stable(s: Seq<(u32, usize)>)
    requires
        forall|a: int, b: int| 0 <= a < b < s.len() ==> #[trigger] s[a].1 < #[trigger] s[b].1,
    ensures
        forall|i: int, j: int| 0 <= i < j < rank(s).len() && rank(s)[i].0 == rank(s)[j].0
            ==> #[trigger] rank(s)[i].1 < #[trigger] rank(s)[j].1,
    decreases s.len(),
{
    if s.len() > 0 {
        let d = s.drop_last();
        assert forall|a: int, b: int| 0 <= a < b < d.len() implies #[trigger] d[a].1 < #[trigger] d[b].1 by {
            assert(d[a] == s[a] && d[b] == s[b]);
        }
        lemma_rank_stable(d);
        lemma_rank_sorted(d);
        lemma_rank_keeps_entries(d);
        let r = rank(d);
        let x = s.last();
        lemma_insert_pos_props(r, x.0);
        let p = insert_pos(r, x.0);
        let t = rank(s);
        assert(t == r.insert(p, x));
        assert forall|i: int, j: int| 0 <= i < j < t.len() && t[i].0 == t[j].0 implies #[trigger] t[i].1 < #[trigger] t[j].1 by {
            if j < p {
                assert(t[i] == r[i] && t[j] == r[j]);
            } else if j == p {
                assert(t[i] == r[i]);
                crate::feature::filter::lemma_rank_members(d, i);
                let k = choose|k: int| 0 <= k < d.len() && d[k] == r[i];
                assert(d[k] == s[k]);
                assert(s[k].1 < s[s.len() - 1].1);
            } else if i < p {
                assert(t[i] == r[i] && t[j] == r[j - 1]);
            } else if i == p {
                assert(t[j] == r[j - 1]);
                assert(r[p].0 >= r[j - 1].0);
            } else {
                assert(t[i] == r[i - 1] && t[j] == r[j - 1]);
            }
        }
    }
}

proof fn lemma_insert_pos<T>(s: Seq<(u32, T)>, score: u32, k: int)
    requires
        0 <= k <= s.len(),
        forall|j: int| 0 <= j < k ==> s[j].0 >= score,
        k == s.len() || s[k].0 < score,
    ensures
        insert_pos(s, score) == k,
    decreases k,
{
    if k > 0 {
        lemma_insert_pos(s.drop_first(), score, k - 1);
    }
}

fn find_insert_pos<T>(v: &Vec<(u32, T)>, score: u32) -> (p: usize)
    ensures
        p <= v@.len(),
        p == insert_pos(v@, score),
{
    let mut p: usize = 0;
    while p < v.len() && v[p].0 >= score
        invariant
            p <= v@.len(),
            forall|j: int| 0 <= j < p ==> v@[j].0 >= score,
        decreases v.len() - p,
    {
        p += 1;
    }
    proof {
        lemma_insert_pos(v@, score, p as int);
    }
    p
}

/// Rank scored entries best first; equal scores keep their input order.
pub fn rank_by_score<T>(v: Vec<(u32, T)>) -> (r: Vec<(u32, T)>)
    ensures
        r@ == rank(v@),
{
    let ghost orig = v@;
    let mut rest = v;
    let mut r: Vec<(u32, T)> = Vec::new();
    let ghost mut i: int = 0;
    while rest.len() > 0
        invariant
            0 <= i <= orig.len(),
            rest@ == orig.skip(i),
            r@ == rank(orig.take(i)),
        decreases rest.len(),
    {
        let x = rest.remove(0);
        let p = find_insert_pos(&r, x.0);
        proof {
            assert(orig.take(i + 1).drop_last() =~= orig.take(i));
            assert(orig.take(i + 1).last() == x);
        }
        r.insert(p, x);
        proof {
            i = i + 1;
            assert(rest@ =~= orig.skip(i));
        }
    }
    proof {
        assert(orig.take(i) =~= orig);
    }
    r
}

/// `s` sorted ascending.
pub open spec fn sorted_asc(s: Seq<u32>) -> bool {
    forall|i: int, j: int| 0 <= i < j < s.len() ==> s[i] <= s[j]
}

/// `s` strictly increasing.
pub open spec fn strictly_increasing(s: Seq<usize>) -> bool {
    forall|i: int, j: int| 0 <= i < j < s.len() ==> s[i] < s[j]
}

/// The values of `v` sorted ascending (`sort_unstable` on integers).
pub fn sort_u32(v: &Vec<u32>) -> (r: Vec<u32>)
    ensures
        sorted_asc(r@),
        r@.to_multiset() == v@.to_multiset(),
{
    let mut r: Vec<u32> = Vec::new();
    let mut i: usize = 0;
    proof {
        assert(v@.take(0) =~= Seq::<u32>::empty());
        assert(r@ =~= Seq::<u32>::empty());
    }
    while i < v.len()
        invariant
            i <= v@.len(),
            sorted_asc(r@),
            r@.to_multiset() == v@.take(i as int).to_multiset(),
        decreases v.len() - i,
    {
        let x = v[i];
        let mut p: usize = 0;
        while p < r.len() && r[p] <= x
            invariant
                p <= r@.len(),
                forall|j: int| 0 <= j < p ==> r@[j] <= x,
            decreases r.len() - p,
        {
            p += 1;
        }
        proof {
            assert forall|j: int| p <= j < r@.len() implies r@[j] > x by {
                assert(r@[p as int] > x);
            }
        }
        let ghost old_r = r@;
        r.insert(p, x);
        proof {
            assert(v@.take(i + 1) =~= v@.take(i as int).push(x));
            vstd::seq_lib::to_multiset_insert(old_r, p as int, x);
            vstd::seq_lib::to_multiset_build(v@.take(i as int), x);
        }
        i += 1;
    }
    proof {
        assert(v@.take(v@.len() as int) =~= v@);
    }
    r
}

} // verus!
