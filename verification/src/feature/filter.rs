//! Query parsing (`/alias` type filters) and the combined type filter plus
//! fuzzy ranking of issues.

use vstd::prelude::*;
use crate::common::fuzzy::{fuzzy_indices, fuzzy_match, is_ascii_chars, rank, rank_by_score, insert_pos};
use crate::feature::config::{StringMap, string_map, string_map_get};
use crate::feature::tracker::Issue;
use crate::text::{append_str, chars_of, split_once, split_once_chars, string_of, sub_chars, trim, trim_chars};

verus! {

/// A query line split into an explicit type filter and the remaining fuzzy
/// text.
#[derive(Debug, Default, PartialEq)]
pub struct ParsedQuery {
    /// Empty means no type filter.
    pub active_type: String,
    pub search: String,
}

/// How a raw query line is read: a leading `/<alias>` token names an issue
/// type when `<alias>` is in the alias map (the text after the first space,
/// trimmed, is the search); otherwise the whole line is searched literally.
pub open spec fn parse_query_spec(raw: Seq<char>, aliases: Map<Seq<char>, Seq<char>>) -> (
    Seq<char>,
    Seq<char>,
) {
    if raw.len() == 0 || raw[0] != '/' {
        (seq![], raw)
    } else {
        let body = raw.drop_first();
        let (token, rest, has_space) = match split_once(body, ' ') {
            Some((t, r)) => (t, r, true),
            None => (body, seq![], false),
        };
        if aliases.contains_key(token) {
            (
                aliases[token],
                if has_space {
                    trim(rest)
                } else {
                    seq![]
                },
            )
        } else {
            (seq![], raw)
        }
    }
}

/// Interpret a leading `/<alias>` token against the alias map. `/b` or
/// `/b login` filters to the aliased type; an unknown `/x ...` is literal text.
pub fn parse_query(raw: &str, aliases: &StringMap) -> (r: ParsedQuery)
    ensures
        (r.active_type@, r.search@) == parse_query_spec(raw@, string_map(*aliases)),
{
    let rc = chars_of(raw);
    if rc.len() == 0 || rc[0] != '/' {
        return ParsedQuery { active_type: String::new(), search: string_of(rc.as_slice()) };
    }
    let body = sub_chars(rc.as_slice(), 1, rc.len());
    proof {
        assert(body@ =~= raw@.drop_first());
    }
    let (token, rest, has_space) = match split_once_chars(body.as_slice(), ' ') {
        Some((t, r)) => (t, r, true),
        None => (body, Vec::new(), false),
    };
    let token_s = string_of(token.as_slice());
    match string_map_get(aliases, token_s.as_str()) {
        Some(alias_type) => ParsedQuery {
            active_type: alias_type,
            search: if has_space {
                let t = trim_chars(rest.as_slice());
                string_of(t.as_slice())
            } else {
                String::new()
            },
        },
        None => ParsedQuery { active_type: String::new(), search: string_of(rc.as_slice()) },
    }
}

/// One filtered row: an index into the issue list, plus the character
/// positions within the summary that matched (for highlighting).
#[derive(Debug)]
pub struct RowMatch {
    pub issue_idx: usize,
    pub sum_matched: Vec<usize>,
}

/// Whether an issue passes the type filter (an empty filter passes all).
pub open spec fn type_ok(iss: Issue, active_type: Seq<char>) -> bool {
    active_type.len() == 0 || iss.kind@ == active_type
}

/// The text an issue is fuzzy-matched against: `"KEY summary"`.
pub open spec fn haystack(iss: Issue) -> Seq<char> {
    iss.key@ + " "@ + iss.summary@
}

/// Indices (in order) of the first `n` issues that pass the type filter.
pub open spec fn candidates(issues: Seq<Issue>, active_type: Seq<char>, n: int) -> Seq<usize>
    decreases n,
{
    if n <= 0 {
        seq![]
    } else {
        let c = candidates(issues, active_type, n - 1);
        if type_ok(issues[n - 1], active_type) {
            c.push((n - 1) as usize)
        } else {
            c
        }
    }
}

/// The candidates that match `search`, each with its score, in input order.
pub open spec fn scored(issues: Seq<Issue>, search: Seq<char>, cs: Seq<usize>) -> Seq<(u32, usize)>
    decreases cs.len(),
{
    if cs.len() == 0 {
        seq![]
    } else {
        let s = scored(issues, search, cs.drop_last());
        match fuzzy_match(search, haystack(issues[cs.last() as int])) {
            Some((score, _)) => s.push((score, cs.last())),
            None => s,
        }
    }
}

/// Whether `p` is a summary position of a haystack match position: a match
/// at or past `base` (the length of `"KEY "`), shifted back by `base`.
pub open spec fn is_summary_pos(idx: Seq<u32>, base: int, p: usize) -> bool {
    exists|k: int| 0 <= k < idx.len() && idx[k] >= base && p == idx[k] - base
}

/// `v` lists exactly the summary positions of the matched haystack
/// positions `idx`, ascending and without repeats.
pub open spec fn positions_ok(v: Seq<usize>, idx: Seq<u32>, base: int) -> bool {
    &&& forall|i: int, j: int| 0 <= i < j < v.len() ==> v[i] < v[j]
    &&& forall|p: usize| v.contains(p) <==> is_summary_pos(idx, base, p)
}

/// The matched summary positions of issue `i` for `search`.
pub open spec fn row_positions_ok(v: Seq<usize>, issues: Seq<Issue>, search: Seq<char>, i: usize) -> bool {
    match fuzzy_match(search, haystack(issues[i as int])) {
        Some((_, idx)) => positions_ok(v, idx, issues[i as int].key@.len() as int + 1),
        None => false,
    }
}

/// For an issue whose key and summary are ASCII, every highlighted
/// position lies within the summary.
pub open spec fn within_summary(v: Seq<usize>, iss: Issue) -> bool {
    (is_ascii_chars(iss.key@) && is_ascii_chars(iss.summary@)) ==> forall|j: int|
        0 <= j < v.len() ==> v[j] < iss.summary@.len()
}

/// Rows for the type filter alone: every candidate, in order, unhighlighted.
pub open spec fn plain_rows_ok(rows: Seq<RowMatch>, cs: Seq<usize>) -> bool {
    &&& rows.len() == cs.len()
    &&& forall|k: int| 0 <= k < rows.len() ==> #[trigger] rows[k].issue_idx == cs[k]
        && rows[k].sum_matched@.len() == 0
}

/// Rows for a search: the matching candidates ranked best first (ties in
/// input order), each with its matched summary positions.
pub open spec fn ranked_rows_ok(rows: Seq<RowMatch>, issues: Seq<Issue>, search: Seq<char>, cs: Seq<usize>) -> bool {
    let ranked = rank(scored(issues, search, cs));
    &&& rows.len() == ranked.len()
    &&& forall|k: int| 0 <= k < rows.len() ==> #[trigger] rows[k].issue_idx == ranked[k].1
        && row_positions_ok(rows[k].sum_matched@, issues, search, ranked[k].1)
}

/// The scored rows built so far agree with the ghost scores and carry the
/// right summary positions.
pub open spec fn pairs_ok(pairs: Seq<(u32, RowMatch)>, g: Seq<(u32, usize)>, issues: Seq<Issue>, search: Seq<char>) -> bool {
    &&& pairs.len() == g.len()
    &&& forall|j: int| 0 <= j < pairs.len() ==> #[trigger] pairs[j].0 == g[j].0
        && pairs[j].1.issue_idx == g[j].1
        && row_positions_ok(pairs[j].1.sum_matched@, issues, search, g[j].1)
}

/// Ranking looks only at scores, so it commutes with changing payloads.
pub proof fn lemma_rank_payload<A, B>(s: Seq<(u32, A)>, t: Seq<(u32, B)>, f: spec_fn(A) -> B)
    requires
        s.len() == t.len(),
        forall|k: int| 0 <= k < s.len() ==> #[trigger] t[k] == (s[k].0, f(s[k].1)),
    ensures
        rank(t).len() == rank(s).len(),
        forall|k: int| 0 <= k < rank(s).len() ==> #[trigger] rank(t)[k] == (rank(s)[k].0, f(rank(s)[k].1)),
    decreases s.len(),
{
    lemma_rank_len(s);
    lemma_rank_len(t);
    if s.len() > 0 {
        lemma_rank_payload(s.drop_last(), t.drop_last(), f);
        let rs = rank(s.drop_last());
        let rt = rank(t.drop_last());
        lemma_rank_len(s.drop_last());
        lemma_rank_len(t.drop_last());
        lemma_insert_pos_payload(rs, rt, s.last().0, f);
        lemma_insert_pos_range(rs, s.last().0);
        let p = insert_pos(rs, s.last().0);
        assert(t.last() == (s.last().0, f(s.last().1)));
        assert forall|k: int| 0 <= k < rank(s).len() implies #[trigger] rank(t)[k] == (
            rank(s)[k].0,
            f(rank(s)[k].1),
        ) by {
            if k < p {
                assert(rank(s)[k] == rs[k]);
                assert(rank(t)[k] == rt[k]);
            } else if k > p {
                assert(rank(s)[k] == rs[k - 1]);
                assert(rank(t)[k] == rt[k - 1]);
            }
        }
    }
}

proof fn lemma_insert_pos_payload<A, B>(rs: Seq<(u32, A)>, rt: Seq<(u32, B)>, score: u32, f: spec_fn(A) -> B)
    requires
        rs.len() == rt.len(),
        forall|k: int| 0 <= k < rs.len() ==> #[trigger] rt[k] == (rs[k].0, f(rs[k].1)),
    ensures
        insert_pos(rs, score) == insert_pos(rt, score),
    decreases rs.len(),
{
    if rs.len() > 0 {
        assert(rt[0] == (rs[0].0, f(rs[0].1)));
        lemma_insert_pos_payload(rs.drop_first(), rt.drop_first(), score, f);
    }
}

fn insert_unique_sorted(v: &mut Vec<usize>, x: usize)
    requires
        forall|i: int, j: int| 0 <= i < j < old(v)@.len() ==> old(v)@[i] < old(v)@[j],
    ensures
        forall|i: int, j: int| 0 <= i < j < final(v)@.len() ==> final(v)@[i] < final(v)@[j],
        forall|q: usize| final(v)@.contains(q) <==> (old(v)@.contains(q) || q == x),
{
    let mut p: usize = 0;
    while p < v.len() && v[p] < x
        invariant
            v@ == old(v)@,
            p <= v@.len(),
            forall|j: int| 0 <= j < p ==> v@[j] < x,
        decreases v.len() - p,
    {
        p += 1;
    }
    if p < v.len() && v[p] == x {
        assert(v@[p as int] == x);
        return;
    }
    let ghost ov = v@;
    v.insert(p, x);
    proof {
        assert forall|j: int| p <= j < ov.len() implies ov[j] > x by {
            assert(ov[p as int] > x);
        }
        assert forall|q: usize| v@.contains(q) <==> (ov.contains(q) || q == x) by {
            if v@.contains(q) {
                let k = choose|k: int| 0 <= k < v@.len() && v@[k] == q;
                if k < p {
                    assert(ov[k] == q);
                } else if k > p {
                    assert(ov[k - 1] == q);
                }
            }
            if ov.contains(q) {
                let k = choose|k: int| 0 <= k < ov.len() && ov[k] == q;
                if k < p {
                    assert(v@[k] == q);
                } else {
                    assert(v@[k + 1] == q);
                }
            }
            if q == x {
                assert(v@[p as int] == x);
            }
        }
    }
}

fn summary_positions(idx: &Vec<u32>, base: u32) -> (v: Vec<usize>)
    ensures
        positions_ok(v@, idx@, base as int),
{
    let mut v: Vec<usize> = Vec::new();
    let mut i: usize = 0;
    while i < idx.len()
        invariant
            i <= idx@.len(),
            forall|a: int, b: int| 0 <= a < b < v@.len() ==> v@[a] < v@[b],
            forall|p: usize| v@.contains(p) <==> is_summary_pos(idx@.take(i as int), base as int, p),
        decreases idx.len() - i,
    {
        let ghost ov = v@;
        if idx[i] >= base {
            insert_unique_sorted(&mut v, (idx[i] - base) as usize);
        }
        proof {
            assert forall|p: usize| v@.contains(p) <==> is_summary_pos(idx@.take(i + 1), base as int, p) by {
                let t = idx@.take(i + 1);
                if is_summary_pos(t, base as int, p) {
                    let k = choose|k: int| 0 <= k < t.len() && t[k] >= base && p == t[k] - base;
                    if k < i {
                        assert(idx@.take(i as int)[k] == t[k]);
                        assert(is_summary_pos(idx@.take(i as int), base as int, p));
                    }
                }
                if is_summary_pos(idx@.take(i as int), base as int, p) {
                    let k = choose|k: int| 0 <= k < i && idx@.take(i as int)[k] >= base && p == idx@.take(i as int)[k] - base;
                    assert(t[k] == idx@.take(i as int)[k]);
                }
                if idx@[i as int] >= base && p == idx@[i as int] - base {
                    assert(t[i as int] == idx@[i as int]);
                }
            }
        }
        i += 1;
    }
    proof {
        assert(idx@.take(idx@.len() as int) =~= idx@);
    }
    v
}

/// Apply the type filter, then fuzzy-rank by the search text. With no search,
/// the type-filtered list keeps its original order.
pub fn filter_issues(issues: &[Issue], q: &ParsedQuery) -> (rows: Vec<RowMatch>)
    ensures
        forall|k: int| 0 <= k < rows@.len() ==> #[trigger] rows@[k].issue_idx < issues@.len(),
        forall|k: int| 0 <= k < rows@.len() ==> within_summary(#[trigger] rows@[k].sum_matched@, issues@[rows@[k].issue_idx as int]),
        q.search@.len() == 0 ==> plain_rows_ok(rows@, candidates(issues@, q.active_type@, issues@.len() as int)),
        q.search@.len() > 0 ==> ranked_rows_ok(rows@, issues@, q.search@, candidates(issues@, q.active_type@, issues@.len() as int)),
{
    let ty = chars_of(q.active_type.as_str());
    let mut cands: Vec<usize> = Vec::new();
    let mut i: usize = 0;
    while i < issues.len()
        invariant
            i <= issues@.len(),
            ty@ == q.active_type@,
            cands@ == candidates(issues@, q.active_type@, i as int),
        decreases issues.len() - i,
    {
        let kind = chars_of(issues[i].kind.as_str());
        if ty.len() == 0 || crate::text::chars_eq(kind.as_slice(), ty.as_slice()) {
            cands.push(i);
        }
        i += 1;
    }
    let n_issues = issues.len();
    proof {
        lemma_candidates_bound(issues@, q.active_type@, n_issues as int);
    }
    let search = chars_of(q.search.as_str());
    if search.len() == 0 {
        let mut rows: Vec<RowMatch> = Vec::new();
        let mut k: usize = 0;
        while k < cands.len()
            invariant
                k <= cands@.len(),
                plain_rows_ok(rows@, cands@.take(k as int)),
            decreases cands.len() - k,
        {
            let row = RowMatch { issue_idx: cands[k], sum_matched: Vec::new() };
            let ghost old_rows = rows@;
            rows.push(row);
            proof {
                let t = cands@.take(k + 1);
                assert forall|j: int| 0 <= j < rows@.len() implies #[trigger] rows@[j].issue_idx
                    == t[j] && rows@[j].sum_matched@.len() == 0 by {
                    if j < k {
                        assert(rows@[j] == old_rows[j]);
                        assert(cands@.take(k as int)[j] == t[j]);
                    }
                }
            }
            k += 1;
        }
        proof {
            assert(cands@.take(cands@.len() as int) =~= cands@);
            assert forall|j: int| 0 <= j < rows@.len() implies #[trigger] rows@[j].issue_idx < issues@.len() by {
                assert(rows@[j].issue_idx == cands@[j]);
            }
            assert forall|j: int| 0 <= j < rows@.len() implies within_summary(#[trigger] rows@[j].sum_matched@, issues@[rows@[j].issue_idx as int]) by {
                assert(rows@[j].issue_idx == cands@[j]);
                assert(rows@[j].sum_matched@.len() == 0);
            }
        }
        return rows;
    }
    let mut pairs: Vec<(u32, RowMatch)> = Vec::new();
    let ghost mut ghost_pairs: Seq<(u32, usize)> = seq![];
    let mut k: usize = 0;
    while k < cands.len()
        invariant
            k <= cands@.len(),
            forall|j: int| 0 <= j < cands@.len() ==> #[trigger] cands@[j] < issues@.len(),
            forall|j: int| 0 <= j < ghost_pairs.len() ==> #[trigger] ghost_pairs[j].1 < issues@.len(),
            ghost_pairs == scored(issues@, q.search@, cands@.take(k as int)),
            pairs_ok(pairs@, ghost_pairs, issues@, q.search@),
            forall|j: int| 0 <= j < pairs@.len() ==> within_summary(#[trigger] pairs@[j].1.sum_matched@, issues@[pairs@[j].1.issue_idx as int]),
        decreases cands.len() - k,
    {
        let idx = cands[k];
        let iss = &issues[idx];
        let mut hay = chars_of(iss.key.as_str());
        let key_len = hay.len();
        append_str(&mut hay, " ");
        append_str(&mut hay, iss.summary.as_str());
        let hay_s = string_of(hay.as_slice());
        proof {
            assert(cands@.take(k + 1).drop_last() =~= cands@.take(k as int));
            assert(cands@.take(k + 1).last() == idx);
        }
        match fuzzy_indices(q.search.as_str(), hay_s.as_str()) {
            Some((score, ind)) => {
                let pos = if key_len < 0xffff_ffff {
                    summary_positions(&ind, key_len as u32 + 1)
                } else {
                    let empty: Vec<usize> = Vec::new();
                    proof {
                        assert forall|p: usize| !#[trigger] is_summary_pos(ind@, key_len + 1, p) by {
                            if is_summary_pos(ind@, key_len + 1, p) {
                                let k = choose|k: int| 0 <= k < ind@.len() && ind@[k] >= key_len + 1 && p == ind@[k] - (key_len + 1);
                                assert(ind@[k] <= u32::MAX);
                            }
                        }
                        assert(positions_ok(empty@, ind@, key_len + 1));
                    }
                    empty
                };
                proof {
                    assert(hay_s@ == haystack(issues@[idx as int]));
                    assert(row_positions_ok(pos@, issues@, q.search@, idx));
                    let iss_v = issues@[idx as int];
                    if is_ascii_chars(iss_v.key@) && is_ascii_chars(iss_v.summary@) {
                        assert(hay_s@ =~= iss_v.key@ + " "@ + iss_v.summary@);
                        reveal_strlit(" ");
                        assert forall|i: int| 0 <= i < hay_s@.len() implies (hay_s@[i] as u32) < 128 by {
                            if i < key_len {
                                assert(hay_s@[i] == iss_v.key@[i]);
                            } else if i > key_len {
                                assert(hay_s@[i] == iss_v.summary@[i - key_len - 1]);
                            }
                        }
                        assert forall|j: int| 0 <= j < pos@.len() implies pos@[j] < iss_v.summary@.len() by {
                            assert(pos@.contains(pos@[j]));
                            let p = pos@[j];
                            let kk = choose|kk: int| 0 <= kk < ind@.len() && ind@[kk] >= key_len + 1 && p == ind@[kk] - (key_len + 1);
                            assert(ind@[kk] < hay_s@.len());
                        }
                    }
                    assert(within_summary(pos@, iss_v));
                }
                let ghost old_pairs = pairs@;
                pairs.push((score, RowMatch { issue_idx: idx, sum_matched: pos }));
                proof {
                    let og = ghost_pairs;
                    ghost_pairs = ghost_pairs.push((score, idx));
                    assert forall|j: int| 0 <= j < pairs@.len() implies #[trigger] pairs@[j].0
                        == ghost_pairs[j].0 && pairs@[j].1.issue_idx == ghost_pairs[j].1
                        && row_positions_ok(pairs@[j].1.sum_matched@, issues@, q.search@, ghost_pairs[j].1) by {
                        if j < old_pairs.len() {
                            assert(pairs@[j] == old_pairs[j]);
                            assert(ghost_pairs[j] == og[j]);
                        }
                    }
                    assert forall|j: int| 0 <= j < pairs@.len() implies within_summary(#[trigger] pairs@[j].1.sum_matched@, issues@[pairs@[j].1.issue_idx as int]) by {
                        if j < old_pairs.len() {
                            assert(pairs@[j] == old_pairs[j]);
                        }
                    }
                }
            },
            None => {},
        }
        k += 1;
    }
    proof {
        assert(cands@.take(cands@.len() as int) =~= cands@);
    }
    let ghost gp = ghost_pairs;
    let ghost pp = pairs@;
    let ranked = rank_by_score(pairs);
    proof {
        let f = |m: RowMatch| m.issue_idx;
        lemma_rank_payload(pp, gp, f);
    }
    let mut rows: Vec<RowMatch> = Vec::new();
    let mut rest = ranked;
    let ghost rk = rest@;
    let ghost mut n: int = 0;
    while rest.len() > 0
        invariant
            0 <= n <= rk.len(),
            rest@ == rk.skip(n),
            rows@.len() == n,
            rk == rank(pp),
            forall|j: int| 0 <= j < rows@.len() ==> #[trigger] rows@[j] == rk[j].1,
        decreases rest.len(),
    {
        let (_s, m) = rest.remove(0);
        rows.push(m);
        proof {
            n = n + 1;
            assert(rest@ =~= rk.skip(n));
        }
    }
    proof {
        assert forall|j: int| 0 <= j < rows@.len() implies #[trigger] rows@[j].issue_idx == rank(gp)[j].1
            && row_positions_ok(rows@[j].sum_matched@, issues@, q.search@, rank(gp)[j].1) by {
            assert(rank(gp)[j] == (rank(pp)[j].0, rank(pp)[j].1.issue_idx));
            lemma_rank_members(pp, j);
        }
        assert forall|j: int| 0 <= j < rows@.len() implies #[trigger] rows@[j].issue_idx < issues@.len() by {
            lemma_rank_members(gp, j);
            let k = choose|k: int| 0 <= k < gp.len() && gp[k] == rank(gp)[j];
            assert(gp[k].1 < issues@.len());
        }
        assert forall|j: int| 0 <= j < rows@.len() implies within_summary(#[trigger] rows@[j].sum_matched@, issues@[rows@[j].issue_idx as int]) by {
            lemma_rank_members(pp, j);
            let k = choose|k: int| 0 <= k < pp.len() && pp[k] == rank(pp)[j];
            assert(rows@[j] == pp[k].1);
        }
    }
    rows
}

/// Candidates are increasing indices below `n`.
pub proof fn lemma_candidates_bound(issues: Seq<Issue>, active_type: Seq<char>, n: int)
    requires
        n <= usize::MAX,
    ensures
        forall|j: int| 0 <= j < candidates(issues, active_type, n).len() ==> #[trigger] candidates(issues, active_type, n)[j] < n,
        forall|a: int, b: int| 0 <= a < b < candidates(issues, active_type, n).len() ==> candidates(issues, active_type, n)[a] < candidates(issues, active_type, n)[b],
    decreases n,
{
    if n > 0 {
        lemma_candidates_bound(issues, active_type, n - 1);
        let c = candidates(issues, active_type, n - 1);
        let cn = candidates(issues, active_type, n);
        if type_ok(issues[n - 1], active_type) {
            assert(cn == c.push((n - 1) as usize));
            assert forall|a: int, b: int| 0 <= a < b < cn.len() implies cn[a] < cn[b] by {
                if b < c.len() {
                    assert(cn[a] == c[a] && cn[b] == c[b]);
                } else {
                    assert(cn[a] == c[a]);
                    assert(c[a] < n - 1);
                }
            }
            assert forall|j: int| 0 <= j < cn.len() implies #[trigger] cn[j] < n by {
                if j < c.len() {
                    assert(cn[j] == c[j]);
                }
            }
        } else {
            assert(cn == c);
        }
    }
}

/// Every ranked entry is one of the input entries.
pub proof fn lemma_rank_members<T>(s: Seq<(u32, T)>, j: int)
    requires
        0 <= j < rank(s).len(),
    ensures
        exists|k: int| 0 <= k < s.len() && s[k] == rank(s)[j],
    decreases s.len(),
{
    lemma_rank_len(s);
    let r = rank(s.drop_last());
    lemma_rank_len(s.drop_last());
    let p = insert_pos(r, s.last().0);
    lemma_insert_pos_range(r, s.last().0);
    if j == p {
        assert(s[s.len() - 1] == rank(s)[j]);
    } else {
        let jj = if j < p { j } else { j - 1 };
        assert(rank(s)[j] == r[jj]);
        lemma_rank_members(s.drop_last(), jj);
        let k = choose|k: int| 0 <= k < s.drop_last().len() && s.drop_last()[k] == r[jj];
        assert(s[k] == rank(s)[j]);
    }
}

/// Ranking keeps the number of entries.
pub proof fn lemma_rank_len<T>(s: Seq<(u32, T)>)
    ensures
        rank(s).len() == s.len(),
    decreases s.len(),
{
    if s.len() > 0 {
        lemma_rank_len(s.drop_last());
        lemma_insert_pos_range(rank(s.drop_last()), s.last().0);
    }
}

/// `insert_pos` is a valid insertion index.
pub proof fn lemma_insert_pos_range<T>(s: Seq<(u32, T)>, score: u32)
    ensures
        0 <= insert_pos(s, score) <= s.len(),
    decreases s.len(),
{
    if s.len() > 0 {
        lemma_insert_pos_range(s.drop_first(), score);
    }
}

} // verus!
