//! Editing `~/.aws/config`: setting keys in one section while every other
//! line stays as it was, in the AWS CLI's `key = value` form.

use vstd::prelude::*;
use crate::text::{lemma_lines_join, lemma_lines_plain, strip_cr, is_ws, lemma_first_index, trim_end, append_str, copy_chars, chars_eq, chars_of, join, join_chars, lines, lines_of, split_once, split_once_chars, string_of, lemma_views_push, lemma_views_update, trim, trim_chars, trim_start, trim_start_chars, views};

verus! {

/// The character view of a slice of `(key, value)` string pairs.
pub open spec fn entry_views(entries: Seq<(&str, &str)>) -> Seq<(Seq<char>, Seq<char>)> {
    entries.map_values(|p: (&str, &str)| (p.0@, p.1@))
}

/// The `key = value` line the AWS CLI writes.
pub open spec fn assign_line(k: Seq<char>, v: Seq<char>) -> Seq<char> {
    k + seq![' ', '=', ' '] + v
}

/// The key of an ini `key = value` line: `None` for section headers and for
/// lines without `=`; otherwise the trimmed text before the first `=`.
pub open spec fn line_key_spec(line: Seq<char>) -> Option<Seq<char>> {
    let t = trim(line);
    if t.len() > 0 && t[0] == '[' {
        None
    } else {
        match split_once(t, '=') {
            Some((k, _)) => Some(trim(k)),
            None => None,
        }
    }
}

/// Index of the first line whose trimmed text is `header`.
pub open spec fn find_header(ls: Seq<Seq<char>>, header: Seq<char>) -> Option<int>
    decreases ls.len(),
{
    if ls.len() == 0 {
        None
    } else if trim(ls[0]) == header {
        Some(0)
    } else {
        match find_header(ls.drop_first(), header) {
            Some(i) => Some(i + 1),
            None => None,
        }
    }
}

/// Whether `line` opens a section (its text starts with `[` after leading
/// whitespace).
pub open spec fn is_section_start(line: Seq<char>) -> bool {
    let t = trim_start(line);
    t.len() > 0 && t[0] == '['
}

/// The end of the section whose header is at `start`: the index of the next
/// section header after it, or the number of lines.
pub open spec fn section_end(ls: Seq<Seq<char>>, start: int) -> int
    decreases ls.len() - start,
{
    if start + 1 >= ls.len() {
        ls.len() as int
    } else if is_section_start(ls[start + 1]) {
        start + 1
    } else {
        section_end(ls, start + 1)
    }
}

/// The first index `i` in `from..end` whose line has key `k`.
pub open spec fn find_key(ls: Seq<Seq<char>>, from: int, end: int, k: Seq<char>) -> Option<int>
    decreases end - from,
{
    if from >= end {
        None
    } else if line_key_spec(ls[from]) == Some(k) {
        Some(from)
    } else {
        find_key(ls, from + 1, end, k)
    }
}

/// Applying `entries` in order to the section `start+1..end` of `ls`: a key
/// already present there (first match) has its line replaced; otherwise the
/// assignment is queued to be appended to the section. Returns the updated
/// lines and the queued lines.
pub open spec fn apply_entries(
    ls: Seq<Seq<char>>,
    start: int,
    end: int,
    entries: Seq<(Seq<char>, Seq<char>)>,
) -> (Seq<Seq<char>>, Seq<Seq<char>>)
    decreases entries.len(),
{
    if entries.len() == 0 {
        (ls, seq![])
    } else {
        let (cur, app) = apply_entries(ls, start, end, entries.drop_last());
        let (k, v) = entries.last();
        match find_key(cur, start + 1, end, k) {
            Some(i) => (cur.update(i, assign_line(k, v)), app),
            None => (cur, app.push(assign_line(k, v))),
        }
    }
}

/// The lines of the updated file (before joining): `entries` set under the
/// section `header`, which is created at the end when absent.
pub open spec fn updated_lines(
    original: Seq<char>,
    header: Seq<char>,
    entries: Seq<(Seq<char>, Seq<char>)>,
) -> Seq<Seq<char>> {
    let ls = lines(original);
    match find_header(ls, header) {
        Some(start) => {
            let end = section_end(ls, start);
            let (cur, app) = apply_entries(ls, start, end, entries);
            cur.take(end) + app + cur.skip(end)
        },
        None => ls + seq![header] + entries.map_values(
            |e: (Seq<char>, Seq<char>)| assign_line(e.0, e.1),
        ),
    }
}

/// The text `update_ini` returns: the updated lines joined by `\n`, plus a
/// trailing newline.
pub open spec fn update_ini_spec(
    original: Seq<char>,
    header: Seq<char>,
    entries: Seq<(Seq<char>, Seq<char>)>,
) -> Seq<char> {
    join(updated_lines(original, header, entries), seq!['\n']).push('\n')
}

/// A key the AWS CLI format can hold: not empty, no whitespace at either
/// end, not starting a section, and without `=`.
pub open spec fn proper_key(k: Seq<char>) -> bool {
    &&& k.len() > 0
    &&& !is_ws(k[0])
    &&& !is_ws(k.last())
    &&& k[0] != '['
    &&& forall|i: int| 0 <= i < k.len() ==> k[i] != '='
}

proof fn lemma_trim_start_nonws(s: Seq<char>)
    requires
        s.len() > 0,
        !is_ws(s[0]),
    ensures
        trim_start(s) == s,
{
}

proof fn lemma_trim_end_keeps(s: Seq<char>, j: int)
    requires
        0 <= j < s.len(),
        !is_ws(s[j]),
    ensures
        trim_end(s).len() > j,
        trim_end(s).take(j + 1) == s.take(j + 1),
    decreases s.len(),
{
    if is_ws(s.last()) {
        lemma_trim_end_keeps(s.drop_last(), j);
        assert(s.drop_last().take(j + 1) =~= s.take(j + 1));
    }
}

/// A proper key's assignment line reads back as that key and does not open
/// a section.
pub proof fn lemma_assign_line_key(k: Seq<char>, v: Seq<char>)
    requires
        proper_key(k),
    ensures
        line_key_spec(assign_line(k, v)) == Some(k),
        !is_section_start(assign_line(k, v)),
{
    let line = assign_line(k, v);
    let n = k.len() as int;
    assert(line[0] == k[0]);
    lemma_trim_start_nonws(line);
    assert(trim(line) == trim_end(line));
    assert(line[n + 1] == '=');
    lemma_trim_end_keeps(line, n + 1);
    let t = trim(line);
    assert(t[0] == line[0]) by {
        assert(t.take(n + 2)[0] == line.take(n + 2)[0]);
    }
    assert forall|j: int| 0 <= j < n + 1 implies t[j] != '=' by {
        assert(t.take(n + 2)[j] == line.take(n + 2)[j]);
        if j < n {
            assert(line[j] == k[j]);
        }
    }
    assert(t[n + 1] == '=') by {
        assert(t.take(n + 2)[n + 1] == line.take(n + 2)[n + 1]);
    }
    lemma_first_index(t, '=', n + 1);
    let kk = t.take(n + 1);
    assert(kk =~= k.push(' ')) by {
        assert forall|j: int| 0 <= j < n + 1 implies kk[j] == k.push(' ')[j] by {
            assert(t.take(n + 2)[j] == line.take(n + 2)[j]);
        }
    }
    lemma_trim_start_nonws(kk);
    assert(kk.drop_last() =~= k);
    assert(trim_end(kk) == trim_end(k));
    assert(trim_end(k) == k);
}

/// `find_key` finds the first line of `from..end` with key `k`.
pub proof fn lemma_find_key(ls: Seq<Seq<char>>, from: int, end: int, k: Seq<char>)
    ensures
        find_key(ls, from, end, k) matches Some(i) ==> from <= i < end && line_key_spec(ls[i]) == Some(k)
            && forall|j: int| from <= j < i ==> line_key_spec(#[trigger] ls[j]) != Some(k),
        find_key(ls, from, end, k) is None ==> forall|j: int| from <= j < end ==> line_key_spec(#[trigger] ls[j]) != Some(k),
    decreases end - from,
{
    if from < end {
        lemma_find_key(ls, from + 1, end, k);
    }
}

/// `find_key` looks only at the keys of the lines.
pub proof fn lemma_find_key_same_keys(a: Seq<Seq<char>>, b: Seq<Seq<char>>, from: int, end: int, k: Seq<char>)
    requires
        forall|j: int| from <= j < end ==> line_key_spec(#[trigger] a[j]) == line_key_spec(b[j]),
    ensures
        find_key(a, from, end, k) == find_key(b, from, end, k),
    decreases end - from,
{
    if from < end {
        lemma_find_key_same_keys(a, b, from + 1, end, k);
    }
}

/// Searching `from..end` is searching `from..mid`, then `mid..end`.
pub proof fn lemma_find_key_split(ls: Seq<Seq<char>>, from: int, mid: int, end: int, k: Seq<char>)
    requires
        from <= mid <= end,
    ensures
        find_key(ls, from, end, k) == match find_key(ls, from, mid, k) {
            Some(i) => Some(i),
            None => find_key(ls, mid, end, k),
        },
    decreases mid - from,
{
    if from < mid {
        lemma_find_key_split(ls, from + 1, mid, end, k);
    }
}

/// `section_end` is the first section start after `start`, or the end.
pub proof fn lemma_section_end(ls: Seq<Seq<char>>, start: int)
    requires
        0 <= start < ls.len(),
    ensures
        start < section_end(ls, start) <= ls.len(),
        forall|j: int| start < j < section_end(ls, start) ==> !is_section_start(#[trigger] ls[j]),
        section_end(ls, start) < ls.len() ==> is_section_start(ls[section_end(ls, start)]),
    decreases ls.len() - start,
{
    if start + 1 < ls.len() && !is_section_start(ls[start + 1]) {
        lemma_section_end(ls, start + 1);
    }
}

/// A section ends where the lines say it does.
pub proof fn lemma_section_end_at(ls: Seq<Seq<char>>, start: int, r: int)
    requires
        0 <= start < r <= ls.len(),
        forall|j: int| start < j < r ==> !is_section_start(#[trigger] ls[j]),
        r < ls.len() ==> is_section_start(ls[r]),
    ensures
        section_end(ls, start) == r,
    decreases r - start,
{
    if start + 1 < r {
        assert(!is_section_start(ls[start + 1]));
        lemma_section_end_at(ls, start + 1, r);
    }
}

/// The positions, in order, of the entries whose key is not in the section
/// `start+1..end` of `ls`.
pub open spec fn queued(ls: Seq<Seq<char>>, start: int, end: int, entries: Seq<(Seq<char>, Seq<char>)>) -> Seq<int>
    decreases entries.len(),
{
    if entries.len() == 0 {
        seq![]
    } else {
        let q = queued(ls, start, end, entries.drop_last());
        if find_key(ls, start + 1, end, entries.last().0) is None {
            q.push(entries.len() - 1)
        } else {
            q
        }
    }
}

/// Keys that can be held and are pairwise distinct.
pub open spec fn proper_entries(entries: Seq<(Seq<char>, Seq<char>)>) -> bool {
    &&& forall|t: int| 0 <= t < entries.len() ==> proper_key(#[trigger] entries[t].0)
    &&& forall|a: int, b: int| 0 <= a < b < entries.len() ==> #[trigger] entries[a].0 != #[trigger] entries[b].0
}

proof fn lemma_proper_prefix(entries: Seq<(Seq<char>, Seq<char>)>)
    requires
        entries.len() > 0,
        proper_entries(entries),
    ensures
        proper_entries(entries.drop_last()),
{
    let d = entries.drop_last();
    assert forall|t: int| 0 <= t < d.len() implies proper_key(#[trigger] d[t].0) by {
        assert(d[t] == entries[t]);
    }
    assert forall|a: int, b: int| 0 <= a < b < d.len() implies #[trigger] d[a].0 != #[trigger] d[b].0 by {
        assert(d[a] == entries[a] && d[b] == entries[b]);
    }
}

/// What applying the entries does: lines keep their keys; lines outside the
/// section, and lines whose key no entry names, stay as they were; each
/// entry's key found in the section gets its assignment there; the others
/// are queued, in order.
pub proof fn lemma_apply_entries(ls: Seq<Seq<char>>, start: int, end: int, entries: Seq<(Seq<char>, Seq<char>)>)
    requires
        0 <= start < end <= ls.len(),
        proper_entries(entries),
    ensures
        ({
            let (cur, app) = apply_entries(ls, start, end, entries);
            let q = queued(ls, start, end, entries);
            &&& cur.len() == ls.len()
            &&& forall|j: int| 0 <= j < ls.len() ==> line_key_spec(#[trigger] cur[j]) == line_key_spec(ls[j])
            &&& forall|j: int| 0 <= j < ls.len() && !(start < j < end) ==> #[trigger] cur[j] == ls[j]
            &&& forall|j: int| 0 <= j < ls.len() && cur[j] != ls[j] ==> exists|t: int|
                0 <= t < entries.len() && line_key_spec(ls[j]) == Some(#[trigger] entries[t].0)
            &&& forall|t: int| 0 <= t < entries.len() && (find_key(ls, start + 1, end, entries[t].0) matches Some(i))
                ==> cur[find_key(ls, start + 1, end, entries[t].0)->0] == assign_line(entries[t].0, #[trigger] entries[t].1)
            &&& app.len() == q.len()
            &&& forall|p: int| 0 <= p < q.len() ==> 0 <= #[trigger] q[p] < entries.len()
                && app[p] == assign_line(entries[q[p]].0, entries[q[p]].1)
                && find_key(ls, start + 1, end, entries[q[p]].0) is None
            &&& forall|a: int, b: int| 0 <= a < b < q.len() ==> #[trigger] q[a] < #[trigger] q[b]
            &&& forall|t: int| 0 <= t < entries.len() && find_key(ls, start + 1, end, #[trigger] entries[t].0) is None
                ==> exists|p: int| 0 <= p < q.len() && q[p] == t
        }),
    decreases entries.len(),
{
    if entries.len() > 0 {
        let d = entries.drop_last();
        lemma_proper_prefix(entries);
        lemma_apply_entries(ls, start, end, d);
        let (cur, app) = apply_entries(ls, start, end, d);
        let q = queued(ls, start, end, d);
        let (k, v) = entries.last();
        let n = entries.len() - 1;
        assert(entries[n] == (k, v));
        assert(proper_key(k));
        lemma_assign_line_key(k, v);
        lemma_find_key_same_keys(cur, ls, start + 1, end, k);
        lemma_find_key(ls, start + 1, end, k);
        let (cur2, app2) = apply_entries(ls, start, end, entries);
        let q2 = queued(ls, start, end, entries);
        assert forall|t: int| 0 <= t < n implies #[trigger] entries[t] == d[t] by {}
        match find_key(ls, start + 1, end, k) {
            Some(i) => {
                assert(cur2 == cur.update(i, assign_line(k, v)));
                assert(q2 == q);
                assert forall|j: int| 0 <= j < ls.len() implies line_key_spec(#[trigger] cur2[j]) == line_key_spec(ls[j]) by {
                    if j == i {
                        assert(cur[j] == cur[i]);
                    }
                }
                assert forall|j: int| 0 <= j < ls.len() && cur2[j] != ls[j] implies exists|t: int|
                    0 <= t < entries.len() && line_key_spec(ls[j]) == Some(#[trigger] entries[t].0) by {
                    if j == i {
                        assert(entries[n].0 == k);
                    } else {
                        let t = choose|t: int| 0 <= t < d.len() && line_key_spec(ls[j]) == Some(#[trigger] d[t].0);
                        assert(entries[t] == d[t]);
                    }
                }
                assert forall|t: int| 0 <= t < entries.len() && (find_key(ls, start + 1, end, entries[t].0) matches Some(ii))
                    implies cur2[find_key(ls, start + 1, end, entries[t].0)->0] == assign_line(entries[t].0, #[trigger] entries[t].1) by {
                    if t < n {
                        let ii = find_key(ls, start + 1, end, entries[t].0)->0;
                        lemma_find_key(ls, start + 1, end, entries[t].0);
                        assert(entries[t].0 != entries[n].0);
                        assert(ii != i);
                        assert(d[t] == entries[t]);
                    }
                }
                assert forall|t: int| 0 <= t < entries.len() && find_key(ls, start + 1, end, #[trigger] entries[t].0) is None
                    implies exists|p: int| 0 <= p < q2.len() && q2[p] == t by {
                    assert(t < n);
                    assert(d[t] == entries[t]);
                }
            },
            None => {
                assert(cur2 == cur);
                assert(app2 == app.push(assign_line(k, v)));
                assert(q2 == q.push(n));
                assert forall|j: int| 0 <= j < ls.len() && cur2[j] != ls[j] implies exists|t: int|
                    0 <= t < entries.len() && line_key_spec(ls[j]) == Some(#[trigger] entries[t].0) by {
                    let t = choose|t: int| 0 <= t < d.len() && line_key_spec(ls[j]) == Some(#[trigger] d[t].0);
                    assert(entries[t] == d[t]);
                }
                assert forall|t: int| 0 <= t < entries.len() && (find_key(ls, start + 1, end, entries[t].0) matches Some(ii))
                    implies cur2[find_key(ls, start + 1, end, entries[t].0)->0] == assign_line(entries[t].0, #[trigger] entries[t].1) by {
                    assert(t < n);
                    assert(d[t] == entries[t]);
                }
                assert forall|p: int| 0 <= p < q2.len() implies 0 <= #[trigger] q2[p] < entries.len()
                    && app2[p] == assign_line(entries[q2[p]].0, entries[q2[p]].1)
                    && find_key(ls, start + 1, end, entries[q2[p]].0) is None by {
                    if p < q.len() {
                        assert(q2[p] == q[p]);
                        assert(app2[p] == app[p]);
                        assert(d[q[p]] == entries[q[p]]);
                    }
                }
                assert forall|a: int, b: int| 0 <= a < b < q2.len() implies #[trigger] q2[a] < #[trigger] q2[b] by {
                    if b < q.len() {
                        assert(q2[a] == q[a] && q2[b] == q[b]);
                    } else {
                        assert(q2[a] == q[a]);
                    }
                }
                assert forall|t: int| 0 <= t < entries.len() && find_key(ls, start + 1, end, #[trigger] entries[t].0) is None
                    implies exists|p: int| 0 <= p < q2.len() && q2[p] == t by {
                    if t < n {
                        assert(d[t] == entries[t]);
                        let p = choose|p: int| 0 <= p < q.len() && q[p] == t;
                        assert(q2[p] == t);
                    } else {
                        assert(q2[q.len() as int] == t);
                    }
                }
            },
        }
    }
}

/// A line with a key does not open a section.
proof fn lemma_key_line_not_section(x: Seq<char>)
    requires
        line_key_spec(x) is Some,
    ensures
        !is_section_start(x),
{
    let ts = trim_start(x);
    if ts.len() > 0 && ts[0] == '[' {
        lemma_trim_end_keeps(ts, 0);
        assert(trim(x).take(1)[0] == ts.take(1)[0]);
    }
}

/// What `find_header` returns is the first line whose trimmed text is the
/// header.
proof fn lemma_find_header_props(ls: Seq<Seq<char>>, h: Seq<char>)
    ensures
        find_header(ls, h) matches Some(i) ==> 0 <= i < ls.len() && trim(ls[i]) == h
            && forall|j: int| 0 <= j < i ==> trim(#[trigger] ls[j]) != h,
        find_header(ls, h) is None ==> forall|j: int| 0 <= j < ls.len() ==> trim(#[trigger] ls[j]) != h,
    decreases ls.len(),
{
    if ls.len() > 0 {
        lemma_find_header_props(ls.drop_first(), h);
        assert forall|j: int| 1 <= j < ls.len() implies #[trigger] ls[j] == ls.drop_first()[j - 1] by {}
    }
}

/// A line with key `k`, preceded in `from..i` by none, is what `find_key`
/// finds.
proof fn lemma_find_key_first(ls: Seq<Seq<char>>, from: int, end: int, k: Seq<char>, i: int)
    requires
        from <= i < end,
        line_key_spec(ls[i]) == Some(k),
        forall|j: int| from <= j < i ==> line_key_spec(#[trigger] ls[j]) != Some(k),
    ensures
        find_key(ls, from, end, k) == Some(i),
    decreases i - from,
{
    if from < i {
        lemma_find_key_first(ls, from + 1, end, k, i);
    }
}

/// The update of a section that exists: lines before it and after it are
/// kept, the section grows by the queued lines, and each entry's key is found
/// in it on that entry's line.
proof fn lemma_update_found(ls: Seq<Seq<char>>, start: int, entries: Seq<(Seq<char>, Seq<char>)>)
    requires
        0 <= start < ls.len(),
        proper_entries(entries),
    ensures
        ({
            let end = section_end(ls, start);
            let (cur, app) = apply_entries(ls, start, end, entries);
            let ls2 = cur.take(end) + app + cur.skip(end);
            &&& ls2.take(start + 1) == ls.take(start + 1)
            &&& ls2.skip(end + app.len()) == ls.skip(end)
            &&& section_end(ls2, start) == end + app.len()
            &&& forall|j: int| start < j < end && (forall|t: int| 0 <= t < entries.len()
                ==> line_key_spec(ls[j]) != Some(#[trigger] entries[t].0)) ==> #[trigger] ls2[j] == ls[j]
            &&& forall|t: int| 0 <= t < entries.len() ==> (find_key(ls2, start + 1, end + app.len(), #[trigger] entries[t].0) matches Some(i)
                && ls2[i] == assign_line(entries[t].0, entries[t].1))
            &&& forall|j: int| 0 <= j < ls2.len() ==> ls.contains(#[trigger] ls2[j]) || exists|t: int|
                0 <= t < entries.len() && #[trigger] find_key(ls2, start + 1, end + app.len(), entries[t].0) == Some(j)
        }),
{
    let end = section_end(ls, start);
    lemma_section_end(ls, start);
    lemma_apply_entries(ls, start, end, entries);
    let (cur, app) = apply_entries(ls, start, end, entries);
    let q = queued(ls, start, end, entries);
    let m = app.len() as int;
    let ls2 = cur.take(end) + app + cur.skip(end);
    assert(ls2.len() == ls.len() + m);
    assert forall|j: int| 0 <= j < end implies #[trigger] ls2[j] == cur[j] by {}
    assert forall|p: int| 0 <= p < m implies #[trigger] ls2[end + p] == app[p] by {}
    assert forall|j: int| end + m <= j < ls2.len() implies #[trigger] ls2[j] == ls[j - m] by {
        assert(cur[j - m] == ls[j - m]);
    }
    assert forall|j: int| 0 <= j < start + 1 implies #[trigger] ls2[j] == ls[j] by {
        assert(ls2[j] == cur[j]);
    }
    assert(ls2.take(start + 1) =~= ls.take(start + 1));
    assert forall|j: int| 0 <= j < ls.len() - end implies #[trigger] ls2.skip(end + m)[j] == ls.skip(end)[j] by {
        assert(ls2[end + m + j] == ls[end + m + j - m]);
    }
    assert(ls2.skip(end + m) =~= ls.skip(end));
    // The section's lines open no section, so it ends after the queued lines.
    assert forall|j: int| start < j < end + m implies !is_section_start(#[trigger] ls2[j]) by {
        if j < end {
            assert(ls2[j] == cur[j]);
            if cur[j] != ls[j] {
                let t = choose|t: int| 0 <= t < entries.len() && line_key_spec(ls[j]) == Some(#[trigger] entries[t].0);
                lemma_key_line_not_section(cur[j]);
            }
        } else {
            let p = j - end;
            assert(ls2[end + p] == app[p]);
            assert(0 <= q[p] < entries.len());
            assert(proper_key(entries[q[p]].0));
            lemma_assign_line_key(entries[q[p]].0, entries[q[p]].1);
        }
    }
    if end + m < ls2.len() {
        assert(ls2[end + m] == ls[end]);
    }
    lemma_section_end_at(ls2, start, end + m);
    assert forall|t: int| 0 <= t < entries.len() implies (find_key(ls2, start + 1, end + m, #[trigger] entries[t].0) matches Some(i)
        && ls2[i] == assign_line(entries[t].0, entries[t].1)) by {
        let k = entries[t].0;
        lemma_find_key_same_keys(ls2, cur, start + 1, end, k);
        lemma_find_key_same_keys(cur, ls, start + 1, end, k);
        lemma_find_key_split(ls2, start + 1, end, end + m, k);
        match find_key(ls, start + 1, end, k) {
            Some(i) => {
                lemma_find_key(ls, start + 1, end, k);
                assert(ls2[i] == cur[i]);
            },
            None => {
                let p = choose|p: int| 0 <= p < q.len() && q[p] == t;
                assert(ls2[end + p] == app[p]);
                assert(proper_key(k));
                lemma_assign_line_key(k, entries[t].1);
                assert forall|j: int| end <= j < end + p implies line_key_spec(#[trigger] ls2[j]) != Some(k) by {
                    let pp = j - end;
                    assert(ls2[end + pp] == app[pp]);
                    assert(q[pp] < q[p]);
                    assert(0 <= q[pp]);
                    assert(entries[q[pp]].0 != entries[t].0);
                    assert(proper_key(entries[q[pp]].0));
                    lemma_assign_line_key(entries[q[pp]].0, entries[q[pp]].1);
                }
                lemma_find_key_first(ls2, end, end + m, k, end + p);
            },
        }
    }
    lemma_apply_changes(ls, start, end, entries);
    assert forall|j: int| 0 <= j < ls2.len() implies ls.contains(#[trigger] ls2[j]) || exists|t: int|
        0 <= t < entries.len() && #[trigger] find_key(ls2, start + 1, end + m, entries[t].0) == Some(j) by {
        if j < end {
            if cur[j] == ls[j] {
                assert(ls2[j] == ls[j]);
            } else {
                let t = choose|t: int| 0 <= t < entries.len() && #[trigger] find_key(ls, start + 1, end, entries[t].0) == Some(j);
                let k = entries[t].0;
                lemma_find_key_same_keys(ls2, cur, start + 1, end, k);
                lemma_find_key_same_keys(cur, ls, start + 1, end, k);
                lemma_find_key_split(ls2, start + 1, end, end + m, k);
                assert(find_key(ls2, start + 1, end + m, entries[t].0) == Some(j));
            }
        } else if j < end + m {
            let p = j - end;
            let t = q[p];
            assert(0 <= t < entries.len());
            let k = entries[t].0;
            assert(find_key(ls, start + 1, end, k) is None);
            lemma_find_key_same_keys(ls2, cur, start + 1, end, k);
            lemma_find_key_same_keys(cur, ls, start + 1, end, k);
            lemma_find_key_split(ls2, start + 1, end, end + m, k);
            assert(ls2[end + p] == app[p]);
            assert(proper_key(k));
            lemma_assign_line_key(k, entries[t].1);
            assert forall|x: int| end <= x < end + p implies line_key_spec(#[trigger] ls2[x]) != Some(k) by {
                let pp = x - end;
                assert(ls2[end + pp] == app[pp]);
                assert(q[pp] < q[p]);
                assert(0 <= q[pp]);
                assert(entries[q[pp]].0 != entries[t].0);
                assert(proper_key(entries[q[pp]].0));
                lemma_assign_line_key(entries[q[pp]].0, entries[q[pp]].1);
            }
            lemma_find_key_first(ls2, end, end + m, k, end + p);
            assert(find_key(ls2, start + 1, end + m, entries[t].0) == Some(j));
        } else {
            assert(ls2[j] == ls[j - m]);
        }
    }
}

/// The update when the section is absent: the header and the entries'
/// lines are appended, and each entry's key is found on its own line.
proof fn lemma_update_absent(ls: Seq<Seq<char>>, header: Seq<char>, entries: Seq<(Seq<char>, Seq<char>)>)
    requires
        find_header(ls, header) is None,
        trim(header) == header,
        proper_entries(entries),
    ensures
        ({
            let ls2 = ls + seq![header] + entries.map_values(|e: (Seq<char>, Seq<char>)| assign_line(e.0, e.1));
            let n = ls.len() as int;
            &&& find_header(ls2, header) == Some(n)
            &&& section_end(ls2, n) == ls2.len()
            &&& forall|t: int| 0 <= t < entries.len() ==> find_key(ls2, n + 1, ls2.len() as int, #[trigger] entries[t].0)
                == Some(n + 1 + t) && ls2[n + 1 + t] == assign_line(entries[t].0, entries[t].1)
        }),
{
    let ls2 = ls + seq![header] + entries.map_values(|e: (Seq<char>, Seq<char>)| assign_line(e.0, e.1));
    let n = ls.len() as int;
    assert forall|t: int| 0 <= t < entries.len() implies #[trigger] ls2[n + 1 + t] == assign_line(entries[t].0, entries[t].1) by {}
    lemma_find_header_props(ls, header);
    assert(ls2[n] == header);
    lemma_find_header(ls2, header, n);
    assert forall|j: int| n < j < ls2.len() implies !is_section_start(#[trigger] ls2[j]) by {
        let t = j - n - 1;
        assert(ls2[n + 1 + t] == assign_line(entries[t].0, entries[t].1));
        assert(proper_key(entries[t].0));
        lemma_assign_line_key(entries[t].0, entries[t].1);
    }
    lemma_section_end_at(ls2, n, ls2.len() as int);
    assert forall|t: int| 0 <= t < entries.len() implies find_key(ls2, n + 1, ls2.len() as int, #[trigger] entries[t].0)
        == Some(n + 1 + t) && ls2[n + 1 + t] == assign_line(entries[t].0, entries[t].1) by {
        assert(ls2[n + 1 + t] == assign_line(entries[t].0, entries[t].1));
        assert(proper_key(entries[t].0));
        lemma_assign_line_key(entries[t].0, entries[t].1);
        assert forall|j: int| n + 1 <= j < n + 1 + t implies line_key_spec(#[trigger] ls2[j]) != Some(entries[t].0) by {
            let u = j - n - 1;
            assert(ls2[n + 1 + u] == assign_line(entries[u].0, entries[u].1));
            assert(proper_key(entries[u].0));
            lemma_assign_line_key(entries[u].0, entries[u].1);
        }
        lemma_find_key_first(ls2, n + 1, ls2.len() as int, entries[t].0, n + 1 + t);
    }
}

/// Reading back what `update_ini` wrote: in the updated lines the section
/// `header` exists, and within it the first line with each entry's key is
/// that entry's `key = value` line. Everything else is kept: when the section
/// existed, the lines up to its header and from its end on are unchanged, and
/// so is each of its lines whose key no entry names; when it did not, the
/// original lines come first, unchanged. Keys must be ones the format can
/// hold, pairwise distinct, and the header trimmed.
pub proof fn lemma_update_ini_sets_keys(
    original: Seq<char>,
    header: Seq<char>,
    entries: Seq<(Seq<char>, Seq<char>)>,
)
    requires
        trim(header) == header,
        proper_entries(entries),
    ensures
        ({
            let ls = lines(original);
            let ls2 = updated_lines(original, header, entries);
            let s = find_header(ls2, header)->0;
            &&& find_header(ls2, header) is Some
            &&& forall|t: int| 0 <= t < entries.len() ==> (find_key(ls2, s + 1, section_end(ls2, s), #[trigger] entries[t].0) matches Some(i)
                && ls2[i] == assign_line(entries[t].0, entries[t].1))
            &&& find_header(ls, header) matches Some(start) ==> {
                &&& s == start
                &&& ls2.take(start + 1) == ls.take(start + 1)
                &&& ls2.skip(section_end(ls2, s)) == ls.skip(section_end(ls, start))
                &&& forall|j: int| start < j < section_end(ls, start) && (forall|t: int| 0 <= t < entries.len()
                    ==> line_key_spec(ls[j]) != Some(#[trigger] entries[t].0)) ==> #[trigger] ls2[j] == ls[j]
            }
            &&& find_header(ls, header) is None ==> s == ls.len() && ls2.take(ls.len() as int) == ls
        }),
{
    let ls = lines(original);
    let ls2 = updated_lines(original, header, entries);
    lemma_find_header_props(ls, header);
    match find_header(ls, header) {
        Some(start) => {
            lemma_update_found(ls, start, entries);
            let end = section_end(ls, start);
            let (cur, app) = apply_entries(ls, start, end, entries);
            assert(ls2 == cur.take(end) + app + cur.skip(end));
            assert forall|j: int| 0 <= j <= start implies #[trigger] ls2[j] == ls[j] by {
                assert(ls2.take(start + 1)[j] == ls2[j]);
                assert(ls.take(start + 1)[j] == ls[j]);
            }
            lemma_find_header(ls2, header, start);
        },
        None => {
            lemma_update_absent(ls, header, entries);
            assert(ls2.take(ls.len() as int) =~= ls);
        },
    }
}

/// Applying the entries changes a line only where an entry's key is first
/// found in the section.
proof fn lemma_apply_changes(ls: Seq<Seq<char>>, start: int, end: int, entries: Seq<(Seq<char>, Seq<char>)>)
    requires
        0 <= start < end <= ls.len(),
        proper_entries(entries),
    ensures
        ({
            let cur = apply_entries(ls, start, end, entries).0;
            forall|j: int| 0 <= j < ls.len() && cur[j] != ls[j] ==> exists|t: int|
                0 <= t < entries.len() && #[trigger] find_key(ls, start + 1, end, entries[t].0) == Some(j)
        }),
    decreases entries.len(),
{
    if entries.len() > 0 {
        let d = entries.drop_last();
        lemma_proper_prefix(entries);
        lemma_apply_changes(ls, start, end, d);
        lemma_apply_entries(ls, start, end, d);
        let (cur, app) = apply_entries(ls, start, end, d);
        let (k, v) = entries.last();
        let n = entries.len() - 1;
        assert(entries[n] == (k, v));
        lemma_find_key_same_keys(cur, ls, start + 1, end, k);
        let cur2 = apply_entries(ls, start, end, entries).0;
        assert forall|j: int| 0 <= j < ls.len() && cur2[j] != ls[j] implies exists|t: int|
            0 <= t < entries.len() && #[trigger] find_key(ls, start + 1, end, entries[t].0) == Some(j) by {
            match find_key(ls, start + 1, end, k) {
                Some(i) => {
                    lemma_find_key(ls, start + 1, end, k);
                    assert(cur2 == cur.update(i, assign_line(k, v)));
                    if j == i {
                        assert(find_key(ls, start + 1, end, entries[n].0) == Some(j));
                    } else {
                        assert(cur2[j] == cur[j]);
                        let t = choose|t: int| 0 <= t < d.len() && #[trigger] find_key(ls, start + 1, end, d[t].0) == Some(j);
                        assert(d[t] == entries[t]);
                        assert(find_key(ls, start + 1, end, entries[t].0) == Some(j));
                    }
                },
                None => {
                    assert(cur2[j] == cur[j]);
                    let t = choose|t: int| 0 <= t < d.len() && #[trigger] find_key(ls, start + 1, end, d[t].0) == Some(j);
                    assert(d[t] == entries[t]);
                    assert(find_key(ls, start + 1, end, entries[t].0) == Some(j));
                },
            }
        }
    }
}

/// Without line breaks.
pub open spec fn no_newline(x: Seq<char>) -> bool {
    forall|i: int| 0 <= i < x.len() ==> x[i] != '\n'
}

/// What `update_ini` can hold on a line: keys the format can hold, pairwise
/// distinct, and keys and values without line breaks.
pub open spec fn line_entries(entries: Seq<(Seq<char>, Seq<char>)>) -> bool {
    &&& proper_entries(entries)
    &&& forall|t: int| 0 <= t < entries.len() ==> no_newline(#[trigger] entries[t].0) && no_newline(entries[t].1)
}

proof fn lemma_assign_no_newline(k: Seq<char>, v: Seq<char>)
    requires
        no_newline(k),
        no_newline(v),
    ensures
        no_newline(assign_line(k, v)),
{
    let l = assign_line(k, v);
    assert forall|i: int| 0 <= i < l.len() implies l[i] != '\n' by {
        if i < k.len() {
            assert(l[i] == k[i]);
        } else if i >= k.len() + 3 {
            assert(l[i] == v[i - k.len() - 3]);
        }
    }
}

/// An assignment line without its trailing `\r`, if any, still has the key
/// and still opens no section.
proof fn lemma_assign_strip_cr(k: Seq<char>, v: Seq<char>)
    requires
        proper_key(k),
    ensures
        line_key_spec(strip_cr(assign_line(k, v))) == Some(k),
        !is_section_start(strip_cr(assign_line(k, v))),
{
    if v.len() > 0 && v.last() == '\r' {
        assert(strip_cr(assign_line(k, v)) =~= assign_line(k, v.drop_last()));
        lemma_assign_line_key(k, v.drop_last());
    } else {
        lemma_assign_line_key(k, v);
    }
}

/// Trimmed text does not end in whitespace.
proof fn lemma_trim_end_last(x: Seq<char>)
    ensures
        trim_end(x).len() > 0 ==> !is_ws(trim_end(x).last()),
    decreases x.len(),
{
    if x.len() > 0 && is_ws(x.last()) {
        lemma_trim_end_last(x.drop_last());
    }
}

/// Every updated line is a line of the text, the header, or the line of an
/// entry, first found for its key in the header's section.
proof fn lemma_updated_origin(original: Seq<char>, header: Seq<char>, entries: Seq<(Seq<char>, Seq<char>)>)
    requires
        trim(header) == header,
        proper_entries(entries),
    ensures
        ({
            let ls = lines(original);
            let ls2 = updated_lines(original, header, entries);
            let s = find_header(ls2, header)->0;
            let e = section_end(ls2, s);
            forall|j: int| 0 <= j < ls2.len() ==> ls.contains(#[trigger] ls2[j]) || ls2[j] == header
                || exists|t: int| 0 <= t < entries.len() && #[trigger] find_key(ls2, s + 1, e, entries[t].0) == Some(j)
        }),
{
    let ls = lines(original);
    let ls2 = updated_lines(original, header, entries);
    let s = find_header(ls2, header)->0;
    let e = section_end(ls2, s);
    lemma_find_header_props(ls, header);
    match find_header(ls, header) {
        Some(start) => {
            lemma_update_ini_sets_keys(original, header, entries);
            lemma_update_found(ls, start, entries);
            let end = section_end(ls, start);
            let (cur, app) = apply_entries(ls, start, end, entries);
            assert(ls2 == cur.take(end) + app + cur.skip(end));
            assert(find_header(ls2, header) == Some(start));
            assert(section_end(ls2, start) == end + app.len());
            assert(s == start && e == end + app.len());
            assert forall|j: int| 0 <= j < ls2.len() implies ls.contains(#[trigger] ls2[j]) || ls2[j] == header
                || exists|t: int| 0 <= t < entries.len() && #[trigger] find_key(ls2, s + 1, e, entries[t].0) == Some(j) by {
                if !ls.contains(ls2[j]) {
                    let t = choose|t: int| 0 <= t < entries.len() && #[trigger] find_key(ls2, start + 1, end + app.len(), entries[t].0) == Some(j);
                    assert(find_key(ls2, s + 1, e, entries[t].0) == Some(j));
                }
            }
        },
        None => {
            lemma_update_absent(ls, header, entries);
            let n = ls.len() as int;
            assert(ls2 == ls + seq![header] + entries.map_values(|e: (Seq<char>, Seq<char>)| assign_line(e.0, e.1)));
            assert(find_header(ls2, header) == Some(n));
            assert(section_end(ls2, n) == ls2.len());
            assert(s == n && e == ls2.len());
            assert forall|j: int| 0 <= j < ls2.len() implies ls.contains(#[trigger] ls2[j]) || ls2[j] == header
                || exists|t: int| 0 <= t < entries.len() && #[trigger] find_key(ls2, s + 1, e, entries[t].0) == Some(j) by {
                if j < n {
                    assert(ls2[j] == ls[j]);
                } else if j > n {
                    let t = j - n - 1;
                    assert(find_key(ls2, n + 1, ls2.len() as int, entries[t].0) == Some(n + 1 + t));
                    assert(find_key(ls2, s + 1, e, entries[t].0) == Some(j));
                }
            }
        },
    }
}

/// Setting the same entries again changes nothing: `update_ini` is
/// idempotent, for keys the format can hold (pairwise distinct), a trimmed
/// header, keys, values and header without line breaks, and text without
/// carriage returns.
pub proof fn lemma_update_ini_idempotent(original: Seq<char>, header: Seq<char>, entries: Seq<(Seq<char>, Seq<char>)>)
    requires
        forall|i: int| 0 <= i < original.len() ==> original[i] != '\r',
        trim(header) == header,
        no_newline(header),
        line_entries(entries),
    ensures
        update_ini_spec(update_ini_spec(original, header, entries), header, entries)
            == update_ini_spec(original, header, entries),
{
    let ls = lines(original);
    let ls2 = updated_lines(original, header, entries);
    let once = update_ini_spec(original, header, entries);
    lemma_lines_plain(original);
    lemma_update_ini_sets_keys(original, header, entries);
    lemma_updated_origin(original, header, entries);
    let s = find_header(ls2, header)->0;
    lemma_find_header_props(ls2, header);
    lemma_section_end(ls2, s);
    let e = section_end(ls2, s);
    lemma_trim_end_last(trim_start(header));
    // Where an entry's line is.
    assert forall|j: int, t: int| 0 <= t < entries.len() && #[trigger] find_key(ls2, s + 1, e, entries[t].0) == Some(j)
        implies s < j < e && #[trigger] ls2[j] == assign_line(entries[t].0, entries[t].1) by {
        lemma_find_key(ls2, s + 1, e, entries[t].0);
    }
    // No line holds a line break; only an entry's line can end in `\r`.
    assert forall|j: int| 0 <= j < ls2.len() implies no_newline(#[trigger] ls2[j]) && (strip_cr(ls2[j]) == ls2[j]
        || exists|t: int| 0 <= t < entries.len() && #[trigger] find_key(ls2, s + 1, e, entries[t].0) == Some(j)) by {
        if ls.contains(ls2[j]) {
            let i = choose|i: int| 0 <= i < ls.len() && ls[i] == ls2[j];
            assert(forall|m: int| 0 <= m < ls[i].len() ==> ls[i][m] != '\n' && ls[i][m] != '\r');
            if ls2[j].len() > 0 {
                assert(ls[i][ls[i].len() - 1] != '\r');
            }
        } else if ls2[j] == header {
            if header.len() > 0 {
                assert(!is_ws(header.last()));
            }
        } else {
            let t = choose|t: int| 0 <= t < entries.len() && #[trigger] find_key(ls2, s + 1, e, entries[t].0) == Some(j);
            assert(ls2[j] == assign_line(entries[t].0, entries[t].1));
            lemma_assign_no_newline(entries[t].0, entries[t].1);
        }
    }
    assert forall|k: int| 0 <= k < ls2.len() implies forall|i: int| 0 <= i < (#[trigger] ls2[k]).len() ==> ls2[k][i] != '\n' by {
        assert(no_newline(ls2[k]));
    }
    lemma_lines_join(ls2);
    let ls3 = ls2.map_values(|x: Seq<char>| strip_cr(x));
    assert(lines(once) == ls3);
    // Reading the text back changes only entries' lines, keeping their keys.
    assert forall|j: int| 0 <= j < ls2.len() implies line_key_spec(#[trigger] ls3[j]) == line_key_spec(ls2[j])
        && is_section_start(ls3[j]) == is_section_start(ls2[j]) && (j <= s ==> ls3[j] == ls2[j]) by {
        assert(ls3[j] == strip_cr(ls2[j]));
        if strip_cr(ls2[j]) != ls2[j] {
            let t = choose|t: int| 0 <= t < entries.len() && #[trigger] find_key(ls2, s + 1, e, entries[t].0) == Some(j);
            assert(ls2[j] == assign_line(entries[t].0, entries[t].1));
            assert(proper_key(entries[t].0));
            lemma_assign_strip_cr(entries[t].0, entries[t].1);
            lemma_assign_line_key(entries[t].0, entries[t].1);
        }
    }
    assert forall|j: int| 0 <= j < s implies trim(#[trigger] ls3[j]) != header by {
        assert(ls3[j] == ls2[j]);
    }
    assert(ls3[s] == ls2[s]);
    lemma_find_header(ls3, header, s);
    assert forall|j: int| s < j < e implies !is_section_start(#[trigger] ls3[j]) by {
        assert(!is_section_start(ls2[j]));
    }
    if e < ls3.len() {
        assert(is_section_start(ls3[e]) == is_section_start(ls2[e]));
    }
    lemma_section_end_at(ls3, s, e);
    assert forall|k: Seq<char>| #[trigger] find_key(ls3, s + 1, e, k) == find_key(ls2, s + 1, e, k) by {
        assert forall|j: int| s + 1 <= j < e implies line_key_spec(#[trigger] ls3[j]) == line_key_spec(ls2[j]) by {}
        lemma_find_key_same_keys(ls3, ls2, s + 1, e, k);
    }
    lemma_apply_entries(ls3, s, e, entries);
    lemma_apply_changes(ls3, s, e, entries);
    let (cur, app) = apply_entries(ls3, s, e, entries);
    let q = queued(ls3, s, e, entries);
    assert forall|j: int| 0 <= j < ls2.len() implies #[trigger] cur[j] == ls2[j] by {
        if exists|t: int| 0 <= t < entries.len() && #[trigger] find_key(ls2, s + 1, e, entries[t].0) == Some(j) {
            let t = choose|t: int| 0 <= t < entries.len() && #[trigger] find_key(ls2, s + 1, e, entries[t].0) == Some(j);
            assert(find_key(ls3, s + 1, e, entries[t].0) == Some(j));
            assert(cur[j] == assign_line(entries[t].0, entries[t].1));
        } else {
            if cur[j] != ls3[j] {
                let t = choose|t: int| 0 <= t < entries.len() && #[trigger] find_key(ls3, s + 1, e, entries[t].0) == Some(j);
                assert(find_key(ls2, s + 1, e, entries[t].0) == Some(j));
            }
            assert(ls3[j] == strip_cr(ls2[j]));
        }
    }
    assert(cur =~= ls2);
    if q.len() > 0 {
        assert(0 <= q[0] < entries.len());
        let t = q[0];
        assert(find_key(ls3, s + 1, e, entries[t].0) is None);
        assert(find_key(ls2, s + 1, e, entries[t].0) is Some);
    }
    assert(app.len() == 0);
    assert(find_header(ls3, header) == Some(s));
    assert(updated_lines(once, header, entries) =~= ls2);
}

/// The key of a `key = value` line (characters).
pub fn line_key_chars(line: &[char]) -> (r: Option<Vec<char>>)
    ensures
        match r {
            Some(k) => line_key_spec(line@) == Some(k@),
            None => line_key_spec(line@) is None,
        },
{
    let t = trim_chars(line);
    if t.len() > 0 && t[0] == '[' {
        return None;
    }
    match split_once_chars(t.as_slice(), '=') {
        Some((k, _v)) => Some(trim_chars(k.as_slice())),
        None => None,
    }
}

/// The key of an ini `key = value` line, or `None` for headers and lines
/// without `=`.
pub fn line_key(line: &str) -> (r: Option<String>)
    ensures
        match r {
            Some(k) => line_key_spec(line@) == Some(k@),
            None => line_key_spec(line@) is None,
        },
{
    let cs = chars_of(line);
    match line_key_chars(cs.as_slice()) {
        Some(k) => Some(string_of(k.as_slice())),
        None => None,
    }
}

/// `find_header` finds the first matching line.
proof fn lemma_find_header(ls: Seq<Seq<char>>, h: Seq<char>, k: int)
    requires
        0 <= k <= ls.len(),
        forall|j: int| 0 <= j < k ==> trim(ls[j]) != h,
    ensures
        k < ls.len() && trim(ls[k]) == h ==> find_header(ls, h) == Some(k),
        k == ls.len() ==> find_header(ls, h) is None,
    decreases k,
{
    if k > 0 {
        assert forall|j: int| 0 <= j < k - 1 implies trim(ls.drop_first()[j]) != h by {
            assert(ls.drop_first()[j] == ls[j + 1]);
        }
        lemma_find_header(ls.drop_first(), h, k - 1);
    }
}

fn find_header_line(ls: &Vec<Vec<char>>, header: &[char]) -> (r: Option<usize>)
    ensures
        match r {
            Some(i) => i < ls@.len() && find_header(views(ls@), header@) == Some(i as int),
            None => find_header(views(ls@), header@) is None,
        },
{
    let mut i: usize = 0;
    while i < ls.len()
        invariant
            i <= ls@.len(),
            forall|j: int| 0 <= j < i ==> trim(views(ls@)[j]) != header@,
        decreases ls.len() - i,
    {
        let t = trim_chars(ls[i].as_slice());
        if chars_eq(t.as_slice(), header) {
            proof {
                lemma_find_header(views(ls@), header@, i as int);
            }
            return Some(i);
        }
        i += 1;
    }
    proof {
        lemma_find_header(views(ls@), header@, i as int);
    }
    None
}

fn find_section_end(ls: &Vec<Vec<char>>, start: usize) -> (end: usize)
    requires
        start < ls@.len(),
    ensures
        start < end <= ls@.len(),
        end == section_end(views(ls@), start as int),
{
    let n = ls.len();
    let mut i: usize = start + 1;
    while i < n
        invariant
            n == ls@.len(),
            start < i <= ls@.len(),
            section_end(views(ls@), start as int) == section_end(views(ls@), i - 1),
        decreases ls.len() - i,
    {
        let t = trim_start_chars(ls[i].as_slice());
        if t.len() > 0 && t[0] == '[' {
            return i;
        }
        i += 1;
    }
    i
}

fn find_key_line(ls: &Vec<Vec<char>>, from: usize, end: usize, k: &[char]) -> (r: Option<usize>)
    requires
        end <= ls@.len(),
    ensures
        match r {
            Some(i) => from <= i < end && find_key(views(ls@), from as int, end as int, k@) == Some(
                i as int,
            ),
            None => find_key(views(ls@), from as int, end as int, k@) is None,
        },
{
    let mut i = from;
    while i < end
        invariant
            from <= i,
            end <= ls@.len(),
            find_key(views(ls@), from as int, end as int, k@) == find_key(
                views(ls@),
                i as int,
                end as int,
                k@,
            ),
        decreases end - i,
    {
        match line_key_chars(ls[i].as_slice()) {
            Some(key) => {
                if chars_eq(key.as_slice(), k) {
                    return Some(i);
                }
            },
            None => {},
        }
        i += 1;
    }
    None
}

fn assign_chars(k: &str, v: &str) -> (r: Vec<char>)
    ensures
        r@ == assign_line(k@, v@),
{
    let mut r = chars_of(k);
    r.push(' ');
    r.push('=');
    r.push(' ');
    append_str(&mut r, v);
    r
}

/// Return `original` with `entries` set under `header`, preserving all other
/// lines: existing keys of the section are updated in place, missing keys are
/// appended to the section, and the section is created at the end if absent.
/// The output always ends with a newline.
pub fn update_ini(original: &str, header: &str, entries: &[(&str, &str)]) -> (out: String)
    ensures
        out@ == update_ini_spec(original@, header@, entry_views(entries@)),
{
    let orig = chars_of(original);
    let hdr = chars_of(header);
    let mut ls = lines_of(orig.as_slice());
    let ghost es = entry_views(entries@);
    proof {
        assert(views(ls@) =~= lines(original@));
    }
    let result: Vec<Vec<char>>;
    match find_header_line(&ls, hdr.as_slice()) {
        Some(start) => {
            let end = find_section_end(&ls, start);
            let ghost ls0 = views(ls@);
            let mut app: Vec<Vec<char>> = Vec::new();
            let mut j: usize = 0;
            while j < entries.len()
                invariant
                    j <= entries@.len(),
                    es == entry_views(entries@),
                    start < end <= ls@.len(),
                    ls0.len() == ls@.len(),
                    apply_entries(ls0, start as int, end as int, es.take(j as int)) == (
                        views(ls@),
                        views(app@),
                    ),
                decreases entries.len() - j,
            {
                let (k, v) = entries[j];
                let line = assign_chars(k, v);
                let kc = chars_of(k);
                proof {
                    assert(es.take(j + 1).drop_last() =~= es.take(j as int));
                    assert(es.take(j + 1).last() == (k@, v@));
                }
                let ghost before_ls = views(ls@);
                let ghost before_app = views(app@);
                match find_key_line(&ls, start + 1, end, kc.as_slice()) {
                    Some(i) => {
                        let ghost lsv = ls@;
                        ls.set(i, line);
                        proof {
                            lemma_views_update(lsv, i as int, line);
                            assert(views(ls@) =~= before_ls.update(i as int, assign_line(k@, v@)));
                        }
                    },
                    None => {
                        let ghost appv = app@;
                        app.push(line);
                        proof {
                            lemma_views_push(appv, line);
                            assert(views(app@) =~= before_app.push(assign_line(k@, v@)));
                        }
                    },
                }
                j += 1;
            }
            proof {
                assert(es.take(entries@.len() as int) =~= es);
            }
            let mut out: Vec<Vec<char>> = Vec::new();
            let mut i: usize = 0;
            while i < end
                invariant
                    i <= end <= ls@.len(),
                    views(out@) == views(ls@).take(i as int),
                decreases end - i,
            {
                let ghost ov = out@;
                let x = copy_chars(ls[i].as_slice());
                out.push(x);
                proof {
                    lemma_views_push(ov, x);
                    assert(views(out@) =~= views(ls@).take(i + 1));
                }
                i += 1;
            }
            let mut a: usize = 0;
            while a < app.len()
                invariant
                    a <= app@.len(),
                    end <= ls@.len(),
                    views(out@) == views(ls@).take(end as int) + views(app@).take(a as int),
                decreases app.len() - a,
            {
                let ghost ov = out@;
                let x = copy_chars(app[a].as_slice());
                out.push(x);
                proof {
                    lemma_views_push(ov, x);
                    assert(views(out@) =~= views(ls@).take(end as int) + views(app@).take(a + 1));
                }
                a += 1;
            }
            let mut i: usize = end;
            while i < ls.len()
                invariant
                    end <= i <= ls@.len(),
                    views(out@) == views(ls@).take(end as int) + views(app@) + views(ls@).subrange(
                        end as int,
                        i as int,
                    ),
                decreases ls.len() - i,
            {
                let ghost ov = out@;
                let x = copy_chars(ls[i].as_slice());
                out.push(x);
                proof {
                    lemma_views_push(ov, x);
                    assert(views(out@) =~= views(ls@).take(end as int) + views(app@) + views(
                        ls@,
                    ).subrange(end as int, i + 1));
                }
                i += 1;
            }
            proof {
                assert(views(app@).take(app@.len() as int) =~= views(app@));
                assert(views(ls@).subrange(end as int, ls@.len() as int) =~= views(ls@).skip(
                    end as int,
                ));
            }
            proof {
                assert(views(out@) == updated_lines(original@, header@, es));
            }
            result = out;
        },
        None => {
            let ghost lsv = ls@;
            ls.push(hdr);
            proof {
                lemma_views_push(lsv, hdr);
            }
            let ghost base = views(ls@);
            let mut j: usize = 0;
            while j < entries.len()
                invariant
                    j <= entries@.len(),
                    es == entry_views(entries@),
                    views(ls@) == base + es.take(j as int).map_values(
                        |e: (Seq<char>, Seq<char>)| assign_line(e.0, e.1),
                    ),
                decreases entries.len() - j,
            {
                let (k, v) = entries[j];
                let line = assign_chars(k, v);
                let ghost lsv = ls@;
                ls.push(line);
                proof {
                    lemma_views_push(lsv, line);
                    assert(es[j as int] == (k@, v@));
                    assert(views(ls@) =~= base + es.take(j + 1).map_values(
                        |e: (Seq<char>, Seq<char>)| assign_line(e.0, e.1),
                    ));
                }
                j += 1;
            }
            proof {
                assert(es.take(entries@.len() as int) =~= es);
            }
            proof {
                assert(views(ls@) == updated_lines(original@, header@, es));
            }
            result = ls;
        },
    }
    let nl: [char; 1] = ['\n'];
    let mut joined = join_chars(&result, nl.as_slice());
    joined.push('\n');
    proof {
        assert(nl@ =~= seq!['\n']);
    }
    string_of(joined.as_slice())
}

} // verus!
