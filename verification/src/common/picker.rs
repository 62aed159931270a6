//! The state of the generic fuzzy single-select picker: the query being
//! typed, the items that survive it (best first) and the cursor.
//!
//! Every query edit recomputes the matches and puts the cursor back on the
//! first row, so the cursor never points past the match list.

use vstd::prelude::*;
use crate::common::fuzzy::{fuzzy_indices, fuzzy_match, rank, rank_by_score, sort_u32, sorted_asc};
use crate::common::keys::{Key, KeyCode};
use crate::common::styled::{Line, Span, SpanV, line_v, span_v, spans_v};
use crate::common::theme::{Style, bar, bar_spec, footer, footer_spec, key, key_spec, match_hl, match_hl_spec, plain, prompt, prompt_spec, query, query_spec, row, row_spec, title, title_spec};
use crate::feature::filter::{lemma_rank_len, lemma_rank_payload, lemma_rank_members};
use crate::text::{append_chars, append_str, chars_of, decimal, decimal_chars, push_char, string_of, sub_chars, trim_end_char, trim_end_char_chars};

verus! {

/// One item that survived the current query, with its matched character
/// positions (ascending).
#[derive(Debug)]
pub struct Match {
    pub item: usize,
    pub indices: Vec<u32>,
}

/// The views of a list of labels.
pub open spec fn label_views(labels: Seq<String>) -> Seq<Seq<char>> {
    labels.map_values(|l: String| l@)
}

/// The labels (among the first `n`) that match `query`, with their scores,
/// in input order.
pub open spec fn scored_labels(query: Seq<char>, labels: Seq<Seq<char>>, n: int) -> Seq<(u32, usize)>
    decreases n,
{
    if n <= 0 {
        seq![]
    } else {
        let s = scored_labels(query, labels, n - 1);
        match fuzzy_match(query, labels[n - 1]) {
            Some((score, _)) => s.push((score, (n - 1) as usize)),
            None => s,
        }
    }
}

/// `m.indices` are the matched positions of item `m.item`'s label, sorted.
pub open spec fn indices_ok(m: Match, query: Seq<char>, labels: Seq<Seq<char>>) -> bool {
    match fuzzy_match(query, labels[m.item as int]) {
        Some((_, idx)) => sorted_asc(m.indices@) && m.indices@.to_multiset() == idx.to_multiset(),
        None => false,
    }
}

/// What `compute` returns for `query` over `labels`: with an empty query,
/// every item in order with no highlighted positions; otherwise the matching
/// items ranked best first (ties in input order), each with its sorted match
/// positions.
pub open spec fn matches_ok(ms: Seq<Match>, query: Seq<char>, labels: Seq<Seq<char>>) -> bool {
    if query.len() == 0 {
        &&& ms.len() == labels.len()
        &&& forall|k: int| 0 <= k < ms.len() ==> #[trigger] ms[k].item == k && ms[k].indices@.len() == 0
    } else {
        let ranked = rank(scored_labels(query, labels, labels.len() as int));
        &&& ms.len() == ranked.len()
        &&& forall|k: int| 0 <= k < ms.len() ==> #[trigger] ms[k].item == ranked[k].1
            && indices_ok(ms[k], query, labels)
    }
}

/// Score every label against `query` and return the survivors, best first.
pub fn compute(query: &str, labels: &Vec<String>) -> (r: Vec<Match>)
    ensures
        matches_ok(r@, query@, label_views(labels@)),
        forall|k: int| 0 <= k < r@.len() ==> #[trigger] r@[k].item < labels@.len(),
{
    let ghost lv = label_views(labels@);
    let qc = chars_of(query);
    if qc.len() == 0 {
        let mut r: Vec<Match> = Vec::new();
        let mut i: usize = 0;
        while i < labels.len()
            invariant
                i <= labels@.len(),
                r@.len() == i,
                forall|k: int| 0 <= k < i ==> #[trigger] r@[k].item == k && r@[k].indices@.len() == 0,
            decreases labels.len() - i,
        {
            let ghost old_r = r@;
            r.push(Match { item: i, indices: Vec::new() });
            proof {
                assert forall|k: int| 0 <= k < i + 1 implies #[trigger] r@[k].item == k
                    && r@[k].indices@.len() == 0 by {
                    if k < i {
                        assert(r@[k] == old_r[k]);
                    }
                }
            }
            i += 1;
        }
        return r;
    }
    let mut pairs: Vec<(u32, Match)> = Vec::new();
    let ghost mut g: Seq<(u32, usize)> = seq![];
    let mut i: usize = 0;
    while i < labels.len()
        invariant
            i <= labels@.len(),
            lv == label_views(labels@),
            qc@ == query@,
            qc@.len() > 0,
            g == scored_labels(query@, lv, i as int),
            forall|j: int| 0 <= j < g.len() ==> #[trigger] g[j].1 < labels@.len(),
            pairs@.len() == g.len(),
            forall|j: int| 0 <= j < pairs@.len() ==> #[trigger] pairs@[j].0 == g[j].0
                && pairs@[j].1.item == g[j].1 && indices_ok(pairs@[j].1, query@, lv),
        decreases labels.len() - i,
    {
        match fuzzy_indices(query, labels[i].as_str()) {
            Some((score, idx)) => {
                let sorted = sort_u32(&idx);
                let ghost old_pairs = pairs@;
                let ghost og = g;
                pairs.push((score, Match { item: i, indices: sorted }));
                proof {
                    g = g.push((score, i));
                    assert(lv[i as int] == labels@[i as int]@);
                    assert forall|j: int| 0 <= j < pairs@.len() implies #[trigger] pairs@[j].0
                        == g[j].0 && pairs@[j].1.item == g[j].1 && indices_ok(pairs@[j].1, query@, lv) by {
                        if j < old_pairs.len() {
                            assert(pairs@[j] == old_pairs[j]);
                            assert(g[j] == og[j]);
                        }
                    }
                }
            },
            None => {
                proof {
                    assert(lv[i as int] == labels@[i as int]@);
                }
            },
        }
        i += 1;
    }
    let ghost pp = pairs@;
    let ranked = rank_by_score(pairs);
    proof {
        let f = |m: Match| m.item;
        lemma_rank_payload(pp, g, f);
    }
    let mut out: Vec<Match> = Vec::new();
    let mut rest = ranked;
    let ghost rk = rest@;
    let ghost mut n: int = 0;
    while rest.len() > 0
        invariant
            0 <= n <= rk.len(),
            rest@ == rk.skip(n),
            out@.len() == n,
            rk == rank(pp),
            forall|j: int| 0 <= j < out@.len() ==> #[trigger] out@[j] == rk[j].1,
        decreases rest.len(),
    {
        let (_s, m) = rest.remove(0);
        out.push(m);
        proof {
            n = n + 1;
            assert(rest@ =~= rk.skip(n));
        }
    }
    proof {
        lemma_rank_len(pp);
        assert forall|j: int| 0 <= j < out@.len() implies #[trigger] out@[j].item == rank(g)[j].1
            && indices_ok(out@[j], query@, lv) by {
            assert(rank(g)[j] == (rank(pp)[j].0, rank(pp)[j].1.item));
            lemma_rank_members(pp, j);
        }
        assert forall|j: int| 0 <= j < out@.len() implies #[trigger] out@[j].item < labels@.len() by {
            lemma_rank_members(g, j);
            let k = choose|k: int| 0 <= k < g.len() && g[k] == rank(g)[j];
            assert(g[k].1 < labels@.len());
        }
    }
    out
}

/// The cursor one row down, staying on the last row (0 for an empty list).
pub open spec fn next_spec(selected: int, len: int) -> int {
    if len == 0 {
        0
    } else if selected + 1 < len - 1 {
        selected + 1
    } else {
        len - 1
    }
}

/// Move the cursor down one row, stopping at the last row.
pub fn next(selected: usize, len: usize) -> (r: usize)
    requires
        selected < usize::MAX,
    ensures
        r == next_spec(selected as int, len as int),
{
    if len == 0 {
        0
    } else if selected + 1 < len - 1 {
        selected + 1
    } else {
        len - 1
    }
}

/// Index of the last occurrence of `c` in `s`.
pub open spec fn last_index(s: Seq<char>, c: char) -> Option<int>
    decreases s.len(),
{
    if s.len() == 0 {
        None
    } else if s.last() == c {
        Some(s.len() - 1)
    } else {
        last_index(s.drop_last(), c)
    }
}

/// The query after deleting its last word: trailing spaces are skipped, then
/// everything after the last remaining space goes (all of it when there is
/// none).
pub open spec fn trim_word_spec(q: Seq<char>) -> Seq<char> {
    match last_index(trim_end_char(q, ' '), ' ') {
        Some(i) => q.take(i + 1),
        None => seq![],
    }
}

proof fn lemma_trim_end_char_prefix(s: Seq<char>, c: char)
    ensures
        trim_end_char(s, c).len() <= s.len(),
        trim_end_char(s, c) == s.take(trim_end_char(s, c).len() as int),
    decreases s.len(),
{
    if s.len() > 0 && s.last() == c {
        lemma_trim_end_char_prefix(s.drop_last(), c);
        assert(s.drop_last().take(trim_end_char(s, c).len() as int) =~= s.take(
            trim_end_char(s, c).len() as int,
        ));
    } else {
        assert(s.take(s.len() as int) =~= s);
    }
}

proof fn lemma_last_index(s: Seq<char>, c: char, k: int)
    requires
        -1 <= k < s.len(),
        forall|j: int| k < j < s.len() ==> s[j] != c,
        k >= 0 ==> s[k] == c,
    ensures
        k >= 0 ==> last_index(s, c) == Some(k),
        k == -1 ==> last_index(s, c) is None,
    decreases s.len(),
{
    if s.len() > 0 && k < s.len() - 1 {
        lemma_last_index(s.drop_last(), c, k);
    }
}

/// Delete the last word of the query (ctrl-w).
pub fn trim_word(query: &mut String)
    ensures
        final(query)@ == trim_word_spec(old(query)@),
{
    let q = chars_of(query.as_str());
    let t = trim_end_char_chars(q.as_slice(), ' ');
    proof {
        lemma_trim_end_char_prefix(q@, ' ');
    }
    let mut i: usize = t.len();
    while i > 0 && t[i - 1] != ' '
        invariant
            i <= t@.len(),
            forall|j: int| i <= j < t@.len() ==> t@[j] != ' ',
        decreases i,
    {
        i -= 1;
    }
    proof {
        lemma_last_index(t@, ' ', i - 1);
    }
    if i > 0 {
        let kept = sub_chars(q.as_slice(), 0, i);
        proof {
            assert(kept@ =~= q@.take(i as int));
        }
        *query = string_of(kept.as_slice());
    } else {
        *query = String::new();
    }
}

/// Live state of one picker session over a fixed list of labels.
pub struct Picker {
    pub labels: Vec<String>,
    pub query: String,
    pub matches: Vec<Match>,
    pub selected: usize,
}

impl Picker {
    /// The picker's invariant: the matches are those of the current query, and
    /// the cursor is on a match (or 0 when there is none).
    pub open spec fn wf(&self) -> bool {
        &&& matches_ok(self.matches@, self.query@, label_views(self.labels@))
        &&& forall|k: int| 0 <= k < self.matches@.len() ==> #[trigger] self.matches@[k].item < self.labels@.len()
        &&& (self.selected == 0 || self.selected < self.matches@.len())
    }

    /// A picker over `labels` with an empty query: every item, cursor on top.
    pub fn new(labels: Vec<String>) -> (p: Picker)
        ensures
            p.wf(),
            p.labels@ == labels@,
            p.query@ == Seq::<char>::empty(),
            p.selected == 0,
    {
        let query = String::new();
        let matches = compute(query.as_str(), &labels);
        Picker { labels, query, matches, selected: 0 }
    }

    /// A session over `labels`, or `None` for an empty list: with nothing to
    /// choose from there is no prompt at all.
    pub fn open(labels: Vec<String>) -> (r: Option<Picker>)
        ensures
            labels@.len() == 0 <==> r is None,
            r matches Some(p) ==> {
                &&& p.wf()
                &&& p.labels@ == labels@
                &&& p.query@ == Seq::<char>::empty()
                &&& p.selected == 0
            },
    {
        if labels.len() == 0 {
            None
        } else {
            Some(Picker::new(labels))
        }
    }

    /// The item index under the cursor, or `None` when the query matched
    /// nothing.
    pub fn current(&self) -> (r: Option<usize>)
        requires
            self.wf(),
        ensures
            self.matches@.len() == 0 ==> r is None,
            self.matches@.len() > 0 ==> r == Some(self.matches@[self.selected as int].item),
    {
        if self.selected < self.matches.len() {
            Some(self.matches[self.selected].item)
        } else {
            None
        }
    }

    /// Re-score against the current query and snap the cursor back to the
    /// top.
    pub fn on_query_change(&mut self)
        ensures
            final(self).wf(),
            final(self).selected == 0,
            final(self).query@ == old(self).query@,
            final(self).labels@ == old(self).labels@,
    {
        self.matches = compute(self.query.as_str(), &self.labels);
        self.selected = 0;
    }

    /// Move the cursor up one row (stopping at the top).
    pub fn up(&mut self)
        requires
            old(self).wf(),
        ensures
            final(self).wf(),
            final(self).selected == if old(self).selected == 0 { 0 } else { old(self).selected - 1 },
            final(self).query@ == old(self).query@,
            final(self).matches@ == old(self).matches@,
            final(self).labels@ == old(self).labels@,
    {
        if self.selected > 0 {
            self.selected = self.selected - 1;
        }
    }

    /// Move the cursor down one row (stopping at the last row).
    pub fn down(&mut self)
        requires
            old(self).wf(),
        ensures
            final(self).wf(),
            final(self).selected == next_spec(old(self).selected as int, old(self).matches@.len() as int),
            final(self).query@ == old(self).query@,
            final(self).matches@ == old(self).matches@,
            final(self).labels@ == old(self).labels@,
    {
        self.selected = next(self.selected, self.matches.len());
    }

    /// Delete the last character of the query.
    pub fn delete_char(&mut self)
        ensures
            final(self).wf(),
            final(self).selected == 0,
            final(self).query@ == (if old(self).query@.len() > 0 {
                old(self).query@.drop_last()
            } else {
                old(self).query@
            }),
            final(self).labels@ == old(self).labels@,
    {
        let q = chars_of(self.query.as_str());
        if q.len() > 0 {
            let k = sub_chars(q.as_slice(), 0, q.len() - 1);
            proof {
                assert(k@ =~= q@.drop_last());
            }
            self.query = string_of(k.as_slice());
        }
        self.on_query_change();
    }

    /// Clear the query.
    pub fn clear_query(&mut self)
        ensures
            final(self).wf(),
            final(self).selected == 0,
            final(self).query@ == Seq::<char>::empty(),
            final(self).labels@ == old(self).labels@,
    {
        self.query = String::new();
        self.on_query_change();
    }

    /// Delete the last word of the query.
    pub fn trim_word(&mut self)
        ensures
            final(self).wf(),
            final(self).selected == 0,
            final(self).query@ == trim_word_spec(old(self).query@),
            final(self).labels@ == old(self).labels@,
    {
        trim_word(&mut self.query);
        self.on_query_change();
    }

    /// Type a character.
    pub fn push_char(&mut self, c: char)
        ensures
            final(self).wf(),
            final(self).selected == 0,
            final(self).query@ == old(self).query@.push(c),
            final(self).labels@ == old(self).labels@,
    {
        push_char(&mut self.query, c);
        self.on_query_change();
    }
}

/// What a key press does in the picker.
pub enum PickOp {
    Cancel,
    Choose,
    Up,
    Down,
    DeleteChar,
    Clear,
    TrimWord,
    Type(char),
    Ignore,
}

/// The picker's key table: Esc or `ctrl-c` cancel, Enter chooses, arrows
/// and `ctrl-p`/`ctrl-k`, `ctrl-n`/`ctrl-j` move, Backspace, `ctrl-u` and
/// `ctrl-w` edit, and other characters without `ctrl` or `alt` are typed.
pub open spec fn pick_op(k: Key) -> PickOp {
    let c = k.code;
    if c == KeyCode::Esc || (c == KeyCode::Char('c') && k.ctrl) {
        PickOp::Cancel
    } else if c == KeyCode::Enter {
        PickOp::Choose
    } else if c == KeyCode::Up || ((c == KeyCode::Char('p') || c == KeyCode::Char('k')) && k.ctrl) {
        PickOp::Up
    } else if c == KeyCode::Down || ((c == KeyCode::Char('n') || c == KeyCode::Char('j')) && k.ctrl) {
        PickOp::Down
    } else if c == KeyCode::Backspace {
        PickOp::DeleteChar
    } else if c == KeyCode::Char('u') && k.ctrl {
        PickOp::Clear
    } else if c == KeyCode::Char('w') && k.ctrl {
        PickOp::TrimWord
    } else if c is Char && !k.ctrl && !k.alt {
        PickOp::Type(c->Char_0)
    } else {
        PickOp::Ignore
    }
}

/// How a key press ends: keep going, cancel, or choose an item.
#[derive(Debug, Clone, Copy, PartialEq, Eq, Structural)]
pub enum Picked {
    Continue,
    Cancel,
    Choose(usize),
}

impl Picker {
    /// Apply one key press.
    pub fn handle_key(&mut self, k: Key) -> (r: Picked)
        requires
            old(self).wf(),
        ensures
            final(self).wf(),
            final(self).labels@ == old(self).labels@,
            match pick_op(k) {
                PickOp::Cancel => r == Picked::Cancel && *final(self) == *old(self),
                PickOp::Choose => *final(self) == *old(self) && (if old(self).matches@.len() > 0 {
                    r == Picked::Choose(old(self).matches@[old(self).selected as int].item)
                } else {
                    r == Picked::Continue
                }),
                PickOp::Up => r == Picked::Continue && final(self).query@ == old(self).query@
                    && final(self).matches@ == old(self).matches@
                    && final(self).selected == if old(self).selected == 0 { 0 } else { old(self).selected - 1 },
                PickOp::Down => r == Picked::Continue && final(self).query@ == old(self).query@
                    && final(self).matches@ == old(self).matches@
                    && final(self).selected == next_spec(old(self).selected as int, old(self).matches@.len() as int),
                PickOp::DeleteChar => r == Picked::Continue && final(self).selected == 0
                    && final(self).query@ == (if old(self).query@.len() > 0 { old(self).query@.drop_last() } else { old(self).query@ }),
                PickOp::Clear => r == Picked::Continue && final(self).selected == 0 && final(self).query@.len() == 0,
                PickOp::TrimWord => r == Picked::Continue && final(self).selected == 0
                    && final(self).query@ == trim_word_spec(old(self).query@),
                PickOp::Type(c) => r == Picked::Continue && final(self).selected == 0
                    && final(self).query@ == old(self).query@.push(c),
                PickOp::Ignore => r == Picked::Continue && *final(self) == *old(self),
            },
    {
        let c = k.code;
        if c == KeyCode::Esc || (c == KeyCode::Char('c') && k.ctrl) {
            Picked::Cancel
        } else if c == KeyCode::Enter {
            match self.current() {
                Some(item) => Picked::Choose(item),
                None => Picked::Continue,
            }
        } else if c == KeyCode::Up || ((c == KeyCode::Char('p') || c == KeyCode::Char('k')) && k.ctrl) {
            self.up();
            Picked::Continue
        } else if c == KeyCode::Down || ((c == KeyCode::Char('n') || c == KeyCode::Char('j')) && k.ctrl) {
            self.down();
            Picked::Continue
        } else if c == KeyCode::Backspace {
            self.delete_char();
            Picked::Continue
        } else if c == KeyCode::Char('u') && k.ctrl {
            self.clear_query();
            Picked::Continue
        } else if c == KeyCode::Char('w') && k.ctrl {
            self.trim_word();
            Picked::Continue
        } else if !k.ctrl && !k.alt {
            match c {
                KeyCode::Char(ch) => {
                    self.push_char(ch);
                    Picked::Continue
                },
                _ => Picked::Continue,
            }
        } else {
            Picked::Continue
        }
    }
}

/// The style of label character `i`: accented when it matched.
pub open spec fn label_char_style(indices: Seq<u32>, i: int) -> Style {
    if indices.contains((i % 0x1_0000_0000) as u32) {
        match_hl_spec()
    } else {
        row_spec()
    }
}

/// A label's spans: one per character, matched ones accented.
pub open spec fn styled_label_spec(label: Seq<char>, indices: Seq<u32>) -> Seq<SpanV> {
    Seq::new(label.len(), |i: int| (seq![label[i]], label_char_style(indices, i)))
}

fn contains_u32(v: &[u32], x: u32) -> (r: bool)
    ensures
        r == v@.contains(x),
{
    let mut i: usize = 0;
    while i < v.len()
        invariant
            i <= v@.len(),
            forall|j: int| 0 <= j < i ==> v@[j] != x,
        decreases v.len() - i,
    {
        if v[i] == x {
            assert(v@[i as int] == x);
            return true;
        }
        i += 1;
    }
    false
}

/// Build a row's label, accenting the fuzzy-matched characters (`indices`
/// ascending; positions count modulo 2^32, as `u32` indices do).
pub fn styled_label(label: &str, indices: &[u32]) -> (r: Vec<Span>)
    ensures
        spans_v(r@) == styled_label_spec(label@, indices@),
{
    let cs = chars_of(label);
    let mut spans: Vec<Span> = Vec::new();
    let mut i: usize = 0;
    while i < cs.len()
        invariant
            cs@ == label@,
            i <= cs@.len(),
            spans_v(spans@) == styled_label_spec(label@, indices@).take(i as int),
        decreases cs.len() - i,
    {
        let pos = ((i as u64) % 0x1_0000_0000) as u32;
        let style = if contains_u32(indices, pos) { match_hl() } else { row() };
        let one = vec![cs[i]];
        let ghost before = spans@;
        spans.push(Span::styled_chars(one.as_slice(), style));
        proof {
            assert(one@ =~= seq![label@[i as int]]);
            assert(spans_v(spans@) =~= spans_v(before).push(span_v(spans@[i as int])));
            assert(styled_label_spec(label@, indices@).take(i + 1) =~= styled_label_spec(label@, indices@).take(
                i as int,
            ).push(styled_label_spec(label@, indices@)[i as int]));
        }
        i += 1;
    }
    proof {
        assert(styled_label_spec(label@, indices@).take(i as int) =~= styled_label_spec(label@, indices@));
    }
    spans
}

/// The picker's footer hints.
pub open spec fn picker_hints() -> Seq<SpanV> {
    seq![
        ("↑↓"@, key_spec()),
        (" move   "@, footer_spec()),
        ("⏎"@, key_spec()),
        (" select   "@, footer_spec()),
        ("esc"@, key_spec()),
        (" cancel"@, footer_spec())
    ]
}

fn push_span(v: &mut Vec<Span>, s: Span)
    ensures
        spans_v(final(v)@) == spans_v(old(v)@).push(span_v(s)),
{
    let ghost before = v@;
    v.push(s);
    proof {
        assert(spans_v(v@) =~= spans_v(before).push(span_v(s)));
    }
}

impl Picker {
    /// The box title: ` {title} `.
    pub fn title_line(title_text: &str) -> (r: Line)
        ensures
            line_v(r) == (seq![(" "@ + title_text@ + " "@, title_spec())], plain()),
    {
        let mut t = chars_of(" ");
        append_str(&mut t, title_text);
        append_str(&mut t, " ");
        let mut spans: Vec<Span> = Vec::new();
        push_span(&mut spans, Span::styled_chars(t.as_slice(), title()));
        proof {
            assert(spans_v(spans@) =~= seq![(" "@ + title_text@ + " "@, title_spec())]);
        }
        Line::from_spans(spans)
    }

    /// The count in the title: ` {matches}/{labels} `.
    pub fn count_line(&self) -> (r: Line)
        ensures
            line_v(r) == (seq![(" "@ + decimal(self.matches@.len()) + "/"@ + decimal(self.labels@.len()) + " "@, footer_spec())], plain()),
    {
        let mut t = chars_of(" ");
        let a = decimal_chars(self.matches.len() as u64);
        append_chars(&mut t, a.as_slice());
        append_str(&mut t, "/");
        let b = decimal_chars(self.labels.len() as u64);
        append_chars(&mut t, b.as_slice());
        append_str(&mut t, " ");
        let mut spans: Vec<Span> = Vec::new();
        push_span(&mut spans, Span::styled_chars(t.as_slice(), footer()));
        proof {
            assert(spans_v(spans@) =~= seq![(" "@ + decimal(self.matches@.len()) + "/"@ + decimal(self.labels@.len()) + " "@, footer_spec())]);
        }
        Line::from_spans(spans)
    }

    /// The query line: the prompt and the live query.
    pub fn query_line(&self) -> (r: Line)
        ensures
            line_v(r) == (seq![("❯ "@, prompt_spec()), (self.query@, query_spec())], plain()),
    {
        let mut spans: Vec<Span> = Vec::new();
        push_span(&mut spans, Span::styled("❯ ", prompt()));
        push_span(&mut spans, Span::styled(self.query.as_str(), query()));
        proof {
            assert(spans_v(spans@) =~= seq![("❯ "@, prompt_spec()), (self.query@, query_spec())]);
        }
        Line::from_spans(spans)
    }

    /// The rows: the selection bar (or two spaces), then the highlighted label.
    pub fn row_lines(&self) -> (r: Vec<Line>)
        requires
            self.wf(),
        ensures
            r@.len() == self.matches@.len(),
            forall|k: int| 0 <= k < r@.len() ==> #[trigger] line_v(r@[k]) == (
                seq![if k == self.selected { ("▌ "@, bar_spec()) } else { ("  "@, plain()) }]
                    + styled_label_spec(self.labels@[self.matches@[k].item as int]@, self.matches@[k].indices@),
                plain(),
            ),
    {
        let mut out: Vec<Line> = Vec::new();
        let mut k: usize = 0;
        while k < self.matches.len()
            invariant
                k <= self.matches@.len(),
                out@.len() == k,
                forall|j: int| 0 <= j < self.matches@.len() ==> #[trigger] self.matches@[j].item < self.labels@.len(),
                forall|j: int| 0 <= j < k ==> #[trigger] line_v(out@[j]) == (
                    seq![if j == self.selected { ("▌ "@, bar_spec()) } else { ("  "@, plain()) }]
                        + styled_label_spec(self.labels@[self.matches@[j].item as int]@, self.matches@[j].indices@),
                    plain(),
                ),
            decreases self.matches.len() - k,
        {
            let m = &self.matches[k];
            let mut spans: Vec<Span> = Vec::new();
            push_span(&mut spans, if k == self.selected { Span::styled("▌ ", bar()) } else { Span::raw("  ") });
            let label_spans = styled_label(self.labels[m.item].as_str(), m.indices.as_slice());
            let ghost before = spans@;
            let ghost ls = label_spans@;
            let mut label_spans = label_spans;
            spans.append(&mut label_spans);
            proof {
                assert(spans@ == before + ls);
                assert(spans_v(spans@) =~= spans_v(before) + spans_v(ls));
            }
            out.push(Line::from_spans(spans));
            k += 1;
        }
        out
    }

    /// The footer hints.
    pub fn footer_line() -> (r: Line)
        ensures
            line_v(r) == (picker_hints(), plain()),
    {
        let mut spans: Vec<Span> = Vec::new();
        push_span(&mut spans, Span::styled("↑↓", key()));
        push_span(&mut spans, Span::styled(" move   ", footer()));
        push_span(&mut spans, Span::styled("⏎", key()));
        push_span(&mut spans, Span::styled(" select   ", footer()));
        push_span(&mut spans, Span::styled("esc", key()));
        push_span(&mut spans, Span::styled(" cancel", footer()));
        proof {
            assert(spans_v(spans@) =~= picker_hints());
        }
        Line::from_spans(spans)
    }
}
} // verus!
