//! The picker's state machine: a two-pane list of issues with a Markdown
//! preview, type-alias filtering, previews loaded in the background, a
//! refresh in the background (`ctrl-r`) and inline create (`ctrl-n`).
//!
//! The terminal loop lives with the driver: it hands key presses and the
//! results of background work to the state here, starts the work each step
//! asks for, and draws what the view functions below describe.

use vstd::prelude::*;
use crate::common::keys::{Key, KeyCode};
use crate::common::refresh::{Polled, Refresh};
use crate::common::styled::{LineV, Text, raw_text, text_v};
use crate::common::theme::{key, query, row};
use crate::feature::config::{StringMap, string_map};
use crate::feature::filter::{RowMatch, candidates, filter_issues, parse_query, parse_query_spec, plain_rows_ok, ranked_rows_ok};
use crate::feature::markdown::{render, rendered};
use crate::feature::tracker::{CreateRequest, Issue};
use crate::text::{append_chars, append_str, chars_of, is_whitespace, is_ws, owned, str_eq, string_of, sub_chars, trim, trim_chars};

verus! {

/// What to do with the chosen issue: branch in place, or spin it out into its
/// own git worktree.
#[derive(Debug, Clone, Copy, PartialEq, Eq, Structural)]
pub enum Action {
    Branch,
    Worktree,
}

/// What the picker ends with. A created issue is reported as `Selected` too.
#[derive(Debug)]
pub enum Outcome {
    Selected { key: String, summary: String, action: Action },
    Cancelled,
}

/// Work a step asks the driver to start.
#[derive(Debug)]
pub enum Effect {
    Nothing,
    /// Load the description of the issue with this key.
    Describe(String),
    /// Create this issue.
    Create(CreateRequest),
    /// Refetch the issue list.
    Refresh,
}

/// Whether an issue already has a local branch, and a separate worktree.
#[derive(Debug, Clone, Copy, PartialEq, Eq, Structural)]
pub struct Marks {
    pub branch: bool,
    pub worktree: bool,
}

/// The picker's state.
pub struct App {
    pub aliases: StringMap,
    /// Markers for each issue, by position.
    pub marks: Vec<Marks>,
    pub issues: Vec<Issue>,
    pub query: String,
    /// Cursor position within `query`, as a character index.
    pub cursor: usize,
    /// The issues that pass the query, in display order.
    pub rows: Vec<RowMatch>,
    pub selected: usize,
    pub refresh: Refresh,
    /// Rendered previews by issue key (the first entry for a key counts).
    pub preview_cache: Vec<(String, Text)>,
    /// The key whose description is being loaded.
    pub preview_loading: Option<String>,
    pub preview_scroll: u16,
    /// A create is running; keys other than a hard quit are ignored.
    pub creating: bool,
    pub create_summary: String,
    /// A validated create request, parked while the user picks branch or worktree.
    pub pending_req: Option<CreateRequest>,
    /// The branch-or-worktree chooser is showing.
    pub choosing_mode: bool,
    /// Highlighted choice: 0 is branch, 1 is worktree.
    pub mode_selected: usize,
    /// The action chosen for the running create.
    pub pending_action: Action,
    pub help: bool,
    pub status: String,
    pub tick: usize,
    pub done: bool,
    pub result: Outcome,
}

/// The picker's state apart from the issues, the rows (which follow from the
/// issues and the query) and the previews.
#[verifier::ext_equal]
pub struct UiView {
    pub query: Seq<char>,
    pub cursor: nat,
    pub selected: nat,
    pub preview_scroll: nat,
    pub help: bool,
    pub done: bool,
    pub creating: bool,
    pub choosing_mode: bool,
    pub mode_selected: nat,
    /// Type and summary of the parked create request.
    pub pending_req: Option<(Seq<char>, Seq<char>)>,
    pub pending_action: Action,
    pub create_summary: Seq<char>,
    pub status: Seq<char>,
    /// Key, summary and action of the selection; `None` while cancelled.
    pub result: Option<(Seq<char>, Seq<char>, Action)>,
    pub refreshing: bool,
}

/// A create request as type and summary.
pub open spec fn req_v(r: CreateRequest) -> (Seq<char>, Seq<char>) {
    (r.kind@, r.summary@)
}

/// An outcome as key, summary and action (`None` when cancelled).
pub open spec fn outcome_v(o: Outcome) -> Option<(Seq<char>, Seq<char>, Action)> {
    match o {
        Outcome::Selected { key, summary, action } => Some((key@, summary@, action)),
        Outcome::Cancelled => None,
    }
}

impl View for App {
    type V = UiView;

    open spec fn view(&self) -> UiView {
        UiView {
            query: self.query@,
            cursor: self.cursor as nat,
            selected: self.selected as nat,
            preview_scroll: self.preview_scroll as nat,
            help: self.help,
            done: self.done,
            creating: self.creating,
            choosing_mode: self.choosing_mode,
            mode_selected: self.mode_selected as nat,
            pending_req: match self.pending_req {
                Some(r) => Some(req_v(r)),
                None => None,
            },
            pending_action: self.pending_action,
            create_summary: self.create_summary@,
            status: self.status@,
            result: outcome_v(self.result),
            refreshing: self.refresh.running,
        }
    }
}

/// `rows` are the issues that pass `query`: the type filter alone keeps the
/// list order; a search ranks the matches best first.
pub open spec fn rows_for(rows: Seq<RowMatch>, issues: Seq<Issue>, query: Seq<char>, aliases: Map<Seq<char>, Seq<char>>) -> bool {
    let (ty, search) = parse_query_spec(query, aliases);
    let cs = candidates(issues, ty, issues.len() as int);
    if search.len() == 0 {
        plain_rows_ok(rows, cs)
    } else {
        ranked_rows_ok(rows, issues, search, cs)
    }
}

/// The first cached preview for `k`.
pub open spec fn cache_get(c: Seq<(String, Text)>, k: Seq<char>) -> Option<Text>
    decreases c.len(),
{
    if c.len() == 0 {
        None
    } else if c[0].0@ == k {
        Some(c[0].1)
    } else {
        cache_get(c.drop_first(), k)
    }
}

/// The key to start loading for the current key `cur`: none when its preview
/// is cached or already loading.
pub open spec fn wanted(cur: Option<Seq<char>>, cache: Seq<(String, Text)>, loading: Option<String>) -> Option<Seq<char>> {
    match cur {
        Some(k) => if cache_get(cache, k) is Some || (loading matches Some(l) && l@ == k) {
            None
        } else {
            Some(k)
        },
        None => None,
    }
}

/// `a` saturating-subtract `b`.
pub open spec fn sat_sub(a: nat, b: nat) -> nat {
    if a >= b {
        (a - b) as nat
    } else {
        0
    }
}

/// `a + b`, capped at the largest `u16`.
pub open spec fn sat_add16(a: nat, b: nat) -> nat {
    if a + b > u16::MAX {
        u16::MAX as nat
    } else {
        a + b
    }
}

/// Whether the cache holds a preview for `k`.
pub fn cache_has(cache: &Vec<(String, Text)>, k: &str) -> (r: bool)
    ensures
        r == cache_get(cache@, k@) is Some,
{
    let mut j: usize = 0;
    proof {
        assert(cache@.skip(0) =~= cache@);
    }
    while j < cache.len()
        invariant
            j <= cache@.len(),
            cache_get(cache@, k@) == cache_get(cache@.skip(j as int), k@),
        decreases cache.len() - j,
    {
        if str_eq(cache[j].0.as_str(), k) {
            proof {
                assert(cache@.skip(j as int)[0] == cache@[j as int]);
            }
            return true;
        }
        proof {
            assert(cache@.skip(j as int).drop_first() =~= cache@.skip(j + 1));
        }
        j += 1;
    }
    proof {
        assert(cache@.skip(j as int) =~= Seq::<(String, Text)>::empty());
    }
    false
}

/// `q` with `c` inserted at position `i`.
pub open spec fn insert_at(q: Seq<char>, i: int, c: char) -> Seq<char> {
    q.take(i).push(c) + q.skip(i)
}

/// `q` without the character at position `i`.
pub open spec fn remove_at(q: Seq<char>, i: int) -> Seq<char> {
    q.take(i) + q.skip(i + 1)
}

/// Back from `i` over whitespace.
pub open spec fn skip_ws_back(q: Seq<char>, i: int) -> int
    decreases i,
{
    if 0 < i <= q.len() && is_ws(q[i - 1]) {
        skip_ws_back(q, i - 1)
    } else {
        i
    }
}

/// Back from `i` over non-whitespace.
pub open spec fn skip_word_back(q: Seq<char>, i: int) -> int
    decreases i,
{
    if 0 < i <= q.len() && !is_ws(q[i - 1]) {
        skip_word_back(q, i - 1)
    } else {
        i
    }
}

/// Where the word before position `i` starts: back over whitespace, then
/// over the run of non-whitespace before it.
pub open spec fn word_start(q: Seq<char>, i: int) -> int {
    skip_word_back(q, skip_ws_back(q, i))
}

/// What a key step leads to besides the new state.
pub enum Step {
    Nothing,
    /// The query changed: rows recomputed, cursor and scroll at the top,
    /// preview asked for.
    Requery,
    /// The cursor moved: preview asked for.
    Moved,
    /// The parked request is handed over for creation.
    Create,
    /// A refresh is asked for.
    Refresh,
}

/// The state after a query edit to `q` with the cursor at `cursor`.
pub open spec fn requeried(v: UiView, q: Seq<char>, cursor: nat) -> UiView {
    UiView { query: q, cursor, selected: 0, preview_scroll: 0, ..v }
}

/// `ctrl-n`: a non-blank search becomes a request (of the filtered type, else
/// `Task`) parked for the branch-or-worktree choice; a blank search or a
/// sub-task is refused with a message.
pub open spec fn request_create_view(v: UiView, parsed: (Seq<char>, Seq<char>)) -> UiView {
    let summary = trim(parsed.1);
    let kind = if parsed.0.len() == 0 { "Task"@ } else { parsed.0 };
    if summary.len() == 0 {
        UiView { status: "type a summary in the query first, then ctrl-n"@, ..v }
    } else if kind == "Sub-task"@ {
        UiView { status: "cannot create a Sub-task without a parent"@, ..v }
    } else {
        UiView { pending_req: Some((kind, summary)), choosing_mode: true, mode_selected: 0, status: seq![], ..v }
    }
}

/// Confirming the chooser hands the parked request over, remembering the action.
pub open spec fn confirm_view(v: UiView, action: Action) -> (UiView, Step) {
    match v.pending_req {
        Some(req) => (
            UiView {
                choosing_mode: false,
                creating: true,
                create_summary: req.1,
                pending_action: action,
                pending_req: None,
                ..v
            },
            Step::Create,
        ),
        None => (v, Step::Nothing),
    }
}

/// Keys while the branch-or-worktree chooser shows.
pub open spec fn key_choosing(v: UiView, k: Key) -> (UiView, Step) {
    let c = k.code;
    if c == KeyCode::Char('c') && k.ctrl {
        (UiView { done: true, ..v }, Step::Nothing)
    } else if c == KeyCode::Esc {
        (UiView { choosing_mode: false, pending_req: None, ..v }, Step::Nothing)
    } else if c == KeyCode::Left || c == KeyCode::Up || c == KeyCode::Char('h') {
        (UiView { mode_selected: 0, ..v }, Step::Nothing)
    } else if c == KeyCode::Right || c == KeyCode::Down {
        (UiView { mode_selected: 1, ..v }, Step::Nothing)
    } else if c == KeyCode::Tab || c == KeyCode::BackTab {
        (UiView { mode_selected: (1 - v.mode_selected) as nat, ..v }, Step::Nothing)
    } else if c == KeyCode::Char('l') {
        (UiView { mode_selected: 1, ..v }, Step::Nothing)
    } else if c == KeyCode::Enter {
        confirm_view(v, if v.mode_selected == 1 { Action::Worktree } else { Action::Branch })
    } else if c == KeyCode::Char('b') {
        confirm_view(v, Action::Branch)
    } else if c == KeyCode::Char('w') {
        confirm_view(v, Action::Worktree)
    } else {
        (v, Step::Nothing)
    }
}

/// Keys in the list: quit, select, move, create, refresh, scroll the preview,
/// move the query cursor and edit the query.
pub open spec fn key_normal(
    v: UiView,
    k: Key,
    nrows: nat,
    cur: Option<(Seq<char>, Seq<char>, bool)>,
    parsed: (Seq<char>, Seq<char>),
) -> (UiView, Step) {
    let c = k.code;
    let ctrl = k.ctrl;
    let q = v.query;
    let n = q.len();
    if c == KeyCode::Esc {
        if v.help {
            (UiView { help: false, ..v }, Step::Nothing)
        } else {
            (UiView { done: true, ..v }, Step::Nothing)
        }
    } else if c == KeyCode::Char('c') && ctrl {
        (UiView { done: true, ..v }, Step::Nothing)
    } else if c == KeyCode::Enter {
        match cur {
            Some((key, summary, worktree)) => (
                UiView {
                    result: Some((key, summary, if ctrl || worktree { Action::Worktree } else { Action::Branch })),
                    done: true,
                    ..v
                },
                Step::Nothing,
            ),
            None => (v, Step::Nothing),
        }
    } else if c == KeyCode::Up || ((c == KeyCode::Char('k') || c == KeyCode::Char('p')) && ctrl) {
        (UiView { selected: sat_sub(v.selected, 1), preview_scroll: 0, ..v }, Step::Moved)
    } else if c == KeyCode::Down || (c == KeyCode::Char('j') && ctrl) {
        (
            UiView {
                selected: if nrows > 0 {
                    if v.selected + 1 < nrows { v.selected + 1 } else { (nrows - 1) as nat }
                } else {
                    v.selected
                },
                preview_scroll: 0,
                ..v
            },
            Step::Moved,
        )
    } else if c == KeyCode::Char('n') && ctrl {
        (request_create_view(v, parsed), Step::Nothing)
    } else if c == KeyCode::Char('r') && ctrl {
        (UiView { refreshing: true, ..v }, Step::Refresh)
    } else if c == KeyCode::Char('d') && ctrl {
        (UiView { preview_scroll: sat_add16(v.preview_scroll, 8), ..v }, Step::Nothing)
    } else if c == KeyCode::Char('u') && ctrl {
        (UiView { preview_scroll: sat_sub(v.preview_scroll, 8), ..v }, Step::Nothing)
    } else if c == KeyCode::Char('f') && ctrl {
        (UiView { preview_scroll: sat_add16(v.preview_scroll, 16), ..v }, Step::Nothing)
    } else if c == KeyCode::Char('b') && ctrl {
        (UiView { preview_scroll: sat_sub(v.preview_scroll, 16), ..v }, Step::Nothing)
    } else if c == KeyCode::Left {
        (UiView { cursor: sat_sub(v.cursor, 1), ..v }, Step::Nothing)
    } else if c == KeyCode::Right {
        (UiView { cursor: if v.cursor + 1 < n { v.cursor + 1 } else { n }, ..v }, Step::Nothing)
    } else if c == KeyCode::Home || (c == KeyCode::Char('a') && ctrl) {
        (UiView { cursor: 0, ..v }, Step::Nothing)
    } else if c == KeyCode::End || (c == KeyCode::Char('e') && ctrl) {
        (UiView { cursor: n, ..v }, Step::Nothing)
    } else if c == KeyCode::Backspace && k.sup {
        if v.cursor == 0 {
            (v, Step::Nothing)
        } else {
            (requeried(v, q.skip(v.cursor as int), 0), Step::Requery)
        }
    } else if (c == KeyCode::Backspace && k.alt) || (c == KeyCode::Char('w') && ctrl) {
        if v.cursor == 0 {
            (v, Step::Nothing)
        } else {
            let w = word_start(q, v.cursor as int);
            (requeried(v, q.take(w) + q.skip(v.cursor as int), w as nat), Step::Requery)
        }
    } else if c == KeyCode::Backspace {
        if v.cursor > 0 {
            (requeried(v, remove_at(q, v.cursor - 1), (v.cursor - 1) as nat), Step::Requery)
        } else {
            (v, Step::Nothing)
        }
    } else if c == KeyCode::Delete {
        if v.cursor < n {
            (requeried(v, remove_at(q, v.cursor as int), v.cursor), Step::Requery)
        } else {
            (v, Step::Nothing)
        }
    } else if c == KeyCode::Char('?') && n == 0 {
        (UiView { help: !v.help, ..v }, Step::Nothing)
    } else if c is Char && !ctrl && !k.alt {
        (UiView { help: false, ..requeried(v, insert_at(q, v.cursor as int, c->Char_0), v.cursor + 1) }, Step::Requery)
    } else {
        (v, Step::Nothing)
    }
}

/// One key press: while creating only a hard quit counts; the chooser and the
/// list each have their keys.
pub open spec fn key_spec(
    v: UiView,
    k: Key,
    nrows: nat,
    cur: Option<(Seq<char>, Seq<char>, bool)>,
    parsed: (Seq<char>, Seq<char>),
) -> (UiView, Step) {
    if v.creating {
        if k.code == KeyCode::Char('c') && k.ctrl {
            (UiView { done: true, ..v }, Step::Nothing)
        } else {
            (v, Step::Nothing)
        }
    } else if v.choosing_mode {
        key_choosing(v, k)
    } else {
        key_normal(v, k, nrows, cur, parsed)
    }
}

/// What a key step's effect and preview bookkeeping are, given the state
/// before (`old`) and after (`new`) it.
pub open spec fn step_effect(step: Step, old: App, new: App, r: Effect) -> bool {
    match step {
        Step::Nothing => r is Nothing && new.preview_loading == old.preview_loading && new.rows == old.rows,
        Step::Requery => new.previewed(old.preview_loading, r),
        Step::Moved => new.previewed(old.preview_loading, r) && new.rows == old.rows,
        Step::Create => (r matches Effect::Create(req) && old@.pending_req == Some(req_v(req)))
            && new.preview_loading == old.preview_loading && new.rows == old.rows,
        Step::Refresh => (if old@.refreshing { r is Nothing } else { r is Refresh })
            && new.preview_loading == old.preview_loading && new.rows == old.rows,
    }
}

/// While a create runs, a key press changes nothing but, for `ctrl-c`,
/// quitting, and starts no work.
pub proof fn lemma_creating_swallows_keys(
    v: UiView,
    k: Key,
    nrows: nat,
    cur: Option<(Seq<char>, Seq<char>, bool)>,
    parsed: (Seq<char>, Seq<char>),
)
    requires
        v.creating,
    ensures
        key_spec(v, k, nrows, cur, parsed).0 == (UiView { done: v.done || (k.code == KeyCode::Char('c') && k.ctrl), ..v }),
        key_spec(v, k, nrows, cur, parsed).1 is Nothing,
{
    if k.code == KeyCode::Char('c') && k.ctrl {
        assert(key_spec(v, k, nrows, cur, parsed).0 =~= (UiView { done: true, ..v }));
    } else {
        assert(key_spec(v, k, nrows, cur, parsed).0 =~= v);
    }
}

/// Every query edit puts the row cursor and the preview scroll back at the
/// top, and keeps the query cursor within the query.
pub proof fn lemma_query_edit_resets_cursor(
    v: UiView,
    k: Key,
    nrows: nat,
    cur: Option<(Seq<char>, Seq<char>, bool)>,
    parsed: (Seq<char>, Seq<char>),
)
    requires
        v.cursor <= v.query.len(),
        key_spec(v, k, nrows, cur, parsed).1 is Requery,
    ensures
        key_spec(v, k, nrows, cur, parsed).0.selected == 0,
        key_spec(v, k, nrows, cur, parsed).0.preview_scroll == 0,
        key_spec(v, k, nrows, cur, parsed).0.cursor <= key_spec(v, k, nrows, cur, parsed).0.query.len(),
{
    let q = v.query;
    let c = v.cursor as int;
    if k.code == KeyCode::Backspace && k.sup {
        assert(q.skip(c).len() >= 0);
    } else if (k.code == KeyCode::Backspace && k.alt) || (k.code == KeyCode::Char('w') && k.ctrl) {
        lemma_word_start_range(q, c);
    }
}

/// `word_start` lies between 0 and the position it starts from.
pub proof fn lemma_word_start_range(q: Seq<char>, i: int)
    requires
        0 <= i <= q.len(),
    ensures
        0 <= word_start(q, i) <= i,
{
    lemma_skip_ws_range(q, i);
    lemma_skip_word_range(q, skip_ws_back(q, i));
}

proof fn lemma_skip_ws_range(q: Seq<char>, i: int)
    requires
        0 <= i <= q.len(),
    ensures
        0 <= skip_ws_back(q, i) <= i,
    decreases i,
{
    if 0 < i && is_ws(q[i - 1]) {
        lemma_skip_ws_range(q, i - 1);
    }
}

proof fn lemma_skip_word_range(q: Seq<char>, i: int)
    requires
        0 <= i <= q.len(),
    ensures
        0 <= skip_word_back(q, i) <= i,
    decreases i,
{
    if 0 < i && !is_ws(q[i - 1]) {
        lemma_skip_word_range(q, i - 1);
    }
}

impl App {
    /// The state's own invariant: markers line up with issues, the rows are
    /// those of the query, and the cursors are in range.
    pub open spec fn wf(&self) -> bool {
        &&& self.marks@.len() == self.issues@.len()
        &&& rows_for(self.rows@, self.issues@, self.query@, string_map(self.aliases))
        &&& forall|k: int| 0 <= k < self.rows@.len() ==> #[trigger] self.rows@[k].issue_idx < self.issues@.len()
        &&& (self.selected == 0 || self.selected < self.rows@.len())
        &&& self.cursor <= self.query@.len()
        &&& self.mode_selected <= 1
    }

    /// The issue under the cursor, by position in `issues`.
    pub open spec fn cur_idx(&self) -> Option<int> {
        if self.selected < self.rows@.len() {
            Some(self.rows@[self.selected as int].issue_idx as int)
        } else {
            None
        }
    }

    /// The key of the issue under the cursor.
    pub open spec fn cur_key(&self) -> Option<Seq<char>> {
        match self.cur_idx() {
            Some(i) => Some(self.issues@[i].key@),
            None => None,
        }
    }

    /// The key whose description should start loading: the current issue's,
    /// unless it is cached or already loading.
    pub open spec fn wanted_preview(&self) -> Option<Seq<char>> {
        wanted(self.cur_key(), self.preview_cache@, self.preview_loading)
    }

    /// The current issue's key, summary and whether it has a worktree.
    pub open spec fn cur_info(&self) -> Option<(Seq<char>, Seq<char>, bool)> {
        match self.cur_idx() {
            Some(i) => Some((self.issues@[i].key@, self.issues@[i].summary@, self.marks@[i].worktree)),
            None => None,
        }
    }

    /// After a step that moved the cursor or changed the rows, the preview of
    /// the new current issue was asked for (`r`) unless it was cached or
    /// already loading (`loading` is the key loading before the step).
    pub open spec fn previewed(&self, loading: Option<String>, r: Effect) -> bool {
        match wanted(self.cur_key(), self.preview_cache@, loading) {
            Some(k) => (r matches Effect::Describe(s) && s@ == k) && (self.preview_loading matches Some(l) && l@ == k),
            None => r is Nothing && self.preview_loading == loading,
        }
    }

    /// Issues, aliases, markers, previews and the tick are untouched.
    pub open spec fn same_data(&self, other: App) -> bool {
        &&& self.issues == other.issues
        &&& self.aliases == other.aliases
        &&& self.marks == other.marks
        &&& self.preview_cache == other.preview_cache
        &&& self.tick == other.tick
    }

    /// Build the picker over `issues` (with their `marks`) and the alias map.
    pub fn new(aliases: StringMap, issues: Vec<Issue>, marks: Vec<Marks>) -> (app: App)
        requires
            marks@.len() == issues@.len(),
        ensures
            app.wf(),
            app.issues == issues,
            app.marks == marks,
            app.aliases == aliases,
            app@ == (UiView {
                query: seq![],
                cursor: 0,
                selected: 0,
                preview_scroll: 0,
                help: false,
                done: false,
                creating: false,
                choosing_mode: false,
                mode_selected: 0,
                pending_req: None,
                pending_action: Action::Branch,
                create_summary: seq![],
                status: seq![],
                result: None,
                refreshing: false,
            }),
            app.preview_cache@.len() == 0,
            app.preview_loading is None,
            app.tick == 0,
    {
        let mut app = App {
            aliases,
            marks,
            issues,
            query: String::new(),
            cursor: 0,
            rows: Vec::new(),
            selected: 0,
            refresh: Refresh::new(),
            preview_cache: Vec::new(),
            preview_loading: None,
            preview_scroll: 0,
            creating: false,
            create_summary: String::new(),
            pending_req: None,
            choosing_mode: false,
            mode_selected: 0,
            pending_action: Action::Branch,
            help: false,
            status: String::new(),
            tick: 0,
            done: false,
            result: Outcome::Cancelled,
        };
        app.refilter();
        app
    }

    /// Recompute the rows for the query, keeping the cursor within them.
    pub fn refilter(&mut self)
        requires
            old(self).marks@.len() == old(self).issues@.len(),
            old(self).cursor <= old(self).query@.len(),
            old(self).mode_selected <= 1,
        ensures
            final(self).wf(),
            final(self).same_data(*old(self)),
            final(self)@ == (UiView {
                selected: if old(self).selected >= final(self).rows@.len() {
                    sat_sub(final(self).rows@.len(), 1)
                } else {
                    old(self).selected as nat
                },
                ..old(self)@
            }),
            final(self).preview_loading == old(self).preview_loading,
    {
        let q = parse_query(self.query.as_str(), &self.aliases);
        self.rows = filter_issues(self.issues.as_slice(), &q);
        if self.selected >= self.rows.len() {
            self.selected = if self.rows.len() > 0 { self.rows.len() - 1 } else { 0 };
        }
    }

    /// The issue under the cursor, by position.
    pub fn current(&self) -> (r: Option<usize>)
        requires
            self.wf(),
        ensures
            match r {
                Some(i) => self.cur_idx() == Some(i as int) && i < self.issues@.len(),
                None => self.cur_idx() is None,
            },
    {
        if self.selected < self.rows.len() {
            Some(self.rows[self.selected].issue_idx)
        } else {
            None
        }
    }

    /// The issue under the cursor.
    pub fn current_issue(&self) -> (r: Option<&Issue>)
        requires
            self.wf(),
        ensures
            match r {
                Some(iss) => self.cur_idx() matches Some(i) && *iss == self.issues@[i],
                None => self.cur_idx() is None,
            },
    {
        match self.current() {
            Some(i) => Some(&self.issues[i]),
            None => None,
        }
    }

    /// Start loading the current issue's description unless it is cached or
    /// already loading; the key to load is returned.
    pub fn ensure_preview(&mut self) -> (r: Option<String>)
        requires
            old(self).wf(),
        ensures
            final(self).wf(),
            final(self).same_data(*old(self)),
            final(self).rows == old(self).rows,
            final(self)@ == old(self)@,
            match old(self).wanted_preview() {
                Some(k) => (r matches Some(s) && s@ == k) && (final(self).preview_loading matches Some(l) && l@ == k),
                None => r is None && final(self).preview_loading == old(self).preview_loading,
            },
    {
        let i = match self.current() {
            Some(i) => i,
            None => return None,
        };
        let k = self.issues[i].key.clone();
        if cache_has(&self.preview_cache, k.as_str()) {
            return None;
        }
        match &self.preview_loading {
            Some(l) => {
                if str_eq(l.as_str(), k.as_str()) {
                    return None;
                }
            },
            None => {},
        }
        self.preview_loading = Some(k.clone());
        Some(k)
    }
}

/// Where the word before position `i` of `q` starts.
pub fn word_start_of(q: &[char], i: usize) -> (w: usize)
    requires
        i <= q@.len(),
    ensures
        w as int == word_start(q@, i as int),
        w <= i,
{
    let mut j = i;
    while j > 0 && is_whitespace(q[j - 1])
        invariant
            j <= i <= q@.len(),
            skip_ws_back(q@, i as int) == skip_ws_back(q@, j as int),
        decreases j,
    {
        j -= 1;
    }
    let mut w = j;
    while w > 0 && !is_whitespace(q[w - 1])
        invariant
            w <= j <= i <= q@.len(),
            skip_ws_back(q@, i as int) == j,
            skip_word_back(q@, j as int) == skip_word_back(q@, w as int),
        decreases w,
    {
        w -= 1;
    }
    w
}

impl App {
    fn effect_of(k: Option<String>) -> (r: Effect)
        ensures
            match k {
                Some(s) => r matches Effect::Describe(t) && t == s,
                None => r is Nothing,
            },
    {
        match k {
            Some(s) => Effect::Describe(s),
            None => Effect::Nothing,
        }
    }

    /// Move the cursor up a row.
    pub fn up(&mut self) -> (r: Effect)
        requires
            old(self).wf(),
        ensures
            final(self).wf(),
            final(self).same_data(*old(self)),
            final(self).rows == old(self).rows,
            final(self)@ == (UiView { selected: sat_sub(old(self)@.selected, 1), preview_scroll: 0, ..old(self)@ }),
            final(self).previewed(old(self).preview_loading, r),
    {
        if self.selected > 0 {
            self.selected = self.selected - 1;
        }
        self.preview_scroll = 0;
        let k = self.ensure_preview();
        App::effect_of(k)
    }

    /// Move the cursor down a row (staying on the last).
    pub fn down(&mut self) -> (r: Effect)
        requires
            old(self).wf(),
        ensures
            final(self).wf(),
            final(self).same_data(*old(self)),
            final(self).rows == old(self).rows,
            final(self)@ == (UiView {
                selected: if old(self).rows@.len() > 0 {
                    if old(self).selected + 1 < old(self).rows@.len() {
                        (old(self).selected + 1) as nat
                    } else {
                        (old(self).rows@.len() - 1) as nat
                    }
                } else {
                    old(self).selected as nat
                },
                preview_scroll: 0,
                ..old(self)@
            }),
            final(self).previewed(old(self).preview_loading, r),
    {
        if self.rows.len() > 0 {
            if self.selected + 1 < self.rows.len() {
                self.selected = self.selected + 1;
            } else {
                self.selected = self.rows.len() - 1;
            }
        }
        self.preview_scroll = 0;
        let k = self.ensure_preview();
        App::effect_of(k)
    }

    /// Every query edit goes through here: recompute the rows, put the
    /// cursor and the preview scroll at the top, and ask for the preview.
    pub fn on_query_change(&mut self) -> (r: Effect)
        requires
            old(self).marks@.len() == old(self).issues@.len(),
            old(self).cursor <= old(self).query@.len(),
            old(self).mode_selected <= 1,
        ensures
            final(self).wf(),
            final(self).same_data(*old(self)),
            final(self)@ == (UiView { selected: 0, preview_scroll: 0, ..old(self)@ }),
            final(self).previewed(old(self).preview_loading, r),
    {
        self.refilter();
        self.selected = 0;
        self.preview_scroll = 0;
        let k = self.ensure_preview();
        App::effect_of(k)
    }

    /// Replace the query with `q`, the cursor at `cursor`.
    fn set_query(&mut self, q: &Vec<char>, cursor: usize) -> (r: Effect)
        requires
            old(self).wf(),
            cursor <= q@.len(),
        ensures
            final(self).wf(),
            final(self).same_data(*old(self)),
            final(self)@ == requeried(old(self)@, q@, cursor as nat),
            final(self).previewed(old(self).preview_loading, r),
    {
        self.query = string_of(q.as_slice());
        self.cursor = cursor;
        self.on_query_change()
    }

    /// Delete everything from the start of the query to the cursor.
    pub fn delete_to_start(&mut self) -> (r: Effect)
        requires
            old(self).wf(),
            old(self).cursor > 0,
        ensures
            final(self).wf(),
            final(self).same_data(*old(self)),
            final(self)@ == requeried(old(self)@, old(self)@.query.skip(old(self).cursor as int), 0),
            final(self).previewed(old(self).preview_loading, r),
    {
        let q = chars_of(self.query.as_str());
        let nq = sub_chars(q.as_slice(), self.cursor, q.len());
        self.set_query(&nq, 0)
    }

    /// Delete the word before the cursor: any whitespace, then the run of
    /// non-whitespace before it.
    pub fn delete_word_back(&mut self) -> (r: Effect)
        requires
            old(self).wf(),
            old(self).cursor > 0,
        ensures
            final(self).wf(),
            final(self).same_data(*old(self)),
            final(self)@ == requeried(
                old(self)@,
                old(self)@.query.take(word_start(old(self)@.query, old(self).cursor as int))
                    + old(self)@.query.skip(old(self).cursor as int),
                word_start(old(self)@.query, old(self).cursor as int) as nat,
            ),
            final(self).previewed(old(self).preview_loading, r),
    {
        let q = chars_of(self.query.as_str());
        let w = word_start_of(q.as_slice(), self.cursor);
        let mut nq = sub_chars(q.as_slice(), 0, w);
        let tail = sub_chars(q.as_slice(), self.cursor, q.len());
        append_chars(&mut nq, tail.as_slice());
        proof {
            assert(nq@ =~= q@.take(w as int) + q@.skip(self.cursor as int));
        }
        self.set_query(&nq, w)
    }

    /// Delete the character before the cursor.
    pub fn backspace(&mut self) -> (r: Effect)
        requires
            old(self).wf(),
            old(self).cursor > 0,
        ensures
            final(self).wf(),
            final(self).same_data(*old(self)),
            final(self)@ == requeried(old(self)@, remove_at(old(self)@.query, old(self).cursor - 1), (old(self).cursor - 1) as nat),
            final(self).previewed(old(self).preview_loading, r),
    {
        let q = chars_of(self.query.as_str());
        let c = self.cursor - 1;
        let mut nq = sub_chars(q.as_slice(), 0, c);
        let tail = sub_chars(q.as_slice(), c + 1, q.len());
        append_chars(&mut nq, tail.as_slice());
        proof {
            assert(nq@ =~= remove_at(q@, c as int));
        }
        self.set_query(&nq, c)
    }

    /// Delete the character under the cursor.
    pub fn delete_forward(&mut self) -> (r: Effect)
        requires
            old(self).wf(),
            old(self).cursor < old(self).query@.len(),
        ensures
            final(self).wf(),
            final(self).same_data(*old(self)),
            final(self)@ == requeried(old(self)@, remove_at(old(self)@.query, old(self).cursor as int), old(self).cursor as nat),
            final(self).previewed(old(self).preview_loading, r),
    {
        let q = chars_of(self.query.as_str());
        let c = self.cursor;
        let mut nq = sub_chars(q.as_slice(), 0, c);
        let tail = sub_chars(q.as_slice(), c + 1, q.len());
        append_chars(&mut nq, tail.as_slice());
        proof {
            assert(nq@ =~= remove_at(q@, c as int));
        }
        self.set_query(&nq, c)
    }

    /// Type `ch` at the cursor; typing closes the help.
    pub fn insert_char(&mut self, ch: char) -> (r: Effect)
        requires
            old(self).wf(),
            old(self).cursor < usize::MAX,
        ensures
            final(self).wf(),
            final(self).same_data(*old(self)),
            final(self)@ == (UiView {
                help: false,
                ..requeried(old(self)@, insert_at(old(self)@.query, old(self).cursor as int, ch), (old(self).cursor + 1) as nat)
            }),
            final(self).previewed(old(self).preview_loading, r),
    {
        let q = chars_of(self.query.as_str());
        let c = self.cursor;
        let mut nq = sub_chars(q.as_slice(), 0, c);
        nq.push(ch);
        let tail = sub_chars(q.as_slice(), c, q.len());
        append_chars(&mut nq, tail.as_slice());
        proof {
            assert(nq@ =~= insert_at(q@, c as int, ch));
        }
        self.help = false;
        self.set_query(&nq, c + 1)
    }

    /// `ctrl-n`: validate the query into a create request and, when it is
    /// good, open the branch-or-worktree chooser.
    pub fn request_create(&mut self)
        requires
            old(self).wf(),
        ensures
            final(self).wf(),
            final(self).same_data(*old(self)),
            final(self).rows == old(self).rows,
            final(self).preview_loading == old(self).preview_loading,
            final(self)@ == request_create_view(old(self)@, parse_query_spec(old(self).query@, string_map(old(self).aliases))),
    {
        let q = parse_query(self.query.as_str(), &self.aliases);
        let sc = chars_of(q.search.as_str());
        let summary = trim_chars(sc.as_slice());
        if summary.len() == 0 {
            self.status = owned("type a summary in the query first, then ctrl-n");
            return;
        }
        let kind_name = if q.active_type.as_str().is_empty() {
            owned(crate::feature::tracker::kind::TASK)
        } else {
            q.active_type
        };
        if str_eq(kind_name.as_str(), crate::feature::tracker::kind::SUBTASK) {
            self.status = owned("cannot create a Sub-task without a parent");
            return;
        }
        self.pending_req = Some(CreateRequest { kind: kind_name, summary: string_of(summary.as_slice()) });
        self.choosing_mode = true;
        self.mode_selected = 0;
        self.status = String::new();
    }

    /// Hand the parked request over for creation, remembering whether the new
    /// issue should branch or get a worktree once it lands.
    pub fn confirm_create(&mut self, action: Action) -> (r: Effect)
        requires
            old(self).wf(),
        ensures
            final(self).wf(),
            final(self).same_data(*old(self)),
            final(self)@ == confirm_view(old(self)@, action).0,
            step_effect(confirm_view(old(self)@, action).1, *old(self), *final(self), r),
    {
        let mut req: Option<CreateRequest> = None;
        std::mem::swap(&mut req, &mut self.pending_req);
        match req {
            Some(req) => {
                self.choosing_mode = false;
                self.creating = true;
                self.create_summary = req.summary.clone();
                self.pending_action = action;
                Effect::Create(req)
            },
            None => Effect::Nothing,
        }
    }
}

impl App {
    /// Keys while the branch-or-worktree chooser shows.
    fn key_while_choosing(&mut self, k: Key) -> (r: Effect)
        requires
            old(self).wf(),
            old(self).choosing_mode,
        ensures
            final(self).wf(),
            final(self).same_data(*old(self)),
            final(self)@ == key_choosing(old(self)@, k).0,
            step_effect(key_choosing(old(self)@, k).1, *old(self), *final(self), r),
    {
        let c = k.code;
        if c == KeyCode::Char('c') && k.ctrl {
            self.done = true;
            Effect::Nothing
        } else if c == KeyCode::Esc {
            self.choosing_mode = false;
            self.pending_req = None;
            Effect::Nothing
        } else if c == KeyCode::Left || c == KeyCode::Up || c == KeyCode::Char('h') {
            self.mode_selected = 0;
            Effect::Nothing
        } else if c == KeyCode::Right || c == KeyCode::Down {
            self.mode_selected = 1;
            Effect::Nothing
        } else if c == KeyCode::Tab || c == KeyCode::BackTab {
            self.mode_selected = 1 - self.mode_selected;
            Effect::Nothing
        } else if c == KeyCode::Char('l') {
            self.mode_selected = 1;
            Effect::Nothing
        } else if c == KeyCode::Enter {
            let action = if self.mode_selected == 1 { Action::Worktree } else { Action::Branch };
            self.confirm_create(action)
        } else if c == KeyCode::Char('b') {
            self.confirm_create(Action::Branch)
        } else if c == KeyCode::Char('w') {
            self.confirm_create(Action::Worktree)
        } else {
            Effect::Nothing
        }
    }

    /// Keys in the list.
    #[verifier::rlimit(40)]
    fn key_in_list(&mut self, k: Key) -> (r: Effect)
        requires
            old(self).wf(),
            !old(self).creating,
            !old(self).choosing_mode,
            old(self).query@.len() < usize::MAX,
        ensures
            final(self).wf(),
            final(self).same_data(*old(self)),
            final(self)@ == key_normal(
                old(self)@,
                k,
                old(self).rows@.len(),
                old(self).cur_info(),
                parse_query_spec(old(self).query@, string_map(old(self).aliases)),
            ).0,
            step_effect(
                key_normal(
                    old(self)@,
                    k,
                    old(self).rows@.len(),
                    old(self).cur_info(),
                    parse_query_spec(old(self).query@, string_map(old(self).aliases)),
                ).1,
                *old(self),
                *final(self),
                r,
            ),
    {
        let c = k.code;
        let ctrl = k.ctrl;
        let n = chars_of(self.query.as_str()).len();
        if c == KeyCode::Esc {
            if self.help {
                self.help = false;
            } else {
                self.done = true;
            }
            Effect::Nothing
        } else if c == KeyCode::Char('c') && ctrl {
            self.done = true;
            Effect::Nothing
        } else if c == KeyCode::Enter {
            match self.current() {
                Some(i) => {
                    let key = self.issues[i].key.clone();
                    let summary = self.issues[i].summary.clone();
                    let action = if ctrl || self.marks[i].worktree { Action::Worktree } else { Action::Branch };
                    self.result = Outcome::Selected { key, summary, action };
                    self.done = true;
                },
                None => {},
            }
            Effect::Nothing
        } else if c == KeyCode::Up || ((c == KeyCode::Char('k') || c == KeyCode::Char('p')) && ctrl) {
            self.up()
        } else if c == KeyCode::Down || (c == KeyCode::Char('j') && ctrl) {
            self.down()
        } else if c == KeyCode::Char('n') && ctrl {
            self.request_create();
            Effect::Nothing
        } else if c == KeyCode::Char('r') && ctrl {
            if self.refresh.trigger() {
                Effect::Refresh
            } else {
                Effect::Nothing
            }
        } else if c == KeyCode::Char('d') && ctrl {
            self.preview_scroll = self.preview_scroll.saturating_add(8);
            Effect::Nothing
        } else if c == KeyCode::Char('u') && ctrl {
            self.preview_scroll = self.preview_scroll.saturating_sub(8);
            Effect::Nothing
        } else if c == KeyCode::Char('f') && ctrl {
            self.preview_scroll = self.preview_scroll.saturating_add(16);
            Effect::Nothing
        } else if c == KeyCode::Char('b') && ctrl {
            self.preview_scroll = self.preview_scroll.saturating_sub(16);
            Effect::Nothing
        } else if c == KeyCode::Left {
            if self.cursor > 0 {
                self.cursor = self.cursor - 1;
            }
            Effect::Nothing
        } else if c == KeyCode::Right {
            if self.cursor + 1 < n {
                self.cursor = self.cursor + 1;
            } else {
                self.cursor = n;
            }
            Effect::Nothing
        } else if c == KeyCode::Home || (c == KeyCode::Char('a') && ctrl) {
            self.cursor = 0;
            Effect::Nothing
        } else if c == KeyCode::End || (c == KeyCode::Char('e') && ctrl) {
            self.cursor = n;
            Effect::Nothing
        } else if c == KeyCode::Backspace && k.sup {
            if self.cursor == 0 {
                Effect::Nothing
            } else {
                self.delete_to_start()
            }
        } else if (c == KeyCode::Backspace && k.alt) || (c == KeyCode::Char('w') && ctrl) {
            if self.cursor == 0 {
                Effect::Nothing
            } else {
                self.delete_word_back()
            }
        } else if c == KeyCode::Backspace {
            if self.cursor > 0 {
                self.backspace()
            } else {
                Effect::Nothing
            }
        } else if c == KeyCode::Delete {
            if self.cursor < n {
                self.delete_forward()
            } else {
                Effect::Nothing
            }
        } else if c == KeyCode::Char('?') && n == 0 {
            self.help = !self.help;
            Effect::Nothing
        } else if !ctrl && !k.alt {
            match c {
                KeyCode::Char(ch) => self.insert_char(ch),
                _ => Effect::Nothing,
            }
        } else {
            Effect::Nothing
        }
    }

    /// One key press: while a create runs only `ctrl-c` counts (it quits);
    /// the chooser and the list each have their keys.
    pub fn handle_key(&mut self, k: Key) -> (r: Effect)
        requires
            old(self).wf(),
            old(self).query@.len() < usize::MAX,
        ensures
            final(self).wf(),
            final(self).same_data(*old(self)),
            final(self)@ == key_spec(
                old(self)@,
                k,
                old(self).rows@.len(),
                old(self).cur_info(),
                parse_query_spec(old(self).query@, string_map(old(self).aliases)),
            ).0,
            step_effect(
                key_spec(
                    old(self)@,
                    k,
                    old(self).rows@.len(),
                    old(self).cur_info(),
                    parse_query_spec(old(self).query@, string_map(old(self).aliases)),
                ).1,
                *old(self),
                *final(self),
                r,
            ),
    {
        if self.creating {
            if k.code == KeyCode::Char('c') && k.ctrl {
                self.done = true;
            }
            return Effect::Nothing;
        }
        if self.choosing_mode {
            return self.key_while_choosing(k);
        }
        self.key_in_list(k)
    }
}

/// Storing `e` over the first entry with its key gives that key `e`'s preview
/// and leaves every other key's preview as it was.
pub proof fn lemma_cache_get_update(c: Seq<(String, Text)>, j: int, e: (String, Text))
    requires
        0 <= j < c.len(),
        c[j].0@ == e.0@,
        forall|i: int| 0 <= i < j ==> #[trigger] c[i].0@ != e.0@,
    ensures
        cache_get(c.update(j, e), e.0@) == Some(e.1),
        forall|k: Seq<char>| k != e.0@ ==> #[trigger] cache_get(c.update(j, e), k) == cache_get(c, k),
    decreases j,
{
    let u = c.update(j, e);
    if j > 0 {
        assert(c[0].0@ != e.0@);
        lemma_cache_get_update(c.drop_first(), j - 1, e);
        assert(u.drop_first() =~= c.drop_first().update(j - 1, e));
        assert(u[0] == c[0]);
        assert forall|k: Seq<char>| k != e.0@ implies #[trigger] cache_get(u, k) == cache_get(c, k) by {
            assert(cache_get(c.drop_first().update(j - 1, e), k) == cache_get(c.drop_first(), k));
        }
    } else {
        assert(u.drop_first() =~= c.drop_first());
        assert forall|k: Seq<char>| k != e.0@ implies #[trigger] cache_get(u, k) == cache_get(c, k) by {}
    }
}

/// Appending an entry for a new key gives that key its preview and leaves the
/// others as they were.
pub proof fn lemma_cache_get_push(c: Seq<(String, Text)>, e: (String, Text))
    requires
        forall|i: int| 0 <= i < c.len() ==> #[trigger] c[i].0@ != e.0@,
    ensures
        cache_get(c.push(e), e.0@) == Some(e.1),
        forall|k: Seq<char>| k != e.0@ ==> #[trigger] cache_get(c.push(e), k) == cache_get(c, k),
    decreases c.len(),
{
    let u = c.push(e);
    if c.len() > 0 {
        assert(c[0].0@ != e.0@);
        lemma_cache_get_push(c.drop_first(), e);
        assert(u.drop_first() =~= c.drop_first().push(e));
        assert(u[0] == c[0]);
        assert forall|k: Seq<char>| k != e.0@ implies #[trigger] cache_get(u, k) == cache_get(c, k) by {
            assert(cache_get(c.drop_first().push(e), k) == cache_get(c.drop_first(), k));
        }
    } else {
        assert(u.drop_first() =~= Seq::<(String, Text)>::empty());
        assert forall|k: Seq<char>| k != e.0@ implies #[trigger] cache_get(u, k) == cache_get(c, k) by {
            assert(cache_get(u.drop_first(), k) is None);
        }
    }
}

/// Store the preview `t` for `k`, replacing the cached one.
pub fn cache_insert(c: &mut Vec<(String, Text)>, k: String, t: Text)
    ensures
        cache_get(final(c)@, k@) == Some(t),
        forall|k2: Seq<char>| k2 != k@ ==> #[trigger] cache_get(final(c)@, k2) == cache_get(old(c)@, k2),
{
    let mut j: usize = 0;
    while j < c.len()
        invariant
            j <= c@.len(),
            c@ == old(c)@,
            forall|i: int| 0 <= i < j ==> #[trigger] c@[i].0@ != k@,
        decreases c.len() - j,
    {
        if str_eq(c[j].0.as_str(), k.as_str()) {
            let ghost kv = k@;
            proof {
                lemma_cache_get_update(c@, j as int, (k, t));
            }
            c.set(j, (k, t));
            return;
        }
        j += 1;
    }
    proof {
        lemma_cache_get_push(c@, (k, t));
    }
    c.push((k, t));
}

/// What a loaded description shows: the rendered Markdown, or the error.
pub open spec fn preview_lines(key: Seq<char>, res: Result<String, String>) -> Seq<LineV> {
    match res {
        Ok(md) => rendered(crate::feature::markdown::markdown_events(md@)),
        Err(e) => raw_text("failed to load "@ + key + "\n\n"@ + e@),
    }
}

/// What the preview job's channel held when it was polled.
pub enum PreviewMsg {
    Empty,
    /// The description of `key` arrived (or failed to load).
    Loaded(String, Result<String, String>),
    Disconnected,
}

/// The row position of the first row whose issue has key `k`.
pub open spec fn first_row_with_key(rows: Seq<RowMatch>, issues: Seq<Issue>, k: Seq<char>, p: int) -> bool {
    &&& 0 <= p < rows.len()
    &&& issues[rows[p].issue_idx as int].key@ == k
    &&& forall|q: int| 0 <= q < p ==> #[trigger] issues[rows[q].issue_idx as int].key@ != k
}

impl App {
    /// Advance the animation tick (wrapping).
    pub fn advance_tick(&mut self)
        ensures
            final(self).tick == (if old(self).tick == usize::MAX { 0 } else { (old(self).tick + 1) as usize }),
            final(self)@ == old(self)@,
            final(self).issues == old(self).issues,
            final(self).rows == old(self).rows,
            final(self).marks == old(self).marks,
            final(self).aliases == old(self).aliases,
            final(self).preview_cache == old(self).preview_cache,
            final(self).preview_loading == old(self).preview_loading,
    {
        if self.tick == usize::MAX {
            self.tick = 0;
        } else {
            self.tick = self.tick + 1;
        }
    }

    /// Start a refresh unless one is running; true when the driver should
    /// start the job.
    pub fn trigger_refresh(&mut self) -> (start: bool)
        ensures
            start == !old(self)@.refreshing,
            final(self)@ == (UiView { refreshing: true, ..old(self)@ }),
            final(self).issues == old(self).issues,
            final(self).rows == old(self).rows,
            final(self).marks == old(self).marks,
            final(self).aliases == old(self).aliases,
            final(self).preview_cache == old(self).preview_cache,
            final(self).preview_loading == old(self).preview_loading,
            final(self).tick == old(self).tick,
    {
        self.refresh.trigger()
    }

    /// Take a finished create: its key selects the new issue with the chosen
    /// action; a failure is reported and the list is usable again.
    pub fn poll_create(&mut self, p: Polled<String>)
        requires
            old(self).wf(),
        ensures
            final(self).wf(),
            final(self).same_data(*old(self)),
            final(self).rows == old(self).rows,
            final(self).preview_loading == old(self).preview_loading,
            match p {
                Polled::Empty => final(self)@ == old(self)@,
                Polled::Ready(Ok(key)) => final(self)@ == (UiView {
                    result: Some((key@, old(self)@.create_summary, old(self)@.pending_action)),
                    create_summary: seq![],
                    done: true,
                    ..old(self)@
                }),
                Polled::Ready(Err(e)) => final(self)@ == (UiView {
                    status: "create failed: "@ + e@,
                    creating: false,
                    ..old(self)@
                }),
                Polled::Disconnected => final(self)@ == (UiView {
                    status: "create failed"@,
                    creating: false,
                    ..old(self)@
                }),
            },
    {
        match p {
            Polled::Empty => {},
            Polled::Ready(Ok(key)) => {
                let mut summary = String::new();
                std::mem::swap(&mut summary, &mut self.create_summary);
                self.result = Outcome::Selected { key, summary, action: self.pending_action };
                self.done = true;
            },
            Polled::Ready(Err(e)) => {
                let mut msg = chars_of("create failed: ");
                append_str(&mut msg, e.as_str());
                self.status = string_of(msg.as_slice());
                self.creating = false;
            },
            Polled::Disconnected => {
                self.status = owned("create failed");
                self.creating = false;
            },
        }
    }

    /// Take a loaded description: cache its rendering (or the error), stop
    /// waiting for it, and ask for the current issue's preview in case the
    /// cursor moved on. A vanished job stops the waiting.
    pub fn poll_preview(&mut self, msg: PreviewMsg) -> (r: Effect)
        requires
            old(self).wf(),
        ensures
            final(self).wf(),
            final(self)@ == old(self)@,
            final(self).issues == old(self).issues,
            final(self).rows == old(self).rows,
            final(self).marks == old(self).marks,
            final(self).aliases == old(self).aliases,
            final(self).tick == old(self).tick,
            match msg {
                PreviewMsg::Empty => r is Nothing && final(self).preview_cache == old(self).preview_cache
                    && final(self).preview_loading == old(self).preview_loading,
                PreviewMsg::Disconnected => r is Nothing && final(self).preview_cache == old(self).preview_cache
                    && final(self).preview_loading is None,
                PreviewMsg::Loaded(key, res) => {
                    &&& cache_get(final(self).preview_cache@, key@) matches Some(t) && text_v(t) == preview_lines(key@, res)
                    &&& forall|k2: Seq<char>| k2 != key@ ==> #[trigger] cache_get(final(self).preview_cache@, k2)
                        == cache_get(old(self).preview_cache@, k2)
                    &&& final(self).previewed(
                        if old(self).preview_loading matches Some(l) && l@ == key@ {
                            None
                        } else {
                            old(self).preview_loading
                        },
                        r,
                    )
                },
            },
    {
        match msg {
            PreviewMsg::Empty => Effect::Nothing,
            PreviewMsg::Disconnected => {
                self.preview_loading = None;
                Effect::Nothing
            },
            PreviewMsg::Loaded(key, res) => {
                let text = match res {
                    Ok(md) => render(md.as_str()),
                    Err(e) => {
                        let mut m = chars_of("failed to load ");
                        append_str(&mut m, key.as_str());
                        append_str(&mut m, "\n\n");
                        append_str(&mut m, e.as_str());
                        let ms = string_of(m.as_slice());
                        Text::raw(ms.as_str())
                    },
                };
                let is_loading = match &self.preview_loading {
                    Some(l) => str_eq(l.as_str(), key.as_str()),
                    None => false,
                };
                cache_insert(&mut self.preview_cache, key, text);
                if is_loading {
                    self.preview_loading = None;
                }
                let k = self.ensure_preview();
                App::effect_of(k)
            },
        }
    }

    /// Take a finished refresh: the new list replaces the issues (the cursor
    /// stays on the same issue when it is still listed), the status clears,
    /// and the preview is asked for. A failed refresh is reported.
    pub fn poll_refresh(&mut self, p: Polled<(Vec<Issue>, Vec<Marks>)>) -> (r: Effect)
        requires
            old(self).wf(),
            p matches Polled::Ready(Ok(v)) ==> v.1@.len() == v.0@.len(),
        ensures
            final(self).wf(),
            final(self).aliases == old(self).aliases,
            final(self).preview_cache == old(self).preview_cache,
            final(self).tick == old(self).tick,
            !old(self)@.refreshing ==> r is Nothing && *final(self) == *old(self),
            old(self)@.refreshing ==> match p {
                Polled::Empty => r is Nothing && *final(self) == *old(self),
                Polled::Ready(Ok(v)) => {
                    &&& final(self).issues == v.0
                    &&& final(self).marks == v.1
                    &&& (old(self).cur_key() matches Some(k) && exists|q: int| first_row_with_key(final(self).rows@, v.0@, k, q))
                        ==> first_row_with_key(final(self).rows@, v.0@, old(self).cur_key()->0, final(self).selected as int)
                    &&& !(old(self).cur_key() matches Some(k) && exists|q: int| first_row_with_key(final(self).rows@, v.0@, k, q))
                        ==> final(self).selected == (if old(self).selected >= final(self).rows@.len() {
                            sat_sub(final(self).rows@.len(), 1)
                        } else {
                            old(self).selected as nat
                        })
                    &&& final(self)@ == (UiView {
                        selected: final(self).selected as nat,
                        status: seq![],
                        refreshing: false,
                        ..old(self)@
                    })
                    &&& final(self).previewed(old(self).preview_loading, r)
                },
                Polled::Ready(Err(_)) | Polled::Disconnected => {
                    &&& r is Nothing
                    &&& final(self)@ == (UiView { status: "refresh failed"@, refreshing: false, ..old(self)@ })
                    &&& final(self).issues == old(self).issues
                    &&& final(self).marks == old(self).marks
                    &&& final(self).rows == old(self).rows
                    &&& final(self).preview_loading == old(self).preview_loading
                },
            },
    {
        let res = self.refresh.poll(p);
        match res {
            None => Effect::Nothing,
            Some(Ok(v)) => {
                let (items, marks) = v;
                let key = match self.current() {
                    Some(i) => Some(self.issues[i].key.clone()),
                    None => None,
                };
                self.issues = items;
                self.marks = marks;
                self.refilter();
                match key {
                    Some(k) => {
                        let mut pos: usize = 0;
                        while pos < self.rows.len()
                            invariant
                                self.wf(),
                                pos <= self.rows@.len(),
                                forall|q: int| 0 <= q < pos ==> #[trigger] self.issues@[self.rows@[q].issue_idx as int].key@ != k@,
                            ensures
                                self.wf(),
                                pos <= self.rows@.len(),
                                forall|q: int| 0 <= q < pos ==> #[trigger] self.issues@[self.rows@[q].issue_idx as int].key@ != k@,
                                pos < self.rows@.len() ==> self.issues@[self.rows@[pos as int].issue_idx as int].key@ == k@,
                            decreases self.rows.len() - pos,
                        {
                            if str_eq(self.issues[self.rows[pos].issue_idx].key.as_str(), k.as_str()) {
                                break;
                            }
                            pos += 1;
                        }
                        if pos < self.rows.len() {
                            self.selected = pos;
                            assert(first_row_with_key(self.rows@, self.issues@, k@, pos as int));
                        } else {
                            proof {
                                assert forall|q: int| !#[trigger] first_row_with_key(self.rows@, self.issues@, k@, q) by {
                                    if 0 <= q < self.rows@.len() {
                                        assert(self.issues@[self.rows@[q].issue_idx as int].key@ != k@);
                                    }
                                }
                            }
                        }
                    },
                    None => {},
                }
                self.status = String::new();
                let k = self.ensure_preview();
                App::effect_of(k)
            },
            Some(Err(_)) => {
                self.status = owned("refresh failed");
                Effect::Nothing
            },
        }
    }
}

} // verus!
