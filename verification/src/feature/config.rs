//! `feature`'s configuration and its defaults, plus the issue-type alias map.

use vstd::prelude::*;
use std::collections::BTreeMap;
use crate::text::owned;

verus! {

/// A string-to-string map, ordered by key.
pub type StringMap = BTreeMap<String, String>;

/// The contents of a string-to-string `BTreeMap`, by character sequences.
pub uninterp spec fn string_map(m: StringMap) -> Map<Seq<char>, Seq<char>>;

/// The map with no entries.
pub open spec fn empty_string_map() -> Map<Seq<char>, Seq<char>> {
    Map::empty()
}

/// An empty map (`BTreeMap::new`).
#[verifier::external_body]
pub(crate) fn string_map_new() -> (r: StringMap)
    ensures
        string_map(r) == empty_string_map(),
{
    BTreeMap::new()
}

/// `BTreeMap::insert`: `k` now maps to `v`, other keys are unchanged.
#[verifier::external_body]
pub(crate) fn string_map_insert(m: &mut StringMap, k: String, v: String)
    ensures
        string_map(*final(m)) == string_map(*old(m)).insert(k@, v@),
{
    m.insert(k, v);
}

/// `BTreeMap::get` with a `&str` key, cloning the value found.
#[verifier::external_body]
pub(crate) fn string_map_get(m: &StringMap, k: &str) -> (r: Option<String>)
    ensures
        match r {
            Some(v) => string_map(*m).contains_key(k@) && string_map(*m)[k@] == v@,
            None => !string_map(*m).contains_key(k@),
        },
{
    m.get(k).cloned()
}

/// The tool's configuration.
#[derive(Debug, Clone)]
pub struct Config {
    /// Account whose issues are listed / who new issues are assigned to.
    /// Empty means "the current user".
    pub assignee: String,
    /// The jira CLI executable name.
    pub jira_bin: String,
    pub list: ListConfig,
    pub create: CreateConfig,
    /// Query-prefix to issue type (e.g. "b" to "Bug").
    pub aliases: StringMap,
    /// How long the cached issue list stays fresh, in seconds (0 disables).
    pub cache_ttl_secs: u64,
    /// Directory new worktrees are created under; empty means a sibling of
    /// the repository.
    pub worktree_dir: String,
}

/// Which issues the list leaves out.
#[derive(Debug, Clone)]
pub struct ListConfig {
    pub exclude_statuses: Vec<String>,
    pub exclude_types: Vec<String>,
}

/// What creating an issue does besides creating it.
#[derive(Debug, Clone)]
pub struct CreateConfig {
    /// Status to transition a freshly created issue to (best-effort).
    pub move_to: String,
    /// Extra fields applied on create, e.g. {"squad": "Detection"}.
    pub custom: StringMap,
}

/// The built-in alias table.
pub open spec fn default_alias_map() -> Map<Seq<char>, Seq<char>> {
    Map::empty().insert("b"@, "Bug"@).insert("bug"@, "Bug"@).insert(
        "t"@,
        "Task"@,
    ).insert("task"@, "Task"@).insert("s"@, "Story"@).insert("story"@, "Story"@).insert(
        "st"@,
        "Sub-task"@,
    ).insert("sub"@, "Sub-task"@).insert("subtask"@, "Sub-task"@)
}

/// The default query-prefix aliases: b/bug, t/task, s/story, st/sub/subtask.
pub fn default_aliases() -> (m: StringMap)
    ensures
        string_map(m) == default_alias_map(),
{
    let mut m = string_map_new();
    string_map_insert(&mut m, owned("b"), owned("Bug"));
    string_map_insert(&mut m, owned("bug"), owned("Bug"));
    string_map_insert(&mut m, owned("t"), owned("Task"));
    string_map_insert(&mut m, owned("task"), owned("Task"));
    string_map_insert(&mut m, owned("s"), owned("Story"));
    string_map_insert(&mut m, owned("story"), owned("Story"));
    string_map_insert(&mut m, owned("st"), owned("Sub-task"));
    string_map_insert(&mut m, owned("sub"), owned("Sub-task"));
    string_map_insert(&mut m, owned("subtask"), owned("Sub-task"));
    m
}

impl Default for ListConfig {
    fn default() -> (r: Self)
        ensures
            r.exclude_statuses@.len() == 2,
            r.exclude_statuses@[0]@ == "Done"@,
            r.exclude_statuses@[1]@ == "Archived"@,
            r.exclude_types@.len() == 1,
            r.exclude_types@[0]@ == "Epic"@,
    {
        let mut exclude_statuses: Vec<String> = Vec::new();
        exclude_statuses.push(owned("Done"));
        exclude_statuses.push(owned("Archived"));
        let mut exclude_types: Vec<String> = Vec::new();
        exclude_types.push(owned("Epic"));
        ListConfig { exclude_statuses, exclude_types }
    }
}

impl Default for CreateConfig {
    fn default() -> (r: Self)
        ensures
            r.move_to@ == "In Progress"@,
            string_map(r.custom) == empty_string_map(),
    {
        CreateConfig { move_to: owned("In Progress"), custom: string_map_new() }
    }
}

impl Default for Config {
    fn default() -> (r: Self)
        ensures
            r.assignee@ == Seq::<char>::empty(),
            r.jira_bin@ == "jira"@,
            r.list.exclude_statuses@.len() == 2,
            r.list.exclude_statuses@[0]@ == "Done"@,
            r.list.exclude_statuses@[1]@ == "Archived"@,
            r.list.exclude_types@.len() == 1,
            r.list.exclude_types@[0]@ == "Epic"@,
            r.create.move_to@ == "In Progress"@,
            string_map(r.create.custom) == empty_string_map(),
            string_map(r.aliases) == default_alias_map(),
            r.cache_ttl_secs == 60,
            r.worktree_dir@ == Seq::<char>::empty(),
    {
        Config {
            assignee: String::new(),
            jira_bin: owned("jira"),
            list: ListConfig::default(),
            create: CreateConfig::default(),
            aliases: default_aliases(),
            cache_ttl_secs: 60,
            worktree_dir: String::new(),
        }
    }
}


/// Strict lexicographic order on character sequences (by code point, which is
/// the byte order of their UTF-8 encodings).
pub open spec fn chars_lt(a: Seq<char>, b: Seq<char>) -> bool
    decreases a.len(),
{
    if a.len() == 0 {
        b.len() > 0
    } else if b.len() == 0 {
        false
    } else if a[0] != b[0] {
        (a[0] as u32) < (b[0] as u32)
    } else {
        chars_lt(a.drop_first(), b.drop_first())
    }
}

/// No string is before itself.
pub proof fn lemma_chars_lt_irreflexive(a: Seq<char>)
    ensures
        !chars_lt(a, a),
    decreases a.len(),
{
    if a.len() > 0 {
        lemma_chars_lt_irreflexive(a.drop_first());
    }
}

/// The order of strings is transitive.
pub proof fn lemma_chars_lt_transitive(a: Seq<char>, b: Seq<char>, c: Seq<char>)
    requires
        chars_lt(a, b),
        chars_lt(b, c),
    ensures
        chars_lt(a, c),
    decreases a.len(),
{
    if a.len() > 0 && a[0] == b[0] && b[0] == c[0] {
        lemma_chars_lt_transitive(a.drop_first(), b.drop_first(), c.drop_first());
    }
}

/// Of two different strings, one is before the other.
pub proof fn lemma_chars_lt_total(a: Seq<char>, b: Seq<char>)
    requires
        a != b,
    ensures
        chars_lt(a, b) || chars_lt(b, a),
    decreases a.len(),
{
    if a.len() > 0 && b.len() > 0 {
        if a[0] == b[0] {
            if a.drop_first() == b.drop_first() {
                assert(a =~= seq![a[0]] + a.drop_first());
                assert(b =~= seq![b[0]] + b.drop_first());
            }
            lemma_chars_lt_total(a.drop_first(), b.drop_first());
        } else {
            vstd::utf8::char_u32_cast(a[0], a[0] as u32);
            vstd::utf8::char_u32_cast(b[0], b[0] as u32);
        }
    } else if a.len() == 0 && b.len() == 0 {
        assert(a =~= b);
    }
}

/// The entries of a string map, as values, in the order of the list.
pub open spec fn pairs_v(v: Seq<(String, String)>) -> Seq<(Seq<char>, Seq<char>)> {
    v.map_values(|p: (String, String)| (p.0@, p.1@))
}

/// `v` lists exactly the entries of `m`, in ascending key order.
pub open spec fn sorted_entries_of(v: Seq<(Seq<char>, Seq<char>)>, m: Map<Seq<char>, Seq<char>>) -> bool {
    &&& forall|i: int, j: int| 0 <= i < j < v.len() ==> chars_lt(#[trigger] v[i].0, #[trigger] v[j].0)
    &&& forall|i: int| 0 <= i < v.len() ==> m.contains_key(#[trigger] v[i].0) && m[v[i].0] == v[i].1
    &&& forall|k: Seq<char>| m.contains_key(k) ==> exists|i: int| 0 <= i < v.len() && #[trigger] v[i].0 == k
}

/// The entries of the map in key order (`BTreeMap::iter`, cloned).
#[verifier::external_body]
pub(crate) fn string_map_entries(m: &StringMap) -> (r: Vec<(String, String)>)
    ensures
        sorted_entries_of(pairs_v(r@), string_map(*m)),
{
    m.iter().map(|(k, v)| (k.clone(), v.clone())).collect()
}

} // verus!
