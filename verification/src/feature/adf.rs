//! Atlassian Document Format (Jira's rich description tree) to Markdown: walk
//! the description JSON and flatten it to Markdown text. A `null` description
//! yields the empty string.

use vstd::prelude::*;
use crate::json::{Json, entries_get, json_get, str_field};
use crate::text::{
    append_chars, append_str, chars_of, decimal, decimal_chars, parse_u64, parse_u64_chars,
    repeat_char, string_of, trim, trim_chars, trim_end_char, trim_end_char_chars,
};

verus! {

/// `value.get(key)` then `as_str`, defaulting to the empty string.
pub open spec fn str_or_empty(v: Json, key: Seq<char>) -> Seq<char> {
    match str_field(v, key) {
        Some(t) => t,
        None => seq![],
    }
}

/// The node's `type` (empty when absent).
pub open spec fn node_type(node: Json) -> Seq<char> {
    str_or_empty(node, "type"@)
}

/// The string `attrs.<key>` of a node (empty when absent).
pub open spec fn attr_of(node: Json, key: Seq<char>) -> Seq<char> {
    match json_get(node, "attrs"@) {
        Some(a) => str_or_empty(a, key),
        None => seq![],
    }
}

/// `value.as_u64()`.
pub open spec fn json_u64(v: Option<Json>) -> Option<nat> {
    match v {
        Some(Json::Number(t)) => parse_u64(t@),
        _ => None,
    }
}

/// A heading's level: `attrs.level` when it is in `1..=6`, else 1.
pub open spec fn heading_level(node: Json) -> nat {
    match json_get(node, "attrs"@) {
        Some(a) => match json_u64(json_get(a, "level"@)) {
            Some(l) => if 1 <= l <= 6 {
                l
            } else {
                1
            },
            None => 1,
        },
        None => 1,
    }
}

/// The node's `content` array, when it has one.
pub open spec fn content(node: Json) -> Option<Seq<Json>> {
    match json_get(node, "content"@) {
        Some(Json::Array(v)) => Some(v@),
        _ => None,
    }
}

/// The node's `marks` array, when it has one.
pub open spec fn marks(node: Json) -> Option<Seq<Json>> {
    match json_get(node, "marks"@) {
        Some(Json::Array(v)) => Some(v@),
        _ => None,
    }
}

/// `s` wrapped in `open` and `close`.
pub open spec fn wrap(open: Seq<char>, s: Seq<char>, close: Seq<char>) -> Seq<char> {
    open + s + close
}

/// One inline mark applied to `s`.
pub open spec fn apply_mark(s: Seq<char>, m: Json) -> Seq<char> {
    if !(m is Object) {
        s
    } else {
        let t = node_type(m);
        if t == "strong"@ {
            wrap("**"@, s, "**"@)
        } else if t == "em"@ {
            wrap("*"@, s, "*"@)
        } else if t == "code"@ {
            wrap("`"@, s, "`"@)
        } else if t == "strike"@ {
            wrap("~~"@, s, "~~"@)
        } else if t == "link"@ {
            let href = attr_of(m, "href"@);
            if href.len() > 0 {
                "["@ + s + "]("@ + href + ")"@
            } else {
                s
            }
        } else {
            s
        }
    }
}

/// The marks applied in order, innermost first.
pub open spec fn fold_marks(s: Seq<char>, ms: Seq<Json>) -> Seq<char>
    decreases ms.len(),
{
    if ms.len() == 0 {
        s
    } else {
        apply_mark(fold_marks(s, ms.drop_last()), ms.last())
    }
}

/// A text node's text with its marks applied (no marks on empty text).
pub open spec fn apply_marks(text: Seq<char>, ms: Option<Seq<Json>>) -> Seq<char> {
    match ms {
        None => text,
        Some(ms) => if text.len() == 0 {
            text
        } else {
            fold_marks(text, ms)
        },
    }
}

/// The marker in front of item `i` of a list.
pub open spec fn list_marker(ordered: bool, i: nat) -> Seq<char> {
    if ordered {
        decimal(i + 1) + ". "@
    } else {
        "- "@
    }
}

pub proof fn lemma_get_member(es: Seq<(String, Json)>, key: Seq<char>)
    ensures
        entries_get(es, key) matches Some(v) ==> exists|k: int| 0 <= k < es.len() && es[k].1 == v,
    decreases es.len(),
{
    if es.len() > 0 {
        lemma_get_member(es.drop_first(), key);
        if es[0].0@ != key {
            if entries_get(es, key) is Some {
                let k = choose|k: int|
                    0 <= k < es.drop_first().len() && es.drop_first()[k].1 == entries_get(
                        es,
                        key,
                    )->0;
                assert(es[k + 1].1 == entries_get(es, key)->0);
            }
        }
    }
}

/// An array reached through an object entry is smaller than the object.
pub proof fn lemma_array_entry_decreases(node: Json, key: Seq<char>, v: Vec<Json>)
    requires
        json_get(node, key) == Some(Json::Array(v)),
    ensures
        decreases_to!(node => v),
        decreases_to!(node => v@),
{
    match node {
        Json::Object(es) => {
            lemma_get_member(es@, key);
            let k = choose|k: int| 0 <= k < es@.len() && es@[k].1 == Json::Array(v);
            assert(decreases_to!(node => es));
            assert(decreases_to!(es => es@));
            assert(decreases_to!(es@ => es@[k]));
            assert(decreases_to!(es@[k] => es@[k].1));
            let a = es@[k].1;
            assert(decreases_to!(a => a->Array_0));
            assert(a->Array_0 == v);
            assert(decreases_to!(v => v@));
        },
        _ => {},
    }
}

/// The Markdown of one ADF node.
pub open spec fn walk(node: Json) -> Seq<char>
    decreases node, 0nat,
{
    if !(node is Object) {
        seq![]
    } else {
        let t = node_type(node);
        if t == "text"@ {
            apply_marks(str_or_empty(node, "text"@), marks(node))
        } else if t == "hardBreak"@ {
            "\n"@
        } else if t == "bulletList"@ || t == "orderedList"@ {
            match json_get(node, "content"@) {
                Some(Json::Array(v)) => {
                    proof {
                        lemma_array_entry_decreases(node, "content"@, v);
                    }
                    list_items(v@, t == "orderedList"@, 0) + "\n"@
                },
                _ => "\n"@,
            }
        } else if t == "inlineCard"@ {
            attr_of(node, "url"@)
        } else if t == "mention"@ {
            let m = attr_of(node, "text"@);
            if m.len() == 0 {
                "@?"@
            } else {
                m
            }
        } else if t == "rule"@ {
            "\n---\n\n"@
        } else {
            let c = match json_get(node, "content"@) {
                Some(Json::Array(v)) => {
                    proof {
                        lemma_array_entry_decreases(node, "content"@, v);
                    }
                    walk_all(v@)
                },
                _ => seq![],
            };
            if t == "paragraph"@ {
                c + "\n\n"@
            } else if t == "heading"@ {
                repeat_char('#', heading_level(node)) + " "@ + c + "\n\n"@
            } else if t == "listItem"@ {
                trim(c)
            } else if t == "codeBlock"@ {
                "```\n"@ + trim_end_char(c, '\n') + "\n```\n\n"@
            } else if t == "blockquote"@ {
                "> "@ + trim(c) + "\n\n"@
            } else {
                c
            }
        }
    }
}

/// The Markdown of a sequence of nodes, concatenated.
pub open spec fn walk_all(s: Seq<Json>) -> Seq<char>
    decreases s, 1nat,
{
    if s.len() == 0 {
        seq![]
    } else {
        walk(s[0]) + walk_all(s.drop_first())
    }
}

/// The items of a list, from item number `i`, each as marker, Markdown and a
/// newline.
pub open spec fn list_items(s: Seq<Json>, ordered: bool, i: nat) -> Seq<char>
    decreases s, 1nat,
{
    if s.len() == 0 {
        seq![]
    } else {
        list_marker(ordered, i) + walk(s[0]) + "\n"@ + list_items(s.drop_first(), ordered, i + 1)
    }
}

/// What one inline mark does to text `s`: `strong` wraps it in `**`, `em`
/// in `*`, `code` in backticks, `strike` in `~~`, and `link` makes it
/// `[s](href)` when the link has an `href`; other marks leave it as it is.
#[verifier::spinoff_prover]
pub proof fn lemma_mark_markdown(s: Seq<char>, m: Json)
    ensures
        str_field(m, "type"@) == Some("strong"@) ==> apply_mark(s, m) == "**"@ + s + "**"@,
        str_field(m, "type"@) == Some("em"@) ==> apply_mark(s, m) == "*"@ + s + "*"@,
        str_field(m, "type"@) == Some("code"@) ==> apply_mark(s, m) == "`"@ + s + "`"@,
        str_field(m, "type"@) == Some("strike"@) ==> apply_mark(s, m) == "~~"@ + s + "~~"@,
        str_field(m, "type"@) == Some("link"@) ==> apply_mark(s, m) == (if attr_of(m, "href"@).len() > 0 {
            "["@ + s + "]("@ + attr_of(m, "href"@) + ")"@
        } else {
            s
        }),
        !(m is Object) ==> apply_mark(s, m) == s,
{
    reveal_strlit("strong");
    reveal_strlit("em");
    reveal_strlit("code");
    reveal_strlit("strike");
    reveal_strlit("link");
    assert("strong"@[3] != "strike"@[3]);
    assert("strong"@ != "strike"@);
    assert("code"@[0] != "link"@[0]);
    assert("code"@ != "link"@);
    if str_field(m, "type"@) is Some {
        assert(m is Object);
    }
    if str_field(m, "type"@) == Some("strike"@) {
        assert(node_type(m) == "strike"@);
    }
    if str_field(m, "type"@) == Some("link"@) {
        assert(node_type(m) == "link"@);
    }
    if str_field(m, "type"@) == Some("code"@) {
        assert(node_type(m) == "code"@);
    }
    if str_field(m, "type"@) == Some("em"@) {
        assert(node_type(m) == "em"@);
        assert("em"@.len() == 2 && "strong"@.len() == 6);
    }
}

/// The Markdown of the block nodes that hold other nodes, in terms of their
/// children's Markdown `c`: a blockquote is `> ` and the trimmed children
/// followed by a blank line; a paragraph is the children followed by a blank
/// line; a list item is the trimmed children; a code block is the children
/// (trailing newlines dropped) fenced by three backticks.
#[verifier::spinoff_prover]
pub proof fn lemma_block_markdown(node: Json, children: Vec<Json>)
    requires
        json_get(node, "content"@) == Some(Json::Array(children)),
    ensures
        str_field(node, "type"@) == Some("blockquote"@) ==> walk(node) == "> "@ + trim(walk_all(children@)) + "\n\n"@,
        str_field(node, "type"@) == Some("paragraph"@) ==> walk(node) == walk_all(children@) + "\n\n"@,
        str_field(node, "type"@) == Some("listItem"@) ==> walk(node) == trim(walk_all(children@)),
        str_field(node, "type"@) == Some("codeBlock"@) ==> walk(node) == "```\n"@ + trim_end_char(walk_all(children@), '\n')
            + "\n```\n\n"@,
{
    reveal_strlit("blockquote");
    reveal_strlit("paragraph");
    reveal_strlit("listItem");
    reveal_strlit("codeBlock");
    reveal_strlit("text");
    reveal_strlit("hardBreak");
    reveal_strlit("bulletList");
    reveal_strlit("orderedList");
    reveal_strlit("inlineCard");
    reveal_strlit("mention");
    reveal_strlit("rule");
    reveal_strlit("heading");
    assert(node is Object);
    assert("blockquote"@[1] != "bulletList"@[1]);
    assert("blockquote"@ != "bulletList"@);
    assert("paragraph"@[0] != "hardBreak"@[0]);
    assert("paragraph"@ != "hardBreak"@);
    assert("codeBlock"@[0] != "hardBreak"@[0]);
    assert("codeBlock"@ != "hardBreak"@);
    assert("codeBlock"@[0] != "paragraph"@[0]);
    assert("codeBlock"@ != "paragraph"@);
    if str_field(node, "type"@) == Some("listItem"@) {
        assert(node_type(node) == "listItem"@);
        assert(walk(node) == trim(walk_all(children@)));
    }
    if str_field(node, "type"@) == Some("codeBlock"@) {
        assert(node_type(node) == "codeBlock"@);
    }
}

/// The Markdown of the nodes that stand alone: a hard break is a newline, a
/// rule is `---` on a line of its own followed by a blank line, an inline card
/// is its URL, a mention is its text (`@?` when it has none), and a heading is
/// as many `#` as its level, a space, its children's Markdown and a blank line.
#[verifier::spinoff_prover]
pub proof fn lemma_leaf_markdown(node: Json)
    ensures
        str_field(node, "type"@) == Some("hardBreak"@) ==> walk(node) == "\n"@,
        str_field(node, "type"@) == Some("rule"@) ==> walk(node) == "\n---\n\n"@,
        str_field(node, "type"@) == Some("inlineCard"@) ==> walk(node) == attr_of(node, "url"@),
        str_field(node, "type"@) == Some("mention"@) ==> walk(node) == (if attr_of(node, "text"@).len() == 0 {
            "@?"@
        } else {
            attr_of(node, "text"@)
        }),
        str_field(node, "type"@) == Some("heading"@) ==> walk(node) == repeat_char('#', heading_level(node)) + " "@ + match json_get(node, "content"@) {
            Some(Json::Array(v)) => walk_all(v@),
            _ => seq![],
        } + "\n\n"@,
{
    reveal_strlit("text");
    reveal_strlit("hardBreak");
    reveal_strlit("bulletList");
    reveal_strlit("orderedList");
    reveal_strlit("inlineCard");
    reveal_strlit("mention");
    reveal_strlit("rule");
    reveal_strlit("heading");
    reveal_strlit("paragraph");
    assert("hardBreak"@[0] != "paragraph"@[0]);
    assert("inlineCard"@[0] != "bulletList"@[0]);
    assert("mention"@[0] != "heading"@[0]);
    assert("heading"@[0] != "mention"@[0]);
    assert("rule"@[0] != "text"@[0]);
    assert("rule"@ != "text"@);
    assert("heading"@ != "mention"@);
    if str_field(node, "type"@) is Some {
        assert(node is Object);
    }
    if str_field(node, "type"@) == Some("rule"@) {
        assert(node_type(node) == "rule"@);
    }
    if str_field(node, "type"@) == Some("heading"@) {
        assert(node_type(node) == "heading"@);
        assert("heading"@.len() == 7 && "hardBreak"@.len() == 9 && "text"@.len() == 4);
        assert(node_type(node) != "text"@);
        assert(node_type(node) != "hardBreak"@);
        assert(node_type(node) != "bulletList"@ && node_type(node) != "orderedList"@);
        assert(node_type(node) != "inlineCard"@ && node_type(node) != "mention"@);
        assert(node_type(node) != "rule"@);
        assert(node_type(node) != "paragraph"@);
    }
}

/// A list's Markdown is its items, each on its own line behind its marker
/// (`- ` in a bullet list; `1. `, `2. `, ... in an ordered list), then a
/// blank line.
#[verifier::spinoff_prover]
pub proof fn lemma_list_markdown(node: Json, items: Vec<Json>)
    requires
        json_get(node, "content"@) == Some(Json::Array(items)),
    ensures
        str_field(node, "type"@) == Some("bulletList"@) ==> walk(node) == list_items(items@, false, 0) + "\n"@,
        str_field(node, "type"@) == Some("orderedList"@) ==> walk(node) == list_items(items@, true, 0) + "\n"@,
{
    reveal_strlit("text");
    reveal_strlit("hardBreak");
    reveal_strlit("bulletList");
    reveal_strlit("orderedList");
    reveal_strlit("blockquote");
    assert("bulletList"@[1] != "blockquote"@[1]);
    assert(node is Object);
    if str_field(node, "type"@) == Some("orderedList"@) {
        assert(node_type(node) == "orderedList"@);
        assert("orderedList"@ != "bulletList"@);
    }
    if str_field(node, "type"@) == Some("bulletList"@) {
        assert(node_type(node) == "bulletList"@);
    }
}

/// Item `i` of a list and the rest: the marker (`- `, or `i + 1` and `. `
/// in an ordered list), the item's Markdown and a newline, then the items
/// after it numbered on from `i + 1`.
pub proof fn lemma_list_items_step(s: Seq<Json>, ordered: bool, i: nat)
    requires
        s.len() > 0,
    ensures
        list_items(s, ordered, i) == (if ordered {
            decimal(i + 1) + ". "@
        } else {
            "- "@
        }) + walk(s[0]) + "\n"@ + list_items(s.drop_first(), ordered, i + 1),
        list_items(seq![], ordered, i) == Seq::<char>::empty(),
{
}

/// The Markdown of an ADF document: `walk` without trailing newlines.
pub open spec fn adf_markdown(node: Json) -> Seq<char> {
    trim_end_char(walk(node), '\n')
}

fn is_word(s: &[char], w: &str) -> (r: bool)
    ensures
        r == (s@ == w@),
{
    let wc = chars_of(w);
    crate::text::chars_eq(s, wc.as_slice())
}

fn str_or_empty_chars(node: &Json, key: &str) -> (r: Vec<char>)
    ensures
        r@ == str_or_empty(*node, key@),
{
    match node.get(key) {
        Some(v) => match v.as_str() {
            Some(t) => chars_of(t),
            None => Vec::new(),
        },
        None => Vec::new(),
    }
}

fn attr_chars(node: &Json, key: &str) -> (r: Vec<char>)
    ensures
        r@ == attr_of(*node, key@),
{
    match node.get("attrs") {
        Some(a) => str_or_empty_chars(a, key),
        None => Vec::new(),
    }
}

fn heading_level_exec(node: &Json) -> (r: u64)
    ensures
        r as nat == heading_level(*node),
        1 <= r <= 6,
{
    match node.get("attrs") {
        Some(a) => match a.get("level") {
            Some(Json::Number(t)) => {
                let tc = chars_of(t.as_str());
                match parse_u64_chars(tc.as_slice()) {
                    Some(l) => if 1 <= l && l <= 6 {
                        l
                    } else {
                        1
                    },
                    None => 1,
                }
            },
            _ => 1,
        },
        None => 1,
    }
}

fn wrap_chars(open: &str, s: &[char], close: &str) -> (r: Vec<char>)
    ensures
        r@ == wrap(open@, s@, close@),
{
    let mut r = chars_of(open);
    append_chars(&mut r, s);
    append_str(&mut r, close);
    r
}

fn apply_mark_exec(s: Vec<char>, m: &Json) -> (r: Vec<char>)
    ensures
        r@ == apply_mark(s@, *m),
{
    match m {
        Json::Object(_) => {},
        _ => return s,
    }
    let t = str_or_empty_chars(m, "type");
    if is_word(t.as_slice(), "strong") {
        wrap_chars("**", s.as_slice(), "**")
    } else if is_word(t.as_slice(), "em") {
        wrap_chars("*", s.as_slice(), "*")
    } else if is_word(t.as_slice(), "code") {
        wrap_chars("`", s.as_slice(), "`")
    } else if is_word(t.as_slice(), "strike") {
        wrap_chars("~~", s.as_slice(), "~~")
    } else if is_word(t.as_slice(), "link") {
        let href = attr_chars(m, "href");
        if href.len() > 0 {
            let mut r = chars_of("[");
            append_chars(&mut r, s.as_slice());
            append_str(&mut r, "](");
            append_chars(&mut r, href.as_slice());
            append_str(&mut r, ")");
            r
        } else {
            s
        }
    } else {
        s
    }
}

fn apply_marks_exec(node: &Json) -> (r: Vec<char>)
    ensures
        r@ == apply_marks(str_or_empty(*node, "text"@), marks(*node)),
{
    let text = str_or_empty_chars(node, "text");
    match node.get("marks") {
        Some(Json::Array(ms)) => {
            if text.len() == 0 {
                return text;
            }
            let mut s = text;
            let mut i: usize = 0;
            while i < ms.len()
                invariant
                    i <= ms@.len(),
                    s@ == fold_marks(str_or_empty(*node, "text"@), ms@.take(i as int)),
                decreases ms.len() - i,
            {
                proof {
                    assert(ms@.take(i + 1).drop_last() =~= ms@.take(i as int));
                }
                s = apply_mark_exec(s, &ms[i]);
                i += 1;
            }
            proof {
                assert(ms@.take(ms@.len() as int) =~= ms@);
            }
            s
        },
        _ => text,
    }
}

fn walk_exec(node: &Json) -> (r: Vec<char>)
    ensures
        r@ == walk(*node),
    decreases *node, 0nat,
{
    match node {
        Json::Object(_) => {},
        _ => return Vec::new(),
    }
    let t = str_or_empty_chars(node, "type");
    let ts = t.as_slice();
    if is_word(ts, "text") {
        apply_marks_exec(node)
    } else if is_word(ts, "hardBreak") {
        chars_of("\n")
    } else if is_word(ts, "bulletList") || is_word(ts, "orderedList") {
        let ordered = is_word(ts, "orderedList");
        match node.get("content") {
            Some(Json::Array(v)) => {
                proof {
                    lemma_array_entry_decreases(*node, "content"@, *v);
                }
                let mut r = list_exec(v, ordered);
                append_str(&mut r, "\n");
                r
            },
            _ => chars_of("\n"),
        }
    } else if is_word(ts, "inlineCard") {
        attr_chars(node, "url")
    } else if is_word(ts, "mention") {
        let m = attr_chars(node, "text");
        if m.len() == 0 {
            chars_of("@?")
        } else {
            m
        }
    } else if is_word(ts, "rule") {
        chars_of("\n---\n\n")
    } else {
        let c = match node.get("content") {
            Some(Json::Array(v)) => {
                proof {
                    lemma_array_entry_decreases(*node, "content"@, *v);
                }
                walk_all_exec(v)
            },
            _ => Vec::new(),
        };
        if is_word(ts, "paragraph") {
            let mut r = c;
            append_str(&mut r, "\n\n");
            r
        } else if is_word(ts, "heading") {
            let level = heading_level_exec(node);
            let mut r: Vec<char> = Vec::new();
            let mut k: u64 = 0;
            while k < level
                invariant
                    k <= level,
                    r@ == repeat_char('#', k as nat),
                decreases level - k,
            {
                r.push('#');
                proof {
                    assert(r@ =~= repeat_char('#', (k + 1) as nat));
                }
                k += 1;
            }
            append_str(&mut r, " ");
            append_chars(&mut r, c.as_slice());
            append_str(&mut r, "\n\n");
            r
        } else if is_word(ts, "listItem") {
            trim_chars(c.as_slice())
        } else if is_word(ts, "codeBlock") {
            let mut r = chars_of("```\n");
            let body = trim_end_char_chars(c.as_slice(), '\n');
            append_chars(&mut r, body.as_slice());
            append_str(&mut r, "\n```\n\n");
            r
        } else if is_word(ts, "blockquote") {
            let mut r = chars_of("> ");
            let body = trim_chars(c.as_slice());
            append_chars(&mut r, body.as_slice());
            append_str(&mut r, "\n\n");
            r
        } else {
            c
        }
    }
}

fn walk_all_exec(v: &Vec<Json>) -> (r: Vec<char>)
    ensures
        r@ == walk_all(v@),
    decreases *v, 1nat,
{
    let mut r: Vec<char> = Vec::new();
    let mut i: usize = v.len();
    proof {
        assert(v@.skip(i as int) =~= Seq::<Json>::empty());
    }
    while i > 0
        invariant
            i <= v@.len(),
            r@ == walk_all(v@.skip(i as int)),
        decreases i,
    {
        i -= 1;
        proof {
            assert(decreases_to!(*v => v@));
            assert(decreases_to!(v@ => v@[i as int]));
        }
        let mut w = walk_exec(&v[i]);
        append_chars(&mut w, r.as_slice());
        proof {
            assert(v@.skip(i as int).drop_first() =~= v@.skip(i + 1));
            assert(v@.skip(i as int)[0] == v@[i as int]);
        }
        r = w;
    }
    proof {
        assert(v@.skip(0) =~= v@);
    }
    r
}

fn list_exec(v: &Vec<Json>, ordered: bool) -> (r: Vec<char>)
    ensures
        r@ == list_items(v@, ordered, 0),
    decreases *v, 1nat,
{
    let mut r: Vec<char> = Vec::new();
    let mut i: usize = v.len();
    proof {
        assert(v@.skip(i as int) =~= Seq::<Json>::empty());
    }
    while i > 0
        invariant
            i <= v@.len(),
            r@ == list_items(v@.skip(i as int), ordered, i as nat),
        decreases i,
    {
        i -= 1;
        proof {
            assert(decreases_to!(*v => v@));
            assert(decreases_to!(v@ => v@[i as int]));
        }
        let mut item: Vec<char> = if ordered {
            let mut m = decimal_chars(i as u64 + 1);
            append_str(&mut m, ". ");
            m
        } else {
            chars_of("- ")
        };
        let w = walk_exec(&v[i]);
        append_chars(&mut item, w.as_slice());
        append_str(&mut item, "\n");
        append_chars(&mut item, r.as_slice());
        proof {
            assert(v@.skip(i as int).drop_first() =~= v@.skip(i + 1));
            assert(v@.skip(i as int)[0] == v@[i as int]);
        }
        r = item;
    }
    proof {
        assert(v@.skip(0) =~= v@);
    }
    r
}

/// Flatten an ADF node to Markdown, trimming trailing newlines.
pub fn adf_to_markdown(node: &Json) -> (r: String)
    ensures
        r@ == adf_markdown(*node),
{
    let w = walk_exec(node);
    let t = trim_end_char_chars(w.as_slice(), '\n');
    string_of(t.as_slice())
}

} // verus!
