//! Branch names for issues, and which issues already have a branch or a
//! worktree.

use vstd::prelude::*;
use crate::feature::tracker::Issue;
use crate::feature::ui::Marks;
use crate::text::{append_chars, chars_of, str_eq, string_of, strings_v, trim_end_char, trim_end_char_chars};

verus! {

/// The longest summary slug a branch name gets.
pub const SLUG_MAX: usize = 50;

/// An ASCII letter or digit.
pub open spec fn is_slug_char(c: char) -> bool {
    ('a' <= c && c <= 'z') || ('A' <= c && c <= 'Z') || ('0' <= c && c <= '9')
}

/// `c` in lower case when it is an ASCII capital.
pub open spec fn lower(c: char) -> char {
    if 'A' <= c && c <= 'Z' {
        ((c as u32) + 32) as char
    } else {
        c
    }
}

/// The slug so far, after one more summary character: letters and digits
/// are kept in lower case, any run of other characters becomes one `-`
/// (none at the start).
pub open spec fn slug_step(acc: Seq<char>, c: char) -> Seq<char> {
    if is_slug_char(c) {
        acc.push(lower(c))
    } else if acc.len() > 0 && acc.last() != '-' {
        acc.push('-')
    } else {
        acc
    }
}

/// The slug of the first `n` summary characters, which stops growing once it
/// reaches `SLUG_MAX` characters.
pub open spec fn slug_upto(s: Seq<char>, n: int) -> Seq<char>
    decreases n,
{
    if n <= 0 {
        seq![]
    } else {
        let a = slug_upto(s, n - 1);
        if a.len() >= SLUG_MAX {
            a
        } else {
            slug_step(a, s[n - 1])
        }
    }
}

/// The branch for an issue: its key, then `-` and the summary's slug without
/// a trailing `-`; the key alone when the slug is empty.
pub open spec fn branch_name_spec(key: Seq<char>, summary: Seq<char>) -> Seq<char> {
    let slug = trim_end_char(slug_upto(summary, summary.len() as int), '-');
    if slug.len() == 0 {
        key
    } else {
        key + seq!['-'] + slug
    }
}

fn lower_char(c: char) -> (r: char)
    ensures
        r == lower(c),
{
    if 'A' <= c && c <= 'Z' {
        let u: u8 = (c as u32 + 32) as u8;
        u as char
    } else {
        c
    }
}

/// The branch name for the issue `key` with `summary`.
pub fn branch_name(key: &str, summary: &str) -> (r: String)
    ensures
        r@ == branch_name_spec(key@, summary@),
{
    let cs = chars_of(summary);
    let mut slug: Vec<char> = Vec::new();
    let mut i: usize = 0;
    while i < cs.len()
        invariant
            i <= cs@.len(),
            cs@ == summary@,
            slug@ == slug_upto(summary@, i as int),
        decreases cs.len() - i,
    {
        if slug.len() < SLUG_MAX {
            let c = cs[i];
            if ('a' <= c && c <= 'z') || ('A' <= c && c <= 'Z') || ('0' <= c && c <= '9') {
                slug.push(lower_char(c));
            } else if slug.len() > 0 && slug[slug.len() - 1] != '-' {
                slug.push('-');
            }
        }
        i += 1;
    }
    let t = trim_end_char_chars(slug.as_slice(), '-');
    if t.len() == 0 {
        return string_of(chars_of(key).as_slice());
    }
    let mut name = chars_of(key);
    name.push('-');
    append_chars(&mut name, t.as_slice());
    string_of(name.as_slice())
}

/// Whether `names` holds `s`.
fn holds(names: &Vec<String>, s: &str) -> (r: bool)
    ensures
        r == strings_v(names@).contains(s@),
{
    let mut i: usize = 0;
    while i < names.len()
        invariant
            i <= names@.len(),
            forall|j: int| 0 <= j < i ==> #[trigger] names@[j]@ != s@,
        decreases names.len() - i,
    {
        if str_eq(names[i].as_str(), s) {
            proof {
                assert(strings_v(names@)[i as int] == s@);
            }
            return true;
        }
        i += 1;
    }
    proof {
        if strings_v(names@).contains(s@) {
            let j = choose|j: int| 0 <= j < strings_v(names@).len() && strings_v(names@)[j] == s@;
            assert(names@[j]@ == s@);
        }
    }
    false
}

/// The marks of an issue: whether its branch is among the local branches,
/// and among those checked out in a worktree.
pub open spec fn marks_of(iss: Issue, local: Seq<Seq<char>>, worktreed: Seq<Seq<char>>) -> Marks {
    let b = branch_name_spec(iss.key@, iss.summary@);
    Marks { branch: local.contains(b), worktree: worktreed.contains(b) }
}

/// The marks of each issue, in order.
pub fn issue_marks(issues: &Vec<Issue>, local: &Vec<String>, worktreed: &Vec<String>) -> (r: Vec<Marks>)
    ensures
        r@.len() == issues@.len(),
        forall|i: int| 0 <= i < r@.len() ==> #[trigger] r@[i] == marks_of(issues@[i], strings_v(local@), strings_v(worktreed@)),
{
    let mut out: Vec<Marks> = Vec::new();
    let mut i: usize = 0;
    while i < issues.len()
        invariant
            i <= issues@.len(),
            out@.len() == i,
            forall|j: int| 0 <= j < i ==> #[trigger] out@[j] == marks_of(issues@[j], strings_v(local@), strings_v(worktreed@)),
        decreases issues.len() - i,
    {
        let b = branch_name(issues[i].key.as_str(), issues[i].summary.as_str());
        let m = Marks { branch: holds(local, b.as_str()), worktree: holds(worktreed, b.as_str()) };
        out.push(m);
        i += 1;
    }
    out
}

} // verus!
