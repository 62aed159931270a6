//! Unix paths as strings: joining (as `Path::join` does), components,
//! prefixes and the last component.

use vstd::prelude::*;
use crate::text::{append_chars, chars_of, split, split_chars, string_of, sub_chars, views};

verus! {

/// `base` joined with `p`: an absolute `p` replaces `base`; otherwise a `/`
/// goes between them unless `base` is empty or already ends with one.
pub open spec fn join_path(base: Seq<char>, p: Seq<char>) -> Seq<char> {
    if p.len() > 0 && p[0] == '/' {
        p
    } else if base.len() > 0 && base.last() != '/' {
        base + seq!['/'] + p
    } else {
        base + p
    }
}

/// Join `p` onto `base`.
pub fn join(base: &str, p: &str) -> (r: String)
    ensures
        r@ == join_path(base@, p@),
{
    let b = chars_of(base);
    let pc = chars_of(p);
    if pc.len() > 0 && pc[0] == '/' {
        return string_of(pc.as_slice());
    }
    let mut out = b;
    if out.len() > 0 && out[out.len() - 1] != '/' {
        out.push('/');
    }
    append_chars(&mut out, pc.as_slice());
    string_of(out.as_slice())
}

/// Whether a piece between `/` is a component: not empty and not `.`.
pub open spec fn is_part(s: Seq<char>) -> bool {
    s.len() > 0 && s != seq!['.']
}

/// The pieces that are components, in order.
pub open spec fn kept_parts(parts: Seq<Seq<char>>) -> Seq<Seq<char>>
    decreases parts.len(),
{
    if parts.len() == 0 {
        seq![]
    } else if is_part(parts.last()) {
        kept_parts(parts.drop_last()).push(parts.last())
    } else {
        kept_parts(parts.drop_last())
    }
}

/// The components of a path: its pieces between `/`, without empty ones and
/// without `.` (but for a leading `.` of a relative path), with a leading
/// `/` kept as the root.
pub open spec fn components(p: Seq<char>) -> Seq<Seq<char>> {
    let parts = split(p, '/');
    let kept = kept_parts(parts);
    if p.len() > 0 && p[0] == '/' {
        seq![seq!['/']] + kept
    } else if p.len() > 0 && p[0] == '.' && (p.len() == 1 || p[1] == '/') {
        seq![seq!['.']] + kept
    } else {
        kept
    }
}

fn components_of(p: &str) -> (r: Vec<Vec<char>>)
    ensures
        views(r@) == components(p@),
{
    let pc = chars_of(p);
    let parts = split_chars(pc.as_slice(), '/');
    let ghost ps = views(parts@);
    let mut kept: Vec<Vec<char>> = Vec::new();
    let mut i: usize = 0;
    while i < parts.len()
        invariant
            i <= parts@.len(),
            ps == views(parts@),
            ps == split(p@, '/'),
            pc@ == p@,
            views(kept@) == kept_parts(ps.take(i as int)),
        decreases parts.len() - i,
    {
        let part = &parts[i];
        let keep = part.len() > 0 && !(part.len() == 1 && part[0] == '.');
        proof {
            assert(ps[i as int] == part@);
            assert(keep == is_part(part@)) by {
                if part@.len() == 1 && part@[0] == '.' {
                    assert(part@ =~= seq!['.']);
                }
            }
            assert(ps.take(i + 1).drop_last() =~= ps.take(i as int));
            assert(ps.take(i + 1).last() == part@);
        }
        proof {
            let t = ps.take(i + 1);
            assert(t.last() == part@);
            assert(kept_parts(t) == if is_part(part@) {
                kept_parts(ps.take(i as int)).push(part@)
            } else {
                kept_parts(ps.take(i as int))
            });
        }
        if keep {
            let ghost before = kept@;
            let copy = sub_chars(part.as_slice(), 0, part.len());
            proof {
                assert(copy@ =~= part@);
            }
            kept.push(copy);
            proof {
                assert(views(kept@) =~= views(before).push(part@));
            }
        }
        i += 1;
    }
    proof {
        assert(ps.take(i as int) =~= ps);
    }
    let mut out: Vec<Vec<char>> = Vec::new();
    if pc.len() > 0 && pc[0] == '/' {
        let mut root: Vec<char> = Vec::new();
        root.push('/');
        out.push(root);
    } else if pc.len() > 0 && pc[0] == '.' && (pc.len() == 1 || pc[1] == '/') {
        let mut cur: Vec<char> = Vec::new();
        cur.push('.');
        out.push(cur);
    }
    let ghost head = views(out@);
    let mut rest = kept;
    let ghost kv = views(rest@);
    out.append(&mut rest);
    proof {
        assert(views(out@) =~= head + kv);
        if p@.len() > 0 && p@[0] == '/' {
            assert(head =~= seq![seq!['/']]);
        } else if p@.len() > 0 && p@[0] == '.' && (p@.len() == 1 || p@[1] == '/') {
            assert(head =~= seq![seq!['.']]);
        } else {
            assert(head =~= Seq::<Seq<char>>::empty());
        }
    }
    out
}

fn comps_prefix(a: &Vec<Vec<char>>, b: &Vec<Vec<char>>) -> (r: bool)
    ensures
        r == (views(b@).len() <= views(a@).len() && views(a@).take(views(b@).len() as int) == views(b@)),
{
    if b.len() > a.len() {
        return false;
    }
    let mut i: usize = 0;
    while i < b.len()
        invariant
            b@.len() <= a@.len(),
            i <= b@.len(),
            forall|j: int| 0 <= j < i ==> #[trigger] views(a@)[j] == views(b@)[j],
        decreases b.len() - i,
    {
        if !crate::text::chars_eq(a[i].as_slice(), b[i].as_slice()) {
            proof {
                assert(views(a@).take(views(b@).len() as int)[i as int] != views(b@)[i as int]);
            }
            return false;
        }
        i += 1;
    }
    proof {
        assert(views(a@).take(views(b@).len() as int) =~= views(b@));
    }
    true
}

/// Whether `p` lies under `base`, component by component (`Path::starts_with`).
pub fn starts_with(p: &str, base: &str) -> (r: bool)
    ensures
        r == (components(base@).len() <= components(p@).len()
            && components(p@).take(components(base@).len() as int) == components(base@)),
{
    let a = components_of(p);
    let b = components_of(base);
    comps_prefix(&a, &b)
}

/// Whether two paths have the same components (`Path` equality).
pub fn same_path(p: &str, q: &str) -> (r: bool)
    ensures
        r == (components(p@) == components(q@)),
{
    let a = components_of(p);
    let b = components_of(q);
    if a.len() != b.len() {
        return false;
    }
    let r = comps_prefix(&a, &b);
    proof {
        assert(views(a@).take(views(b@).len() as int) =~= views(a@));
    }
    r
}

/// The last component of a path, unless it is the root or `.`.
pub open spec fn file_name(p: Seq<char>) -> Option<Seq<char>> {
    let cs = components(p);
    if cs.len() > 0 && cs.last() != seq!['/'] && cs.last() != seq!['.'] && cs.last() != seq!['.', '.'] {
        Some(cs.last())
    } else {
        None
    }
}

/// The last component of `p` (`Path::file_name`).
pub fn file_name_of(p: &str) -> (r: Option<String>)
    ensures
        match r {
            Some(n) => file_name(p@) == Some(n@),
            None => file_name(p@) is None,
        },
{
    let cs = components_of(p);
    if cs.len() == 0 {
        return None;
    }
    let last = &cs[cs.len() - 1];
    proof {
        assert(views(cs@).last() == last@);
    }
    let is_root = last.len() == 1 && last[0] == '/';
    let is_dot = last.len() == 1 && last[0] == '.';
    let is_dotdot = last.len() == 2 && last[0] == '.' && last[1] == '.';
    proof {
        if last@.len() == 1 {
            assert(is_root == (last@ == seq!['/'])) by {
                if last@[0] == '/' {
                    assert(last@ =~= seq!['/']);
                }
            }
            assert(is_dot == (last@ == seq!['.'])) by {
                if last@[0] == '.' {
                    assert(last@ =~= seq!['.']);
                }
            }
        }
        if last@.len() == 2 {
            assert(is_dotdot == (last@ == seq!['.', '.'])) by {
                if last@[0] == '.' && last@[1] == '.' {
                    assert(last@ =~= seq!['.', '.']);
                }
            }
        }
    }
    if is_root || is_dot || is_dotdot {
        None
    } else {
        Some(string_of(last.as_slice()))
    }
}

} // verus!
