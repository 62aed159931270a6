//! SSO sessions and cached tokens: reading an `[sso-session]` block, picking
//! the freshest cached token, planning a silent refresh and rewriting the
//! token cache entry, and the SSO portal's endpoints.

use vstd::prelude::*;
use crate::aws::time::{rfc3339, unix_to_rfc3339};
use crate::feature::config::{chars_lt, lemma_chars_lt_irreflexive, lemma_chars_lt_total, lemma_chars_lt_transitive};
use crate::json::{Json, entries_get, json_get, json_parse, json_print, parse_json, print_json, str_field};
use crate::text::{
    append_str, chars_eq, chars_of, lines, lines_of, opt_str, opt_string, owned, split_once, split_once_chars,
    str_eq, string_of, trim, trim_chars,
};

verus! {

/// The header of the `[sso-session <session>]` block.
pub open spec fn session_header(session: Seq<char>) -> Seq<char> {
    "[sso-session "@ + session + "]"@
}

/// Reading `~/.aws/config` line by line: whether the session's block is
/// open, and the region and start URL seen in it so far.
pub type SsoScan = (bool, Option<Seq<char>>, Option<Seq<char>>);

/// One line: a header (trimmed, starting with `[`) opens or closes the
/// block; inside it, `sso_region = ...` and `sso_start_url = ...` (keys and
/// values trimmed) are taken, a later one replacing an earlier one.
pub open spec fn sso_step(st: SsoScan, raw: Seq<char>, header: Seq<char>) -> SsoScan {
    let line = trim(raw);
    if line.len() > 0 && line[0] == '[' {
        (line == header, st.1, st.2)
    } else if !st.0 {
        st
    } else {
        match split_once(line, '=') {
            Some((k, v)) => if trim(k) == "sso_region"@ {
                (st.0, Some(trim(v)), st.2)
            } else if trim(k) == "sso_start_url"@ {
                (st.0, st.1, Some(trim(v)))
            } else {
                st
            },
            None => st,
        }
    }
}

/// The scan after the first `n` lines.
pub open spec fn sso_run(ls: Seq<Seq<char>>, n: int, header: Seq<char>) -> SsoScan
    decreases n,
{
    if n <= 0 {
        (false, None, None)
    } else {
        sso_step(sso_run(ls, n - 1, header), ls[n - 1], header)
    }
}

/// The `sso_region` and `sso_start_url` of the session's block in `text`.
pub open spec fn sso_session_spec(text: Seq<char>, session: Seq<char>) -> (Option<Seq<char>>, Option<Seq<char>>) {
    let ls = lines(text);
    let st = sso_run(ls, ls.len() as int, session_header(session));
    (st.1, st.2)
}

/// Read `sso_region` and `sso_start_url` from the `[sso-session <session>]`
/// block of the config text; either may be absent.
pub fn read_sso_session(config_text: &str, session: &str) -> (r: (Option<String>, Option<String>))
    ensures
        (opt_string(r.0), opt_string(r.1)) == sso_session_spec(config_text@, session@),
{
    let mut h = chars_of("[sso-session ");
    append_str(&mut h, session);
    append_str(&mut h, "]");
    let tc = chars_of(config_text);
    let ls = lines_of(tc.as_slice());
    let mut in_section = false;
    let mut region: Option<String> = None;
    let mut start_url: Option<String> = None;
    let mut i: usize = 0;
    while i < ls.len()
        invariant
            i <= ls@.len(),
            tc@ == config_text@,
            h@ == session_header(session@),
            ls@.len() == lines(tc@).len(),
            forall|k: int| 0 <= k < ls@.len() ==> #[trigger] ls@[k]@ == lines(tc@)[k],
            (in_section, opt_string(region), opt_string(start_url)) == sso_run(lines(tc@), i as int, h@),
        decreases ls.len() - i,
    {
        let line = trim_chars(ls[i].as_slice());
        proof {
            assert(ls@[i as int]@ == lines(tc@)[i as int]);
        }
        if line.len() > 0 && line[0] == '[' {
            in_section = chars_eq(line.as_slice(), h.as_slice());
        } else if in_section {
            match split_once_chars(line.as_slice(), '=') {
                Some((k, v)) => {
                    let kt = trim_chars(k.as_slice());
                    let ks = string_of(kt.as_slice());
                    if str_eq(ks.as_str(), "sso_region") {
                        let vt = trim_chars(v.as_slice());
                        region = Some(string_of(vt.as_slice()));
                    } else if str_eq(ks.as_str(), "sso_start_url") {
                        let vt = trim_chars(v.as_slice());
                        start_url = Some(string_of(vt.as_slice()));
                    }
                },
                None => {},
            }
        }
        i += 1;
    }
    (region, start_url)
}

/// A cached SSO token file (`~/.aws/sso/cache/*.json`), with the fields the
/// tool uses. A refresh needs `refresh_token`, `client_id` and `client_secret`.
#[derive(Debug, Clone)]
pub struct CachedToken {
    /// The cache file this came from, so a refresh can rewrite it in place.
    pub path: String,
    pub access_token: String,
    pub refresh_token: Option<String>,
    pub client_id: Option<String>,
    pub client_secret: Option<String>,
    /// SSO region recorded in the file, used to pick the OIDC endpoint.
    pub region: Option<String>,
    /// RFC 3339 UTC; ordered lexically, so it picks the freshest entry.
    pub expires_at: String,
}

/// A token record as values: path, access token, refresh token, client id,
/// client secret, region and expiry.
pub type TokenV = (
    Seq<char>,
    Seq<char>,
    Option<Seq<char>>,
    Option<Seq<char>>,
    Option<Seq<char>>,
    Option<Seq<char>>,
    Seq<char>,
);

/// A token record's values.
pub open spec fn token_v(t: CachedToken) -> TokenV {
    (
        t.path@,
        t.access_token@,
        opt_string(t.refresh_token),
        opt_string(t.client_id),
        opt_string(t.client_secret),
        opt_string(t.region),
        t.expires_at@,
    )
}

/// The record a cache file (at `path`, holding `v`) gives: none without a
/// string `accessToken`, or when a start URL is wanted and the file's
/// `startUrl` is not it; a missing `expiresAt` counts as empty.
pub open spec fn token_of(path: Seq<char>, v: Json, want: Option<Seq<char>>) -> Option<TokenV> {
    match str_field(v, "accessToken"@) {
        None => None,
        Some(token) => if want is Some && str_field(v, "startUrl"@) != want {
            None
        } else {
            Some((
                path,
                token,
                str_field(v, "refreshToken"@),
                str_field(v, "clientId"@),
                str_field(v, "clientSecret"@),
                str_field(v, "region"@),
                match str_field(v, "expiresAt"@) {
                    Some(e) => e,
                    None => seq![],
                },
            ))
        },
    }
}

/// The record a cache file gives from its text: none when the text is not
/// JSON.
pub open spec fn file_token(path: Seq<char>, text: Seq<char>, want: Option<Seq<char>>) -> Option<TokenV> {
    match json_parse(text) {
        Some(v) => token_of(path, v, want),
        None => None,
    }
}

/// The freshest record among the first `n` files: a later record replaces
/// the best so far only when its expiry is strictly later.
pub open spec fn best_token(files: Seq<(String, String)>, want: Option<Seq<char>>, n: int) -> Option<TokenV>
    decreases n,
{
    if n <= 0 {
        None
    } else {
        let best = best_token(files, want, n - 1);
        match file_token(files[n - 1].0@, files[n - 1].1@, want) {
            None => best,
            Some(t) => match best {
                None => Some(t),
                Some(b) => if chars_lt(b.6, t.6) { Some(t) } else { Some(b) },
            },
        }
    }
}

/// The freshest record wins: among the first `n` files, the chosen record
/// is the record of one of them, no file's record expires later, and every
/// file before it has a record that expires strictly earlier (of records
/// expiring at once, the first is kept). Without any record, none is chosen.
pub proof fn lemma_best_token_latest(files: Seq<(String, String)>, want: Option<Seq<char>>, n: int)
    requires
        0 <= n <= files.len(),
    ensures
        best_token(files, want, n) is None ==> forall|j: int| 0 <= j < n
            ==> file_token((#[trigger] files[j]).0@, files[j].1@, want) is None,
        best_token(files, want, n) matches Some(b) ==> exists|i: int| {
            &&& 0 <= i < n
            &&& file_token((#[trigger] files[i]).0@, files[i].1@, want) == Some(b)
            &&& forall|j: int| 0 <= j < i ==> (file_token((#[trigger] files[j]).0@, files[j].1@, want) matches Some(t)
                ==> chars_lt(t.6, b.6))
        },
        best_token(files, want, n) matches Some(b) ==> forall|j: int| 0 <= j < n
            ==> (file_token((#[trigger] files[j]).0@, files[j].1@, want) matches Some(t) ==> !chars_lt(b.6, t.6)),
    decreases n,
{
    if n > 0 {
        lemma_best_token_latest(files, want, n - 1);
        let cur = file_token(files[n - 1].0@, files[n - 1].1@, want);
        match cur {
            None => {},
            Some(t) => {
                lemma_chars_lt_irreflexive(t.6);
                match best_token(files, want, n - 1) {
                    None => {},
                    Some(b) => {
                        if chars_lt(b.6, t.6) {
                            assert forall|j: int| 0 <= j < n - 1 && file_token((#[trigger] files[j]).0@, files[j].1@, want) is Some
                                implies chars_lt((file_token(files[j].0@, files[j].1@, want)->0).6, t.6)
                                && !chars_lt(t.6, (file_token(files[j].0@, files[j].1@, want)->0).6) by {
                                let u = file_token(files[j].0@, files[j].1@, want)->0;
                                if u.6 != b.6 {
                                    lemma_chars_lt_total(u.6, b.6);
                                    lemma_chars_lt_transitive(u.6, b.6, t.6);
                                }
                                if chars_lt(t.6, u.6) {
                                    lemma_chars_lt_transitive(b.6, t.6, u.6);
                                }
                            }
                        }
                    },
                }
            },
        }
    }
}

/// The string under `key` of a JSON object, as an owned string.
fn str_at(v: &Json, key: &str) -> (r: Option<String>)
    ensures
        opt_string(r) == str_field(*v, key@),
{
    match v.get(key) {
        Some(x) => match x.as_str() {
            Some(s) => Some(owned(s)),
            None => None,
        },
        None => None,
    }
}

/// Strict lexical order of two strings (`String`'s `<`).
pub fn str_lt(a: &str, b: &str) -> (r: bool)
    ensures
        r == chars_lt(a@, b@),
{
    let x = chars_of(a);
    let y = chars_of(b);
    let mut i: usize = 0;
    proof {
        assert(a@.skip(0) =~= a@);
        assert(b@.skip(0) =~= b@);
    }
    while i < x.len() && i < y.len() && x[i] == y[i]
        invariant
            i <= x@.len(),
            i <= y@.len(),
            x@ == a@,
            y@ == b@,
            chars_lt(a@, b@) == chars_lt(a@.skip(i as int), b@.skip(i as int)),
        decreases x.len() - i,
    {
        proof {
            assert(a@.skip(i as int).drop_first() =~= a@.skip(i + 1));
            assert(b@.skip(i as int).drop_first() =~= b@.skip(i + 1));
        }
        i += 1;
    }
    proof {
        assert(a@.skip(i as int).len() == 0 ==> a@.skip(i as int) =~= Seq::<char>::empty());
    }
    if i == x.len() {
        i < y.len()
    } else if i == y.len() {
        false
    } else {
        proof {
            assert(a@.skip(i as int)[0] == x@[i as int]);
            assert(b@.skip(i as int)[0] == y@[i as int]);
        }
        (x[i] as u32) < (y[i] as u32)
    }
}

/// Choose, among the cache files that were read (each with its path and
/// text; texts that are not JSON are skipped), the token record for `start_url` (any session when `None`) with
/// the latest `expiresAt`; ties keep the earlier file.
pub fn read_token_record(files: &Vec<(String, String)>, start_url: Option<&str>) -> (r: Option<CachedToken>)
    ensures
        match r {
            Some(t) => best_token(files@, crate::text::opt_str(start_url), files@.len() as int) == Some(token_v(t)),
            None => best_token(files@, crate::text::opt_str(start_url), files@.len() as int) is None,
        },
{
    let ghost want = crate::text::opt_str(start_url);
    let mut best: Option<CachedToken> = None;
    let mut i: usize = 0;
    while i < files.len()
        invariant
            i <= files@.len(),
            want == crate::text::opt_str(start_url),
            match best {
                Some(t) => best_token(files@, want, i as int) == Some(token_v(t)),
                None => best_token(files@, want, i as int) is None,
            },
        decreases files.len() - i,
    {
        let path = &files[i].0;
        let parsed = parse_json(files[i].1.as_str());
        let value = match &parsed {
            Some(v) => v,
            None => {
                i += 1;
                continue;
            },
        };
        let token = str_at(value, "accessToken");
        let tok = match token {
            Some(t) => t,
            None => {
                i += 1;
                continue;
            },
        };
        match start_url {
            Some(want_url) => {
                let got = str_at(value, "startUrl");
                let same = match &got {
                    Some(g) => str_eq(g.as_str(), want_url),
                    None => false,
                };
                if !same {
                    i += 1;
                    continue;
                }
            },
            None => {},
        }
        let expires = match str_at(value, "expiresAt") {
            Some(e) => e,
            None => String::new(),
        };
        let better = match &best {
            None => true,
            Some(b) => str_lt(b.expires_at.as_str(), expires.as_str()),
        };
        if better {
            best = Some(CachedToken {
                path: path.clone(),
                access_token: tok,
                refresh_token: str_at(value, "refreshToken"),
                client_id: str_at(value, "clientId"),
                client_secret: str_at(value, "clientSecret"),
                region: str_at(value, "region"),
                expires_at: expires,
            });
        }
        i += 1;
    }
    best
}

/// Just the access token of the freshest record for `start_url`.
pub fn read_token(files: &Vec<(String, String)>, start_url: Option<&str>) -> (r: Option<String>)
    ensures
        match r {
            Some(t) => best_token(files@, crate::text::opt_str(start_url), files@.len() as int) matches Some(b) && b.1 == t@,
            None => best_token(files@, crate::text::opt_str(start_url), files@.len() as int) is None,
        },
{
    match read_token_record(files, start_url) {
        Some(t) => Some(t.access_token),
        None => None,
    }
}

/// A silent refresh to attempt: the OIDC token endpoint and the material the
/// `refresh_token` grant sends.
#[derive(Debug)]
pub struct RefreshPlan {
    pub url: String,
    pub client_id: String,
    pub client_secret: String,
    pub refresh_token: String,
}

/// The OIDC token endpoint for a region.
pub open spec fn oidc_url(region: Seq<char>) -> Seq<char> {
    "https://oidc."@ + region + ".amazonaws.com/token"@
}

/// Plan a silent refresh of `rec`: possible only with a refresh token, a
/// client id and a client secret; the record's own region is preferred to
/// `region`.
pub fn refresh_plan(rec: &CachedToken, region: &str) -> (r: Option<RefreshPlan>)
    ensures
        (rec.refresh_token is Some && rec.client_id is Some && rec.client_secret is Some) <==> r is Some,
        r matches Some(p) ==> {
            &&& p.url@ == oidc_url(match rec.region { Some(g) => g@, None => region@ })
            &&& p.client_id@ == rec.client_id->0@
            &&& p.client_secret@ == rec.client_secret->0@
            &&& p.refresh_token@ == rec.refresh_token->0@
        },
{
    match (&rec.refresh_token, &rec.client_id, &rec.client_secret) {
        (Some(rt), Some(cid), Some(cs)) => {
            let reg = match &rec.region {
                Some(g) => g.as_str(),
                None => region,
            };
            let mut u = chars_of("https://oidc.");
            append_str(&mut u, reg);
            append_str(&mut u, ".amazonaws.com/token");
            Some(RefreshPlan {
                url: string_of(u.as_slice()),
                client_id: cid.clone(),
                client_secret: cs.clone(),
                refresh_token: rt.clone(),
            })
        },
        _ => None,
    }
}

/// A JSON string value.
fn jstr(s: &str) -> (r: Json)
    ensures
        r matches Json::Str(t) && t@ == s@,
{
    Json::Str(owned(s))
}

/// The body of the `refresh_token` grant.
pub fn refresh_body(plan: &RefreshPlan) -> (r: Json)
    ensures
        str_field(r, "clientId"@) == Some(plan.client_id@),
        str_field(r, "clientSecret"@) == Some(plan.client_secret@),
        str_field(r, "grantType"@) == Some("refresh_token"@),
        str_field(r, "refreshToken"@) == Some(plan.refresh_token@),
{
    let mut es: Vec<(String, Json)> = Vec::new();
    es.push((owned("clientId"), jstr(plan.client_id.as_str())));
    es.push((owned("clientSecret"), jstr(plan.client_secret.as_str())));
    es.push((owned("grantType"), jstr("refresh_token")));
    es.push((owned("refreshToken"), jstr(plan.refresh_token.as_str())));
    let r = Json::Object(es);
    proof {
        reveal_strlit("clientId");
        reveal_strlit("clientSecret");
        reveal_strlit("grantType");
        reveal_strlit("refreshToken");
        let e = es@;
        reveal_with_fuel(entries_get, 5);
        assert("clientSecret"@[0] != "refreshToken"@[0]);
        assert(e[0].0@ == "clientId"@);
        assert(e[1].0@ == "clientSecret"@);
        assert(e[2].0@ == "grantType"@);
        assert(e[3].0@ == "refreshToken"@);
        assert(entries_get(e, "clientId"@) == Some(e[0].1));
        assert(e.drop_first()[0] == e[1]);
        assert(entries_get(e.drop_first(), "clientSecret"@) == Some(e[1].1));
        assert(e.drop_first().drop_first()[0] == e[2]);
        assert(entries_get(e.drop_first().drop_first(), "grantType"@) == Some(e[2].1));
        assert(e.drop_first().drop_first().drop_first()[0] == e[3]);
        assert(entries_get(e.drop_first().drop_first().drop_first(), "refreshToken"@) == Some(e[3].1));
    }
    r
}

/// `es` with `key` set to `v`: the first entry for the key gets the value,
/// or the entry is added at the end.
pub open spec fn entries_set(es: Seq<(String, Json)>, key: String, v: Json) -> Seq<(String, Json)>
    decreases es.len(),
{
    if es.len() == 0 {
        seq![(key, v)]
    } else if es[0].0@ == key@ {
        seq![(es[0].0, v)] + es.drop_first()
    } else {
        seq![es[0]] + entries_set(es.drop_first(), key, v)
    }
}

/// After setting `key`, it reads back the value set and every other key
/// reads as before.
pub proof fn lemma_entries_set(es: Seq<(String, Json)>, key: String, v: Json)
    ensures
        entries_get(entries_set(es, key, v), key@) == Some(v),
        forall|k: Seq<char>| k != key@ ==> #[trigger] entries_get(entries_set(es, key, v), k) == entries_get(es, k),
    decreases es.len(),
{
    let s = entries_set(es, key, v);
    if es.len() == 0 {
        assert(s[0] == (key, v));
        assert(s.drop_first() =~= Seq::<(String, Json)>::empty());
        assert(entries_get(s.drop_first(), key@) is None);
        assert forall|k: Seq<char>| k != key@ implies #[trigger] entries_get(s, k) == entries_get(es, k) by {
            assert(entries_get(s.drop_first(), k) is None);
            assert(entries_get(es, k) is None);
        }
    } else if es[0].0@ == key@ {
        assert(s[0] == (es[0].0, v));
        assert(s.drop_first() =~= es.drop_first());
        assert forall|k: Seq<char>| k != key@ implies #[trigger] entries_get(s, k) == entries_get(es, k) by {}
    } else {
        lemma_entries_set(es.drop_first(), key, v);
        assert(s[0] == es[0]);
        assert(s.drop_first() =~= entries_set(es.drop_first(), key, v));
        assert forall|k: Seq<char>| k != key@ implies #[trigger] entries_get(s, k) == entries_get(es, k) by {
            if k != es[0].0@ {
                assert(entries_get(s.drop_first(), k) == entries_get(es.drop_first(), k));
            }
        }
    }
}

fn set_entry(es: Vec<(String, Json)>, key: &str, v: Json) -> (r: Vec<(String, Json)>)
    ensures
        exists|k: String| k@ == key@ && #[trigger] entries_set(es@, k, v) == r@,
{
    let ghost all = es@;
    let k = owned(key);
    let mut m: usize = 0;
    while m < es.len() && !str_eq(es[m].0.as_str(), key)
        invariant
            m <= es@.len(),
            es@ == all,
            forall|j: int| 0 <= j < m ==> #[trigger] all[j].0@ != key@,
        decreases es.len() - m,
    {
        m += 1;
    }
    let mut es = es;
    proof {
        lemma_set_shape(all, k, v);
    }
    if m < es.len() {
        let (ok, _old) = es.remove(m);
        es.insert(m, (ok, v));
        proof {
            assert(es@ =~= all.take(m as int) + seq![(all[m as int].0, v)] + all.skip(m + 1));
        }
    } else {
        es.push((k, v));
    }
    es
}

/// `entries_set` replaces the first entry for the key, or appends.
#[verifier::spinoff_prover]
#[verifier::rlimit(40)]
proof fn lemma_set_shape(es: Seq<(String, Json)>, key: String, v: Json)
    ensures
        (forall|j: int| 0 <= j < es.len() ==> #[trigger] es[j].0@ != key@) ==> entries_set(es, key, v) == es.push((key, v)),
        forall|m: int|
            0 <= m < es.len() && es[m].0@ == key@ && (forall|j: int| 0 <= j < m ==> #[trigger] es[j].0@ != key@)
                ==> #[trigger] entries_set(es, key, v) == es.take(m) + seq![(es[m].0, v)] + es.skip(m + 1),
    decreases es.len(),
{
    if es.len() > 0 {
        lemma_set_shape(es.drop_first(), key, v);
        if forall|j: int| 0 <= j < es.len() ==> #[trigger] es[j].0@ != key@ {
            assert(es[0].0@ != key@);
            assert(forall|j: int| 0 <= j < es.drop_first().len() ==> #[trigger] es.drop_first()[j].0@ != key@) by {
                assert forall|j: int| 0 <= j < es.drop_first().len() implies #[trigger] es.drop_first()[j].0@ != key@ by {
                    assert(es.drop_first()[j] == es[j + 1]);
                }
            }
            assert(entries_set(es, key, v) =~= es.push((key, v)));
        }
        assert forall|m: int|
            0 <= m < es.len() && es[m].0@ == key@ && (forall|j: int| 0 <= j < m ==> #[trigger] es[j].0@ != key@)
                implies #[trigger] entries_set(es, key, v) == es.take(m) + seq![(es[m].0, v)] + es.skip(m + 1) by {
            if m == 0 {
                assert(entries_set(es, key, v) =~= es.take(m) + seq![(es[m].0, v)] + es.skip(m + 1));
            } else {
                let d = es.drop_first();
                assert(es[0].0@ != key@);
                assert(d[m - 1] == es[m]);
                assert forall|j: int| 0 <= j < m - 1 implies #[trigger] d[j].0@ != key@ by {
                    assert(d[j] == es[j + 1]);
                }
                assert(entries_set(d, key, v) == d.take(m - 1) + seq![(d[m - 1].0, v)] + d.skip(m));
                assert(entries_set(es, key, v) =~= es.take(m) + seq![(es[m].0, v)] + es.skip(m + 1));
            }
        }
    } else {
        assert(entries_set(es, key, v) =~= es.push((key, v)));
    }
}

/// `o` is the token cache entry `v` after a refresh: an object with
/// `accessToken` and `expiresAt` replaced, `refreshToken` set when a new one
/// came back (else as it was), and every other key as it was.
pub open spec fn token_updated(v: Json, o: Json, access: Seq<char>, expires: Seq<char>, refresh: Option<Seq<char>>) -> bool {
    &&& o is Object
    &&& str_field(o, "accessToken"@) == Some(access)
    &&& str_field(o, "expiresAt"@) == Some(expires)
    &&& (refresh matches Some(t) ==> str_field(o, "refreshToken"@) == Some(t))
    &&& (refresh is None ==> json_get(o, "refreshToken"@) == json_get(v, "refreshToken"@))
    &&& forall|k: Seq<char>|
        k != "accessToken"@ && k != "expiresAt"@ && k != "refreshToken"@ ==> #[trigger] json_get(o, k) == json_get(v, k)
}

/// The token cache entry `v` after a refresh, as `token_updated` says;
/// `None` when `v` is not an object (the file is then left as it is).
pub fn update_token_value(v: Json, access_token: &str, expires_at: &str, refresh: Option<&str>) -> (r: Option<Json>)
    ensures
        !(v is Object) <==> r is None,
        r matches Some(o) ==> token_updated(v, o, access_token@, expires_at@, opt_str(refresh)),
{
    match v {
        Json::Object(es) => {
            let ghost e0 = es@;
            proof {
                reveal_strlit("accessToken");
                reveal_strlit("expiresAt");
                reveal_strlit("refreshToken");
            }
            let a = jstr(access_token);
            let ghost av = a;
            let es1 = set_entry(es, "accessToken", a);
            let ghost e1 = es1@;
            proof {
                let k1 = choose|k: String| k@ == "accessToken"@ && #[trigger] entries_set(e0, k, av) == e1;
                lemma_entries_set(e0, k1, av);
                assert(entries_get(e1, "accessToken"@) == Some(av));
                assert forall|k: Seq<char>| k != "accessToken"@ implies #[trigger] entries_get(e1, k) == entries_get(e0, k) by {
                    assert(entries_get(entries_set(e0, k1, av), k) == entries_get(e0, k));
                }
            }
            let x = jstr(expires_at);
            let ghost xv = x;
            let es2 = set_entry(es1, "expiresAt", x);
            let ghost e2 = es2@;
            proof {
                let k2 = choose|k: String| k@ == "expiresAt"@ && #[trigger] entries_set(e1, k, xv) == e2;
                lemma_entries_set(e1, k2, xv);
                assert(entries_get(e2, "expiresAt"@) == Some(xv));
                assert forall|k: Seq<char>| k != "expiresAt"@ implies #[trigger] entries_get(e2, k) == entries_get(e1, k) by {
                    assert(entries_get(entries_set(e1, k2, xv), k) == entries_get(e1, k));
                }
                reveal_strlit("accessToken");
                reveal_strlit("expiresAt");
                assert("accessToken"@.len() != "expiresAt"@.len());
            }
            let es3 = match refresh {
                Some(t) => {
                    let rt = jstr(t);
                    let ghost rv = rt;
                    let es3 = set_entry(es2, "refreshToken", rt);
                    proof {
                        let k3 = choose|k: String| k@ == "refreshToken"@ && #[trigger] entries_set(e2, k, rv) == es3@;
                        lemma_entries_set(e2, k3, rv);
                        assert(entries_get(es3@, "refreshToken"@) == Some(rv));
                        assert forall|k: Seq<char>| k != "refreshToken"@ implies #[trigger] entries_get(es3@, k) == entries_get(e2, k) by {
                            assert(entries_get(entries_set(e2, k3, rv), k) == entries_get(e2, k));
                        }
                        reveal_strlit("accessToken");
                        reveal_strlit("expiresAt");
                        reveal_strlit("refreshToken");
                        assert("accessToken"@.len() != "refreshToken"@.len());
                        assert("expiresAt"@.len() != "refreshToken"@.len());
                    }
                    es3
                },
                None => es2,
            };
            Some(Json::Object(es3))
        },
        _ => None,
    }
}

/// The text of a token cache file after a refresh: when the text is a JSON
/// object, the print of the updated entry; otherwise the text as it was.
pub open spec fn token_text_updated(original: Seq<char>, r: Seq<char>, access: Seq<char>, expires: Seq<char>, refresh: Option<Seq<char>>) -> bool {
    match json_parse(original) {
        Some(v) => if v is Object {
            exists|o: Json| #[trigger] token_updated(v, o, access, expires, refresh) && r == json_print(o)
        } else {
            r == original
        },
        None => r == original,
    }
}

/// Rewrite a token cache file's text after a refresh: `accessToken` and
/// `expiresAt` replaced, `refreshToken` set when `refresh` is given, every
/// other key kept; text that is not a JSON object comes back unchanged.
pub fn update_token_json(original: &str, access_token: &str, expires_at: &str, refresh: Option<&str>) -> (r: String)
    ensures
        token_text_updated(original@, r@, access_token@, expires_at@, opt_str(refresh)),
{
    match parse_json(original) {
        Some(v) => {
            let ghost v0 = v;
            match update_token_value(v, access_token, expires_at, refresh) {
                Some(o) => {
                    let r = print_json(&o);
                    proof {
                        assert(token_updated(v0, o, access_token@, expires_at@, opt_str(refresh)));
                    }
                    r
                },
                None => owned(original),
            }
        },
        None => owned(original),
    }
}

/// The SSO portal endpoint for a region.
pub open spec fn portal_spec(region: Seq<char>) -> Seq<char> {
    "https://portal.sso."@ + region + ".amazonaws.com"@
}

/// The SSO portal endpoint for a region (the host `aws sso` talks to).
pub fn portal(region: &str) -> (r: String)
    ensures
        r@ == portal_spec(region@),
{
    let mut u = chars_of("https://portal.sso.");
    append_str(&mut u, region);
    append_str(&mut u, ".amazonaws.com");
    string_of(u.as_slice())
}

/// The portal's account list endpoint.
pub fn accounts_url(region: &str) -> (r: String)
    ensures
        r@ == portal_spec(region@) + "/assignment/accounts"@,
{
    let p = portal(region);
    let mut u = chars_of(p.as_str());
    append_str(&mut u, "/assignment/accounts");
    string_of(u.as_slice())
}

/// The portal's role list endpoint.
pub fn roles_url(region: &str) -> (r: String)
    ensures
        r@ == portal_spec(region@) + "/assignment/roles"@,
{
    let p = portal(region);
    let mut u = chars_of(p.as_str());
    append_str(&mut u, "/assignment/roles");
    string_of(u.as_slice())
}

/// An expired or invalid SSO token: the portal answered 401 or 403. The
/// caller responds by renewing the token and retrying.
#[derive(Debug, Clone, Copy, PartialEq, Eq, Structural)]
pub struct Unauthorized;

impl Unauthorized {
    /// The message shown for it.
    pub fn message(&self) -> (r: String)
        ensures
            r@ == "SSO token is unauthorized (expired)"@,
    {
        owned("SSO token is unauthorized (expired)")
    }
}

/// Whether a portal answer's HTTP status means the token is expired or
/// invalid (401 or 403).
pub fn unauthorized_status(code: u16) -> (r: bool)
    ensures
        r == (code == 401 || code == 403),
{
    code == 401 || code == 403
}

/// The header carrying the SSO bearer token.
pub const BEARER_HEADER: &'static str = "x-amz-sso_bearer_token";

/// The page size asked of the portal.
pub const PAGE_SIZE: &'static str = "100";

/// The token for the next page: a non-empty `nextToken`, else none (the
/// listing is complete).
pub fn next_page(token: Option<String>) -> (r: Option<String>)
    ensures
        match token {
            Some(t) => if t@.len() > 0 { r == Some(t) } else { r is None },
            None => r is None,
        },
{
    match token {
        Some(t) => {
            if t.as_str().is_empty() {
                None
            } else {
                Some(t)
            }
        },
        None => None,
    }
}

/// The new `expiresAt` after a refresh: `expires_in` seconds after `now`.
pub fn refreshed_expiry(now: i64, expires_in: i64) -> (r: String)
    requires
        i64::MIN <= now + expires_in <= i64::MAX,
    ensures
        r@ == rfc3339(now + expires_in),
{
    unix_to_rfc3339(now + expires_in)
}

/// The SSO-OIDC endpoint's answer to a refresh request.
pub enum RefreshReply {
    /// An error status: the refresh token was refused (expired or revoked).
    Refused,
    /// A new access token, valid for `expires_in` seconds, and possibly a new
    /// refresh token.
    Granted { access_token: String, expires_in: i64, refresh_token: Option<String> },
}

/// What an answered refresh comes to: the new token (none when refused, so
/// the caller logs in), and the new text of the token's cache file when a
/// token came and the file could be read.
pub struct RefreshOutcome {
    pub token: Option<String>,
    pub cache_text: Option<String>,
}

/// Act on the endpoint's answer at time `now`, with the cache file's text
/// `cached` (none when it could not be read): a refused refresh gives no
/// token and leaves the file; a granted one gives its token, and the file's
/// text with the new token, its expiry `now + expires_in` and any new
/// refresh token.
pub fn refresh_outcome(reply: RefreshReply, now: i64, cached: Option<&str>) -> (r: RefreshOutcome)
    requires
        reply matches RefreshReply::Granted { expires_in, .. } ==> i64::MIN <= now + expires_in <= i64::MAX,
    ensures
        match reply {
            RefreshReply::Refused => r.token is None && r.cache_text is None,
            RefreshReply::Granted { access_token, expires_in, refresh_token } => {
                &&& opt_string(r.token) == Some(access_token@)
                &&& match cached {
                    Some(o) => r.cache_text matches Some(t) && token_text_updated(
                        o@,
                        t@,
                        access_token@,
                        rfc3339(now + expires_in),
                        opt_string(refresh_token),
                    ),
                    None => r.cache_text is None,
                }
            },
        },
{
    match reply {
        RefreshReply::Refused => RefreshOutcome { token: None, cache_text: None },
        RefreshReply::Granted { access_token, expires_in, refresh_token } => {
            let cache_text = match cached {
                Some(o) => {
                    let expires = refreshed_expiry(now, expires_in);
                    let rt: Option<&str> = match &refresh_token {
                        Some(t) => Some(t.as_str()),
                        None => None,
                    };
                    Some(update_token_json(o, access_token.as_str(), expires.as_str(), rt))
                },
                None => None,
            };
            RefreshOutcome { token: Some(access_token), cache_text }
        },
    }
}

/// The section header of a profile: `[default]`, or `[profile NAME]`.
pub open spec fn profile_header_spec(profile: Seq<char>) -> Seq<char> {
    if profile == "default"@ {
        "[default]"@
    } else {
        "[profile "@ + profile + "]"@
    }
}

/// The section header the AWS CLI uses for `profile`.
pub fn profile_header(profile: &str) -> (r: String)
    ensures
        r@ == profile_header_spec(profile@),
{
    if str_eq(profile, "default") {
        owned("[default]")
    } else {
        let mut h = chars_of("[profile ");
        append_str(&mut h, profile);
        append_str(&mut h, "]");
        string_of(h.as_slice())
    }
}

} // verus!
