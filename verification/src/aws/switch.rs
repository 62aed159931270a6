//! `aws-switch`'s choices: its configuration, which accounts are offered and
//! how they read, which role is taken, what is written to the profile, and
//! when the token is renewed and a call retried.

use vstd::prelude::*;
use crate::aws::sso::CachedToken;
use crate::text::{append_str, chars_of, owned, pad_right, pad_right_str, str_eq, string_of, strings_v};

verus! {

/// The tool's configuration.
#[derive(Debug, Clone)]
pub struct Config {
    /// SSO session name in `~/.aws/config`.
    pub sso_session: String,
    /// Profile to overwrite.
    pub profile: String,
    /// Fallback SSO region if `~/.aws/config` doesn't specify one.
    pub region: String,
    /// Account names to hide from the picker.
    pub exclude_accounts: Vec<String>,
    /// If set and available, take this role instead of prompting.
    pub default_role: Option<String>,
    /// How long a cached account list stays fresh, in seconds (0 disables caching).
    pub cache_ttl_secs: u64,
}

impl Default for Config {
    fn default() -> (r: Self)
        ensures
            r.sso_session@ == "session"@,
            r.profile@ == "default"@,
            r.region@ == "eu-west-1"@,
            r.exclude_accounts@.len() == 0,
            r.default_role is None,
            r.cache_ttl_secs == 43_200,
    {
        Config {
            sso_session: owned("session"),
            profile: owned("default"),
            region: owned("eu-west-1"),
            exclude_accounts: Vec::new(),
            default_role: None,
            cache_ttl_secs: 43_200,
        }
    }
}

/// An AWS account from the SSO portal's account list.
#[derive(Debug, Clone)]
pub struct Account {
    pub account_id: String,
    pub account_name: String,
}

/// An account as name and id.
pub open spec fn account_v(a: Account) -> (Seq<char>, Seq<char>) {
    (a.account_name@, a.account_id@)
}

/// The accounts as names and ids.
pub open spec fn accounts_v(v: Seq<Account>) -> Seq<(Seq<char>, Seq<char>)> {
    v.map_values(|a: Account| account_v(a))
}

/// The first `n` accounts whose names are not excluded, in order.
pub open spec fn kept_accounts(v: Seq<Account>, exclude: Seq<Seq<char>>, n: int) -> Seq<(Seq<char>, Seq<char>)>
    decreases n,
{
    if n <= 0 {
        seq![]
    } else if exclude.contains(v[n - 1].account_name@) {
        kept_accounts(v, exclude, n - 1)
    } else {
        kept_accounts(v, exclude, n - 1).push(account_v(v[n - 1]))
    }
}

/// What hiding accounts keeps: no account with an excluded name, only
/// accounts of the list, and, when nothing is excluded, the whole list in
/// its order.
pub proof fn lemma_kept_accounts(v: Seq<Account>, exclude: Seq<Seq<char>>, n: int)
    requires
        0 <= n <= v.len(),
    ensures
        forall|k: int| #![trigger kept_accounts(v, exclude, n)[k]] 0 <= k < kept_accounts(v, exclude, n).len() ==> {
            &&& !exclude.contains(kept_accounts(v, exclude, n)[k].0)
            &&& exists|j: int| 0 <= j < n && #[trigger] account_v(v[j]) == kept_accounts(v, exclude, n)[k]
        },
        kept_accounts(v, exclude, n).len() <= n,
        exclude.len() == 0 ==> kept_accounts(v, exclude, n) == accounts_v(v).take(n),
    decreases n,
{
    if n > 0 {
        lemma_kept_accounts(v, exclude, n - 1);
        let prev = kept_accounts(v, exclude, n - 1);
        let cur = kept_accounts(v, exclude, n);
        assert forall|k: int| #![trigger cur[k]] 0 <= k < cur.len() implies {
            &&& !exclude.contains(cur[k].0)
            &&& exists|j: int| 0 <= j < n && #[trigger] account_v(v[j]) == cur[k]
        } by {
            if k < prev.len() {
                assert(cur[k] == prev[k]);
            } else {
                assert(cur[k] == account_v(v[n - 1]));
            }
        }
        if exclude.len() == 0 {
            assert(!exclude.contains(v[n - 1].account_name@));
            assert(accounts_v(v).take(n) =~= accounts_v(v).take(n - 1).push(account_v(v[n - 1])));
        }
    } else {
        assert(accounts_v(v).take(0) =~= Seq::<(Seq<char>, Seq<char>)>::empty());
    }
}

fn contains_str(v: &Vec<String>, s: &str) -> (r: bool)
    ensures
        r == strings_v(v@).contains(s@),
{
    let mut i: usize = 0;
    while i < v.len()
        invariant
            i <= v@.len(),
            forall|j: int| 0 <= j < i ==> #[trigger] v@[j]@ != s@,
        decreases v.len() - i,
    {
        if str_eq(v[i].as_str(), s) {
            proof {
                assert(strings_v(v@)[i as int] == s@);
            }
            return true;
        }
        i += 1;
    }
    proof {
        if strings_v(v@).contains(s@) {
            let j = choose|j: int| 0 <= j < strings_v(v@).len() && strings_v(v@)[j] == s@;
            assert(v@[j]@ == s@);
        }
    }
    false
}

/// Hide the excluded accounts (by name), keeping the order.
pub fn filter_accounts(accounts: Vec<Account>, exclude: &Vec<String>) -> (r: Vec<Account>)
    ensures
        accounts_v(r@) == kept_accounts(accounts@, strings_v(exclude@), accounts@.len() as int),
{
    let ghost all = accounts@;
    let mut rest = accounts;
    let mut out: Vec<Account> = Vec::new();
    let ghost mut n: int = 0;
    while rest.len() > 0
        invariant
            0 <= n <= all.len(),
            rest@ == all.skip(n),
            accounts_v(out@) == kept_accounts(all, strings_v(exclude@), n),
        decreases rest.len(),
    {
        let a = rest.remove(0);
        proof {
            assert(all.skip(n)[0] == all[n]);
            assert(rest@ =~= all.skip(n + 1));
        }
        if !contains_str(exclude, a.account_name.as_str()) {
            let ghost before = out@;
            out.push(a);
            proof {
                assert(accounts_v(out@) =~= accounts_v(before).push(account_v(all[n])));
            }
        }
        proof {
            n = n + 1;
        }
    }
    proof {
        assert(all.skip(n).len() == 0);
    }
    out
}

/// How an account reads in the picker: the name padded to 35 columns, a
/// space, the id.
pub open spec fn account_label_spec(a: Account) -> Seq<char> {
    pad_right(a.account_name@, 35) + " "@ + a.account_id@
}

/// The accounts to offer after hiding the excluded ones; when none is left
/// the run stops with `no accounts available`.
pub fn offered_accounts(accounts: Vec<Account>, exclude: &Vec<String>) -> (r: Result<Vec<Account>, String>)
    ensures
        match r {
            Ok(v) => accounts_v(v@) == kept_accounts(accounts@, strings_v(exclude@), accounts@.len() as int)
                && v@.len() > 0,
            Err(m) => kept_accounts(accounts@, strings_v(exclude@), accounts@.len() as int).len() == 0
                && m@ == "no accounts available"@,
        },
{
    let v = filter_accounts(accounts, exclude);
    if v.len() == 0 {
        Err(owned("no accounts available"))
    } else {
        Ok(v)
    }
}

/// The process exit code of a run: 0 when the profile was switched, 1 when
/// the user cancelled a picker or there was no role to pick (nothing
/// changed).
pub fn exit_code(switched: bool) -> (r: u8)
    ensures
        r == (if switched { 0u8 } else { 1u8 }),
{
    if switched {
        0
    } else {
        1
    }
}

/// The picker label of an account.
pub fn account_label(a: &Account) -> (r: String)
    ensures
        r@ == account_label_spec(*a),
{
    let p = pad_right_str(a.account_name.as_str(), 35);
    let mut t = chars_of(p.as_str());
    append_str(&mut t, " ");
    append_str(&mut t, a.account_id.as_str());
    string_of(t.as_slice())
}

/// How the role is settled.
#[derive(Debug)]
pub enum RoleChoice {
    /// There are no roles.
    NoRoles,
    /// The only role.
    Only(String),
    /// The configured default role, which is available.
    Default(String),
    /// Ask the user to pick among these.
    Ask(Vec<String>),
}

/// Take the role without asking when there is a single one, or when the
/// configured default role is among them; otherwise ask.
pub fn select_role(roles: Vec<String>, default_role: Option<&str>) -> (r: RoleChoice)
    ensures
        roles@.len() == 0 ==> r is NoRoles,
        roles@.len() == 1 ==> (r matches RoleChoice::Only(s) && s@ == roles@[0]@),
        roles@.len() > 1 && (default_role matches Some(d) && strings_v(roles@).contains(d@))
            ==> (r matches RoleChoice::Default(s) && s@ == default_role->0@),
        roles@.len() > 1 && !(default_role matches Some(d) && strings_v(roles@).contains(d@))
            ==> (r matches RoleChoice::Ask(v) && v@ == roles@),
{
    if roles.len() == 0 {
        return RoleChoice::NoRoles;
    }
    if roles.len() == 1 {
        let mut roles = roles;
        let only = roles.remove(0);
        return RoleChoice::Only(only);
    }
    match default_role {
        Some(want) => {
            if contains_str(&roles, want) {
                return RoleChoice::Default(owned(want));
            }
        },
        None => {},
    }
    RoleChoice::Ask(roles)
}

/// The cache key of the account list for a session.
pub fn cache_key(session: &str) -> (r: String)
    ensures
        r@ == "accounts-"@ + session@,
{
    let mut t = chars_of("accounts-");
    append_str(&mut t, session);
    string_of(t.as_slice())
}

/// Whether the cached account list may be used: not when a refetch was asked
/// for, nor when caching is off (a TTL of 0).
pub fn use_cache(refresh: bool, ttl_secs: u64) -> (r: bool)
    ensures
        r == (!refresh && ttl_secs != 0),
{
    !refresh && ttl_secs != 0
}

/// A cached list counts only when it is not empty.
pub fn usable_cached(cached: Option<Vec<Account>>) -> (r: Option<Vec<Account>>)
    ensures
        match cached {
            Some(v) => if v@.len() > 0 { r == Some(v) } else { r is None },
            None => r is None,
        },
{
    match cached {
        Some(v) => {
            if v.len() > 0 {
                Some(v)
            } else {
                None
            }
        },
        None => None,
    }
}

/// The region to use: the session's own, else the configured fallback.
pub fn session_region(found: Option<String>, fallback: &str) -> (r: String)
    ensures
        r@ == match found {
            Some(g) => g@,
            None => fallback@,
        },
{
    match found {
        Some(g) => g,
        None => owned(fallback),
    }
}

/// What is written to the profile, in order: session, account id, account
/// name, role and region.
pub fn profile_entries(session: &str, account: &Account, role: &str, region: &str) -> (r: Vec<(String, String)>)
    ensures
        r@.len() == 5,
        r@[0].0@ == "sso_session"@ && r@[0].1@ == session@,
        r@[1].0@ == "sso_account_id"@ && r@[1].1@ == account.account_id@,
        r@[2].0@ == "sso_account_name"@ && r@[2].1@ == account.account_name@,
        r@[3].0@ == "sso_role_name"@ && r@[3].1@ == role@,
        r@[4].0@ == "region"@ && r@[4].1@ == region@,
{
    let mut v: Vec<(String, String)> = Vec::new();
    v.push((owned("sso_session"), owned(session)));
    v.push((owned("sso_account_id"), account.account_id.clone()));
    v.push((owned("sso_account_name"), account.account_name.clone()));
    v.push((owned("sso_role_name"), owned(role)));
    v.push((owned("region"), owned(region)));
    v
}

/// The closing line: account name, id, role and region, two spaces apart.
pub fn summary_line(account: &Account, role: &str, region: &str) -> (r: String)
    ensures
        r@ == account.account_name@ + "  "@ + account.account_id@ + "  "@ + role@ + "  "@ + region@,
{
    let mut t = chars_of(account.account_name.as_str());
    append_str(&mut t, "  ");
    append_str(&mut t, account.account_id.as_str());
    append_str(&mut t, "  ");
    append_str(&mut t, role);
    append_str(&mut t, "  ");
    append_str(&mut t, region);
    string_of(t.as_slice())
}

/// What a call that needs the SSO token does next.
#[derive(Debug)]
pub enum RetryAction {
    /// Renew the token (silent refresh, else login).
    Renew,
    /// Make the call with this token.
    Call(String),
    /// Give up with this message.
    Fail(String),
    /// Hand back the call's result as it is.
    Finish,
}

/// A call made with the SSO token, renewed first when there is none, and
/// renewed once and retried when the token turns out to be expired.
#[derive(Debug)]
pub struct LoginRetry {
    /// The call was already retried after a renewal.
    pub retried: bool,
}

/// The message when no token is there after renewing.
pub open spec fn no_token_msg(retried: bool) -> Seq<char> {
    if retried {
        "could not read SSO token after renewal"@
    } else {
        "no SSO token available"@
    }
}

impl LoginRetry {
    /// Begin with the token at hand: call with it, or renew when there is none.
    pub fn start(token: &Option<String>) -> (r: (LoginRetry, RetryAction))
        ensures
            !r.0.retried,
            match token {
                Some(t) => r.1 matches RetryAction::Call(s) && s@ == t@,
                None => r.1 is Renew,
            },
    {
        let st = LoginRetry { retried: false };
        match token {
            Some(t) => (st, RetryAction::Call(t.clone())),
            None => (st, RetryAction::Renew),
        }
    }

    /// After renewing: call with the new token, or fail when there is none.
    pub fn renewed(&self, token: &Option<String>) -> (r: RetryAction)
        ensures
            match token {
                Some(t) => r matches RetryAction::Call(s) && s@ == t@,
                None => r matches RetryAction::Fail(m) && m@ == no_token_msg(self.retried),
            },
    {
        match token {
            Some(t) => RetryAction::Call(t.clone()),
            None => {
                if self.retried {
                    RetryAction::Fail(owned("could not read SSO token after renewal"))
                } else {
                    RetryAction::Fail(owned("no SSO token available"))
                }
            },
        }
    }

    /// After a call: an expired token on the first call renews and retries
    /// once; anything else is the result.
    pub fn called(&mut self, unauthorized: bool) -> (r: RetryAction)
        ensures
            (unauthorized && !old(self).retried) ==> r is Renew && final(self).retried,
            !(unauthorized && !old(self).retried) ==> r is Finish && final(self).retried == old(self).retried,
    {
        if unauthorized && !self.retried {
            self.retried = true;
            RetryAction::Renew
        } else {
            RetryAction::Finish
        }
    }
}

/// The next step of renewing the token.
#[derive(Debug)]
pub enum RenewStep {
    /// Try a silent refresh of this cached record.
    Refresh(CachedToken),
    /// Fall back to the browser login, then read the cache again.
    Login,
    /// The new token.
    Done(String),
}

/// After reading the cache: a record is refreshed silently; without one,
/// log in.
pub fn renew_with(rec: Option<CachedToken>) -> (r: RenewStep)
    ensures
        match rec {
            Some(c) => r matches RenewStep::Refresh(d) && d == c,
            None => r is Login,
        },
{
    match rec {
        Some(c) => RenewStep::Refresh(c),
        None => RenewStep::Login,
    }
}

/// After a silent refresh: its new token, or a login when it was refused.
pub fn after_refresh(new_token: Option<String>) -> (r: RenewStep)
    ensures
        match new_token {
            Some(t) => r matches RenewStep::Done(s) && s == t,
            None => r is Login,
        },
{
    match new_token {
        Some(t) => RenewStep::Done(t),
        None => RenewStep::Login,
    }
}

} // verus!
