use dev_tools::aws::ini::{line_key, update_ini};
use dev_tools::aws::sso::{
    accounts_url, next_page, portal, profile_header, read_sso_session, read_token,
    read_token_record, refresh_body, refresh_plan, refreshed_expiry, roles_url,
    refresh_outcome, unauthorized_status, update_token_json, update_token_value, CachedToken,
    RefreshReply, Unauthorized,
};
use dev_tools::aws::switch::{
    account_label, cache_key, exit_code, filter_accounts, offered_accounts, profile_entries, select_role, session_region,
    summary_line, use_cache, usable_cached, after_refresh, renew_with, Account, Config,
    LoginRetry, RenewStep, RetryAction, RoleChoice,
};
use dev_tools::aws::time::unix_to_rfc3339;
use dev_tools::json::{parse_json, print_json, Json};

#[test]
fn unix_to_rfc3339_formats_known_timestamps() {
    assert_eq!(unix_to_rfc3339(1_782_031_946), "2026-06-21T08:52:26Z");
    assert_eq!(unix_to_rfc3339(0), "1970-01-01T00:00:00Z");
    assert_eq!(unix_to_rfc3339(1_583_020_800), "2020-03-01T00:00:00Z");
}

#[test]
fn unix_to_rfc3339_handles_negative_and_leap_days() {
    assert_eq!(unix_to_rfc3339(-1), "1969-12-31T23:59:59Z");
    assert_eq!(unix_to_rfc3339(951_782_400), "2000-02-29T00:00:00Z");
    assert_eq!(unix_to_rfc3339(4_107_542_399), "2100-02-28T23:59:59Z");
    assert_eq!(unix_to_rfc3339(4_107_542_400), "2100-03-01T00:00:00Z");
}

#[test]
fn update_token_json_replaces_fields_and_preserves_others() {
    let original = r#"{"startUrl":"https://x/start","region":"eu-west-1","accessToken":"OLD","expiresAt":"2020-01-01T00:00:00Z","refreshToken":"OLDR","clientId":"cid"}"#;
    let out = update_token_json(original, "NEW", "2026-06-21T08:52:26Z", Some("NEWR"));
    let v: serde_json::Value = serde_json::from_str(&out).unwrap();
    assert_eq!(v["accessToken"], "NEW");
    assert_eq!(v["expiresAt"], "2026-06-21T08:52:26Z");
    assert_eq!(v["refreshToken"], "NEWR");
    assert_eq!(v["startUrl"], "https://x/start");
    assert_eq!(v["region"], "eu-west-1");
    assert_eq!(v["clientId"], "cid");
}

#[test]
fn update_token_json_keeps_old_refresh_when_none() {
    let original = r#"{"accessToken":"OLD","expiresAt":"2020-01-01T00:00:00Z","refreshToken":"KEEP"}"#;
    let out = update_token_json(original, "NEW", "2026-06-21T08:52:26Z", None);
    let v: serde_json::Value = serde_json::from_str(&out).unwrap();
    assert_eq!(v["accessToken"], "NEW");
    assert_eq!(v["refreshToken"], "KEEP");
}

#[test]
fn update_token_json_passes_through_non_object() {
    assert_eq!(update_token_json("not json", "N", "E", None), "not json");
}

#[test]
fn updates_existing_keys_in_place_and_preserves_others() {
    let original = "\
[profile dev]
sso_account_id = 111
[default]
sso_account_id = 111
region = eu-west-1
[sso-session session]
sso_region = eu-west-1
";
    let got = update_ini(
        original,
        "[default]",
        &[("sso_account_id", "222"), ("region", "us-east-1")],
    );
    assert_eq!(
        got,
        "\
[profile dev]
sso_account_id = 111
[default]
sso_account_id = 222
region = us-east-1
[sso-session session]
sso_region = eu-west-1
"
    );
}

#[test]
fn appends_missing_keys_to_the_section() {
    let original = "[default]\nregion = eu-west-1\n[other]\nx = 1\n";
    let got = update_ini(original, "[default]", &[("sso_role_name", "DevOps")]);
    assert_eq!(
        got,
        "[default]\nregion = eu-west-1\nsso_role_name = DevOps\n[other]\nx = 1\n"
    );
}

#[test]
fn creates_section_when_absent() {
    let got = update_ini("[other]\nx = 1\n", "[default]", &[("region", "eu-west-1")]);
    assert_eq!(got, "[other]\nx = 1\n[default]\nregion = eu-west-1\n");
}

#[test]
fn non_default_profile_uses_profile_prefix_section() {
    let got = update_ini("", "[profile work]", &[("region", "eu-west-1")]);
    assert_eq!(got, "[profile work]\nregion = eu-west-1\n");
}

#[test]
fn update_ini_reads_back_what_it_wrote() {
    let first = update_ini("[default]\nregion = a\n", "[default]", &[("region", "b"), ("x", "1")]);
    let again = update_ini(&first, "[default]", &[("region", "b"), ("x", "1")]);
    assert_eq!(first, "[default]\nregion = b\nx = 1\n");
    assert_eq!(again, first);
}

#[test]
fn line_key_reads_keys_only() {
    assert_eq!(line_key("  region = eu-west-1"), Some("region".to_string()));
    assert_eq!(line_key("[default]"), None);
    assert_eq!(line_key("no equals"), None);
}

#[test]
fn profile_header_picks_default_or_profile() {
    assert_eq!(profile_header("default"), "[default]");
    assert_eq!(profile_header("work"), "[profile work]");
}

#[test]
fn sso_session_block_is_read() {
    let text = "[default]\nsso_region = xx\n[sso-session session]\n sso_region = eu-west-1 \nsso_start_url= https://s/start\n[other]\nsso_region = yy\n";
    let (region, url) = read_sso_session(text, "session");
    assert_eq!(region.as_deref(), Some("eu-west-1"));
    assert_eq!(url.as_deref(), Some("https://s/start"));
    assert_eq!(read_sso_session(text, "missing"), (None, None));
}

fn token_file(path: &str, body: &str) -> (String, String) {
    (path.to_string(), body.to_string())
}

#[test]
fn freshest_token_is_chosen() {
    let files = vec![
        token_file("a.json", r#"{"accessToken":"A","startUrl":"u","expiresAt":"2026-01-01T00:00:00Z"}"#),
        token_file("b.json", r#"{"accessToken":"B","startUrl":"u","expiresAt":"2026-06-01T00:00:00Z","refreshToken":"R","clientId":"c","clientSecret":"s"}"#),
        token_file("c.json", r#"{"accessToken":"C","startUrl":"other","expiresAt":"2027-01-01T00:00:00Z"}"#),
        token_file("d.json", r#"{"clientId":"reg","expiresAt":"2030-01-01T00:00:00Z"}"#),
        token_file("e.json", r#"{"accessToken":"E","startUrl":"u","expiresAt":"2026-06-01T00:00:00Z"}"#),
    ];
    let rec: CachedToken = read_token_record(&files, Some("u")).unwrap();
    assert_eq!(rec.access_token, "B");
    assert_eq!(rec.path, "b.json");
    assert_eq!(rec.refresh_token.as_deref(), Some("R"));
    assert_eq!(read_token(&files, None).as_deref(), Some("C"));
    assert_eq!(read_token(&files, Some("nowhere")), None);
}

#[test]
fn refresh_needs_all_material() {
    let mut rec = CachedToken {
        path: "p".to_string(),
        access_token: "A".to_string(),
        refresh_token: Some("R".to_string()),
        client_id: Some("c".to_string()),
        client_secret: Some("s".to_string()),
        region: None,
        expires_at: String::new(),
    };
    let plan = refresh_plan(&rec, "eu-west-1").unwrap();
    assert_eq!(plan.url, "https://oidc.eu-west-1.amazonaws.com/token");
    let body: serde_json::Value = serde_json::from_str(&print_json(&refresh_body(&plan))).unwrap();
    assert_eq!(body["grantType"], "refresh_token");
    assert_eq!(body["refreshToken"], "R");
    rec.region = Some("us-east-1".to_string());
    assert_eq!(refresh_plan(&rec, "eu-west-1").unwrap().url, "https://oidc.us-east-1.amazonaws.com/token");
    rec.client_secret = None;
    assert!(refresh_plan(&rec, "eu-west-1").is_none());
}

#[test]
fn portal_endpoints_and_paging() {
    assert_eq!(portal("eu-west-1"), "https://portal.sso.eu-west-1.amazonaws.com");
    assert_eq!(accounts_url("x"), "https://portal.sso.x.amazonaws.com/assignment/accounts");
    assert_eq!(roles_url("x"), "https://portal.sso.x.amazonaws.com/assignment/roles");
    assert_eq!(next_page(Some("t".to_string())), Some("t".to_string()));
    assert_eq!(next_page(Some(String::new())), None);
    assert_eq!(next_page(None), None);
    assert!(unauthorized_status(401) && unauthorized_status(403) && !unauthorized_status(500));
    assert_eq!(Unauthorized.message(), "SSO token is unauthorized (expired)");
    assert_eq!(refreshed_expiry(0, 3600), "1970-01-01T01:00:00Z");
}

fn account(name: &str, id: &str) -> Account {
    Account { account_id: id.to_string(), account_name: name.to_string() }
}

#[test]
fn accounts_are_filtered_and_labelled() {
    let kept = filter_accounts(
        vec![account("prod", "1"), account("sandbox", "2"), account("dev", "3")],
        &vec!["sandbox".to_string()],
    );
    let names: Vec<&str> = kept.iter().map(|a| a.account_name.as_str()).collect();
    assert_eq!(names, vec!["prod", "dev"]);
    assert_eq!(account_label(&account("prod", "123")), format!("{:<35} {}", "prod", "123"));
    assert_eq!(summary_line(&account("prod", "1"), "Admin", "eu"), "prod  1  Admin  eu");
}

#[test]
fn role_is_settled_without_asking_when_possible() {
    assert!(matches!(select_role(vec![], Some("x")), RoleChoice::NoRoles));
    assert!(matches!(select_role(vec!["a".into()], None), RoleChoice::Only(r) if r == "a"));
    assert!(matches!(select_role(vec!["a".into(), "b".into()], Some("b")), RoleChoice::Default(r) if r == "b"));
    assert!(matches!(select_role(vec!["a".into(), "b".into()], Some("c")), RoleChoice::Ask(v) if v.len() == 2));
}

#[test]
fn config_defaults_and_cache_use() {
    let c = Config::default();
    assert_eq!(c.sso_session, "session");
    assert_eq!(c.profile, "default");
    assert_eq!(c.region, "eu-west-1");
    assert_eq!(c.cache_ttl_secs, 43_200);
    assert_eq!(cache_key("session"), "accounts-session");
    assert!(use_cache(false, 10) && !use_cache(true, 10) && !use_cache(false, 0));
    assert!(usable_cached(Some(vec![])).is_none());
    assert_eq!(usable_cached(Some(vec![account("a", "1")])).unwrap().len(), 1);
    assert_eq!(session_region(None, "eu"), "eu");
    assert_eq!(session_region(Some("us".into()), "eu"), "us");
    let e = profile_entries("session", &account("n", "1"), "r", "g");
    assert_eq!(e[1], ("sso_account_id".to_string(), "1".to_string()));
}

#[test]
fn login_is_retried_once() {
    let (mut st, first) = LoginRetry::start(&None);
    assert!(matches!(first, RetryAction::Renew));
    assert!(matches!(st.renewed(&None), RetryAction::Fail(m) if m == "no SSO token available"));
    assert!(matches!(st.renewed(&Some("t".into())), RetryAction::Call(t) if t == "t"));
    assert!(matches!(st.called(true), RetryAction::Renew));
    assert!(matches!(st.renewed(&None), RetryAction::Fail(m) if m == "could not read SSO token after renewal"));
    assert!(matches!(st.called(true), RetryAction::Finish));
    assert!(matches!(renew_with(None), RenewStep::Login));
    assert!(matches!(after_refresh(Some("n".into())), RenewStep::Done(t) if t == "n"));
}

#[test]
fn no_account_left_stops_the_run() {
    let all = vec![account("prod", "1"), account("dev", "2")];
    let kept = offered_accounts(all.clone(), &vec!["prod".to_string()]).unwrap();
    assert_eq!(kept.len(), 1);
    assert_eq!(kept[0].account_name, "dev");
    let none = offered_accounts(all, &vec!["prod".to_string(), "dev".to_string()]);
    assert_eq!(none.unwrap_err(), "no accounts available");
    assert_eq!(offered_accounts(Vec::new(), &Vec::new()).unwrap_err(), "no accounts available");
    assert_eq!(exit_code(true), 0);
    assert_eq!(exit_code(false), 1);
}

#[test]
fn timestamps_are_fixed_width_and_sort_like_time() {
    let secs: [i64; 8] = [0, 59, 86_399, 86_400, 951_782_400, 1_782_031_946, 4_102_444_800, 253_402_300_799];
    for &s in &secs {
        assert_eq!(unix_to_rfc3339(s).len(), 20);
    }
    assert_eq!(unix_to_rfc3339(253_402_300_799), "9999-12-31T23:59:59Z");
    for &a in &secs {
        for &b in &secs {
            assert_eq!(a < b, unix_to_rfc3339(a) < unix_to_rfc3339(b), "{a} vs {b}");
            assert_eq!(a == b, unix_to_rfc3339(a) == unix_to_rfc3339(b));
        }
    }
}

#[test]
fn setting_the_same_entries_twice_changes_nothing() {
    let cases = [
        ("", "[default]"),
        ("[default]\nregion = a\nother = x\n[profile b]\nregion = c\n", "[default]"),
        ("[profile b]\nregion = c", "[default]"),
        ("# note\n[default]\n\nsso_role_name=Old\n", "[default]"),
    ];
    let entries = [("region", "eu-west-1"), ("sso_role_name", "DevOps")];
    let with_cr = [("region", "eu\rwest\r"), ("a\rb", "x")];
    for (original, header) in cases {
        let once = update_ini(original, header, &entries);
        assert_eq!(update_ini(&once, header, &entries), once, "{original:?}");
        let once = update_ini(original, "[pro\rfile]", &with_cr);
        assert_eq!(update_ini(&once, "[pro\rfile]", &with_cr), once, "{original:?}");
    }
}

#[test]
fn update_token_value_needs_an_object() {
    assert!(update_token_value(Json::Str("x".to_string()), "N", "E", None).is_none());
    assert_eq!(update_token_json("[1,2]", "N", "E", None), "[1,2]");
}

#[test]
fn unreadable_token_files_are_skipped() {
    let files = vec![
        token_file("bad.json", "{not json"),
        token_file("a.json", r#"{"accessToken":"A","startUrl":"u","expiresAt":"2026-01-01T00:00:00Z"}"#),
    ];
    let rec = read_token_record(&files, Some("u")).unwrap();
    assert_eq!(rec.path, "a.json");
    assert_eq!(read_token(&files[..1].to_vec(), None), None);
}

#[test]
fn json_text_round_trips() {
    let v = parse_json(r#"{"a":1,"b":[true,null,"s"]}"#).unwrap();
    assert!(matches!(v.get("a"), Some(Json::Number(n)) if n == "1"));
    assert_eq!(print_json(&v), r#"{"a":1,"b":[true,null,"s"]}"#);
    assert!(parse_json("{").is_none());
}

#[test]
fn refused_refresh_gives_nothing() {
    let out = refresh_outcome(RefreshReply::Refused, 0, Some("{}"));
    assert!(out.token.is_none());
    assert!(out.cache_text.is_none());
}

#[test]
fn granted_refresh_rewrites_the_cache_text() {
    let reply = RefreshReply::Granted {
        access_token: "NEW".to_string(),
        expires_in: 3600,
        refresh_token: Some("R2".to_string()),
    };
    let out = refresh_outcome(reply, 0, Some(r#"{"accessToken":"OLD","startUrl":"u"}"#));
    assert_eq!(out.token.as_deref(), Some("NEW"));
    let v: serde_json::Value = serde_json::from_str(out.cache_text.as_deref().unwrap()).unwrap();
    assert_eq!(v["accessToken"], "NEW");
    assert_eq!(v["expiresAt"], "1970-01-01T01:00:00Z");
    assert_eq!(v["refreshToken"], "R2");
    assert_eq!(v["startUrl"], "u");

    let reply = RefreshReply::Granted { access_token: "T".to_string(), expires_in: 1, refresh_token: None };
    let out = refresh_outcome(reply, 0, None);
    assert_eq!(out.token.as_deref(), Some("T"));
    assert!(out.cache_text.is_none());
}
