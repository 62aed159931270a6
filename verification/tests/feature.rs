use dev_tools::common::keys::{Key, KeyCode};
use dev_tools::common::refresh::Polled;
use dev_tools::feature::adf::adf_to_markdown;
use dev_tools::feature::branch::{branch_name, issue_marks};
use dev_tools::feature::config::{default_aliases, Config, StringMap};
use dev_tools::feature::filter::{filter_issues, parse_query, ParsedQuery, RowMatch};
use dev_tools::feature::jira::{
    create_args, list_args, normalize_wiki, parse_list, render_issue, render_issue_json, scan_key,
    validate_create, CreateError, Jira, Output,
};
use dev_tools::feature::markdown::render;
use dev_tools::feature::panes::{button_row, centered_rect, col, help_text, highlight, wrapped_height, Rect};
use dev_tools::feature::tracker::{CreateRequest, Issue};
use dev_tools::feature::ui::{Action, App, Effect, Marks, Outcome, PreviewMsg};
use dev_tools::json::parse_json;

fn md(adf: &str) -> String {
    adf_to_markdown(&parse_json(adf).unwrap())
}

#[test]
fn cases() {
    assert_eq!(md("null"), "");
    assert_eq!(
        md(r#"{"type":"doc","content":[{"type":"paragraph","content":[{"type":"text","text":"Hello world"}]}]}"#),
        "Hello world"
    );
    assert_eq!(
        md(r#"{"type":"doc","content":[{"type":"heading","attrs":{"level":2},"content":[{"type":"text","text":"Goals"}]},{"type":"paragraph","content":[{"type":"text","text":"Body."}]}]}"#),
        "## Goals\n\nBody."
    );
    assert_eq!(
        md(r#"{"type":"doc","content":[{"type":"bulletList","content":[{"type":"listItem","content":[{"type":"paragraph","content":[{"type":"text","text":"one"}]}]},{"type":"listItem","content":[{"type":"paragraph","content":[{"type":"text","text":"two"}]}]}]}]}"#),
        "- one\n- two"
    );
    assert_eq!(
        md(r#"{"type":"doc","content":[{"type":"orderedList","content":[{"type":"listItem","content":[{"type":"paragraph","content":[{"type":"text","text":"first"}]}]},{"type":"listItem","content":[{"type":"paragraph","content":[{"type":"text","text":"second"}]}]}]}]}"#),
        "1. first\n2. second"
    );
    assert_eq!(
        md(r#"{"type":"doc","content":[{"type":"paragraph","content":[{"type":"text","text":"bold","marks":[{"type":"strong"}]},{"type":"text","text":" and "},{"type":"text","text":"code","marks":[{"type":"code"}]}]}]}"#),
        "**bold** and `code`"
    );
    assert_eq!(
        md(r#"{"type":"doc","content":[{"type":"paragraph","content":[{"type":"text","text":"site","marks":[{"type":"link","attrs":{"href":"https://example.com"}}]}]}]}"#),
        "[site](https://example.com)"
    );
    assert_eq!(
        md(r#"{"type":"doc","content":[{"type":"codeBlock","content":[{"type":"text","text":"go build ./..."}]}]}"#),
        "```\ngo build ./...\n```"
    );
    assert_eq!(
        md(r#"{"type":"doc","content":[{"type":"paragraph","content":[{"type":"text","text":"a"}]},{"type":"rule"},{"type":"paragraph","content":[{"type":"text","text":"b"}]}]}"#),
        "a\n\n\n---\n\nb"
    );
    assert_eq!(
        md(r#"{"type":"doc","content":[{"type":"paragraph","content":[{"type":"mention","attrs":{"text":"@Itay"}},{"type":"text","text":" see "},{"type":"inlineCard","attrs":{"url":"https://jira/X-1"}}]}]}"#),
        "@Itay see https://jira/X-1"
    );
    assert_eq!(
        md(r#"{"type":"doc","content":[{"type":"paragraph","content":[{"type":"text","text":"line1"},{"type":"hardBreak"},{"type":"text","text":"line2"}]}]}"#),
        "line1\nline2"
    );
    assert_eq!(
        md(r#"{"type":"doc","content":[{"type":"panel","content":[{"type":"paragraph","content":[{"type":"text","text":"inside panel"}]}]}]}"#),
        "inside panel"
    );
}

fn aliases() -> StringMap {
    [
        ("b", "Bug"),
        ("bug", "Bug"),
        ("t", "Task"),
        ("s", "Story"),
        ("st", "Sub-task"),
        ("sub", "Sub-task"),
    ]
    .iter()
    .map(|(k, v)| (k.to_string(), v.to_string()))
    .collect()
}

fn pq(active_type: &str, search: &str) -> ParsedQuery {
    ParsedQuery {
        active_type: active_type.to_string(),
        search: search.to_string(),
    }
}

#[test]
fn parse_query_cases() {
    let a = aliases();
    assert_eq!(parse_query("login", &a), pq("", "login"));
    assert_eq!(parse_query("", &a), pq("", ""));
    assert_eq!(parse_query("/b", &a), pq("Bug", ""));
    assert_eq!(parse_query("/b ", &a), pq("Bug", ""));
    assert_eq!(parse_query("/b login", &a), pq("Bug", "login"));
    assert_eq!(parse_query("/sub thing", &a), pq("Sub-task", "thing"));
    assert_eq!(parse_query("/st x", &a), pq("Sub-task", "x"));
    assert_eq!(parse_query("/x foo", &a), pq("", "/x foo"));
    assert_eq!(parse_query("/ foo", &a), pq("", "/ foo"));
}

fn issue(key: &str, summary: &str, kind: &str) -> Issue {
    Issue {
        key: key.into(),
        summary: summary.into(),
        status: String::new(),
        assignee: String::new(),
        kind: kind.into(),
    }
}

fn sample() -> Vec<Issue> {
    vec![
        issue("DRM-1", "Fix login redirect", "Bug"),
        issue("DRM-2", "Add SSO login", "Task"),
        issue("DRM-3", "Login rate limit", "Story"),
        issue("DRM-4", "Unrelated cleanup", "Bug"),
    ]
}

fn idx_of(rows: &[RowMatch]) -> Vec<usize> {
    rows.iter().map(|r| r.issue_idx).collect()
}

#[test]
fn type_filter_keeps_order() {
    let rows = filter_issues(&sample(), &pq("Bug", ""));
    assert_eq!(idx_of(&rows), vec![0, 3]);
}

#[test]
fn search_ranks_matches() {
    let rows = filter_issues(&sample(), &pq("", "login"));
    let got = idx_of(&rows);
    assert_eq!(got.len(), 3);
    assert!(!got.contains(&3));
}

#[test]
fn type_filter_plus_search() {
    let rows = filter_issues(&sample(), &pq("Bug", "login"));
    assert_eq!(idx_of(&rows), vec![0]);
}

#[test]
fn match_positions_map_into_summary_coords() {
    let rows = filter_issues(&sample(), &pq("Story", "login"));
    assert_eq!(rows.len(), 1);
    assert_eq!(rows[0].sum_matched, vec![0, 1, 2, 3, 4]);
}

#[test]
fn parse_list_skips_header_and_keeps_spaces() {
    let raw = "TYPE|KEY|SUMMARY|STATUS|ASSIGNEE\n\
               Bug|DRM-43930|Backup timeouts|In Review|Itay Kalfon\n\
               Story|DRM-43616|Research ClickHouse|Selected for Development|Itay Kalfon\n";
    let issues = parse_list(raw);
    assert_eq!(issues.len(), 2);
    assert_eq!(issues[0].kind, "Bug");
    assert_eq!(issues[0].key, "DRM-43930");
    assert_eq!(issues[0].status, "In Review");
    assert_eq!(issues[1].status, "Selected for Development");
    assert_eq!(issues[1].assignee, "Itay Kalfon");
}

#[test]
fn parse_list_drops_short_rows_and_blank_assignee() {
    let issues = parse_list("Bug|K-1|s|Open\r\nonly|two\n\n");
    assert_eq!(issues.len(), 1);
    assert_eq!(issues[0].status, "Open");
    assert_eq!(issues[0].assignee, "");
}

#[test]
fn scan_key_finds_key() {
    assert_eq!(scan_key("Created issue ABC-123 ok").as_deref(), Some("ABC-123"));
    assert_eq!(scan_key("DRM-1234").as_deref(), Some("DRM-1234"));
    assert_eq!(scan_key("no key here"), None);
    assert_eq!(scan_key("A-1"), None);
}

#[test]
fn render_issue_uses_placeholder_when_no_description() {
    let json = r#"{"fields":{"summary":"Fix it","description":null}}"#;
    assert_eq!(render_issue(json).unwrap(), "# Fix it\n\n_No description_");
}

#[test]
fn normalize_wiki_converts_headings() {
    assert_eq!(normalize_wiki("h3. Impact\nbody"), "### Impact\nbody");
    assert_eq!(normalize_wiki("h1. Top"), "# Top");
    assert_eq!(normalize_wiki("plain text"), "plain text");
    assert_eq!(normalize_wiki("h7. out of range"), "h7. out of range");
    assert_eq!(normalize_wiki("hello"), "hello");
}

#[test]
fn render_issue_renders_adf() {
    let json = r#"{"fields":{"summary":"S","description":{"type":"doc","content":[{"type":"paragraph","content":[{"type":"text","text":"hi"}]}]}}}"#;
    assert_eq!(render_issue(json).unwrap(), "# S\n\nhi");
}

#[test]
fn render_issue_rejects_other_shapes() {
    assert_eq!(render_issue(r#"{"nofields":1}"#), Err("decode issue JSON".to_string()));
    assert_eq!(render_issue(r#"{"fields":{"summary":3}}"#), Err("decode issue JSON".to_string()));
    assert_eq!(render_issue(r#"{"fields":{}}"#).unwrap(), "# \n\n_No description_");
}

#[test]
fn renders_without_panicking() {
    let text = render("# Title\n\nSome **bold** and `code`.\n\n- one\n- two\n");
    assert!(text.lines.len() >= 4);
}

#[test]
fn empty_input_is_empty() {
    assert_eq!(render("").lines.len(), 0);
}

#[test]
fn rendered_blank_lines_are_tidy() {
    let text = render("para\n\n\n\n---\n\n## Head\n\n```\nx\n\ny\n```\n");
    let blank: Vec<bool> = text.lines.iter().map(|l| l.spans.is_empty()).collect();
    assert!(!blank[0]);
    assert!(!blank[blank.len() - 1]);
    assert!(blank.windows(2).all(|w| !(w[0] && w[1])));
}

#[test]
fn list_and_create_arguments() {
    let cfg = Config::default();
    let args = list_args(&cfg, "me");
    assert_eq!(
        args,
        vec![
            "issue", "list", "-s~Done", "-s~Archived", "-t~Epic", "-a", "me", "--plain",
            "--columns", "TYPE,KEY,SUMMARY,STATUS,ASSIGNEE", "--delimiter", "|"
        ]
    );
    let mut cfg2 = Config::default();
    cfg2.create.custom.insert("squad".into(), "Detection".into());
    cfg2.create.custom.insert("area".into(), "x".into());
    let c = create_args(&cfg2, "Task", "Do it", "");
    assert_eq!(
        c,
        vec!["issue", "create", "--no-input", "-t", "Task", "-s", "Do it", "--custom", "area=x", "--custom", "squad=Detection"]
    );
}

#[test]
fn create_requests_are_validated() {
    let req = |k: &str, s: &str| CreateRequest { kind: k.into(), summary: s.into() };
    assert_eq!(validate_create(&req("Sub-task", "x")).unwrap_err(), CreateError::SubtaskWithoutParent);
    assert_eq!(validate_create(&req("Bug", "  ")).unwrap_err(), CreateError::EmptySummary);
    assert_eq!(validate_create(&req("", " fix ")).unwrap(), ("Task".to_string(), "fix".to_string()));
    assert_eq!(CreateError::EmptySummary.message(), "empty summary");
}

#[test]
fn jira_outputs_are_read() {
    let out = Output::from_raw("Created DRM-9 \n", "warn\n", true);
    assert_eq!(out.stdout, "Created DRM-9");
    assert_eq!(out.combined(), "Created DRM-9\nwarn");
    assert_eq!(Jira::create_result(&out).unwrap(), "DRM-9");
    let bad = Output::from_raw("", "boom", false);
    assert_eq!(Jira::create_result(&bad).unwrap_err(), "`jira issue create` failed:\nboom");
    let mut j = Jira::new(Config::default());
    assert_eq!(j.assignee(), None);
    assert_eq!(j.accept_me(&Output::from_raw(" me@x \n", "", true)).unwrap(), "me@x");
    assert_eq!(j.assignee().as_deref(), Some("me@x"));
    assert_eq!(j.bin(), "jira");
    assert_eq!(j.move_args("K-1").unwrap(), vec!["issue", "move", "K-1", "In Progress"]);
    assert_eq!(default_aliases().get("st").map(String::as_str), Some("Sub-task"));
}

fn k(code: KeyCode) -> Key {
    Key { code, ctrl: false, alt: false, sup: false }
}

fn ck(c: char) -> Key {
    Key { code: KeyCode::Char(c), ctrl: true, alt: false, sup: false }
}

fn app() -> App {
    let issues = sample();
    let marks = vec![
        Marks { branch: false, worktree: true },
        Marks { branch: true, worktree: false },
        Marks { branch: false, worktree: false },
        Marks { branch: false, worktree: false },
    ];
    App::new(aliases(), issues, marks)
}

#[test]
fn picker_state_types_and_filters() {
    let mut a = app();
    assert_eq!(a.rows.len(), 4);
    for c in "login".chars() {
        a.handle_key(k(KeyCode::Char(c)));
    }
    assert_eq!(a.query, "login");
    assert_eq!(a.cursor, 5);
    assert_eq!(a.rows.len(), 3);
    assert_eq!(a.selected, 0);
    a.handle_key(k(KeyCode::Left));
    a.handle_key(k(KeyCode::Backspace));
    assert_eq!(a.query, "logn");
    a.handle_key(ck('a'));
    assert_eq!(a.cursor, 0);
    a.handle_key(k(KeyCode::Delete));
    assert_eq!(a.query, "ogn");
    a.handle_key(k(KeyCode::End));
    a.handle_key(ck('w'));
    assert_eq!(a.query, "");
    assert_eq!(a.rows.len(), 4);
}

#[test]
fn picker_state_selects_with_worktree_awareness() {
    let mut a = app();
    a.handle_key(k(KeyCode::Enter));
    assert!(a.done);
    match &a.result {
        Outcome::Selected { key, action, .. } => {
            assert_eq!(key, "DRM-1");
            assert_eq!(*action, Action::Worktree);
        }
        Outcome::Cancelled => panic!("expected a selection"),
    }
    let mut b = app();
    b.handle_key(k(KeyCode::Down));
    b.handle_key(k(KeyCode::Enter));
    assert!(matches!(&b.result, Outcome::Selected { action: Action::Branch, .. }));
}

#[test]
fn picker_state_creates_after_choosing() {
    let mut a = app();
    a.handle_key(ck('n'));
    assert_eq!(a.status, "type a summary in the query first, then ctrl-n");
    for c in "/b new thing".chars() {
        a.handle_key(k(KeyCode::Char(c)));
    }
    a.handle_key(ck('n'));
    assert!(a.choosing_mode);
    a.handle_key(k(KeyCode::Right));
    assert_eq!(a.mode_selected, 1);
    let eff = a.handle_key(k(KeyCode::Enter));
    match eff {
        Effect::Create(req) => {
            assert_eq!(req.kind, "Bug");
            assert_eq!(req.summary, "new thing");
        }
        _ => panic!("expected a create"),
    }
    assert!(a.creating);
    a.handle_key(k(KeyCode::Char('x')));
    assert_eq!(a.query, "/b new thing");
    a.poll_create(Polled::Ready(Ok("DRM-77".to_string())));
    assert!(a.done);
    assert!(matches!(&a.result, Outcome::Selected { key, summary, action: Action::Worktree } if key == "DRM-77" && summary == "new thing"));
}

#[test]
fn picker_state_loads_previews_once() {
    let mut a = app();
    let first = a.ensure_preview();
    assert_eq!(first.as_deref(), Some("DRM-1"));
    assert_eq!(a.ensure_preview(), None);
    let eff = a.poll_preview(PreviewMsg::Loaded("DRM-1".to_string(), Ok("hello".to_string())));
    assert!(matches!(eff, Effect::Nothing));
    assert!(a.preview_loading.is_none());
    let eff = a.handle_key(k(KeyCode::Down));
    assert!(matches!(eff, Effect::Describe(ref key) if key == "DRM-2"));
    let eff = a.poll_preview(PreviewMsg::Loaded("DRM-2".to_string(), Err("nope".to_string())));
    assert!(matches!(eff, Effect::Nothing));
    let t = a.preview_text();
    assert_eq!(t.lines[0].spans[0].content, "failed to load DRM-2");
}

#[test]
fn picker_state_refresh_keeps_cursor_on_issue() {
    let mut a = app();
    a.handle_key(k(KeyCode::Down));
    a.handle_key(k(KeyCode::Down));
    assert!(matches!(a.handle_key(ck('r')), Effect::Refresh));
    assert!(matches!(a.handle_key(ck('r')), Effect::Nothing));
    let mut items = sample();
    items.insert(0, issue("DRM-0", "New one", "Task"));
    let marks = vec![Marks { branch: false, worktree: false }; 5];
    a.poll_refresh(Polled::Ready(Ok((items, marks))));
    assert_eq!(a.rows.len(), 5);
    assert_eq!(a.selected, 3);
    assert!(!a.refresh.running);
    a.handle_key(ck('r'));
    a.poll_refresh(Polled::Ready(Err("x".to_string())));
    assert_eq!(a.status, "refresh failed");
}

#[test]
fn panes_lay_out_columns() {
    assert_eq!(col("Bug", 5), "Bug   ");
    assert_eq!(col("Storyline", 5), "Story ");
    let spans = highlight("abcdef", &[1], 4);
    let text: String = spans.iter().map(|s| s.content.as_str()).collect();
    assert_eq!(text, "abc…");
    let spans = highlight("ab", &[], 4);
    let text: String = spans.iter().map(|s| s.content.as_str()).collect();
    assert_eq!(text, "ab  ");
    assert_eq!(help_text().lines.len(), 26);
    let r = centered_rect(10, 4, Rect { x: 2, y: 1, width: 20, height: 10 });
    assert_eq!(r, Rect { x: 7, y: 4, width: 10, height: 4 });
    let t = render("one\n\ntwo");
    assert_eq!(wrapped_height(&t, 2), 5);
    assert_eq!(wrapped_height(&t, 0), 3);
}

#[test]
fn summary_column_always_fills_its_width() {
    for (summary, w) in [("", 1usize), ("ab", 5), ("abcdef", 4), ("abcdef", 6), ("abcdef", 1), ("héllo wörld", 7)] {
        let spans = highlight(summary, &[0, 2], w);
        let total: usize = spans.iter().map(|s| s.content.chars().count()).sum();
        assert_eq!(total, w, "summary {summary:?} at width {w}");
    }
    for (s, w) in [("", 0usize), ("Bug", 5), ("Storyline", 5), ("x", 1)] {
        assert_eq!(col(s, w).chars().count(), w + 1);
    }
}

#[test]
fn branch_names_are_key_and_summary_slug() {
    assert_eq!(branch_name("ABC-12", "Fix the Login page!"), "ABC-12-fix-the-login-page");
    assert_eq!(branch_name("ABC-12", "  --  "), "ABC-12");
    assert_eq!(branch_name("X-1", "Überfall 2024: Café"), "X-1-berfall-2024-caf");
    let long = "a".repeat(80);
    assert_eq!(branch_name("K-1", &long), format!("K-1-{}", "a".repeat(50)));
}

#[test]
fn issues_are_marked_by_their_branches() {
    let issues = vec![issue("A-1", "One thing", "Task"), issue("A-2", "Other", "Bug")];
    let local = vec!["A-1-one-thing".to_string(), "main".to_string()];
    let worktreed = vec!["A-2-other".to_string()];
    let marks = issue_marks(&issues, &local, &worktreed);
    assert_eq!(marks, vec![Marks { branch: true, worktree: false }, Marks { branch: false, worktree: true }]);
}

#[test]
fn highlighted_positions_stay_within_the_summary() {
    let issues = vec![issue("ABC-1", "deploy pipeline", "Task"), issue("ABC-2", "apipe", "Bug")];
    let q = parse_query("pipe", &default_aliases());
    let rows = filter_issues(&issues, &q);
    assert!(!rows.is_empty());
    for r in &rows {
        let n = issues[r.issue_idx].summary.chars().count();
        assert!(r.sum_matched.iter().all(|&p| p < n));
    }
}

#[test]
fn chooser_buttons_are_centred() {
    assert_eq!(button_row(52), (8, 16, 4));
    assert_eq!(button_row(30), (0, 16, 4));
}

#[test]
fn render_issue_rejects_text_that_is_not_json() {
    assert_eq!(render_issue("not json"), Err("decode issue JSON".to_string()));
    let v = parse_json(r#"{"fields":{"summary":"S"}}"#).unwrap();
    assert_eq!(render_issue_json(&v).unwrap(), "# S\n\n_No description_");
}

#[test]
fn describe_result_renders_the_raw_output() {
    let ok = Output::from_raw("{\"fields\":{\"summary\":\"T\"}}\n", "", true);
    assert_eq!(Jira::describe_result("K-1", &ok).unwrap(), "# T\n\n_No description_");
    let bad = Output::from_raw("oops", "", true);
    assert_eq!(Jira::describe_result("K-1", &bad), Err("decode issue JSON".to_string()));
    let failed = Output::from_raw("", "boom", false);
    assert!(Jira::describe_result("K-1", &failed).unwrap_err().starts_with("`jira issue view K-1` failed:"));
}
