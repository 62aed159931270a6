use dev_tools::common::cache::{cache_file, cache_path, is_fresh, sanitize};
use dev_tools::common::config::resolve_path;
use dev_tools::common::keys::{Key, KeyCode};
use dev_tools::common::picker::{compute, styled_label, trim_word, Picked, Picker};
use dev_tools::common::refresh::{Polled, Refresh};
use dev_tools::common::spinner::frame;
use dev_tools::common::xdg::base_dir_from;
use std::time::Duration;

fn key(code: KeyCode) -> Key {
    Key { code, ctrl: false, alt: false, sup: false }
}

fn ctrl(c: char) -> Key {
    Key { code: KeyCode::Char(c), ctrl: true, alt: false, sup: false }
}

#[test]
fn freshness_respects_ttl() {
    let ttl = Duration::from_secs(60);
    assert!(is_fresh(100, 150, ttl.as_secs()));
    assert!(!is_fresh(100, 160, ttl.as_secs()));
    assert!(!is_fresh(100, 200, ttl.as_secs()));
}

#[test]
fn future_stamp_is_fresh() {
    assert!(is_fresh(200, 100, Duration::from_secs(1).as_secs()));
}

#[test]
fn zero_ttl_is_never_fresh() {
    assert!(!is_fresh(100, 100, Duration::from_secs(0).as_secs()));
}

#[test]
fn sanitize_makes_safe_segments() {
    assert_eq!(sanitize("accounts-session"), "accounts-session");
    assert_eq!(sanitize("a/b c"), "a_b_c");
}

#[test]
fn sanitize_is_idempotent_and_keeps_length() {
    let once = sanitize("ß/ü x_y-Z9");
    assert_eq!(once, "____x_y-Z9");
    assert_eq!(sanitize(&once), once);
}

#[test]
fn cache_and_config_paths() {
    assert_eq!(cache_file("/c", "aws-switch", "a/b"), "/c/aws-switch/a_b.json");
    assert_eq!(cache_path("t", "k", Some("/x")).as_deref(), Some("/x/t/k.json"));
    assert_eq!(base_dir_from(Some(""), Some("/home/u"), ".cache").as_deref(), Some("/home/u/.cache"));
    assert_eq!(base_dir_from(None, None, ".cache"), None);
    assert_eq!(resolve_path("wt-gc", Some("/e.toml"), Some("/v.toml"), None).as_deref(), Some("/e.toml"));
    assert_eq!(resolve_path("wt-gc", Some(""), Some("/v.toml"), None).as_deref(), Some("/v.toml"));
    assert_eq!(
        resolve_path("wt-gc", None, None, Some("/xdg")).as_deref(),
        Some("/xdg/wt-gc/config.toml")
    );
}

#[test]
fn empty_query_keeps_all_in_order() {
    let labels = vec!["alpha".to_string(), "beta".to_string()];
    let got = compute("", &labels);
    assert_eq!(got.len(), 2);
    assert_eq!(got[0].item, 0);
    assert_eq!(got[1].item, 1);
}

#[test]
fn fuzzy_filters_and_ranks() {
    let labels = vec![
        "production".to_string(),
        "staging".to_string(),
        "prod-sandbox".to_string(),
    ];
    let got = compute("prod", &labels);
    let items: Vec<usize> = got.iter().map(|x| x.item).collect();
    assert!(items.contains(&0));
    assert!(items.contains(&2));
    assert!(!items.contains(&1));
}

#[test]
fn match_indices_are_sorted() {
    let labels = vec!["abcdef".to_string()];
    let got = compute("ace", &labels);
    assert_eq!(got.len(), 1);
    let idx = &got[0].indices;
    assert!(idx.windows(2).all(|w| w[0] <= w[1]));
}

#[test]
fn trim_word_removes_last_token() {
    let mut q = String::from("foo bar");
    trim_word(&mut q);
    assert_eq!(q, "foo ");
    trim_word(&mut q);
    assert_eq!(q, "");
}

#[test]
fn picker_keys_edit_move_and_choose() {
    let mut p = Picker::new(vec!["alpha".to_string(), "beta".to_string(), "gamma".to_string()]);
    assert_eq!(p.handle_key(key(KeyCode::Down)), Picked::Continue);
    assert_eq!(p.selected, 1);
    assert_eq!(p.handle_key(ctrl('j')), Picked::Continue);
    assert_eq!(p.handle_key(key(KeyCode::Down)), Picked::Continue);
    assert_eq!(p.selected, 2);
    assert_eq!(p.handle_key(key(KeyCode::Enter)), Picked::Choose(2));
    assert_eq!(p.handle_key(key(KeyCode::Char('b'))), Picked::Continue);
    assert_eq!(p.query, "b");
    assert_eq!(p.selected, 0);
    assert_eq!(p.handle_key(ctrl('u')), Picked::Continue);
    assert_eq!(p.query, "");
    assert_eq!(p.handle_key(ctrl('c')), Picked::Cancel);
    assert_eq!(p.handle_key(key(KeyCode::Esc)), Picked::Cancel);
}

#[test]
fn picker_label_highlights_matches() {
    let spans = styled_label("abc", &[0, 2]);
    assert_eq!(spans.len(), 3);
    assert_eq!(spans[0].content, "a");
    assert_ne!(spans[0].style, spans[1].style);
    assert_eq!(spans[0].style, spans[2].style);
    assert_eq!(Picker::footer_line().spans.len(), 6);
}

#[test]
fn refresh_runs_one_at_a_time() {
    let mut r = Refresh::new();
    assert!(!r.in_flight());
    assert!(r.trigger());
    assert!(!r.trigger());
    assert!(r.poll::<u8>(Polled::Empty).is_none());
    assert_eq!(r.poll(Polled::Ready(Ok(7u8))), Some(Ok(7)));
    assert!(!r.in_flight());
    assert!(r.poll::<u8>(Polled::Ready(Ok(1))).is_none());
    assert!(r.trigger());
    assert_eq!(r.poll::<u8>(Polled::Disconnected), Some(Err("refresh task died".to_string())));
}

#[test]
fn spinner_frames_cycle() {
    assert_eq!(frame(0), "⠋");
    assert_eq!(frame(9), "⠏");
    assert_eq!(frame(10), frame(0));
}

#[test]
fn refresh_runs_from_trigger_until_a_result_is_handed_back() {
    let mut r = Refresh::new();
    assert!(!r.in_flight());
    assert!(r.poll::<u8>(Polled::Ready(Ok(1))).is_none());
    assert!(r.trigger());
    assert!(!r.trigger());
    assert!(r.in_flight());
    assert!(r.poll::<u8>(Polled::Empty).is_none());
    assert!(r.in_flight());
    assert_eq!(r.poll::<u8>(Polled::Ready(Ok(7))), Some(Ok(7)));
    assert!(!r.in_flight());
    assert!(r.trigger());
    assert_eq!(r.poll::<u8>(Polled::Disconnected), Some(Err("refresh task died".to_string())));
    assert!(!r.in_flight());
}

#[test]
fn picker_opens_only_over_items() {
    assert!(Picker::open(Vec::new()).is_none());
    let p = Picker::open(vec!["one".to_string()]).unwrap();
    assert_eq!(p.labels, vec!["one".to_string()]);
    assert_eq!(p.query, "");
    assert_eq!(p.selected, 0);
    assert_eq!(p.matches.len(), 1);
}
