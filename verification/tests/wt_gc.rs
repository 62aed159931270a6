use dev_tools::wt_gc::config::{expand_tilde, Config};
use dev_tools::wt_gc::git::{head_commit_time, is_clean, keep_present, linked_worktrees, older_than, push_state, LinkedWorktree};
use dev_tools::wt_gc::model::{classify, Bucket, Candidate, PushState};
use dev_tools::wt_gc::report::{
    assess, done_line, in_trash, is_yes, list_report, repo_name, review_line, run_steps, RunStep,
};
use dev_tools::wt_gc::trash::{purge_expired, trash_dest, Manifest, TrashEntry};

#[test]
fn classify_buckets() {
    assert_eq!(classify(false, true, true), Bucket::Skip);
    assert_eq!(classify(false, false, false), Bucket::Skip);
    assert_eq!(classify(true, true, true), Bucket::Auto);
    assert_eq!(classify(true, false, true), Bucket::Confirm);
    assert_eq!(classify(true, true, false), Bucket::Confirm);
    assert_eq!(classify(true, false, false), Bucket::Confirm);
}

fn cand(clean: bool, push: PushState) -> Candidate {
    Candidate {
        repo: "/r".to_string(),
        repo_name: "r".into(),
        path: "/r/wt".to_string(),
        branch: "b".into(),
        clean,
        push,
        bucket: Bucket::Confirm,
    }
}

#[test]
fn reasons_describe_why() {
    let c = cand;
    assert!(c(true, PushState::Pushed).reasons().is_empty());
    assert_eq!(c(false, PushState::Pushed).reasons(), ["uncommitted changes"]);
    assert_eq!(c(true, PushState::Ahead(2)).reasons(), ["2 unpushed commit(s)"]);
    assert_eq!(c(true, PushState::NoUpstream).reasons(), ["no upstream branch"]);
}

#[test]
fn config_expands_home() {
    let c = Config::default();
    assert_eq!(c.roots(Some("/home/u")), vec!["/home/u/dev", "/home/u/dev/repos"]);
    assert_eq!(c.trash_path(None), "~/dev/.worktree-trash");
    assert_eq!(expand_tilde("/abs/~/x", Some("/h")), "/abs/~/x");
    assert_eq!(expand_tilde("~/x", Some("/h/")), "/h/x");
}

#[test]
fn porcelain_is_parsed() {
    let text = "worktree /repo\nHEAD abc\nbranch refs/heads/main\n\nworktree /wt/a\nHEAD def\nbranch refs/heads/feat-a\n\nworktree /wt/b\nHEAD 123\nbranch refs/heads/feat-b\nlocked reason\n\nworktree /wt/c\nHEAD 456\ndetached";
    let wts: Vec<(String, String)> = linked_worktrees(text, "/repo/")
        .into_iter()
        .map(|w: LinkedWorktree| (w.path, w.branch))
        .collect();
    assert_eq!(wts, vec![("/wt/a".to_string(), "feat-a".to_string())]);
}

#[test]
fn git_facts_are_read() {
    assert_eq!(head_commit_time("1700000000"), Some(1_700_000_000));
    assert_eq!(head_commit_time("x"), None);
    assert!(is_clean(""));
    assert!(!is_clean(" M a"));
    assert_eq!(push_state(false, Some("0")), PushState::NoUpstream);
    assert_eq!(push_state(true, Some("0")), PushState::Pushed);
    assert_eq!(push_state(true, Some("3")), PushState::Ahead(3));
    assert_eq!(push_state(true, None), PushState::NoUpstream);
    assert!(older_than(0, 1, 86_400));
    assert!(!older_than(1, 1, 86_400));
    assert!(!older_than(100, 0, 50) || older_than(100, 0, 50));
}

#[test]
fn worktrees_are_assessed_and_listed() {
    let wt = LinkedWorktree { path: "/r/wt".into(), branch: "b".into() };
    let c = assess("/r", "r", wt, Some(0), Some(true), PushState::Pushed, 30, 40 * 86_400);
    assert_eq!(c.bucket, Bucket::Auto);
    let wt2 = LinkedWorktree { path: "/r/wt2".into(), branch: "c".into() };
    let d = assess("/r", "r", wt2, None, Some(true), PushState::Pushed, 30, 40 * 86_400);
    assert_eq!(d.bucket, Bucket::Skip);
    let mut e = cand(false, PushState::Ahead(1));
    e.bucket = Bucket::Confirm;
    let lines = list_report(&vec![c, d, e.clone()]);
    assert_eq!(
        lines,
        vec![
            "",
            "would auto-trash (stale, clean, pushed):",
            "  r/b",
            "",
            "needs review (stale, but has pending work):",
            "  r/b  (uncommitted changes, 1 unpushed commit(s))",
            "",
            "keeping (active):",
            "  r/c",
        ]
    );
    assert_eq!(list_report(&vec![]), vec!["No linked worktrees found under the configured roots."]);
    assert_eq!(review_line(&e), "needs review: /r/wt (uncommitted changes, 1 unpushed commit(s))");
    assert_eq!(done_line(2, 1), "done: 2 trashed, 1 need review (run `wt-gc review`)");
    assert_eq!(repo_name("/home/u/dev/api/"), "api");
    assert_eq!(repo_name("/"), "repo");
    assert!(in_trash("/t/trash/r/b", "/t/trash/"));
    assert!(!in_trash("/t/trashy/r", "/t/trash"));
    assert!(is_yes(" YES\n") && is_yes("y") && !is_yes("no") && !is_yes(""));
}

fn entry(path: &str, at: u64) -> TrashEntry {
    TrashEntry {
        repo: "/r".into(),
        repo_name: "r".into(),
        branch: "b".into(),
        original_path: "/r/b".into(),
        trashed_path: path.into(),
        trashed_at: at,
    }
}

#[test]
fn purge_splits_the_trash() {
    let mut m = Manifest {
        entries: vec![entry("/t/old", 0), entry("/t/gone", 0), entry("/t/new", 9 * 86_400)],
        path: "/m.json".into(),
    };
    let removed = purge_expired(&mut m, 7, 10 * 86_400, &vec![true, false, true]);
    assert_eq!(removed.len(), 1);
    assert_eq!(removed[0].trashed_path, "/t/old");
    assert_eq!(m.entries.len(), 1);
    assert_eq!(m.entries[0].trashed_path, "/t/new");
    assert_eq!(trash_dest("/t", "r", "b", false, 5), "/t/r/b");
    assert_eq!(trash_dest("/t", "r", "b", true, 5), "/t/r/b-5");
}

#[test]
fn a_run_trashes_the_safe_and_flags_the_rest() {
    let mut cs = Vec::new();
    for b in [Bucket::Skip, Bucket::Auto, Bucket::Confirm, Bucket::Auto, Bucket::Confirm] {
        let mut c = cand(true, PushState::Pushed);
        c.bucket = b;
        cs.push(c);
    }
    let (steps, review) = run_steps(&cs);
    assert_eq!(
        steps,
        vec![RunStep::Trash(1), RunStep::Review(2), RunStep::Trash(3), RunStep::Review(4)]
    );
    assert_eq!(review, 2);
    assert_eq!(run_steps(&Vec::new()), (Vec::new(), 0));
}

#[test]
fn recorded_entries_go_last() {
    let mut m = Manifest { entries: vec![entry("/t/a", 1)], path: "/s/trash.json".into() };
    m.record(entry("/t/b", 2));
    assert_eq!(m.entries.len(), 2);
    assert_eq!(m.entries[1].trashed_path, "/t/b");
    assert_eq!(m.path, "/s/trash.json");
}

#[test]
fn vanished_worktrees_are_dropped() {
    let text = "worktree /wt/a\nbranch refs/heads/a\n\nworktree /wt/b\nbranch refs/heads/b\n\nworktree /wt/c\nbranch refs/heads/c\n";
    let listed = linked_worktrees(text, "/repo");
    assert_eq!(listed.len(), 3);
    let kept: Vec<String> = keep_present(listed, &vec![true, false, true])
        .into_iter()
        .map(|w: LinkedWorktree| w.path)
        .collect();
    assert_eq!(kept, vec!["/wt/a".to_string(), "/wt/c".to_string()]);
}
