use graphoria_core::conflicts::{conflict_state, take_theirs, ConflictOperation, OperationProbe, ResolveStep};
use graphoria_core::gitlog::{fill_branch_names, log_search_args, undecorated_hashes, GitLogSearchParams};
use graphoria_core::patches::{
    check_payload, extract_diff_part_for_apply_check, finish_prediction_graph, git_log_commits_multi,
    head_name_of, mailbox_apply_guard, parse_conflict_files_from_apply_check_message,
    parse_git_log_records, parse_log_records, parse_patch_method, parse_patch_subjects,
    parse_touched_files_from_patch_text, patch_prediction, predicted_commits, predicted_conflicts,
    remaining_log_count, PatchMethod,
};
use graphoria_core::remote::{
    extract_progress_percent, get_pushed_commits, parse_ahead_behind, parse_conflict_files,
    parse_git_clone_progress_line, parse_tag_targets_from_lines, predict_merge_conflicts, pull_action,
    trimmed_nonblank_lines, PullAction,
};
use graphoria_core::status::parse_status_entries;

const MAILBOX: &str = "From 1234 Mon Sep 17 00:00:00 2001\r\nFrom: A <a@b>\r\nSubject: [PATCH] Fix the thing\r\n\r\n---\r\ndiff --git a/src/x.rs b/src/x.rs\r\n--- a/src/x.rs\r\n+++ b/src/x.rs\r\n@@ -1 +1 @@\r\n-a\r\n+b\r\ndiff --git a/README b/README\r\ndiff --git a/src/x.rs b/src/x.rs\r\n";

#[test]
fn touched_files_distinct_in_order() {
    assert_eq!(parse_touched_files_from_patch_text(MAILBOX), vec!["src/x.rs", "README"]);
    assert!(parse_touched_files_from_patch_text("no diff here").is_empty());
}

#[test]
fn diff_part_starts_at_first_header() {
    let d = extract_diff_part_for_apply_check(MAILBOX);
    assert!(d.starts_with("diff --git a/src/x.rs b/src/x.rs\n--- a/src/x.rs"));
    assert!(!d.contains('\r'));
    assert_eq!(extract_diff_part_for_apply_check("plain\r\ntext"), "plain\ntext");
    assert_eq!(check_payload("raw", PatchMethod::Apply), "raw");
}

#[test]
fn patch_subjects_capped() {
    let text = "Subject: [PATCH 1/2] one\nSubject: [PATCH] two\nSubject: [PATCH]\nSubject:   \nSubject: three\n";
    assert_eq!(parse_patch_subjects(text, 12), vec!["[PATCH 1/2] one", "two", "[PATCH]", "three"]);
    assert_eq!(parse_patch_subjects(text, 2), vec!["[PATCH 1/2] one", "two"]);
    assert!(parse_patch_subjects(text, 0).is_empty());
}

#[test]
fn apply_check_diagnostics_blame_paths() {
    let msg = "git command failed: error: patch failed: src/x.rs:12\nerror: src/x.rs: patch does not apply\nerror: README.md: does not exist in index\nerror: patch: something\nerror: corrupt patch at line 5\nerror: C:\\work\\a.txt: oops\n";
    assert_eq!(
        parse_conflict_files_from_apply_check_message(msg),
        vec!["src/x.rs", "README.md", "C:\\work\\a.txt"]
    );
}

#[test]
fn patch_prediction_results() {
    let ok = patch_prediction(Ok(String::from("  ")), vec![String::from("a")]);
    assert!(ok.ok);
    assert_eq!(ok.message, "ok");
    let bad = patch_prediction(Err(String::from("error: patch failed: a.txt:1")), Vec::new());
    assert!(!bad.ok);
    assert_eq!(predicted_conflicts(&Err(String::from("error: patch failed: a.txt:1"))), vec!["a.txt"]);
    assert!(predicted_conflicts(&Ok(String::new())).is_empty());
    assert_eq!(parse_patch_method(" AM "), Ok(PatchMethod::Mailbox));
    assert_eq!(parse_patch_method("apply"), Ok(PatchMethod::Apply));
    assert_eq!(parse_patch_method("patch").unwrap_err(), "method must be 'apply' or 'am'");
    assert!(mailbox_apply_guard(true, false).is_err());
    assert!(mailbox_apply_guard(false, true).is_err());
    assert!(mailbox_apply_guard(false, false).is_ok());
}

#[test]
fn log_records_and_failures() {
    let out = "h1\u{1f}p1 p2\u{1f}Ann\u{1f}a@x\u{1f}2024\u{1f}Subject\u{1f}HEAD -> main\u{1e}\n\u{1f}\u{1f}\u{1e}h2\u{1f}\u{1f}Bo\u{1f}b@x\u{1f}d\u{1f}S\u{1e}";
    let cs = parse_git_log_records("h1\n", out);
    assert_eq!(cs.len(), 2);
    assert_eq!(cs[0].parents, vec!["p1", "p2"]);
    assert!(cs[0].is_head);
    assert_eq!(cs[0].refs, "");
    assert!(cs[1].parents.is_empty());
    assert!(!cs[1].is_head);
    let with_refs = parse_log_records("", out, true);
    assert_eq!(with_refs[0].refs, "HEAD -> main");
    assert!(git_log_commits_multi(false, "", "fatal: your current branch 'main' does not have any commits yet", "").unwrap().is_empty());
    assert_eq!(git_log_commits_multi(false, "", "fatal: bad", "").err().unwrap(), "git log failed: fatal: bad");
}

#[test]
fn predicted_graph_for_mailbox_and_apply() {
    let nodes = predicted_commits(PatchMethod::Mailbox, &Vec::new(), "base1");
    assert_eq!(nodes.len(), 1);
    assert_eq!(nodes[0].hash, "predict:am:1");
    assert_eq!(nodes[0].parents, vec!["base1"]);
    assert_eq!(nodes[0].subject, "Apply patch (am)");
    let subs = vec![String::from("one"), String::from("two")];
    let nodes = predicted_commits(PatchMethod::Mailbox, &subs, "base1");
    assert_eq!(nodes[1].hash, "predict:am:2");
    assert_eq!(nodes[1].parents, vec!["predict:am:1"]);
    let nodes = predicted_commits(PatchMethod::Apply, &subs, "base1");
    assert_eq!(nodes[0].hash, "predict:apply");
    assert_eq!(nodes[0].author, "(predict)");
    assert!(predicted_commits(PatchMethod::Apply, &subs, "  ").is_empty());
    assert_eq!(remaining_log_count(None, 2), 58);
    assert_eq!(remaining_log_count(Some(5), 1), 9);
    assert_eq!(remaining_log_count(Some(1000), 0), 200);
    assert_eq!(remaining_log_count(Some(10), 12), 0);
    let graph = finish_prediction_graph(nodes, &String::from("predict:apply"), &String::from("main"));
    assert!(graph[0].is_head);
    assert_eq!(graph[0].refs, "HEAD -> main");
    assert_eq!(head_name_of(None), "(detached)");
    assert_eq!(head_name_of(Some("main\n")), "main");
}

#[test]
fn search_arguments() {
    let p = GitLogSearchParams {
        authors: Some(vec![String::from(" ann "), String::from(" ")]),
        since: Some(String::from("2024-01-01")),
        until: None,
        grep: Some(String::from("  ")),
        grep_all_match: Some(true),
        invert_grep: None,
        paths: Some(vec![String::from("src/"), String::from("")]),
        max_count: Some(50),
        skip: Some(0),
        merges_only: None,
        no_merges: Some(false),
        first_parent: Some(true),
        all: Some(true),
        reverse: None,
        diff_filter: None,
        min_parents: Some(2),
        max_parents: None,
        branches: Some(String::new()),
        tags: Some(String::from("v*")),
        remotes: None,
        follow: None,
        regexp_ignore_case: None,
        fixed_strings: None,
        ancestry_path: None,
        simplify_by_decoration: None,
    };
    let args = log_search_args(&p);
    let expected = vec![
        "--no-pager", "log", "--all", "--author=ann", "--since=2024-01-01", "--all-match",
        "--first-parent", "--min-parents=2", "--branches", "--tags=v*", "--topo-order",
        "--date=iso-strict", "--pretty=format:%H\u{1f}%P\u{1f}%an\u{1f}%ae\u{1f}%ad\u{1f}%s\u{1f}%D\u{1e}",
        "-n", "50", "--", "src/",
    ];
    assert_eq!(args, expected);
}

#[test]
fn search_arguments_without_paths_end_at_head() {
    let p = GitLogSearchParams {
        authors: None, since: None, until: None, grep: None, grep_all_match: None,
        invert_grep: None, paths: None, max_count: None, skip: Some(7), merges_only: None,
        no_merges: None, first_parent: None, all: None, reverse: Some(true), diff_filter: None,
        min_parents: None, max_parents: None, branches: None, tags: None, remotes: None,
        follow: Some(true), regexp_ignore_case: None, fixed_strings: None, ancestry_path: None,
        simplify_by_decoration: None,
    };
    let args = log_search_args(&p);
    assert_eq!(&args[2..], &["--reverse", "--date=iso-strict", "--pretty=format:%H\u{1f}%P\u{1f}%an\u{1f}%ae\u{1f}%ad\u{1f}%s\u{1f}%D\u{1e}", "--skip=7", "--follow", "HEAD"]);
}

#[test]
fn branch_names_fill_undecorated_commits() {
    let out = "a\u{1f}\u{1f}x\u{1f}x\u{1f}d\u{1f}s\u{1f}tag: v1\u{1e}b\u{1f}\u{1f}x\u{1f}x\u{1f}d\u{1f}s\u{1f}\u{1e}c\u{1f}\u{1f}x\u{1f}x\u{1f}d\u{1f}s\u{1f}\u{1e}";
    let cs = parse_log_records("", out, true);
    assert_eq!(undecorated_hashes(&cs), vec!["b", "c"]);
    let filled = fill_branch_names(cs, "main~2\nundefined\n");
    assert_eq!(filled[0].refs, "tag: v1");
    assert_eq!(filled[1].refs, "main");
    assert_eq!(filled[2].refs, "");
}

#[test]
fn pull_conflict_lines() {
    let text = "Auto-merging a.txt\nCONFLICT (content): Merge conflict in a.txt\nCONFLICT (modify/delete): b.txt deleted in HEAD and modified in x. Version x of b.txt left in tree.\nCONFLICT (content): Merge conflict in a.txt\n";
    assert_eq!(parse_conflict_files(text), vec!["a.txt", "tree."]);
    assert_eq!(parse_conflict_files("CONFLICT: c.txt\n"), vec!["c.txt"]);
    assert!(parse_conflict_files("all good\n").is_empty());
}

#[test]
fn merge_prediction_sorted_distinct() {
    assert_eq!(predict_merge_conflicts(Some("b.txt\na.txt\n\nb.txt\n"), None), vec!["a.txt", "b.txt"]);
    let trivial = "changed in both\n  base   100644 1 f.txt\n  our    100644 2 f.txt\n  their  100644 3 f.txt\n@@ -1 +1 @@\n";
    assert_eq!(predict_merge_conflicts(None, Some(trivial)), vec!["f.txt"]);
    assert!(predict_merge_conflicts(None, None).is_empty());
}

#[test]
fn pull_actions() {
    assert_eq!(pull_action(false, 1, 1, true), PullAction::NoUpstream);
    assert_eq!(pull_action(true, 3, 0, false), PullAction::Noop);
    assert_eq!(pull_action(true, 0, 2, false), PullAction::FastForward);
    assert_eq!(pull_action(true, 1, 2, true), PullAction::Rebase);
    assert_eq!(pull_action(true, 1, 2, false), PullAction::MergeCommit);
    assert_eq!(PullAction::MergeCommit.name(), "merge-commit");
    assert_eq!(parse_ahead_behind("3\t5\n"), (5, 3));
    assert_eq!(parse_ahead_behind("x"), (0, 0));
}

#[test]
fn clone_progress() {
    assert_eq!(extract_progress_percent("Receiving objects:  45% (9/20)"), Some(45));
    assert_eq!(extract_progress_percent("x 150%"), None);
    assert_eq!(extract_progress_percent("no percent"), None);
    assert_eq!(extract_progress_percent("%"), None);
    assert_eq!(
        parse_git_clone_progress_line("remote: Counting objects: 100% (5/5), done."),
        Some((String::from("Counting objects"), 100, String::from("Counting objects: 100% (5/5), done.")))
    );
    assert_eq!(parse_git_clone_progress_line("   "), None);
    assert_eq!(parse_git_clone_progress_line(": 50%"), None);
}

#[test]
fn pushed_commit_set() {
    let v = get_pushed_commits("aaa\n\n bbb \n", Some("ccc\n"), Some("ddd\naaa\n"));
    assert_eq!(v, vec!["aaa", "bbb", "ccc", "ddd", "aaa"]);
    assert_eq!(get_pushed_commits("", None, None), Vec::<String>::new());
    assert_eq!(trimmed_nonblank_lines(" x \n\n"), vec!["x"]);
}

#[test]
fn tag_targets_sorted_and_peeled() {
    let text = "111 refs/tags/v2\n222 refs/tags/v1\n333 refs/tags/v1^{}\n444 refs/tags/v1\n555 refs/heads/main\n666 refs/tags/^{}\n";
    let ts = parse_tag_targets_from_lines(text);
    assert_eq!(ts.len(), 2);
    assert_eq!(ts[0].name, "v1");
    assert_eq!(ts[0].target, "333");
    assert_eq!(ts[1].name, "v2");
    assert_eq!(ts[1].target, "111");
}

#[test]
fn two_clones_different_files_rebase_cleanly() {
    // Before the pull: one commit on each side, no path changed on both.
    let (ahead, behind) = parse_ahead_behind("1\t1\n");
    assert_eq!((ahead, behind), (1, 1));
    assert_eq!(pull_action(true, ahead, behind, true), PullAction::Rebase);
    assert!(predict_merge_conflicts(None, Some("")).is_empty());
    // After the rebase: the local commit sits on the other side's head.
    let log = "local1\u{1f}remote9\u{1f}Me\u{1f}me@x\u{1f}d\u{1f}Edit b.txt\u{1e}remote9\u{1f}base0\u{1f}You\u{1f}you@x\u{1f}d\u{1f}Edit a.txt\u{1e}";
    let cs = parse_git_log_records("local1", log);
    assert_eq!(cs[0].parents, vec!["remote9"]);
    assert_eq!(cs[1].hash, "remote9");
    assert!(cs.iter().all(|c| c.parents.len() == 1));
}

#[test]
fn two_clones_same_line_conflict_then_take_theirs() {
    let trivial = "changed in both\n  base   100644 aaa shared.txt\n  our    100644 bbb shared.txt\n  their  100644 ccc shared.txt\n";
    assert_eq!(predict_merge_conflicts(None, Some(trivial)), vec!["shared.txt"]);
    let unmerged = vec![String::from("shared.txt")];
    let probe = OperationProbe { applying_marker: false, rebase_head: false, merge_head: true, cherry_pick_head: false };
    let st = conflict_state(
        probe,
        &unmerged,
        Some(b"UU shared.txt\0"),
        Some(b"100644 aaa 1\tshared.txt\0100644 bbb 2\tshared.txt\0100644 ccc 3\tshared.txt\0"),
    );
    assert_eq!(st.operation, ConflictOperation::Merge);
    assert_eq!(st.files.len(), 1);
    assert_eq!(st.files[0].path, "shared.txt");
    let steps = take_theirs(&String::from("shared.txt"), &b"theirs\n".to_vec(), &None);
    assert!(matches!(&steps[0], ResolveStep::CheckoutTheirs(p) if p == "shared.txt"));
    assert!(matches!(&steps[1], ResolveStep::Stage(p) if p == "shared.txt"));
    let after = parse_status_entries(b"M  shared.txt\0");
    assert_eq!(after[0].status, "M ");
    let resolved = conflict_state(probe, &Vec::new(), Some(b"M  shared.txt\0"), Some(b""));
    assert!(resolved.files.is_empty());
}
