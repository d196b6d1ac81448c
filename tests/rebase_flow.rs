use graphoria_core::continuation::{
    command_result, continue_message, continue_operation, git_status_text, normalize_commit_message,
    rebase_continue_attempts, should_retry_continue, staged_name_status, stored_message,
    strip_trailing_line_ends, unified_arg, ContinueOperation,
};
use graphoria_core::conflicts::parse_name_status_z;
use graphoria_core::rebase::{
    after_continue, amend_args, build_rebase_plan, check_rebase_start, completed_result,
    detect_rebase_state, get_head_author, load_reword_map, parse_edit_stop_files,
    parse_rebase_commits, parse_todo_action, rebase_base_ref, rebase_commits_outcome, rebase_range,
    reword_step, save_reword_map, sequence_editor_script, todo_file_content, ContinueOutcome,
    InteractiveRebaseTodoEntry, RebaseProbe, RebaseStatus, RewordMap, RewordStep, TodoAction,
};

fn entry(action: &str, hash: &str, subject: &str, msg: Option<&str>, author: Option<&str>) -> InteractiveRebaseTodoEntry {
    InteractiveRebaseTodoEntry {
        action: action.to_string(),
        hash: hash.to_string(),
        short_hash: None,
        original_message: Some(subject.to_string()),
        new_message: msg.map(|s| s.to_string()),
        new_author: author.map(|s| s.to_string()),
    }
}

fn probe(rebase_head: bool, dir: bool, conflicts: Vec<String>) -> RebaseProbe {
    RebaseProbe {
        rebase_head,
        merge_dir_exists: dir,
        msgnum: Some(String::from("2\n")),
        end: Some(String::from(" 3 ")),
        stopped_sha: Some(String::from("abc123\n")),
        message: Some(String::from("Subject line\n")),
        head_author: Some(String::from("Ada Lovelace\u{1f}ada@example.com\n")),
        conflict_files: conflicts,
    }
}

#[test]
fn action_words_ignore_case_and_space() {
    assert_eq!(parse_todo_action(" REWORD "), TodoAction::Reword);
    assert_eq!(parse_todo_action("Drop"), TodoAction::Drop);
    assert_eq!(parse_todo_action("squash"), TodoAction::Squash);
    assert_eq!(parse_todo_action("fixup"), TodoAction::Fixup);
    assert_eq!(parse_todo_action("edit"), TodoAction::Edit);
    assert_eq!(parse_todo_action("anything"), TodoAction::Pick);
}

#[test]
fn plan_maps_each_action() {
    let entries = vec![
        entry("pick", "a1", "one", None, None),
        entry("reword", "b2", "two", Some("Two, better"), None),
        entry("edit", "c3", "three", None, Some("Bob <bob@x>")),
        entry("squash", "d4", "four", None, None),
        entry("fixup", "e5", "five", None, None),
        entry("drop", "f6", "six", None, None),
        entry("pick", "g7", "seven", None, Some("Eve <eve@x>")),
        entry("pick", "  ", "blank", None, None),
    ];
    let plan = build_rebase_plan(&entries);
    assert_eq!(
        plan.lines,
        vec!["pick a1 one", "edit b2 two", "edit c3 three", "fixup d4 four", "fixup e5 five", "edit g7 seven"]
    );
    assert_eq!(plan.rewords.entries.len(), 3);
    let r = plan.rewords.lookup("b2").unwrap();
    assert_eq!(r, (Some(String::from("Two, better")), None));
    let r = plan.rewords.lookup("g7").unwrap();
    assert_eq!(r, (None, Some(String::from("Eve <eve@x>"))));
    assert_eq!(plan.rewords.lookup("a1"), None);
}

#[test]
fn all_dropped_plan_is_empty() {
    let plan = build_rebase_plan(&vec![entry("drop", "a1", "one", None, None)]);
    assert!(plan.lines.is_empty());
    assert!(plan.rewords.entries.is_empty());
}

#[test]
fn reword_lookup_is_prefix_tolerant() {
    let mut m = RewordMap::new();
    m.insert(String::from("0123456789abcdef"), Some(String::from("msg")), None);
    assert_eq!(m.lookup("0123456").unwrap().0.as_deref(), Some("msg"));
    assert_eq!(m.lookup("0123456789abcdef").unwrap().0.as_deref(), Some("msg"));
    assert_eq!(m.lookup("0123456789abcdef00").unwrap().0.as_deref(), Some("msg"));
    assert_eq!(m.lookup("fedcba"), None);
    m.insert(String::from("0123456789abcdef"), Some(String::from("newer")), None);
    assert_eq!(m.lookup("0123").unwrap().0.as_deref(), Some("newer"));
}

#[test]
fn reword_map_survives_save_and_load() {
    let mut m = RewordMap::new();
    m.insert(String::from("abc123"), Some(String::from("New \"quoted\" message\nbody")), Some(String::from("A <a@b>")));
    m.insert(String::from("def456"), None, Some(String::from("B <b@c>")));
    let text = save_reword_map(&m);
    assert!(text.contains("abc123"));
    let back = load_reword_map(Some(text.as_str()));
    assert_eq!(back.entries.len(), 2);
    assert_eq!(
        back.lookup("abc1").unwrap(),
        (Some(String::from("New \"quoted\" message\nbody")), Some(String::from("A <a@b>")))
    );
    assert_eq!(back.lookup("def456").unwrap(), (None, Some(String::from("B <b@c>"))));
    assert!(load_reword_map(Some("not json")).entries.is_empty());
    assert!(load_reword_map(None).entries.is_empty());
}

#[test]
fn amend_arguments() {
    assert_eq!(amend_args(&Some(String::from("msg")), &None), vec!["commit", "--amend", "--no-verify", "-m", "msg"]);
    assert_eq!(amend_args(&Some(String::from("  ")), &Some(String::from("A <a@b>"))), vec!["commit", "--amend", "--no-verify", "--no-edit", "--author", "A <a@b>"]);
    assert_eq!(amend_args(&None, &None), vec!["commit", "--amend", "--no-verify", "--no-edit"]);
}

#[test]
fn reword_then_pick_completes() {
    let entries = vec![
        entry("reword", "1111111111aaaaaaaaaa", "first", Some("First, reworded"), None),
        entry("pick", "2222222222bbbbbbbbbb", "second", None, None),
    ];
    let plan = build_rebase_plan(&entries);
    assert_eq!(plan.lines, vec!["edit 1111111111aaaaaaaaaa first", "pick 2222222222bbbbbbbbbb second"]);
    let content = todo_file_content(&plan.lines);
    assert_eq!(content, "edit 1111111111aaaaaaaaaa first\npick 2222222222bbbbbbbbbb second\n");
    assert!(sequence_editor_script(&content).ends_with("second\nREBASE_TODO_EOF\n"));
    let side_file = save_reword_map(&plan.rewords);
    let map = load_reword_map(Some(side_file.as_str()));
    match reword_step(&map, true, "1111111111aaaaaaaaaa\n") {
        RewordStep::Amend(args) => {
            assert_eq!(args, vec!["commit", "--amend", "--no-verify", "-m", "First, reworded"])
        }
        _ => panic!("the reword stop must be amended"),
    }
    assert_eq!(after_continue(true, false, false), ContinueOutcome::Completed);
    assert!(matches!(reword_step(&map, false, ""), RewordStep::Completed));
    let done = detect_rebase_state(&probe(false, false, Vec::new()));
    assert_eq!(done.status, RebaseStatus::Completed);
    assert_eq!(done.message, "Rebase completed successfully.");
}

#[test]
fn genuine_edit_stop_is_reported() {
    let map = RewordMap::new();
    assert!(matches!(reword_step(&map, true, "abc"), RewordStep::Report));
    assert!(matches!(reword_step(&map, true, "   "), RewordStep::Report));
    assert_eq!(after_continue(true, true, false), ContinueOutcome::NextStop);
    assert_eq!(after_continue(false, false, false), ContinueOutcome::Inspect);
}

#[test]
fn rebase_state_from_sentinels() {
    let st = detect_rebase_state(&probe(true, true, Vec::new()));
    assert_eq!(st.status, RebaseStatus::StoppedAtEdit);
    assert_eq!(st.message, "Rebase stopped for editing.");
    assert_eq!(st.current_step, Some(2));
    assert_eq!(st.total_steps, Some(3));
    assert_eq!(st.stopped_commit_hash.as_deref(), Some("abc123"));
    assert_eq!(st.stopped_commit_message.as_deref(), Some("Subject line"));
    assert_eq!(st.stopped_commit_author_name.as_deref(), Some("Ada Lovelace"));
    assert_eq!(st.stopped_commit_author_email.as_deref(), Some("ada@example.com"));
    let st = detect_rebase_state(&probe(false, true, vec![String::from("a.rs")]));
    assert_eq!(st.status, RebaseStatus::Conflicts);
    assert_eq!(st.message, "Rebase stopped due to conflicts.");
    assert_eq!(st.conflict_files, vec![String::from("a.rs")]);
    let mut p = probe(true, true, Vec::new());
    p.msgnum = Some(String::from("x"));
    p.end = Some(String::from("99999999999"));
    let st = detect_rebase_state(&p);
    assert_eq!(st.current_step, None);
    assert_eq!(st.total_steps, None);
    assert_eq!(completed_result(String::from("done")).message, "done");
}

#[test]
fn head_author_parsing() {
    assert_eq!(get_head_author(None), (None, None));
    assert_eq!(get_head_author(Some("Name Only")), (Some(String::from("Name Only")), None));
    assert_eq!(get_head_author(Some("\u{1f}e@x")), (None, Some(String::from("e@x"))));
}

#[test]
fn rebase_start_refusals() {
    assert_eq!(check_rebase_start(0, false, false).unwrap_err(), "No commits selected for rebase.");
    assert_eq!(check_rebase_start(1, true, false).unwrap_err(), "A rebase is already in progress.");
    assert_eq!(check_rebase_start(1, false, true).unwrap_err(), "A merge is in progress. Resolve it first.");
    assert!(check_rebase_start(2, false, false).is_ok());
}

#[test]
fn rebase_commit_list() {
    let out = "aaa\u{1f}a\u{1f}Subject\u{1f}Body\nmore\u{1f}Ann\u{1f}ann@x\u{1f}2024-01-01T00:00:00+00:00\u{1e}\nbbb\u{1f}b\u{1f}S2\u{1f}\u{1f}Bo\u{1f}bo@x\u{1f}date\u{1f}extra\u{1e}";
    let pushed = vec![String::from("bbb")];
    let cs = parse_rebase_commits(out, &pushed);
    assert_eq!(cs.len(), 2);
    assert_eq!(cs[0].hash, "aaa");
    assert_eq!(cs[0].body, "Body\nmore");
    assert!(!cs[0].is_pushed);
    assert_eq!(cs[1].author_date, "date\u{1f}extra");
    assert!(cs[1].is_pushed);
    assert!(rebase_commits_outcome(false, "", "fatal: bad revision: unknown revision", &pushed).unwrap().is_empty());
    assert_eq!(rebase_commits_outcome(false, "", "boom", &pushed).err().unwrap(), "git log failed: boom");
    assert_eq!(rebase_base_ref(Some("  "), "origin/main\n"), "origin/main");
    assert_eq!(rebase_base_ref(Some("main"), "origin/main"), "main");
    assert_eq!(rebase_range(""), "HEAD");
    assert_eq!(rebase_range("main"), "main..HEAD");
}

#[test]
fn edit_stop_files() {
    let fs = parse_edit_stop_files("M\tsrc/a.rs\nR100\told.rs\tnew.rs\n\nbad\n");
    assert_eq!(fs.len(), 2);
    assert_eq!(fs[0].status, "M");
    assert_eq!(fs[0].path, "src/a.rs");
    assert_eq!(fs[1].status, "R");
    assert_eq!(fs[1].path, "new.rs");
    assert_eq!(fs[1].old_path.as_deref(), Some("old.rs"));
}

#[test]
fn continue_operation_and_messages() {
    assert_eq!(continue_operation(true, true, true, true), Ok(ContinueOperation::Merge));
    assert_eq!(continue_operation(false, true, true, false), Ok(ContinueOperation::CherryPick));
    assert_eq!(continue_operation(false, true, false, false), Ok(ContinueOperation::Rebase));
    assert_eq!(continue_operation(false, false, false, false).unwrap_err(), "No merge/rebase/cherry-pick/am in progress.");
    assert_eq!(stored_message(ContinueOperation::Merge, " \n", ""), "Merge");
    assert_eq!(stored_message(ContinueOperation::Rebase, "", "from apply"), "from apply");
    assert_eq!(stored_message(ContinueOperation::Rebase, "", ""), "Rebase");
    assert_eq!(ContinueOperation::MailboxApply.name(), "am");
}

#[test]
fn continue_message_template() {
    let files = parse_name_status_z(b"M\0a.txt\0");
    let msg = continue_message(
        ContinueOperation::Merge,
        "Merge branch 'x'\r\n",
        &vec![String::from("c.txt")],
        Some("On branch main\nAll conflicts fixed"),
        &files,
    );
    let expected = "Merge branch 'x'\n\n# Please enter the commit message for your changes. Lines starting\n# with '#' will be ignored, and an empty message aborts the commit.\n#\n# Conflicts:\n#\tc.txt\n#\n# On branch main\n# All conflicts fixed\n#\n# Staged changes:\n# M a.txt\n";
    assert_eq!(msg, expected);
    let plain = continue_message(ContinueOperation::Rebase, "m", &vec![String::from("c.txt")], None, &Vec::new());
    assert!(!plain.contains("Conflicts"));
    assert!(plain.starts_with("m\n\n# Please"));
}

#[test]
fn message_normalisation() {
    assert_eq!(normalize_commit_message("a\r\nb"), "a\nb\n");
    assert_eq!(normalize_commit_message("a\n"), "a\n");
    assert_eq!(strip_trailing_line_ends("subject\r\n\n"), "subject");
}

#[test]
fn command_output_selection() {
    assert_eq!(command_result(true, b"done \n", b"warn"), Ok(String::from("done")));
    assert_eq!(command_result(true, b"\n", b"warn\n"), Ok(String::from("warn")));
    assert_eq!(command_result(false, b"out", b"err \n"), Err(String::from("err")));
    assert_eq!(command_result(false, b"out\n", b""), Err(String::from("out")));
    assert_eq!(git_status_text(true, b"clean", b""), Ok(String::from("clean")));
    assert_eq!(git_status_text(false, b"", b"bad"), Err(String::from("bad")));
}

#[test]
fn continue_retry_without_no_edit() {
    assert!(should_retry_continue("error: Unknown option `no-edit'"));
    assert!(should_retry_continue("usage: ... --no-edit"));
    assert!(!should_retry_continue("CONFLICT (content): Merge conflict in a.txt"));
    let a = rebase_continue_attempts();
    assert_eq!(a.primary, vec!["rebase", "--continue", "--no-edit"]);
    assert_eq!(a.fallback, vec!["rebase", "--continue"]);
}

#[test]
fn staged_changes_listing() {
    let ok = staged_name_status(true, b"A\0new.txt\0", b"").unwrap();
    assert_eq!(ok[0].path, "new.txt");
    assert_eq!(staged_name_status(false, b"", b"fatal").err().unwrap(), "git diff --cached failed: fatal");
}

#[test]
fn diff_context_is_capped() {
    assert_eq!(unified_arg(3), "--unified=3");
    assert_eq!(unified_arg(50), "--unified=50");
    assert_eq!(unified_arg(4000), "--unified=50");
}
