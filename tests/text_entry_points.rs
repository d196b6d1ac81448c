use graphoria_core::conflicts::{
    conflict_state_text, parse_ls_files_unmerged_text, parse_name_status_like_text,
    parse_name_status_text, parse_status_porcelain_text, stages_for, take_theirs, ConflictOperation,
    OperationProbe, ResolveStep, TheirsRefProbe,
};
use graphoria_core::continuation::retry_on_lowered;
use graphoria_core::guard::repo_key_cased;
use graphoria_core::patches::{is_empty_history_lowered, patch_method_of_lowered, PatchMethod};
use graphoria_core::rebase::{
    continue_after_inspect, is_no_commits_lowered, todo_action_of_lowered, RebaseStatus, TodoAction,
};
use graphoria_core::status::parse_status_text;

#[test]
fn status_text_parses_without_decoding() {
    let es = parse_status_text("R  new.rs\0old.rs\0 D gone.rs\0");
    assert_eq!(es.len(), 2);
    assert_eq!(es[0].status, "R ");
    assert_eq!(es[0].path, "new.rs");
    assert_eq!(es[0].old_path.as_deref(), Some("old.rs"));
    assert_eq!(es[1].status, " D");
}

#[test]
fn conflict_listings_from_text() {
    let pairs = parse_status_porcelain_text("UU f.txt\0");
    assert_eq!(pairs, vec![(String::from("f.txt"), String::from("UU"))]);
    let stages = parse_ls_files_unmerged_text("100644 a 1\tf.txt\0100644 b 3\tf.txt\0");
    assert_eq!(stages_for(&stages, &String::from("f.txt")), vec![1u8, 3]);
    let ns = parse_name_status_text("D\0x.txt\0");
    assert_eq!(ns[0].status, "D");
    assert_eq!(ns[0].path, "x.txt");
    let ts = parse_name_status_like_text("C75\0a\0b\0");
    assert_eq!(ts, vec![(String::from("C75"), Some(String::from("a")), String::from("b"))]);
}

#[test]
fn conflict_state_from_text_reports_letters_and_stages() {
    let probe = OperationProbe { applying_marker: false, rebase_head: true, merge_head: false, cherry_pick_head: false };
    let st = conflict_state_text(
        probe,
        &vec![String::from("f")],
        Some("UU f\0"),
        Some("100644 a 1\tf\0100644 b 2\tf\0100644 c 3\tf\0"),
    );
    assert!(st.in_progress);
    assert_eq!(st.operation, ConflictOperation::Rebase);
    assert_eq!(st.files[0].status, "UU");
    assert_eq!(st.files[0].stages, vec![1u8, 2, 3]);
}

#[test]
fn lowered_words() {
    assert_eq!(todo_action_of_lowered("reword"), TodoAction::Reword);
    assert_eq!(todo_action_of_lowered("Reword"), TodoAction::Pick);
    assert_eq!(todo_action_of_lowered("drop"), TodoAction::Drop);
    assert_eq!(patch_method_of_lowered("am"), Some(PatchMethod::Mailbox));
    assert_eq!(patch_method_of_lowered("apply"), Some(PatchMethod::Apply));
    assert_eq!(patch_method_of_lowered("mbox"), None);
    assert!(retry_on_lowered("error: unknown option `no-edit'"));
    assert!(!retry_on_lowered("conflict"));
    assert!(is_empty_history_lowered("fatal: your current branch 'main' does not have any commits yet"));
    assert!(!is_empty_history_lowered("fatal: bad object"));
    assert!(is_no_commits_lowered("fatal: ambiguous argument: unknown revision"));
    assert!(!is_no_commits_lowered("fatal: bad object"));
    assert_eq!(repo_key_cased(" C:\\Work\\Repo\\ "), "C:/Work/Repo");
}

#[test]
fn inspection_after_failed_continue() {
    assert!(continue_after_inspect(RebaseStatus::StoppedAtEdit));
    assert!(!continue_after_inspect(RebaseStatus::Conflicts));
    assert!(!continue_after_inspect(RebaseStatus::Completed));
}

#[test]
fn take_theirs_writes_renamed_content_first() {
    let probe = Some(TheirsRefProbe {
        renamed_to: Some(String::from("dir/new.txt")),
        renamed_content: b"their text\n".to_vec(),
        path_exists: false,
    });
    let steps = take_theirs(&String::from("old.txt"), &Vec::new(), &probe);
    assert!(matches!(&steps[0], ResolveStep::WriteBytes(p, c) if p == "dir/new.txt" && c == b"their text\n"));
    assert!(matches!(&steps[1], ResolveStep::StageAll(p) if p == "dir/new.txt"));
    assert!(matches!(&steps[2], ResolveStep::Remove(p) if p == "old.txt"));
}
