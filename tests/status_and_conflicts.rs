use graphoria_core::conflicts::{
    apply_and_stage, bytes_to_text_or_err, checked_path, conflict_file_versions, conflict_state,
    detect_conflict_operation, detect_renames_against_theirs, detect_theirs_ref, lookup_last,
    parse_ls_files_unmerged_z, parse_name_status_like_z, parse_name_status_z,
    parse_status_porcelain_z, plan_resolve_rename, plan_resolve_rename_with_content,
    rename_choices, rename_content_choice, stages_for, take_ours, take_theirs, ConflictKind,
    ConflictOperation, ConflictSides, OperationProbe, ResolveStep, Side, TheirsRefProbe,
};
use graphoria_core::status::{
    detect_unstaged_renames, head_ids_from_ls_tree, parse_status_entries, reconcile_renames,
    rename_probe_paths, status_is_addition, status_is_deletion, work_ids_from_hash_object,
};

fn probe(am: bool, rebase: bool, merge: bool, cherry: bool) -> OperationProbe {
    OperationProbe { applying_marker: am, rebase_head: rebase, merge_head: merge, cherry_pick_head: cherry }
}

#[test]
fn status_entries_plain_and_rename() {
    let out = b" M src/a.rs\0R  new.txt\0old.txt\0?? notes.md\0";
    let es = parse_status_entries(out);
    assert_eq!(es.len(), 3);
    assert_eq!(es[0].status, " M");
    assert_eq!(es[0].path, "src/a.rs");
    assert_eq!(es[0].old_path, None);
    assert_eq!(es[1].status, "R ");
    assert_eq!(es[1].path, "new.txt");
    assert_eq!(es[1].old_path.as_deref(), Some("old.txt"));
    assert_eq!(es[2].status, "??");
    assert_eq!(es[2].path, "notes.md");
}

#[test]
fn status_entries_skip_short_records_and_empty_input() {
    assert!(parse_status_entries(b"").is_empty());
    let es = parse_status_entries(b"M\0 M x\0");
    assert_eq!(es.len(), 1);
    assert_eq!(es[0].path, "x");
}

#[test]
fn status_entries_decode_invalid_utf8_lossily() {
    let es = parse_status_entries(b" M caf\xff.txt\0");
    assert_eq!(es.len(), 1);
    assert_eq!(es[0].path, "caf\u{fffd}.txt");
}

#[test]
fn status_codes_classify_deletions_and_additions() {
    assert!(status_is_deletion(&String::from(" D")));
    assert!(status_is_deletion(&String::from("D ")));
    assert!(!status_is_deletion(&String::from("RD")));
    assert!(status_is_addition(&String::from("??")));
    assert!(status_is_addition(&String::from("A ")));
    assert!(!status_is_addition(&String::from(" M")));
}

#[test]
fn moved_file_becomes_single_rename_entry() {
    let es = parse_status_entries(b" D docs/old.txt\0?? notes/new.txt\0 M other.rs\0");
    let dels = rename_probe_paths(&es, true);
    let adds = rename_probe_paths(&es, false);
    assert_eq!(dels, vec![String::from("docs/old.txt")]);
    assert_eq!(adds, vec![String::from("notes/new.txt")]);
    let out = detect_unstaged_renames(es, "100644 blob 3b18e512dba79e4c8300dd08aeb37f8e728b8dad\tdocs/old.txt\n", "3b18e512dba79e4c8300dd08aeb37f8e728b8dad\n");
    assert_eq!(out.len(), 2);
    assert_eq!(out[0].status, "R ");
    assert_eq!(out[0].path, "notes/new.txt");
    assert_eq!(out[0].old_path.as_deref(), Some("docs/old.txt"));
    assert_eq!(out[1].path, "other.rs");
    assert!(out.iter().all(|e| e.path != "docs/old.txt"));
}

#[test]
fn different_content_is_not_a_rename() {
    let es = parse_status_entries(b" D a.txt\0?? b.txt\0");
    let out = detect_unstaged_renames(es, "100644 blob 1111\ta.txt\n", "2222\n");
    assert_eq!(out.len(), 2);
    assert_eq!(out[0].status, " D");
    assert_eq!(out[1].status, "??");
}

#[test]
fn one_deletion_is_taken_once() {
    let es = parse_status_entries(b" D a.txt\0?? b.txt\0?? c.txt\0");
    let hh = head_ids_from_ls_tree(&es, "100644 blob abc\ta.txt\n");
    assert_eq!(hh, vec![Some(String::from("abc")), None, None]);
    let wh = work_ids_from_hash_object(&es, "abc\nabc\n");
    assert_eq!(wh, vec![None, Some(String::from("abc")), Some(String::from("abc"))]);
    let out = reconcile_renames(es, &hh, &wh);
    assert_eq!(out.len(), 2);
    assert_eq!(out[0].path, "b.txt");
    assert_eq!(out[0].old_path.as_deref(), Some("a.txt"));
    assert_eq!(out[1].path, "c.txt");
    assert_eq!(out[1].status, "??");
}

#[test]
fn operation_detection_order() {
    assert_eq!(detect_conflict_operation(probe(true, true, true, true)), ConflictOperation::MailboxApply);
    assert_eq!(detect_conflict_operation(probe(false, true, true, true)), ConflictOperation::Rebase);
    assert_eq!(detect_conflict_operation(probe(false, false, true, true)), ConflictOperation::Merge);
    assert_eq!(detect_conflict_operation(probe(false, false, false, true)), ConflictOperation::CherryPick);
    assert_eq!(detect_conflict_operation(probe(false, false, false, false)), ConflictOperation::Idle);
    assert_eq!(ConflictOperation::CherryPick.name(), "cherry-pick");
    assert_eq!(ConflictOperation::MailboxApply.name(), "am");
    assert_eq!(ConflictOperation::Idle.name(), "");
}

#[test]
fn theirs_ref_priority() {
    assert_eq!(detect_theirs_ref(true, true, true).as_deref(), Some("MERGE_HEAD"));
    assert_eq!(detect_theirs_ref(false, true, true).as_deref(), Some("CHERRY_PICK_HEAD"));
    assert_eq!(detect_theirs_ref(false, false, true).as_deref(), Some("REBASE_HEAD"));
    assert_eq!(detect_theirs_ref(false, false, false), None);
}

#[test]
fn porcelain_pairs_last_wins_and_rename_skips_second() {
    let pairs = parse_status_porcelain_z(b"UU a.txt\0R  b.txt\0c.txt\0AA a.txt\0");
    assert_eq!(pairs.len(), 3);
    assert_eq!(lookup_last(&pairs, &String::from("a.txt")).as_deref(), Some("AA"));
    assert_eq!(lookup_last(&pairs, &String::from("b.txt")).as_deref(), Some("R "));
    assert_eq!(lookup_last(&pairs, &String::from("c.txt")), None);
}

#[test]
fn unmerged_stages_sorted_and_distinct() {
    let out = b"100644 aaa 3\tf.txt\0100644 bbb 1\tf.txt\0100644 ccc 2\tf.txt\0100644 ddd 3\tf.txt\0100644 eee 0\tg.txt\0bad\0";
    let pairs = parse_ls_files_unmerged_z(out);
    assert_eq!(pairs.len(), 4);
    assert_eq!(stages_for(&pairs, &String::from("f.txt")), vec![1u8, 2, 3]);
    assert!(stages_for(&pairs, &String::from("g.txt")).is_empty());
}

#[test]
fn name_status_entries_and_triples() {
    let out = b"M\0a.txt\0R087\0old.txt\0new.txt\0A\0";
    let es = parse_name_status_z(out);
    assert_eq!(es.len(), 2);
    assert_eq!(es[0].status, "M");
    assert_eq!(es[0].path, "a.txt");
    assert_eq!(es[1].status, "R087");
    assert_eq!(es[1].path, "new.txt");
    assert_eq!(es[1].old_path.as_deref(), Some("old.txt"));
    let ts = parse_name_status_like_z(out);
    assert_eq!(ts[1], (String::from("R087"), Some(String::from("old.txt")), String::from("new.txt")));
}

#[test]
fn renames_against_theirs_only_when_diff_ran() {
    let out = b"R100\0src/a.rs\0lib/a.rs\0M\0b.rs\0";
    assert!(detect_renames_against_theirs(false, out).is_empty());
    let rs = detect_renames_against_theirs(true, out);
    assert_eq!(rs, vec![(String::from("src/a.rs"), String::from("lib/a.rs"))]);
}

#[test]
fn binary_content_is_refused() {
    assert_eq!(bytes_to_text_or_err(b"a\0b").unwrap_err(), "Binary file preview is not supported.");
    assert_eq!(bytes_to_text_or_err(b"plain").unwrap(), "plain");
}

#[test]
fn conflict_state_annotates_and_falls_back() {
    let unmerged = vec![String::from("f.txt"), String::from("g.txt")];
    let st = conflict_state(
        probe(false, false, true, false),
        &unmerged,
        Some(b"UU f.txt\0"),
        Some(b"100644 a 1\tf.txt\0100644 b 2\tf.txt\0100644 c 3\tf.txt\0"),
    );
    assert!(st.in_progress);
    assert_eq!(st.operation, ConflictOperation::Merge);
    assert_eq!(st.files.len(), 2);
    assert_eq!(st.files[0].status, "UU");
    assert_eq!(st.files[0].stages, vec![1u8, 2, 3]);
    assert_eq!(st.files[1].status, "U");
    assert!(st.files[1].stages.is_empty());
    let fallback = conflict_state(probe(false, false, false, false), &unmerged, None, None);
    assert!(!fallback.in_progress);
    assert_eq!(fallback.files[0].status, "U");
}

#[test]
fn conflict_state_twice_is_identical() {
    let unmerged = vec![String::from("a.rs")];
    let p = probe(false, true, false, false);
    let one = conflict_state(p, &unmerged, Some(b"AA a.rs\0"), Some(b"100644 x 2\ta.rs\0"));
    let two = conflict_state(p, &unmerged, Some(b"AA a.rs\0"), Some(b"100644 x 2\ta.rs\0"));
    assert_eq!(one.in_progress, two.in_progress);
    assert_eq!(one.operation, two.operation);
    assert_eq!(one.files.len(), two.files.len());
    assert_eq!(one.files[0].status, two.files[0].status);
    assert_eq!(one.files[0].path, two.files[0].path);
    assert_eq!(one.files[0].stages, two.files[0].stages);
}

fn sides(base: &[u8], ours: &[u8], theirs: &[u8], probe: Option<TheirsRefProbe>) -> ConflictSides {
    ConflictSides {
        base: base.to_vec(),
        ours: ours.to_vec(),
        theirs: theirs.to_vec(),
        working: Some(b"work".to_vec()),
        ours_in_head: true,
        theirs_ref: probe,
    }
}

#[test]
fn deleted_upstream_is_modify_delete() {
    let s = sides(
        b"base\n",
        b"mine\n",
        b"",
        Some(TheirsRefProbe { renamed_to: None, renamed_content: Vec::new(), path_exists: false }),
    );
    let v = conflict_file_versions(&String::from("f.txt"), &s).unwrap();
    assert_eq!(v.conflict_kind, ConflictKind::ModifyDelete);
    assert!(v.theirs_deleted);
    assert!(!v.ours_deleted);
    assert_eq!(v.ours.as_deref(), Some("mine\n"));
    assert_eq!(v.theirs, None);
    assert_eq!(v.ours_path.as_deref(), Some("f.txt"));
}

#[test]
fn renamed_upstream_is_rename_conflict() {
    let s = sides(
        b"base\n",
        b"mine\n",
        b"",
        Some(TheirsRefProbe {
            renamed_to: Some(String::from("g.txt")),
            renamed_content: b"theirs\n".to_vec(),
            path_exists: false,
        }),
    );
    let v = conflict_file_versions(&String::from("f.txt"), &s).unwrap();
    assert_eq!(v.conflict_kind, ConflictKind::Rename);
    assert_eq!(v.theirs.as_deref(), Some("theirs\n"));
    assert_eq!(v.theirs_path.as_deref(), Some("g.txt"));
    assert!(!v.theirs_deleted);
}

#[test]
fn both_sides_present_is_text_conflict() {
    let s = sides(b"base\n", b"mine\n", b"theirs\n", None);
    let v = conflict_file_versions(&String::from("f.txt"), &s).unwrap();
    assert_eq!(v.conflict_kind, ConflictKind::Text);
    assert!(!v.ours_deleted && !v.theirs_deleted);
    assert_eq!(v.working.as_deref(), Some("work"));
}

#[test]
fn deleted_locally_is_modify_delete() {
    let mut s = sides(b"base\n", b"", b"theirs\n", None);
    s.ours_in_head = false;
    let v = conflict_file_versions(&String::from("f.txt"), &s).unwrap();
    assert_eq!(v.conflict_kind, ConflictKind::ModifyDelete);
    assert!(v.ours_deleted);
    assert!(!v.theirs_deleted);
}

#[test]
fn binary_stage_aborts_versions() {
    let s = sides(b"ba\0se", b"mine", b"theirs", None);
    let e = conflict_file_versions(&String::from("f.txt"), &s).err().unwrap();
    assert_eq!(e, "Binary file preview is not supported.");
}

fn step_names(steps: &[ResolveStep]) -> Vec<String> {
    steps
        .iter()
        .map(|s| match s {
            ResolveStep::Remove(p) => format!("rm {p}"),
            ResolveStep::Discard(p) => format!("discard {p}"),
            ResolveStep::CheckoutOurs(p) => format!("ours {p}"),
            ResolveStep::CheckoutTheirs(p) => format!("theirs {p}"),
            ResolveStep::Stage(p) => format!("add {p}"),
            ResolveStep::StageAll(p) => format!("add-all {p}"),
            ResolveStep::WriteBytes(p, b) => format!("write {p} {}", b.len()),
            ResolveStep::WriteText(p, t) => format!("write-text {p} {t}"),
        })
        .collect()
}

#[test]
fn take_ours_steps() {
    let p = String::from("f.txt");
    assert_eq!(step_names(&take_ours(&p, true, &None)), vec!["rm f.txt"]);
    assert_eq!(step_names(&take_ours(&p, false, &None)), vec!["ours f.txt", "add f.txt"]);
    assert_eq!(
        step_names(&take_ours(&p, false, &Some(String::from("g.txt")))),
        vec!["rm g.txt", "ours f.txt", "add f.txt"]
    );
}

#[test]
fn take_theirs_steps() {
    let p = String::from("f.txt");
    assert_eq!(step_names(&take_theirs(&p, &b"x".to_vec(), &None)), vec!["theirs f.txt", "add f.txt"]);
    assert_eq!(step_names(&take_theirs(&p, &Vec::new(), &None)), vec!["rm f.txt"]);
    let renamed = Some(TheirsRefProbe {
        renamed_to: Some(String::from("g.txt")),
        renamed_content: b"abc".to_vec(),
        path_exists: false,
    });
    assert_eq!(
        step_names(&take_theirs(&p, &Vec::new(), &renamed)),
        vec!["write g.txt 3", "add-all g.txt", "rm f.txt"]
    );
}

#[test]
fn rename_resolution_plans_and_errors() {
    let p = String::from("f.txt");
    let tp = Some(String::from("g.txt"));
    assert_eq!(
        plan_resolve_rename(&p, false, &tp, Side::Ours, &b"x".to_vec()).err().unwrap(),
        "Failed to detect their ref (MERGE_HEAD/REBASE_HEAD)."
    );
    assert_eq!(
        plan_resolve_rename(&p, true, &None, Side::Ours, &b"x".to_vec()).err().unwrap(),
        "Failed to detect rename target for this conflict."
    );
    assert_eq!(
        plan_resolve_rename(&p, true, &tp, Side::Ours, &Vec::new()).err().unwrap(),
        "Failed to load selected content for rename conflict."
    );
    assert_eq!(
        plan_resolve_rename(&p, true, &tp, Side::Ours, &b"a\0".to_vec()).err().unwrap(),
        "Binary file preview is not supported."
    );
    let steps = plan_resolve_rename(&p, true, &tp, Side::Theirs, &b"text".to_vec()).unwrap();
    assert_eq!(step_names(&steps), vec!["write-text g.txt text", "add-all g.txt", "discard f.txt"]);
    let steps = plan_resolve_rename(&p, true, &tp, Side::Ours, &b"text".to_vec()).unwrap();
    assert_eq!(step_names(&steps), vec!["write-text f.txt text", "add-all f.txt", "discard g.txt"]);
    assert_eq!(
        plan_resolve_rename_with_content(&p, true, &tp, Side::Ours, &String::from("  \n")).err().unwrap(),
        "Content is empty."
    );
}

#[test]
fn rename_choice_validation() {
    assert_eq!(rename_choices(" ours ", "theirs"), Ok((Side::Ours, Side::Theirs)));
    assert_eq!(rename_choices("mine", "theirs").unwrap_err(), "keep_name must be 'ours' or 'theirs'");
    assert_eq!(rename_choices("ours", "both").unwrap_err(), "keep_content must be 'ours' or 'theirs'");
    assert_eq!(rename_content_choice(Side::Theirs, &b"o".to_vec(), &Vec::new(), &b"r".to_vec()), b"r".to_vec());
    assert_eq!(rename_content_choice(Side::Ours, &b"o".to_vec(), &b"t".to_vec(), &b"r".to_vec()), b"o".to_vec());
}

#[test]
fn path_check_and_manual_resolution() {
    assert_eq!(checked_path("   ").unwrap_err(), "path is empty");
    assert_eq!(checked_path("  a/b.txt ").unwrap(), "a/b.txt");
    let steps = apply_and_stage(&String::from("a.txt"), &String::from("merged"));
    assert_eq!(step_names(&steps), vec!["write-text a.txt merged", "add a.txt"]);
}
