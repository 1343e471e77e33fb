use dirmirror::entry::Entry;
use dirmirror::reconcile::decide_action;
use dirmirror::reconcile::dest_dir_path;
use dirmirror::reconcile::dest_file_path;
use dirmirror::reconcile::source_dir_path;
use dirmirror::reconcile::source_file_path;
use dirmirror::reconcile::Action;
use dirmirror::reconcile::DstState;
use dirmirror::serialize::serialize_tree;
use dirmirror::tracker::PathStackTracker;
use dirmirror::tracker::SkipReason;
use dirmirror::tracker::StepError;
use dirmirror::tracker::StepOutcome;

#[test]
fn root_line_only_seeds_the_stack() {
    let mut t = PathStackTracker::new();
    let r = t.apply_line("DIR\t/abs/root\t0");
    assert_eq!(r, StepOutcome::Skip(SkipReason::RootEntry));
    assert_eq!(t.ancestors, vec!["/abs/root".to_string()]);
    assert_eq!(t.current_depth, 0);
    assert!(t.was_prev_dir);
}

#[test]
fn child_follows_directory() {
    let mut t = PathStackTracker::new();
    t.apply_line("DIR\t/abs/root\t0");
    let r = t.apply_line("\tFIL\ta.txt\t644\t10");
    assert_eq!(r, StepOutcome::Apply(Entry::File("a.txt".to_string(), 644, 10)));
    assert_eq!(t.ancestors, vec!["/abs/root".to_string()]);
    assert_eq!(t.current_depth, 1);
    assert!(!t.was_prev_dir);
}

#[test]
fn indent_jump_is_fatal() {
    let mut t = PathStackTracker::new();
    let r0 = t.apply_line("DIR\ta\t0755");
    assert_eq!(r0, StepOutcome::Skip(SkipReason::RootEntry));
    let r = t.apply_line("\t\tFIL\tb\t644\t1");
    assert_eq!(r, StepOutcome::Fatal(StepError::IndentJump));
    // a fatal line leaves the tracker untouched
    assert_eq!(t.ancestors, vec!["a".to_string()]);
    assert_eq!(t.current_depth, 0);
}

#[test]
fn child_of_non_directory_is_fatal() {
    let mut t = PathStackTracker::new();
    t.apply_line("DIR\t/r\t0");
    t.apply_line("\tFIL\ta\t644\t1");
    let r = t.apply_line("\t\tFIL\tb\t644\t1");
    assert_eq!(r, StepOutcome::Fatal(StepError::ChildOfNonDir));
}

#[test]
fn malformed_line_is_fatal() {
    let mut t = PathStackTracker::new();
    t.apply_line("DIR\t/r\t0");
    assert_eq!(
        t.apply_line("\tDIR\tsub"),
        StepOutcome::Fatal(StepError::MissingField)
    );
    assert_eq!(
        t.apply_line("\tFIL\ta\tnine\t1"),
        StepOutcome::Fatal(StepError::BadNumber)
    );
}

#[test]
fn dedent_pops_ancestors() {
    let mut t = PathStackTracker::new();
    t.apply_line("DIR\t/r\t0");
    t.apply_line("\tDIR\tsub1\t755");
    t.apply_line("\t\tDIR\tsub2\t755");
    assert_eq!(
        t.ancestors,
        vec!["/r".to_string(), "sub1".to_string(), "sub2".to_string()]
    );
    let r = t.apply_line("\tFIL\tback\t644\t2");
    assert_eq!(r, StepOutcome::Apply(Entry::File("back".to_string(), 644, 2)));
    assert_eq!(t.ancestors, vec!["/r".to_string(), "sub1".to_string()]);
    assert_eq!(t.current_depth, 1);
}

#[test]
fn dedent_by_two_pops_two_ancestors() {
    let mut t = PathStackTracker::new();
    t.apply_line("DIR\t/r\t0");
    t.apply_line("\tDIR\tsub1\t755");
    t.apply_line("\t\tDIR\tsub2\t755");
    t.apply_line("\t\t\tFIL\tdeep\t600\t1");
    let r = t.apply_line("\tFIL\tup\t644\t2");
    assert_eq!(r, StepOutcome::Apply(Entry::File("up".to_string(), 644, 2)));
    assert_eq!(t.ancestors, vec!["/r".to_string()]);
    assert_eq!(t.current_depth, 1);
}

#[test]
fn sibling_after_empty_directory_keeps_its_name_on_the_stack() {
    // The transition table pops only on a decrease of indentation, so a
    // directory line followed by a sibling at the same indentation leaves
    // the directory's name on the stack.
    let mut t = PathStackTracker::new();
    t.apply_line("DIR\t/r\t0");
    t.apply_line("\tDIR\tempty\t755");
    let r = t.apply_line("\tFIL\tb.txt\t644\t3");
    assert_eq!(r, StepOutcome::Apply(Entry::File("b.txt".to_string(), 644, 3)));
    assert_eq!(t.ancestors, vec!["/r".to_string(), "empty".to_string()]);
}

#[test]
fn unknown_tags_are_skipped_without_action() {
    let mut t = PathStackTracker::new();
    t.apply_line("DIR\t/r\t0");
    assert_eq!(
        t.apply_line("\tUKN\tmystery"),
        StepOutcome::Skip(SkipReason::UnknownTag)
    );
    assert_eq!(
        t.apply_line("\tUNK\tSymlink?: link"),
        StepOutcome::Skip(SkipReason::UnrecognizedTag)
    );
    assert_eq!(t.ancestors, vec!["/r".to_string()]);
    assert_eq!(t.current_depth, 1);
    assert!(!t.was_prev_dir);
}

#[test]
fn decide_creates_missing_directory() {
    let d = Entry::Dir("sub".to_string(), 755, vec![]);
    assert_eq!(
        decide_action(&d, &DstState::Missing),
        Action::CreateDir { mode: 755 }
    );
}

#[test]
fn decide_sets_directory_mode() {
    let d = Entry::Dir("sub".to_string(), 755, vec![]);
    assert_eq!(
        decide_action(&d, &DstState::Present { mode: 700, size: 0 }),
        Action::SetMode { mode: 755 }
    );
    assert_eq!(
        decide_action(&d, &DstState::Present { mode: 755, size: 0 }),
        Action::NoOp
    );
}

#[test]
fn decide_copies_missing_file() {
    let f = Entry::File("a.txt".to_string(), 644, 10);
    assert_eq!(decide_action(&f, &DstState::Missing), Action::CopyFile);
}

#[test]
fn mode_only_update_leaves_content_alone() {
    // right size, wrong mode: only the mode is set, nothing is copied
    let f = Entry::File("a.txt".to_string(), 644, 10);
    assert_eq!(
        decide_action(&f, &DstState::Present { mode: 600, size: 10 }),
        Action::SetMode { mode: 644 }
    );
}

#[test]
fn size_mismatch_triggers_recopy() {
    // right mode, wrong size: the file is re-copied in full
    let f = Entry::File("a.txt".to_string(), 644, 10);
    assert_eq!(
        decide_action(&f, &DstState::Present { mode: 644, size: 9 }),
        Action::CopyFile
    );
}

#[test]
fn replay_is_idempotent_per_entry() {
    // once the destination matches the record, every decision is a no-op
    let f = Entry::File("a.txt".to_string(), 644, 10);
    assert_eq!(
        decide_action(&f, &DstState::Present { mode: 644, size: 10 }),
        Action::NoOp
    );
    let d = Entry::Dir("sub".to_string(), 755, vec![]);
    assert_eq!(
        decide_action(&d, &DstState::Present { mode: 755, size: 0 }),
        Action::NoOp
    );
}

#[test]
fn metadata_failure_is_reported_not_fatal() {
    let f = Entry::File("a.txt".to_string(), 644, 10);
    assert_eq!(
        decide_action(&f, &DstState::MetaFailed),
        Action::ReportMetaError
    );
}

#[test]
fn paths_share_their_relative_suffix() {
    let ancestors = vec!["/abs/root".to_string(), "sub".to_string()];
    let dst = "dst".to_string();
    let src_dir = source_dir_path(&ancestors);
    let dst_dir = dest_dir_path(&dst, &ancestors);
    assert_eq!(src_dir, "/abs/root/sub");
    assert_eq!(dst_dir, "dst/sub");
    assert_eq!(src_dir["/abs/root/".len()..], dst_dir["dst/".len()..]);
    let name = "a.txt".to_string();
    let src_file = source_file_path(&ancestors, &name);
    let dst_file = dest_file_path(&dst, &ancestors, &name);
    assert_eq!(src_file, "/abs/root/sub/a.txt");
    assert_eq!(dst_file, "dst/sub/a.txt");
    assert_eq!(src_file["/abs/root/".len()..], dst_file["dst/".len()..]);
}

#[test]
fn scenario_collect_then_replay() {
    // source tree root/{a.txt (mode 644, 10 bytes), sub/ (mode 755, empty)}
    let root = Entry::Dir(
        "/abs/root".to_string(),
        0,
        vec![
            Entry::File("a.txt".to_string(), 644, 10),
            Entry::Dir("sub".to_string(), 755, vec![]),
        ],
    );
    let lines = serialize_tree(&root);
    assert_eq!(
        lines,
        vec![
            "DIR\t/abs/root\t0".to_string(),
            "\tFIL\ta.txt\t644\t10".to_string(),
            "\tDIR\tsub\t755".to_string(),
        ]
    );

    // replay into an empty destination "dst"
    let dst = "dst".to_string();
    let mut t = PathStackTracker::new();
    let mut actions: Vec<(String, Action)> = Vec::new();
    for line in &lines {
        match t.apply_line(line) {
            StepOutcome::Fatal(e) => panic!("unexpected fatal outcome {:?}", e),
            StepOutcome::Skip(_) => {}
            StepOutcome::Apply(entry) => {
                let path = if entry.is_dir() {
                    dest_dir_path(&dst, &t.ancestors)
                } else {
                    dest_file_path(&dst, &t.ancestors, &entry.filename())
                };
                let action = decide_action(&entry, &DstState::Missing);
                actions.push((path, action));
            }
        }
    }
    assert_eq!(
        actions,
        vec![
            ("dst/a.txt".to_string(), Action::CopyFile),
            ("dst/sub".to_string(), Action::CreateDir { mode: 755 }),
        ]
    );

    // a second pass over a destination that now matches is all no-ops
    let mut t2 = PathStackTracker::new();
    for line in &lines {
        match t2.apply_line(line) {
            StepOutcome::Fatal(e) => panic!("unexpected fatal outcome {:?}", e),
            StepOutcome::Skip(_) => {}
            StepOutcome::Apply(entry) => {
                let dst_state = DstState::Present {
                    mode: if entry.is_dir() { 755 } else { 644 },
                    size: 10,
                };
                assert_eq!(decide_action(&entry, &dst_state), Action::NoOp);
            }
        }
    }
}
