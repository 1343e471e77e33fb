use dirmirror::args::process_args;
use dirmirror::args::PathKind;
use dirmirror::entry::Entry;
use dirmirror::scan::classify_child;
use dirmirror::scan::should_descend;
use dirmirror::scan::ChildKind;
use dirmirror::scan::MAX_SCAN_DEPTH;
use dirmirror::serialize::serialize_tree;

#[test]
fn entry_accessors() {
    let d = Entry::Dir("sub".to_string(), 755, vec![]);
    let f = Entry::File("a.txt".to_string(), 644, 10);
    let u = Entry::Unknown("Symlink?: link".to_string());
    assert!(d.is_dir());
    assert!(!f.is_dir());
    assert!(!u.is_dir());
    assert_eq!(d.filename(), "sub");
    assert_eq!(f.filename(), "a.txt");
    assert_eq!(u.filename(), "Symlink?: link");
}

#[test]
fn classify_builds_each_kind() {
    let d = classify_child(
        "sub".to_string(),
        Some(ChildKind::DirKind { mode: 755 }),
        vec![Entry::File("x".to_string(), 600, 1)],
    );
    assert_eq!(
        d,
        Entry::Dir(
            "sub".to_string(),
            755,
            vec![Entry::File("x".to_string(), 600, 1)]
        )
    );
    let f = classify_child(
        "a.txt".to_string(),
        Some(ChildKind::FileKind { mode: 644, size: 10 }),
        vec![],
    );
    assert_eq!(f, Entry::File("a.txt".to_string(), 644, 10));
    let s = classify_child("link".to_string(), Some(ChildKind::OtherKind), vec![]);
    assert_eq!(s, Entry::Unknown("Symlink?: link".to_string()));
    let m = classify_child("odd".to_string(), None, vec![]);
    assert_eq!(m, Entry::Unknown("Unrequestable metadata: odd".to_string()));
}

#[test]
fn depth_cap_stops_descent() {
    assert!(should_descend(0));
    assert!(should_descend(MAX_SCAN_DEPTH - 1));
    assert!(!should_descend(MAX_SCAN_DEPTH));
    assert!(!should_descend(MAX_SCAN_DEPTH + 1));
    // a directory past the bound is still recorded, with empty children,
    // and serializes to a single well-formed line
    let capped = classify_child(
        "deep".to_string(),
        Some(ChildKind::DirKind { mode: 700 }),
        vec![],
    );
    assert_eq!(capped, Entry::Dir("deep".to_string(), 700, vec![]));
    let lines = serialize_tree(&capped);
    assert_eq!(lines, vec!["DIR\tdeep\t700".to_string()]);
}

#[test]
fn args_select_collect_mode() {
    let r = process_args(Some(("src".to_string(), PathKind::DirPath)), None);
    assert_eq!(r, Ok(("src".to_string(), None)));
}

#[test]
fn args_select_replay_mode() {
    let r = process_args(
        Some(("listing.txt".to_string(), PathKind::FilePath)),
        Some(("dst".to_string(), PathKind::DirPath)),
    );
    assert_eq!(r, Ok(("listing.txt".to_string(), Some("dst".to_string()))));
}

#[test]
fn args_refuse_wrong_shapes() {
    assert_eq!(process_args(None, None), Err(()));
    assert_eq!(
        process_args(Some(("src".to_string(), PathKind::FilePath)), None),
        Err(())
    );
    assert_eq!(
        process_args(Some(("src".to_string(), PathKind::OtherPath)), None),
        Err(())
    );
    assert_eq!(
        process_args(
            Some(("src".to_string(), PathKind::DirPath)),
            Some(("dst".to_string(), PathKind::DirPath)),
        ),
        Err(())
    );
    assert_eq!(
        process_args(
            Some(("src".to_string(), PathKind::FilePath)),
            Some(("dst".to_string(), PathKind::FilePath)),
        ),
        Err(())
    );
    assert_eq!(
        process_args(None, Some(("dst".to_string(), PathKind::DirPath))),
        Err(())
    );
}
