use dirstamp::decide::{action_for, decide, Action, Decision};
use dirstamp::scan::{find_latest_mtime, Child, ChildKind};
use dirstamp::stamp::{differs_beyond_tolerance, Stamp};

const T: i64 = 1_700_000_000;
const DAY: i64 = 86_400;

fn at(secs: i64) -> Stamp {
    Stamp { secs, nanos: 0 }
}

fn file(secs: i64) -> Child {
    Child { kind: ChildKind::File, mtime: Some(at(secs)) }
}

fn dir(secs: i64) -> Child {
    Child { kind: ChildKind::Dir, mtime: Some(at(secs)) }
}

#[test]
fn subdir_then_root_take_the_file_time() {
    // root/sub/file.txt at T, root/sub at T - 10 days, root at T - 20 days.
    let sub = decide(&at(T - 10 * DAY), &vec![file(T)]);
    assert_eq!(sub, Decision::Update { from: at(T - 10 * DAY), to: at(T) });
    let written = action_for(&sub, true);
    assert_eq!(written, Action::Write { from: at(T - 10 * DAY), to: at(T) });
    // root is visited after sub and sees it at its new time.
    let root = decide(&at(T - 20 * DAY), &vec![dir(T)]);
    assert_eq!(root, Decision::Update { from: at(T - 20 * DAY), to: at(T) });
}

#[test]
fn empty_directory_is_left_alone() {
    let none: Vec<Child> = Vec::new();
    let d = decide(&at(T), &none);
    assert_eq!(d, Decision::Empty);
    assert_eq!(action_for(&d, true), Action::Skip);
    assert_eq!(find_latest_mtime(&none), None);
}

#[test]
fn files_win_over_newer_subdirectories() {
    let cs = vec![dir(T + 100), file(T), file(T - 5), Child { kind: ChildKind::Other, mtime: Some(at(T + 7)) }];
    assert_eq!(find_latest_mtime(&cs), Some(at(T)));
    assert_eq!(decide(&at(T - 50), &cs), Decision::Update { from: at(T - 50), to: at(T) });
}

#[test]
fn newest_subdirectory_without_files() {
    let cs = vec![dir(T - 5), dir(T), Child { kind: ChildKind::Other, mtime: Some(at(T + 9)) }];
    assert_eq!(find_latest_mtime(&cs), Some(at(T)));
}

#[test]
fn only_other_entries_give_no_target() {
    let cs = vec![Child { kind: ChildKind::Other, mtime: Some(at(T)) }];
    assert_eq!(decide(&at(0), &cs), Decision::Empty);
}

#[test]
fn unreadable_children_are_skipped() {
    let cs = vec![Child { kind: ChildKind::File, mtime: None }, dir(T)];
    assert_eq!(find_latest_mtime(&cs), Some(at(T)));
}

#[test]
fn nanoseconds_break_ties_between_files() {
    let a = Child { kind: ChildKind::File, mtime: Some(Stamp { secs: T, nanos: 5 }) };
    let b = Child { kind: ChildKind::File, mtime: Some(Stamp { secs: T, nanos: 900 }) };
    let c = Child { kind: ChildKind::File, mtime: Some(Stamp { secs: T - 1, nanos: 999_999_999 }) };
    assert_eq!(find_latest_mtime(&vec![a, b, c]), Some(Stamp { secs: T, nanos: 900 }));
    assert_eq!(find_latest_mtime(&vec![b, a]), Some(Stamp { secs: T, nanos: 900 }));
}

#[test]
fn second_apply_run_changes_nothing() {
    let cs = vec![file(T), dir(T + 3)];
    let first = decide(&at(T - DAY), &cs);
    let after = match action_for(&first, true) {
        Action::Write { to, .. } => to,
        other => panic!("expected a write, got {:?}", other),
    };
    assert_eq!(after, at(T));
    assert_eq!(decide(&after, &cs), Decision::InSync);
}

#[test]
fn dry_run_reports_without_writing() {
    let d = decide(&at(T - DAY), &vec![file(T)]);
    assert_eq!(action_for(&d, false), Action::WouldUpdate { from: at(T - DAY), to: at(T) });
    assert_eq!(action_for(&Decision::InSync, false), Action::Skip);
}

#[test]
fn one_second_apart_is_in_sync() {
    assert_eq!(decide(&at(T - 1), &vec![file(T)]), Decision::InSync);
    assert_eq!(decide(&at(T + 1), &vec![file(T)]), Decision::InSync);
    assert!(!differs_beyond_tolerance(&at(T), &at(T - 1)));
}

#[test]
fn just_over_one_second_is_updated() {
    let cur = Stamp { secs: T - 1, nanos: 0 };
    let target = Stamp { secs: T, nanos: 1 };
    assert!(differs_beyond_tolerance(&target, &cur));
    let cs = vec![Child { kind: ChildKind::File, mtime: Some(target) }];
    assert_eq!(decide(&cur, &cs), Decision::Update { from: cur, to: target });
    let later = Stamp { secs: T + 1, nanos: 2 };
    assert_eq!(decide(&later, &cs), Decision::Update { from: later, to: target });
}

#[test]
fn stamp_parts_are_checked() {
    assert_eq!(Stamp::from_parts(3, 999_999_999), Some(Stamp { secs: 3, nanos: 999_999_999 }));
    assert_eq!(Stamp::from_parts(3, 1_000_000_000), None);
    assert!(Stamp { secs: -1, nanos: 2 }.is_later_than(&Stamp { secs: -2, nanos: 999 }));
    assert!(!Stamp { secs: 4, nanos: 2 }.is_later_than(&Stamp { secs: 4, nanos: 2 }));
}
