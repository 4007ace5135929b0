use dirstamp::decide::{action_for, decide, Action};
use dirstamp::order::deepest_first;
use dirstamp::scan::{Child, ChildKind};
use dirstamp::stamp::Stamp;

const T: i64 = 1_600_000_000;

struct Dir {
    path: &'static str,
    parent: Option<usize>,
    files: Vec<i64>,
    mtime: Stamp,
}

fn at(secs: i64) -> Stamp {
    Stamp { secs, nanos: 0 }
}

fn sample() -> Vec<Dir> {
    vec![
        Dir { path: "root", parent: None, files: vec![], mtime: at(T - 3_000) },
        Dir { path: "root/a", parent: Some(0), files: vec![], mtime: at(T - 2_000) },
        Dir { path: "root/a/b", parent: Some(1), files: vec![T - 50, T], mtime: at(T - 1_000) },
        Dir { path: "root/c", parent: Some(0), files: vec![], mtime: at(T + 500) },
        Dir { path: "root/d", parent: Some(0), files: vec![T - 9_000], mtime: at(T - 8_999) },
    ]
}

fn listing(dirs: &[Dir], i: usize) -> Vec<Child> {
    let mut cs: Vec<Child> = dirs[i].files.iter().map(|s| Child { kind: ChildKind::File, mtime: Some(at(*s)) }).collect();
    for d in dirs.iter() {
        if d.parent == Some(i) {
            cs.push(Child { kind: ChildKind::Dir, mtime: Some(d.mtime) });
        }
    }
    cs
}

/// Runs over the tree as the command does; returns how many directories were
/// changed or reported.
fn run(dirs: &mut Vec<Dir>, confirm: bool) -> usize {
    let paths: Vec<String> = dirs.iter().map(|d| d.path.to_string()).collect();
    let mut count = 0;
    for i in deepest_first(&paths) {
        let cs = listing(dirs, i);
        match action_for(&decide(&dirs[i].mtime, &cs), confirm) {
            Action::Skip => {}
            Action::WouldUpdate { .. } => count += 1,
            Action::Write { to, .. } => {
                dirs[i].mtime = to;
                count += 1;
            }
        }
    }
    count
}

#[test]
fn apply_run_propagates_through_directories_without_files() {
    let mut dirs = sample();
    assert_eq!(run(&mut dirs, true), 3);
    assert_eq!(dirs[2].mtime, at(T));
    assert_eq!(dirs[1].mtime, at(T));
    // root has no files; its newest subdirectory is the empty root/c.
    assert_eq!(dirs[0].mtime, at(T + 500));
    assert_eq!(dirs[3].mtime, at(T + 500));
    // within one second of its file: left alone.
    assert_eq!(dirs[4].mtime, at(T - 8_999));
}

#[test]
fn second_apply_run_over_the_tree_changes_nothing() {
    let mut dirs = sample();
    run(&mut dirs, true);
    let before: Vec<Stamp> = dirs.iter().map(|d| d.mtime).collect();
    assert_eq!(run(&mut dirs, true), 0);
    let after: Vec<Stamp> = dirs.iter().map(|d| d.mtime).collect();
    assert_eq!(before, after);
}

#[test]
fn dry_run_over_the_tree_changes_nothing() {
    let mut dirs = sample();
    let before: Vec<Stamp> = dirs.iter().map(|d| d.mtime).collect();
    // root/a/b, root/a and root are reported, each against unchanged children.
    assert_eq!(run(&mut dirs, false), 3);
    let after: Vec<Stamp> = dirs.iter().map(|d| d.mtime).collect();
    assert_eq!(before, after);
}
