use vstd::prelude::*;

use crate::scan::{
    children_wf, find_latest_mtime, has_kind, lemma_newest, newest, target_of, Child, ChildKind,
};
use crate::stamp::{differs_beyond_tolerance, distance, tolerance, Stamp};

verus! {

/// What one directory needs, given its current mtime and its children.
#[derive(Clone, Copy, Debug, PartialEq, Eq, Structural)]
pub enum Decision {
    /// No file and no subdirectory: the directory is left alone.
    Empty,
    /// The target lies within one second of the current mtime.
    InSync,
    /// The mtime should move from `from` to `to`.
    Update { from: Stamp, to: Stamp },
}

/// What the run does about one directory.
#[derive(Clone, Copy, Debug, PartialEq, Eq, Structural)]
pub enum Action {
    /// Nothing to report and nothing to write.
    Skip,
    /// Dry run: report that the mtime would move from `from` to `to`.
    WouldUpdate { from: Stamp, to: Stamp },
    /// Apply run: set the mtime to `to` (it was `from`).
    Write { from: Stamp, to: Stamp },
}

/// The decision for a directory whose mtime is `current`.
pub open spec fn decision_of(current: Stamp, cs: Seq<Child>) -> Decision {
    match target_of(cs) {
        None => Decision::Empty,
        Some(t) => if distance(t, current) > tolerance() {
            Decision::Update { from: current, to: t }
        } else {
            Decision::InSync
        },
    }
}

/// The action a decision leads to; only an apply run writes.
pub open spec fn action_of(d: Decision, confirm: bool) -> Action {
    match d {
        Decision::Update { from, to } => if confirm {
            Action::Write { from, to }
        } else {
            Action::WouldUpdate { from, to }
        },
        _ => Action::Skip,
    }
}

/// The directory's mtime once `a` has been carried out on it.
pub open spec fn stamp_after(current: Stamp, a: Action) -> Stamp {
    match a {
        Action::Write { to, .. } => to,
        _ => current,
    }
}

/// The mtime a directory holds after one run in the given mode.
pub open spec fn after_run(current: Stamp, cs: Seq<Child>, confirm: bool) -> Stamp {
    stamp_after(current, action_of(decision_of(current, cs), confirm))
}

/// Decides what a directory with mtime `current` and these immediate
/// children needs: nothing when it has no file or subdirectory, nothing when
/// its target is within one second, else an update to the target.
pub fn decide(current: &Stamp, children: &Vec<Child>) -> (r: Decision)
    requires
        current.wf(),
        children_wf(children@),
    ensures
        r == decision_of(*current, children@),
        r matches Decision::Update { to, .. } ==> to.wf(),
{
    match find_latest_mtime(children) {
        None => Decision::Empty,
        Some(t) => if differs_beyond_tolerance(&t, current) {
            Decision::Update { from: *current, to: t }
        } else {
            Decision::InSync
        },
    }
}

/// Turns a decision into the action of the run: a dry run (`confirm` false)
/// reports the update, an apply run writes it.
pub fn action_for(d: &Decision, confirm: bool) -> (r: Action)
    ensures
        r == action_of(*d, confirm),
        !confirm ==> !(r is Write),
{
    match *d {
        Decision::Update { from, to } => if confirm {
            Action::Write { from, to }
        } else {
            Action::WouldUpdate { from, to }
        },
        _ => Action::Skip,
    }
}

/// A directory with at least one file child ends an apply run within one
/// second of its newest file's mtime.
pub proof fn law_file_priority(current: Stamp, cs: Seq<Child>)
    requires
        current.wf(),
        children_wf(cs),
        has_kind(cs, ChildKind::File),
    ensures
        newest(cs, ChildKind::File) matches Some(f) && distance(after_run(current, cs, true), f)
            <= tolerance(),
{
    lemma_newest(cs, ChildKind::File);
}

/// A directory with subdirectories but no file child ends an apply run
/// within one second of its newest subdirectory's mtime, as the listing
/// shows the subdirectories after they were themselves brought up to date.
pub proof fn law_subdir_fallback(current: Stamp, cs: Seq<Child>)
    requires
        current.wf(),
        children_wf(cs),
        !has_kind(cs, ChildKind::File),
        has_kind(cs, ChildKind::Dir),
    ensures
        newest(cs, ChildKind::Dir) matches Some(d) && distance(after_run(current, cs, true), d)
            <= tolerance(),
{
    lemma_newest(cs, ChildKind::Dir);
}

/// An empty directory keeps its mtime in every run.
pub proof fn law_empty_untouched(current: Stamp, cs: Seq<Child>, confirm: bool)
    requires
        current.wf(),
        cs.len() == 0,
    ensures
        after_run(current, cs, confirm) == current,
        decision_of(current, cs) == Decision::Empty,
{
    lemma_newest(cs, ChildKind::File);
    lemma_newest(cs, ChildKind::Dir);
}

/// A second apply run over the same children changes nothing.
pub proof fn law_idempotent(current: Stamp, cs: Seq<Child>)
    requires
        current.wf(),
        children_wf(cs),
    ensures
        !(decision_of(after_run(current, cs, true), cs) is Update),
        after_run(after_run(current, cs, true), cs, true) == after_run(current, cs, true),
{
    lemma_newest(cs, ChildKind::File);
    lemma_newest(cs, ChildKind::Dir);
}

/// A dry run writes nothing: every mtime is left as it was.
pub proof fn law_dry_run_untouched(current: Stamp, cs: Seq<Child>)
    ensures
        after_run(current, cs, false) == current,
        !(action_of(decision_of(current, cs), false) is Write),
{
}

/// The tolerance boundary: a target exactly one second away is in sync,
/// one further away is updated.
pub proof fn law_tolerance_boundary(current: Stamp, cs: Seq<Child>)
    requires
        target_of(cs) is Some,
    ensures
        distance(target_of(cs)->0, current) == tolerance() ==> decision_of(current, cs)
            == Decision::InSync,
        distance(target_of(cs)->0, current) > tolerance() ==> decision_of(current, cs)
            == (Decision::Update { from: current, to: target_of(cs)->0 }),
{
}

} // verus!
