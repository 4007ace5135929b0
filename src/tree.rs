use vstd::prelude::*;

use crate::decide::after_run;
use crate::order::{goes_before, is_deepest_first, law_deeper_first};
use crate::scan::{children_wf, has_kind, lemma_newest, newest, target_of, Child, ChildKind};
use crate::stamp::{distance, tolerance, Stamp};

verus! {

// A tree of `n` directories, numbered `0..n`, as one run sees it:
// `parent[j]` is the directory that holds `j` (negative for the root),
// `others[i]` the entries of `i` that are not directories, and `m[j]` the
// current mtime of directory `j`.

/// The listing of directory `i` while the directories' mtimes are `m`: its
/// other entries, then its subdirectories at their current mtimes (the
/// remaining directories stand as entries that never count).
pub open spec fn listing(parent: Seq<int>, others: Seq<Seq<Child>>, i: int, m: Seq<Stamp>) -> Seq<Child> {
    others[i] + Seq::new(
        m.len(),
        |j: int|
            if parent[j] == i {
                Child { kind: ChildKind::Dir, mtime: Some(m[j]) }
            } else {
                Child { kind: ChildKind::Other, mtime: None }
            },
    )
}

/// Every mtime is well formed.
pub open spec fn stamps_wf(m: Seq<Stamp>) -> bool {
    forall|j: int| 0 <= j < m.len() ==> (#[trigger] m[j]).wf()
}

/// The entries besides subdirectories are well formed and none is a directory.
pub open spec fn others_wf(others: Seq<Seq<Child>>) -> bool {
    forall|i: int|
        0 <= i < others.len() ==> children_wf(#[trigger] others[i]) && forall|c: int|
            0 <= c < others[i].len() ==> (#[trigger] others[i][c]).kind != ChildKind::Dir
}

/// A well-formed tree: every directory lies deeper than the one holding it.
pub open spec fn tree_wf(parent: Seq<int>, depth: Seq<usize>, others: Seq<Seq<Child>>, m: Seq<Stamp>) -> bool {
    &&& m.len() <= usize::MAX
    &&& parent.len() == m.len()
    &&& depth.len() == m.len()
    &&& others.len() == m.len()
    &&& forall|j: int|
        0 <= j < m.len() && #[trigger] parent[j] >= 0 ==> parent[j] < m.len() && depth[j] > depth[parent[j]]
    &&& others_wf(others)
    &&& stamps_wf(m)
}

/// The mtimes after the directories of `order` are handled one by one, each
/// against a fresh listing.
pub open spec fn run(parent: Seq<int>, others: Seq<Seq<Child>>, order: Seq<usize>, m: Seq<Stamp>, confirm: bool) -> Seq<Stamp>
    decreases order.len(),
{
    if order.len() == 0 {
        m
    } else {
        let i = order[0] as int;
        run(parent, others, order.drop_first(), m.update(i, after_run(m[i], listing(parent, others, i, m), confirm)), confirm)
    }
}

/// Directory `i` is settled in `mf`, having started at `m0`: within one
/// second of its newest file if it has a file, else of its newest
/// subdirectory if it has one, else untouched.
pub open spec fn settled(parent: Seq<int>, others: Seq<Seq<Child>>, i: int, m0: Seq<Stamp>, mf: Seq<Stamp>) -> bool {
    let cs = listing(parent, others, i, mf);
    if has_kind(cs, ChildKind::File) {
        distance(mf[i], newest(cs, ChildKind::File)->0) <= tolerance()
    } else if has_kind(cs, ChildKind::Dir) {
        distance(mf[i], newest(cs, ChildKind::Dir)->0) <= tolerance()
    } else {
        mf[i] == m0[i]
    }
}

proof fn lemma_listing_wf(parent: Seq<int>, others: Seq<Seq<Child>>, i: int, m: Seq<Stamp>)
    requires
        0 <= i < others.len(),
        others_wf(others),
        stamps_wf(m),
        parent.len() == m.len(),
    ensures
        children_wf(listing(parent, others, i, m)),
{
    let cs = listing(parent, others, i, m);
    assert(children_wf(others[i]));
    assert forall|k: int| 0 <= k < cs.len() && (#[trigger] cs[k]).mtime is Some implies cs[k].mtime->0.wf() by {
        if k >= others[i].len() {
            assert(m[k - others[i].len()].wf());
        } else {
            assert(cs[k] == others[i][k]);
        }
    }
}

/// One directory handled in an apply run lands within one second of its
/// target, and one without a target keeps its mtime.
proof fn lemma_step(current: Stamp, cs: Seq<Child>)
    requires
        current.wf(),
        children_wf(cs),
    ensures
        after_run(current, cs, true).wf(),
        (target_of(cs) is Some) == (has_kind(cs, ChildKind::File) || has_kind(cs, ChildKind::Dir)),
        target_of(cs) matches Some(t) ==> distance(after_run(current, cs, true), t) <= tolerance(),
        target_of(cs) is None ==> after_run(current, cs, true) == current,
{
    lemma_newest(cs, ChildKind::File);
    lemma_newest(cs, ChildKind::Dir);
}

/// Directories outside `order` keep their mtimes.
proof fn lemma_run_frame(parent: Seq<int>, others: Seq<Seq<Child>>, order: Seq<usize>, m: Seq<Stamp>, confirm: bool, j: int)
    requires
        0 <= j < m.len(),
        forall|k: int| 0 <= k < order.len() ==> #[trigger] order[k] as int != j,
        forall|k: int| 0 <= k < order.len() ==> #[trigger] order[k] < m.len(),
    ensures
        run(parent, others, order, m, confirm)[j] == m[j],
        run(parent, others, order, m, confirm).len() == m.len(),
    decreases order.len(),
{
    if order.len() > 0 {
        let i = order[0] as int;
        let m2 = m.update(i, after_run(m[i], listing(parent, others, i, m), confirm));
        let rest = order.drop_first();
        assert forall|k: int| 0 <= k < rest.len() implies #[trigger] rest[k] < m2.len() by {
            assert(rest[k] == order[k + 1]);
        }
        assert forall|k: int| 0 <= k < rest.len() implies #[trigger] rest[k] as int != j by {
            assert(rest[k] == order[k + 1]);
        }
        lemma_run_frame(parent, others, rest, m2, confirm, j);
    }
}

/// Handling the directories of `order` in turn, where no directory comes
/// after the one that holds it, settles every one of them.
proof fn lemma_run_settles(parent: Seq<int>, others: Seq<Seq<Child>>, order: Seq<usize>, m: Seq<Stamp>)
    requires
        parent.len() == m.len(),
        others.len() == m.len(),
        others_wf(others),
        stamps_wf(m),
        forall|j: int| 0 <= j < m.len() ==> #[trigger] parent[j] != j,
        forall|k: int| 0 <= k < order.len() ==> #[trigger] order[k] < m.len(),
        forall|k: int, l: int| 0 <= k < l < order.len() ==> #[trigger] order[k] != #[trigger] order[l],
        forall|k: int, l: int| 0 <= k < l < order.len() ==> parent[#[trigger] order[l] as int] != #[trigger] order[k] as int,
    ensures
        stamps_wf(run(parent, others, order, m, true)),
        run(parent, others, order, m, true).len() == m.len(),
        forall|k: int| 0 <= k < order.len() ==> settled(parent, others, #[trigger] order[k] as int, m, run(parent, others, order, m, true)),
    decreases order.len(),
{
    if order.len() > 0 {
        let i = order[0] as int;
        let cs = listing(parent, others, i, m);
        lemma_listing_wf(parent, others, i, m);
        lemma_step(m[i], cs);
        let m2 = m.update(i, after_run(m[i], cs, true));
        let rest = order.drop_first();
        assert forall|k: int| 0 <= k < rest.len() implies #[trigger] rest[k] < m2.len() by {
            assert(rest[k] == order[k + 1]);
        }
        assert forall|k: int, l: int| 0 <= k < l < rest.len() implies #[trigger] rest[k] != #[trigger] rest[l] by {
            assert(rest[k] == order[k + 1] && rest[l] == order[l + 1]);
        }
        assert forall|k: int, l: int| 0 <= k < l < rest.len() implies parent[#[trigger] rest[l] as int] != #[trigger] rest[k] as int by {
            assert(rest[k] == order[k + 1] && rest[l] == order[l + 1]);
        }
        assert(stamps_wf(m2));
        lemma_run_settles(parent, others, rest, m2);
        let mf = run(parent, others, order, m, true);
        assert(mf == run(parent, others, rest, m2, true));
        assert forall|k: int| 0 <= k < rest.len() implies #[trigger] rest[k] as int != i by {
            assert(rest[k] == order[k + 1]);
            assert(order[0] != order[k + 1]);
        }
        lemma_run_frame(parent, others, rest, m2, true, i);
        // The subdirectories of `i` were handled before it and keep their mtimes.
        assert forall|j: int| 0 <= j < m.len() && parent[j] == i implies mf[j] == m[j] by {
            assert forall|k: int| 0 <= k < rest.len() implies #[trigger] rest[k] as int != j by {
                assert(rest[k] == order[k + 1]);
                assert(parent[order[k + 1] as int] != order[0] as int);
            }
            lemma_run_frame(parent, others, rest, m2, true, j);
        }
        assert(listing(parent, others, i, mf) =~= cs);
        assert forall|k: int| 0 <= k < order.len() implies settled(parent, others, #[trigger] order[k] as int, m, mf) by {
            if k > 0 {
                assert(order[k] == rest[k - 1]);
                assert(order[k] != order[0]);
                assert(settled(parent, others, rest[k - 1] as int, m2, mf));
            } else {
                assert(mf[i] == m2[i]);
            }
        }
    }
}

/// A deepest-first order handles each directory of the tree once, and never
/// a directory after the one that holds it.
proof fn lemma_order_fits(parent: Seq<int>, depth: Seq<usize>, others: Seq<Seq<Child>>, order: Seq<usize>, m: Seq<Stamp>)
    requires
        tree_wf(parent, depth, others, m),
        is_deepest_first(depth, order),
    ensures
        forall|j: int| 0 <= j < m.len() ==> #[trigger] parent[j] != j,
        forall|k: int| 0 <= k < order.len() ==> #[trigger] order[k] < m.len(),
        forall|k: int, l: int| 0 <= k < l < order.len() ==> #[trigger] order[k] != #[trigger] order[l],
        forall|k: int, l: int| 0 <= k < l < order.len() ==> parent[#[trigger] order[l] as int] != #[trigger] order[k] as int,
{
    assert forall|j: int| 0 <= j < m.len() implies #[trigger] parent[j] != j by {
        if parent[j] >= 0 {
            assert(depth[j] > depth[parent[j]]);
        }
    }
    assert forall|k: int, l: int| 0 <= k < l < order.len() implies #[trigger] order[k] != #[trigger] order[l] by {
        assert(goes_before(depth, order[k] as int, order[l] as int));
    }
    assert forall|k: int, l: int| 0 <= k < l < order.len() implies parent[#[trigger] order[l] as int] != #[trigger] order[k] as int by {
        let c = order[l] as int;
        if parent[c] == order[k] as int {
            assert(parent[c] >= 0);
            assert(depth[c] > depth[parent[c]]);
            law_deeper_first(depth, order, l, k);
        }
    }
}

/// After an apply run in deepest-first order, every directory holds the
/// mtime of its newest file, or without files that of its newest
/// subdirectory as that subdirectory stands after its own update, within one
/// second; a directory with neither keeps its mtime.
pub proof fn law_tree_apply_run(parent: Seq<int>, depth: Seq<usize>, others: Seq<Seq<Child>>, order: Seq<usize>, m: Seq<Stamp>)
    requires
        tree_wf(parent, depth, others, m),
        is_deepest_first(depth, order),
    ensures
        forall|i: int| 0 <= i < m.len() ==> #[trigger] settled(parent, others, i, m, run(parent, others, order, m, true)),
{
    lemma_order_fits(parent, depth, others, order, m);
    lemma_run_settles(parent, others, order, m);
    assert forall|i: int| 0 <= i < m.len() implies #[trigger] settled(parent, others, i, m, run(parent, others, order, m, true)) by {
        assert(order.contains(i as usize));
        let k = choose|k: int| 0 <= k < order.len() && order[k] == i as usize;
        assert(settled(parent, others, order[k] as int, m, run(parent, others, order, m, true)));
    }
}

/// Where no directory of `order` changes on its own listing, a run changes
/// nothing.
proof fn lemma_run_still(parent: Seq<int>, others: Seq<Seq<Child>>, order: Seq<usize>, m: Seq<Stamp>, confirm: bool)
    requires
        forall|k: int| 0 <= k < order.len() ==> #[trigger] order[k] < m.len(),
        forall|k: int|
            0 <= k < order.len() ==> after_run(m[#[trigger] order[k] as int], listing(parent, others, order[k] as int, m), confirm)
                == m[order[k] as int],
    ensures
        run(parent, others, order, m, confirm) == m,
    decreases order.len(),
{
    if order.len() > 0 {
        let i = order[0] as int;
        assert(m.update(i, m[i]) =~= m);
        let rest = order.drop_first();
        assert forall|k: int| 0 <= k < rest.len() implies #[trigger] rest[k] < m.len() by {
            assert(rest[k] == order[k + 1]);
        }
        assert forall|k: int|
            0 <= k < rest.len() implies after_run(m[#[trigger] rest[k] as int], listing(parent, others, rest[k] as int, m), confirm)
                == m[rest[k] as int] by {
            assert(rest[k] == order[k + 1]);
        }
        lemma_run_still(parent, others, rest, m, confirm);
    }
}

/// A second apply run right after the first changes no mtime.
pub proof fn law_tree_idempotent(parent: Seq<int>, depth: Seq<usize>, others: Seq<Seq<Child>>, order: Seq<usize>, m: Seq<Stamp>)
    requires
        tree_wf(parent, depth, others, m),
        is_deepest_first(depth, order),
    ensures
        run(parent, others, order, run(parent, others, order, m, true), true) == run(parent, others, order, m, true),
{
    lemma_order_fits(parent, depth, others, order, m);
    lemma_run_settles(parent, others, order, m);
    let mf = run(parent, others, order, m, true);
    assert forall|k: int|
        0 <= k < order.len() implies after_run(mf[#[trigger] order[k] as int], listing(parent, others, order[k] as int, mf), true)
            == mf[order[k] as int] by {
        let i = order[k] as int;
        let cs = listing(parent, others, i, mf);
        assert(settled(parent, others, i, m, mf));
        lemma_newest(cs, ChildKind::File);
        lemma_newest(cs, ChildKind::Dir);
        lemma_listing_wf(parent, others, i, mf);
    }
    lemma_run_still(parent, others, order, mf, true);
}

/// A dry run leaves every mtime as it was.
pub proof fn law_tree_dry_run(parent: Seq<int>, others: Seq<Seq<Child>>, order: Seq<usize>, m: Seq<Stamp>)
    requires
        forall|k: int| 0 <= k < order.len() ==> #[trigger] order[k] < m.len(),
    ensures
        run(parent, others, order, m, false) == m,
{
    lemma_run_still(parent, others, order, m, false);
}

} // verus!
