use vstd::prelude::*;

use crate::stamp::Stamp;

verus! {

/// What an immediate child of a directory is.
#[derive(Clone, Copy, Debug, PartialEq, Eq, Structural)]
pub enum ChildKind {
    File,
    Dir,
    /// Anything else (a device, a socket, a dangling link), never counted.
    Other,
}

/// One immediate child as observed in a single directory listing; `mtime` is
/// `None` when its metadata could not be read, and such a child is skipped.
#[derive(Clone, Copy, Debug, PartialEq, Eq, Structural)]
pub struct Child {
    pub kind: ChildKind,
    pub mtime: Option<Stamp>,
}

impl Child {
    /// Whether this child counts as one of kind `k`, with a readable mtime.
    pub open spec fn counts_as(self, k: ChildKind) -> bool {
        self.kind == k && self.mtime is Some
    }
}

/// Every readable mtime in the listing is well formed.
pub open spec fn children_wf(cs: Seq<Child>) -> bool {
    forall|i: int| 0 <= i < cs.len() && (#[trigger] cs[i]).mtime is Some ==> cs[i].mtime->0.wf()
}

/// Whether some child counts as kind `k`.
pub open spec fn has_kind(cs: Seq<Child>, k: ChildKind) -> bool {
    exists|i: int| 0 <= i < cs.len() && (#[trigger] cs[i]).counts_as(k)
}

/// The newest mtime among the children of kind `k`, `None` where there is
/// none; of equal mtimes the value is the same whichever child it is read from.
pub open spec fn newest(cs: Seq<Child>, k: ChildKind) -> Option<Stamp>
    decreases cs.len(),
{
    if cs.len() == 0 {
        None
    } else {
        let rest = newest(cs.drop_last(), k);
        let c = cs.last();
        if c.counts_as(k) {
            match rest {
                Some(r) if r.total() >= c.mtime->0.total() => Some(r),
                _ => c.mtime,
            }
        } else {
            rest
        }
    }
}

/// The mtime a directory with these children should carry: the newest file
/// if there is a file, else the newest subdirectory, else none at all.
pub open spec fn target_of(cs: Seq<Child>) -> Option<Stamp> {
    if has_kind(cs, ChildKind::File) {
        newest(cs, ChildKind::File)
    } else {
        newest(cs, ChildKind::Dir)
    }
}

/// `newest` is present exactly when some child of the kind is, is the mtime
/// of one of them, and is no older than any of them.
pub proof fn lemma_newest(cs: Seq<Child>, k: ChildKind)
    requires
        children_wf(cs),
    ensures
        (newest(cs, k) is Some) == has_kind(cs, k),
        newest(cs, k) matches Some(s) ==> {
            &&& s.wf()
            &&& exists|i: int| 0 <= i < cs.len() && (#[trigger] cs[i]).counts_as(k) && cs[i].mtime == Some(s)
            &&& forall|j: int| 0 <= j < cs.len() && (#[trigger] cs[j]).counts_as(k) ==> cs[j].mtime->0.total() <= s.total()
        },
    decreases cs.len(),
{
    if cs.len() > 0 {
        let init = cs.drop_last();
        assert(children_wf(init)) by {
            assert forall|i: int| 0 <= i < init.len() && (#[trigger] init[i]).mtime is Some implies init[i].mtime->0.wf() by {
                assert(init[i] == cs[i]);
            }
        }
        lemma_newest(init, k);
        let last = cs.len() - 1;
        assert(cs[last] == cs.last());
        assert(forall|i: int| 0 <= i < init.len() ==> init[i] == cs[i]);
        if has_kind(init, k) {
            let i = choose|i: int| 0 <= i < init.len() && (#[trigger] init[i]).counts_as(k);
            assert(cs[i].counts_as(k));
        }
        if has_kind(cs, k) && !cs.last().counts_as(k) {
            let i = choose|i: int| 0 <= i < cs.len() && (#[trigger] cs[i]).counts_as(k);
            assert(init[i].counts_as(k));
        }
        if newest(init, k) is Some {
            let w = choose|i: int| 0 <= i < init.len() && (#[trigger] init[i]).counts_as(k) && init[i].mtime == newest(init, k);
            assert(cs[w].counts_as(k) && cs[w].mtime == newest(init, k));
        }
    }
}

/// The newest mtime among the immediate children, files first: the newest
/// file if any file was read, else the newest subdirectory, else `None`.
pub fn find_latest_mtime(children: &Vec<Child>) -> (r: Option<Stamp>)
    requires
        children_wf(children@),
    ensures
        r == target_of(children@),
        (r is Some) == (has_kind(children@, ChildKind::File) || has_kind(children@, ChildKind::Dir)),
        r matches Some(s) ==> s.wf(),
{
    let mut newest_file: Option<Stamp> = None;
    let mut newest_dir: Option<Stamp> = None;
    let mut i: usize = 0;
    while i < children.len()
        invariant
            i <= children.len(),
            children_wf(children@),
            newest_file == newest(children@.take(i as int), ChildKind::File),
            newest_dir == newest(children@.take(i as int), ChildKind::Dir),
            newest_file matches Some(s) ==> s.wf(),
            newest_dir matches Some(s) ==> s.wf(),
        decreases children.len() - i,
    {
        let c = children[i];
        assert(children@.take(i + 1).drop_last() == children@.take(i as int));
        assert(children@.take(i + 1).last() == c);
        match c.mtime {
            Some(m) => {
                assert(m.wf());
                match c.kind {
                    ChildKind::File => {
                        newest_file = match newest_file {
                            Some(cur) => if m.is_later_than(&cur) { Some(m) } else { Some(cur) },
                            None => Some(m),
                        };
                    },
                    ChildKind::Dir => {
                        newest_dir = match newest_dir {
                            Some(cur) => if m.is_later_than(&cur) { Some(m) } else { Some(cur) },
                            None => Some(m),
                        };
                    },
                    ChildKind::Other => {},
                }
            },
            None => {},
        }
        i = i + 1;
    }
    assert(children@.take(children.len() as int) == children@);
    proof {
        lemma_newest(children@, ChildKind::File);
        lemma_newest(children@, ChildKind::Dir);
    }
    match newest_file {
        Some(f) => Some(f),
        None => newest_dir,
    }
}

} // verus!
