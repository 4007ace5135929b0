use vstd::prelude::*;

verus! {

/// The number of components of a path, as `std::path::Path::components`
/// counts them.
pub uninterp spec fn component_count(path: Seq<char>) -> nat;

/// Relies on `std::path::Path::components`: the count depends on the path's
/// text alone, and an empty path has no components.
#[verifier::external_body]
fn count_components(path: &str) -> (r: usize)
    ensures
        r as nat == component_count(path@),
        path@.len() == 0 ==> r == 0,
{
    std::path::Path::new(path).components().count()
}

/// The depth of a path: its number of components.
pub fn depth_of(path: &str) -> (r: usize)
    ensures
        r as nat == component_count(path@),
        path@.len() == 0 ==> r == 0,
{
    count_components(path)
}

/// Entry `a` is handled before entry `b`: it lies deeper, or as deep and
/// earlier in the input.
pub open spec fn goes_before(ds: Seq<usize>, a: int, b: int) -> bool {
    ds[a] > ds[b] || (ds[a] == ds[b] && a < b)
}

/// `order` lists every index of `ds` once, deepest first, and keeps the
/// input order among entries of equal depth.
pub open spec fn is_deepest_first(ds: Seq<usize>, order: Seq<usize>) -> bool {
    &&& forall|k: int| 0 <= k < order.len() ==> #[trigger] order[k] < ds.len()
    &&& forall|i: usize| i < ds.len() ==> #[trigger] order.contains(i)
    &&& forall|k: int, l: int|
        0 <= k < l < order.len() ==> goes_before(ds, #[trigger] order[k] as int, #[trigger] order[l] as int)
}

/// The processing order for entries of the given depths: the indices
/// `0..depths.len()`, deepest first, stable among equal depths.
pub fn order_deepest_first(depths: &Vec<usize>) -> (order: Vec<usize>)
    ensures
        is_deepest_first(depths@, order@),
{
    let n = depths.len();
    let mut maxd: usize = 0;
    let mut i: usize = 0;
    while i < n
        invariant
            n == depths.len(),
            i <= n,
            forall|j: int| 0 <= j < i ==> depths@[j] <= maxd,
        decreases n - i,
    {
        if depths[i] > maxd {
            maxd = depths[i];
        }
        i = i + 1;
    }
    let ghost ds = depths@;
    let mut order: Vec<usize> = Vec::new();
    let mut level: usize = maxd;
    loop
        invariant_except_break
            forall|k: int| 0 <= k < order.len() ==> ds[#[trigger] order@[k] as int] > level,
            forall|j: int| 0 <= j < n && ds[j] > level ==> #[trigger] order@.contains(j as usize),
        invariant
            n == depths.len(),
            ds == depths@,
            level <= maxd,
            forall|j: int| 0 <= j < n ==> ds[j] <= maxd,
            forall|k: int| 0 <= k < order.len() ==> #[trigger] order@[k] < n,
            forall|k: int, l: int|
                0 <= k < l < order.len() ==> goes_before(ds, #[trigger] order@[k] as int, #[trigger] order@[l] as int),
        ensures
            forall|j: int| 0 <= j < n ==> #[trigger] order@.contains(j as usize),
        decreases level,
    {
        let mut i: usize = 0;
        while i < n
            invariant
                n == depths.len(),
                ds == depths@,
                level <= maxd,
                i <= n,
                forall|j: int| 0 <= j < n ==> ds[j] <= maxd,
                forall|k: int| 0 <= k < order.len() ==> #[trigger] order@[k] < n && ds[order@[k] as int] >= level,
                forall|k: int| 0 <= k < order.len() && ds[order@[k] as int] == level ==> #[trigger] order@[k] < i,
                forall|j: int| 0 <= j < n && (ds[j] > level || (ds[j] == level && j < i)) ==> #[trigger] order@.contains(j as usize),
                forall|k: int, l: int|
                    0 <= k < l < order.len() ==> goes_before(ds, #[trigger] order@[k] as int, #[trigger] order@[l] as int),
            decreases n - i,
        {
            if depths[i] == level {
                let ghost prev = order@;
                order.push(i);
                assert forall|j: int| 0 <= j < n && (ds[j] > level || (ds[j] == level && j < i + 1)) implies #[trigger] order@.contains(j as usize) by {
                    if j == i {
                        assert(order@[prev.len() as int] == i);
                    } else {
                        assert(prev.contains(j as usize));
                        let w = choose|w: int| 0 <= w < prev.len() && prev[w] == j as usize;
                        assert(order@[w] == j as usize);
                    }
                }
            }
            i = i + 1;
        }
        if level == 0 {
            break;
        }
        level = level - 1;
    }
    assert forall|i: usize| i < n implies #[trigger] order@.contains(i) by {
        assert(order@.contains((i as int) as usize));
    }
    order
}

/// The depth of each path.
pub open spec fn path_depths(paths: Seq<String>) -> Seq<usize> {
    Seq::new(paths.len(), |j: int| component_count(paths[j]@) as usize)
}

/// The processing order for these paths: deepest first by component count,
/// input order among paths of equal depth, so that every directory comes
/// after all of its subdirectories.
pub fn deepest_first(paths: &Vec<String>) -> (order: Vec<usize>)
    ensures
        is_deepest_first(path_depths(paths@), order@),
{
    let mut depths: Vec<usize> = Vec::new();
    let mut i: usize = 0;
    while i < paths.len()
        invariant
            i <= paths.len(),
            depths.len() == i,
            forall|j: int| 0 <= j < i ==> depths@[j] as nat == #[trigger] component_count(paths@[j]@),
        decreases paths.len() - i,
    {
        let d = depth_of(paths[i].as_str());
        depths.push(d);
        i = i + 1;
    }
    assert(depths@ =~= path_depths(paths@));
    order_deepest_first(&depths)
}

/// In a deepest-first order a deeper entry always comes before a shallower
/// one; in particular a directory follows its subdirectories.
pub proof fn law_deeper_first(ds: Seq<usize>, order: Seq<usize>, k: int, l: int)
    requires
        is_deepest_first(ds, order),
        0 <= k < order.len(),
        0 <= l < order.len(),
        ds[order[k] as int] > ds[order[l] as int],
    ensures
        k < l,
{
    if l < k {
        assert(goes_before(ds, order[l] as int, order[k] as int));
    }
}

} // verus!
