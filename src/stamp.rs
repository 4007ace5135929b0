use vstd::prelude::*;

verus! {

/// Nanoseconds in one second.
pub const NANOS_PER_SEC: u32 = 1_000_000_000;

/// A modification time: whole seconds since the Unix epoch (negative before
/// it) and the nanoseconds within that second.
#[derive(Clone, Copy, Debug, PartialEq, Eq, Structural)]
pub struct Stamp {
    pub secs: i64,
    pub nanos: u32,
}

impl Stamp {
    /// The sub-second part is a proper fraction of a second.
    pub open spec fn wf(self) -> bool {
        self.nanos < NANOS_PER_SEC
    }

    /// The instant as a count of nanoseconds since the epoch.
    pub open spec fn total(self) -> int {
        self.secs as int * NANOS_PER_SEC as int + self.nanos as int
    }

    /// Builds a stamp; `None` when `nanos` is not below one second.
    pub fn from_parts(secs: i64, nanos: u32) -> (r: Option<Stamp>)
        ensures
            r == (if nanos < NANOS_PER_SEC { Some(Stamp { secs, nanos }) } else { None::<Stamp> }),
            r matches Some(s) ==> s.wf(),
    {
        if nanos < NANOS_PER_SEC {
            Some(Stamp { secs, nanos })
        } else {
            None
        }
    }

    /// Whether `self` is strictly later than `other`.
    pub fn is_later_than(&self, other: &Stamp) -> (r: bool)
        requires
            self.wf(),
            other.wf(),
        ensures
            r == (self.total() > other.total()),
    {
        proof {
            lemma_total_order(*self, *other);
        }
        self.secs > other.secs || (self.secs == other.secs && self.nanos > other.nanos)
    }
}

/// On well-formed stamps the order of `total` is the order of the pair
/// (seconds, nanoseconds), and equal totals mean equal stamps.
pub proof fn lemma_total_order(a: Stamp, b: Stamp)
    requires
        a.wf(),
        b.wf(),
    ensures
        (a.total() > b.total()) == (a.secs > b.secs || (a.secs == b.secs && a.nanos > b.nanos)),
        (a.total() == b.total()) == (a == b),
{
    let n = NANOS_PER_SEC as int;
    if a.secs > b.secs {
        assert(a.secs as int * n >= b.secs as int * n + n) by (nonlinear_arith)
            requires
                a.secs as int >= b.secs as int + 1,
                n > 0,
        ;
    } else if a.secs < b.secs {
        assert(b.secs as int * n >= a.secs as int * n + n) by (nonlinear_arith)
            requires
                b.secs as int >= a.secs as int + 1,
                n > 0,
        ;
    }
}

/// The tolerance within which two stamps count as the same, in nanoseconds.
pub open spec fn tolerance() -> int {
    NANOS_PER_SEC as int
}

/// The distance between two instants, in nanoseconds.
pub open spec fn distance(a: Stamp, b: Stamp) -> int {
    if a.total() >= b.total() {
        a.total() - b.total()
    } else {
        b.total() - a.total()
    }
}

/// Whether `target` and `current` lie more than one second apart; a
/// distance of exactly one second is still in sync.
pub fn differs_beyond_tolerance(target: &Stamp, current: &Stamp) -> (r: bool)
    requires
        target.wf(),
        current.wf(),
    ensures
        r == (distance(*target, *current) > tolerance()),
{
    let d: i128 = (target.secs as i128 - current.secs as i128) * (NANOS_PER_SEC as i128)
        + (target.nanos as i128 - current.nanos as i128);
    assert(d == target.total() - current.total());
    d > NANOS_PER_SEC as i128 || d < -(NANOS_PER_SEC as i128)
}

} // verus!
