//! Pulse envelopes and the time grouping of pulse lists.
use vstd::prelude::*;

use crate::quant::{add_time, sat, Time, TIME_ZERO};

verus! {

/// Identifier of an envelope shape (a Gaussian, a Hann window, ...).
pub type ShapeId = u64;

/// A pulse envelope: a shaped rise and fall of total length `width`,
/// around a flat top of length `plateau`.
///
/// Built by [`Envelope::new`], an envelope is canonical: either it has a shape
/// and a non-zero width, or it has no shape and zero width, a plain
/// rectangle of length `plateau`.
#[derive(Debug, Clone, Copy, PartialEq, Eq, Structural, Hash)]
pub struct Envelope {
    pub shape: Option<ShapeId>,
    pub width: Time,
    pub plateau: Time,
}

impl Envelope {
    /// Whether the envelope is in canonical form.
    pub open spec fn canonical(&self) -> bool {
        self.shape is None <==> self.width == 0
    }

    /// The envelope in canonical form: without a shape, the width joins the
    /// plateau; with zero width, the shape is dropped.
    pub fn new(shape: Option<ShapeId>, width: Time, plateau: Time) -> (r: Envelope)
        ensures
            r.canonical(),
            shape is None ==> r == (Envelope { shape: None, width: 0, plateau: sat(width + plateau) as Time }),
            shape is Some && width == 0 ==> r == (Envelope { shape: None, width: 0, plateau }),
            shape is Some && width != 0 ==> r == (Envelope { shape, width, plateau }),
    {
        let mut shape = shape;
        let mut width = width;
        let mut plateau = plateau;
        if shape.is_none() {
            plateau = add_time(plateau, width);
            width = TIME_ZERO;
        }
        if width == 0 {
            shape = None;
        }
        Envelope { shape, width, plateau }
    }
}

/// Whether `times` is in ascending order.
pub open spec fn ascending(times: Seq<Time>) -> bool {
    forall|i: int, j: int| 0 <= i <= j < times.len() ==> times[i] <= times[j]
}

/// Whether `a` and `b` are equal or within `tolerance` of each other.
pub open spec fn close(a: Time, b: Time, tolerance: Time) -> bool {
    a == b || -tolerance <= a - b <= tolerance
}

/// The end of group `g` of `starts` over `n` entries.
pub open spec fn group_end(starts: Seq<usize>, g: int, n: int) -> int {
    if g + 1 < starts.len() { starts[g + 1] as int } else { n }
}

/// Group `g` of `starts` over the first `n` entries of `times` is not empty,
/// each of its entries is close to its first, and the first entry of the
/// next group is not.
pub open spec fn run_ok(times: Seq<Time>, tolerance: Time, starts: Seq<usize>, g: int, n: int) -> bool {
    &&& starts[g] < group_end(starts, g, n) <= n
    &&& forall|k: int| starts[g] <= k < group_end(starts, g, n) ==> close(#[trigger] times[k], times[starts[g] as int], tolerance)
    &&& g + 1 < starts.len() ==> !close(times[starts[g + 1] as int], times[starts[g] as int], tolerance)
}

/// `starts` splits the first `n` entries of `times` into runs: each run is
/// every entry close to the run's first entry, and the next run starts at
/// the first entry that is not.
pub open spec fn runs_ok(times: Seq<Time>, tolerance: Time, starts: Seq<usize>, n: int) -> bool {
    &&& (n == 0 <==> starts.len() == 0)
    &&& (starts.len() > 0 ==> starts[0] == 0)
    &&& forall|g: int| 0 <= g < starts.len() ==> #[trigger] run_ok(times, tolerance, starts, g, n)
}

/// `starts` splits all of `times` into runs.
pub open spec fn coalesced(times: Seq<Time>, tolerance: Time, starts: Seq<usize>) -> bool {
    runs_ok(times, tolerance, starts, times.len() as int)
}

/// Groups the entries of the ascending `times` that are equal or within
/// `time_tolerance` of the first entry of their group, and returns where each
/// group starts. A pulse list sums the amplitudes of each group into its
/// first entry.
pub fn coalesce_times(times: &Vec<Time>, time_tolerance: Time) -> (r: Vec<usize>)
    ensures
        coalesced(times@, time_tolerance, r@),
        ascending(times@) ==> forall|g1: int, g2: int| 0 <= g1 < g2 < r@.len()
            ==> !close(#[trigger] times@[r@[g2] as int], #[trigger] times@[r@[g1] as int], time_tolerance),
{
    let n = times.len();
    let mut starts: Vec<usize> = Vec::new();
    if n == 0 {
        return starts;
    }
    starts.push(0);
    proof {
        assert(run_ok(times@, time_tolerance, starts@, 0, 1));
    }
    let mut j: usize = 1;
    while j < n
        invariant
            n == times@.len(),
            1 <= j <= n,
            starts@.len() >= 1,
            runs_ok(times@, time_tolerance, starts@, j as int),
        decreases n - j,
    {
        let last = starts.len() - 1;
        proof {
            assert(run_ok(times@, time_tolerance, starts@, last as int, j as int));
        }
        let head = times[starts[last]];
        let diff: i128 = times[j] as i128 - head as i128;
        let tol: i128 = time_tolerance as i128;
        let ghost old_starts = starts@;
        proof {
            assert(run_ok(times@, time_tolerance, starts@, last as int, j as int));
        }
        if diff == 0 || (-tol <= diff && diff <= tol) {
            proof {
                assert forall|g: int| 0 <= g < starts@.len() implies #[trigger] run_ok(times@, time_tolerance, starts@, g, j + 1) by {
                    assert(run_ok(times@, time_tolerance, starts@, g, j as int));
                }
            }
        } else {
            starts.push(j);
            proof {
                assert forall|g: int| 0 <= g < starts@.len() implies #[trigger] run_ok(times@, time_tolerance, starts@, g, j + 1) by {
                    if g < last {
                        assert(run_ok(times@, time_tolerance, old_starts, g, j as int));
                        assert(starts@[g] == old_starts[g] && starts@[g + 1] == old_starts[g + 1]);
                    } else if g == last {
                        assert(run_ok(times@, time_tolerance, old_starts, g, j as int));
                    }
                }
            }
        }
        j += 1;
    }
    proof {
        if ascending(times@) {
            assert forall|g1: int, g2: int| 0 <= g1 < g2 < starts@.len()
                implies !close(#[trigger] times@[starts@[g2] as int], #[trigger] times@[starts@[g1] as int], time_tolerance) by {
                lemma_coalesced_heads_apart(times@, time_tolerance, starts@, g1, g2);
            }
        }
    }
    starts
}

/// The group starts of a coalesced list are in ascending order.
proof fn lemma_starts_ascending(times: Seq<Time>, tolerance: Time, starts: Seq<usize>, g1: int, g2: int)
    requires
        coalesced(times, tolerance, starts),
        0 <= g1 <= g2 < starts.len(),
    ensures
        starts[g1] <= starts[g2],
        starts[g2] < times.len(),
    decreases g2 - g1,
{
    assert(run_ok(times, tolerance, starts, g2, times.len() as int));
    if g1 < g2 {
        assert(run_ok(times, tolerance, starts, g1, times.len() as int));
        lemma_starts_ascending(times, tolerance, starts, g1 + 1, g2);
    }
}

/// After coalescing an ascending list, no two of the entries that remain
/// (the first of each group) are close.
pub proof fn lemma_coalesced_heads_apart(times: Seq<Time>, tolerance: Time, starts: Seq<usize>, g1: int, g2: int)
    requires
        ascending(times),
        coalesced(times, tolerance, starts),
        0 <= g1 < g2 < starts.len(),
    ensures
        !close(times[starts[g2] as int], times[starts[g1] as int], tolerance),
{
    let n = times.len() as int;
    assert(run_ok(times, tolerance, starts, g1, n));
    lemma_starts_ascending(times, tolerance, starts, g1, g1 + 1);
    lemma_starts_ascending(times, tolerance, starts, g1 + 1, g2);
    assert(times[starts[g1] as int] <= times[starts[g1 + 1] as int]);
    assert(times[starts[g1 + 1] as int] <= times[starts[g2] as int]);
}

} // verus!
