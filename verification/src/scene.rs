//! The nearest hit of a ray among the geometries of a scene, decided by the
//! times of the hits alone.

use vstd::prelude::*;

verus! {

/// An open interval of ray times. A time is held as an integer key that is
/// ordered as the times are.
#[derive(Clone, Copy, Debug, PartialEq, Eq, Structural)]
pub struct Interval {
    pub min: u32,
    pub max: u32,
}

impl Interval {
    /// The times strictly between the two bounds.
    pub open spec fn holds(self, value: u32) -> bool {
        self.min < value && value < self.max
    }

    pub fn build(min: u32, max: u32) -> (interval: Interval)
        ensures
            interval.min == min,
            interval.max == max,
    {
        Interval { min, max }
    }

    /// Whether a time lies strictly between the two bounds.
    pub fn contains(&self, value: u32) -> (inside: bool)
        ensures
            inside == self.holds(value),
    {
        self.min < value && value < self.max
    }
}

/// The root that counts as the hit, of the two times at which a ray crosses a
/// closed surface: the earlier one where it lies inside the interval, else
/// the later one where that lies inside, else none.
pub open spec fn chosen_root(interval: Interval, earlier: u32, later: u32) -> Option<u32> {
    if interval.holds(earlier) {
        Some(earlier)
    } else if interval.holds(later) {
        Some(later)
    } else {
        None
    }
}

/// The root that counts as the hit. There is one wherever the ray crosses the
/// surface at a time inside the interval.
pub fn choose_root(interval: &Interval, earlier: u32, later: u32) -> (root: Option<u32>)
    ensures
        root == chosen_root(*interval, earlier, later),
        root is Some <==> interval.holds(earlier) || interval.holds(later),
{
    if interval.contains(earlier) {
        Some(earlier)
    } else if interval.contains(later) {
        Some(later)
    } else {
        None
    }
}

/// The state of a scan for the nearest hit: the interval of the times that
/// are still accepted, which ends at the nearest hit so far, and the index of
/// the geometry of that hit.
#[derive(Clone, Copy, Debug, PartialEq, Eq, Structural)]
pub struct Nearest {
    pub interval: Interval,
    pub hit: Option<usize>,
}

/// The scan state after the geometry `index` has offered a hit at `time`: a
/// time inside the interval becomes the nearest hit and the end of the
/// interval, any other leaves the state as it is.
pub open spec fn offered(state: Nearest, index: usize, time: u32) -> Nearest {
    if state.interval.holds(time) {
        Nearest { interval: Interval { min: state.interval.min, max: time }, hit: Some(index) }
    } else {
        state
    }
}

/// The scan state after the first `n` geometries: `times[i]` is the time at
/// which geometry `i` is hit, if it is hit at all.
pub open spec fn scanned(times: Seq<Option<u32>>, interval: Interval, n: int) -> Nearest
    decreases n,
{
    if n <= 0 {
        Nearest { interval, hit: None }
    } else {
        let before = scanned(times, interval, n - 1);
        match times[n - 1] {
            Some(time) => offered(before, (n - 1) as usize, time),
            None => before,
        }
    }
}

/// Geometry `i` is hit at a time inside the interval.
pub open spec fn is_candidate(times: Seq<Option<u32>>, interval: Interval, i: int) -> bool {
    0 <= i < times.len() && times[i] is Some && interval.holds(times[i]->Some_0)
}

/// Geometry `i` is the nearest hit: it is a candidate, no candidate is hit
/// earlier, and of those hit at the same time it comes first.
pub open spec fn is_nearest(times: Seq<Option<u32>>, interval: Interval, i: int) -> bool {
    &&& is_candidate(times, interval, i)
    &&& forall|j: int| #[trigger]
        is_candidate(times, interval, j) ==> times[i]->Some_0 <= times[j]->Some_0
    &&& forall|j: int| #[trigger]
        is_candidate(times, interval, j) && times[j]->Some_0 == times[i]->Some_0 ==> i <= j
}

impl Nearest {
    /// The state before any geometry was tried.
    pub fn new(interval: Interval) -> (state: Nearest)
        ensures
            state == (Nearest { interval, hit: None }),
    {
        Nearest { interval, hit: None }
    }

    /// Offers the hit of geometry `index` at `time`. It is accepted where the
    /// time lies inside the interval: the interval then ends at that time, so
    /// that only a strictly nearer hit is accepted afterwards.
    pub fn offer(&mut self, index: usize, time: u32) -> (accepted: bool)
        ensures
            accepted == old(self).interval.holds(time),
            *final(self) == offered(*old(self), index, time),
    {
        if self.interval.contains(time) {
            self.interval.max = time;
            self.hit = Some(index);
            true
        } else {
            false
        }
    }
}

/// What a scan has found after `n` geometries: the interval still begins
/// where it began, and it ends at the nearest hit among the first `n`, which
/// the state names.
pub proof fn lemma_scanned(times: Seq<Option<u32>>, interval: Interval, n: int)
    requires
        0 <= n <= times.len() <= usize::MAX,
    ensures
        scanned(times, interval, n).interval.min == interval.min,
        match scanned(times, interval, n).hit {
            Some(i) => {
                &&& i < n
                &&& is_nearest(times.take(n), interval, i as int)
                &&& scanned(times, interval, n).interval.max == times[i as int]->Some_0
            },
            None => {
                &&& scanned(times, interval, n).interval.max == interval.max
                &&& forall|j: int| !#[trigger] is_candidate(times.take(n), interval, j)
            },
        },
    decreases n,
{
    if n > 0 {
        lemma_scanned(times, interval, n - 1);
        let before = scanned(times, interval, n - 1);
        let after = scanned(times, interval, n);
        let shorter = times.take(n - 1);
        let longer = times.take(n);
        assert(longer[n - 1] == times[n - 1]);
        assert forall|j: int| #[trigger]
            is_candidate(longer, interval, j) && j < n - 1 implies is_candidate(
            shorter,
            interval,
            j,
        ) by {
            assert(longer[j] == shorter[j]);
        }
        assert(before.interval.max <= interval.max) by {
            if before.hit is Some {
                assert(is_candidate(shorter, interval, before.hit->Some_0 as int));
            }
        }
        let accepted = times[n - 1] is Some && before.interval.holds(times[n - 1]->Some_0);
        if accepted {
            let t = times[n - 1]->Some_0;
            assert(after.hit == Some((n - 1) as usize));
            assert(is_candidate(longer, interval, n - 1));
            assert forall|j: int| #[trigger] is_candidate(longer, interval, j) implies t
                <= longer[j]->Some_0 && (longer[j]->Some_0 == t ==> n - 1 <= j) by {
                if j < n - 1 {
                    assert(is_candidate(shorter, interval, j));
                    assert(longer[j] == shorter[j]);
                    assert(before.hit is Some);
                    let i = before.hit->Some_0 as int;
                    assert(shorter[i] == times[i]);
                }
            }
            assert(is_nearest(longer, interval, n - 1));
        } else {
            assert(after == before);
            if before.hit is Some {
                let i = before.hit->Some_0 as int;
                assert(longer[i] == shorter[i]);
                assert(shorter[i] == times[i]);
                assert(is_candidate(longer, interval, i));
                assert forall|j: int| #[trigger]
                    is_candidate(longer, interval, j) implies longer[i]->Some_0
                    <= longer[j]->Some_0 && (longer[j]->Some_0 == longer[i]->Some_0 ==> i
                    <= j) by {
                    if j < n - 1 {
                        assert(is_candidate(shorter, interval, j));
                        assert(longer[j] == shorter[j]);
                    }
                }
                assert(is_nearest(longer, interval, i));
            } else {
                assert forall|j: int| !#[trigger] is_candidate(longer, interval, j) by {
                    if is_candidate(longer, interval, j) && j < n - 1 {
                        assert(is_candidate(shorter, interval, j));
                    }
                }
            }
        }
    } else {
        assert(times.take(0).len() == 0);
    }
}

/// The nearest hit of a ray: of the geometries that are hit at a time inside
/// the interval, the one hit first, and of several hit at that same time the
/// one that comes first in the scene. The time of the hit found is the least
/// of the times inside the interval, in whatever order the geometries stand.
pub fn nearest_hit(times: &Vec<Option<u32>>, interval: Interval) -> (hit: Option<usize>)
    ensures
        hit == scanned(times@, interval, times@.len() as int).hit,
        match hit {
            Some(i) => is_nearest(times@, interval, i as int),
            None => forall|j: int| !#[trigger] is_candidate(times@, interval, j),
        },
{
    let mut state = Nearest::new(interval);
    let mut i: usize = 0;
    while i < times.len()
        invariant
            i <= times@.len(),
            state == scanned(times@, interval, i as int),
        decreases times@.len() - i,
    {
        match times[i] {
            Some(time) => {
                state.offer(i, time);
            },
            None => {},
        }
        i = i + 1;
    }
    proof {
        lemma_scanned(times@, interval, times@.len() as int);
        assert(times@.take(times@.len() as int) =~= times@);
    }
    state.hit
}

/// Of two geometries hit at different times inside the interval, a scan
/// returns the one hit earlier, whichever of them comes first in the scene.
pub proof fn lemma_nearer_of_two(interval: Interval, near: u32, far: u32)
    requires
        interval.holds(near),
        interval.holds(far),
        near < far,
    ensures
        scanned(seq![Some(near), Some(far)], interval, 2).hit == Some(0usize),
        scanned(seq![Some(far), Some(near)], interval, 2).hit == Some(1usize),
{
    let first = seq![Some(near), Some(far)];
    let second = seq![Some(far), Some(near)];
    reveal_with_fuel(scanned, 3);
    assert(first[0] == Some(near) && first[1] == Some(far));
    assert(second[0] == Some(far) && second[1] == Some(near));
}

} // verus!
