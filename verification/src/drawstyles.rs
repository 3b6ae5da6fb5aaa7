//! What the ways of drawing a signal decide: which two axes of its range are
//! framed, and which of its points lies nearest to the pointer.

use vstd::prelude::*;
use crate::axes::Axes;
use crate::level::Level;
use crate::range::{greatest_on, least_on, Range, RangedDeque};

verus! {

/// The ways in which a signal can be drawn.
#[derive(Debug, Clone, Copy, PartialEq, Eq, Structural)]
pub enum Styles {
    /// Each point on its own.
    Scatter,
    /// The points joined by a line.
    Lines,
}

/// The range of the two drawn axes of a buffer: the horizontal first, then
/// the vertical.
pub fn get_range<A: Axes + Clone>(points: &RangedDeque<A>) -> (r: Range)
    requires
        points.wf(),
    ensures
        r.min@ == seq![least_on(points@, A::x_axis()), least_on(points@, A::y_axis())],
        r.max@ == seq![greatest_on(points@, A::x_axis()), greatest_on(points@, A::y_axis())],
{
    let r = points.get_range();
    proof {
        A::axes_in_range();
    }
    let min = vec![r.min[A::x()], r.min[A::y()]];
    let max = vec![r.max[A::x()], r.max[A::y()]];
    assert(min@ =~= seq![least_on(points@, A::x_axis()), least_on(points@, A::y_axis())]);
    assert(max@ =~= seq![greatest_on(points@, A::x_axis()), greatest_on(points@, A::y_axis())]);
    Range { min, max }
}

/// Whether place `i` holds the least of the distances, and no earlier place
/// holds the same. A distance that is none is no distance.
pub open spec fn is_first_least(distances: Seq<Level>, i: int) -> bool {
    &&& 0 <= i < distances.len()
    &&& distances[i] is Some
    &&& forall|j: int|
        0 <= j < distances.len() && distances[j] is Some ==> distances[i]->0 <= (
        #[trigger] distances[j])->0
    &&& forall|j: int| 0 <= j < i && distances[j] is Some ==> distances[i]->0 < (
    #[trigger] distances[j])->0
}

/// The first place with the least distance stays what it is when a place is
/// added that holds no nearer distance.
proof fn lemma_least_stays(distances: Seq<Level>, n: int, m: int)
    requires
        0 <= n < distances.len(),
        is_first_least(distances.take(n), m),
        distances[n] is Some ==> distances[m]->0 <= distances[n]->0,
    ensures
        is_first_least(distances.take(n + 1), m),
{
    let before = distances.take(n);
    let after = distances.take(n + 1);
    assert forall|j: int| 0 <= j < after.len() && after[j] is Some implies after[m]->0 <= (
    #[trigger] after[j])->0 by {
        if j < n {
            assert(before[j] is Some);
        }
    }
    assert forall|j: int| 0 <= j < m && after[j] is Some implies after[m]->0 < (
    #[trigger] after[j])->0 by {
        assert(before[j] is Some);
    }
}

/// A place that is added with a distance nearer than the least so far is
/// the first place with the least distance.
proof fn lemma_least_moves(distances: Seq<Level>, n: int, least: Option<int>)
    requires
        0 <= n < distances.len(),
        distances[n] is Some,
        least is Some ==> is_first_least(distances.take(n), least->0) && distances[n]->0
            < distances[least->0]->0,
        least is None ==> forall|j: int| 0 <= j < n ==> (#[trigger] distances[j]) is None,
    ensures
        is_first_least(distances.take(n + 1), n),
{
    let before = distances.take(n);
    let after = distances.take(n + 1);
    assert forall|j: int| 0 <= j < n && after[j] is Some implies after[n]->0 < (
    #[trigger] after[j])->0 by {
        assert(before[j] is Some);
    }
}

/// Finds the least of the distances: its place, the first where several are
/// equal, and the distance itself. Both are none where no place holds a distance.
pub fn find_min(distances: &Vec<Level>) -> (found: (Option<usize>, Level))
    ensures
        found.0 is Some ==> is_first_least(distances@, found.0->0 as int) && found.1
            == distances@[found.0->0 as int],
        found.0 is None ==> found.1 is None && forall|j: int|
            0 <= j < distances@.len() ==> (#[trigger] distances@[j]) is None,
{
    let mut min_val: Level = None;
    let mut min_idx: Option<usize> = None;
    let mut i: usize = 0;
    while i < distances.len()
        invariant
            i <= distances.len(),
            min_idx is Some ==> is_first_least(distances@.take(i as int), min_idx->0 as int)
                && min_val == distances@[min_idx->0 as int],
            min_idx is None ==> min_val is None && forall|j: int|
                0 <= j < i ==> (#[trigger] distances@[j]) is None,
        decreases distances.len() - i,
    {
        let d = distances[i];
        let better = match (d, min_val) {
            (Some(value), Some(least)) => value < least,
            (Some(_), None) => true,
            (None, _) => false,
        };
        if better {
            proof {
                let least = match min_idx {
                    Some(m) => Some(m as int),
                    None => None,
                };
                lemma_least_moves(distances@, i as int, least);
            }
            min_val = d;
            min_idx = Some(i);
        } else {
            proof {
                if min_idx is Some {
                    lemma_least_stays(distances@, i as int, min_idx->0 as int);
                }
            }
        }
        i += 1;
    }
    assert(distances@.take(distances.len() as int) =~= distances@);
    (min_idx, min_val)
}

/// Whether `i` is the place that a pick with the threshold `pick_thresh`
/// hits: the first place with the least distance, where that distance is not
/// above the threshold.
pub open spec fn is_picked(distances: Seq<Level>, pick_thresh: Level, i: int) -> bool {
    &&& is_first_least(distances, i)
    &&& pick_thresh is Some
    &&& distances[i]->0 <= pick_thresh->0
}

/// Picks the point nearest to the pointer. `distances` holds, for each point
/// of a signal, how far it is drawn from the pointer. The pick hits the
/// nearest point, the first of several, where it is within `pick_thresh`, and
/// nothing otherwise.
pub fn pick(distances: &Vec<Level>, pick_thresh: Level) -> (hit: Option<usize>)
    ensures
        hit is Some ==> is_picked(distances@, pick_thresh, hit->0 as int),
        hit is None ==> forall|i: int| !is_picked(distances@, pick_thresh, i),
{
    let d = find_min(distances);
    match (d.0, d.1, pick_thresh) {
        (Some(idx), Some(least), Some(thresh)) => {
            if thresh >= least {
                Some(idx)
            } else {
                assert forall|i: int| !is_picked(distances@, pick_thresh, i) by {
                    if is_picked(distances@, pick_thresh, i) {
                        assert(distances@[idx as int]->0 <= distances@[i]->0);
                    }
                }
                None
            }
        },
        _ => {
            assert forall|i: int| !is_picked(distances@, pick_thresh, i) by {
                if is_picked(distances@, pick_thresh, i) {
                    assert(distances@[i] is Some);
                }
            }
            None
        },
    }
}

/// At most one place is the first with the least distance, so a pick is
/// decided by the distances and the threshold alone.
pub proof fn lemma_pick_is_unique(distances: Seq<Level>, pick_thresh: Level, i: int, j: int)
    requires
        is_picked(distances, pick_thresh, i),
        is_picked(distances, pick_thresh, j),
    ensures
        i == j,
{
    if i < j {
        assert(distances[j]->0 < distances[i]->0);
    } else if j < i {
        assert(distances[i]->0 < distances[j]->0);
    }
}

} // verus!
