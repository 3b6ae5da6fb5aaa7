//! Ranges, and the buffer of points that keeps its own range.

use std::collections::VecDeque;
use vstd::prelude::*;
use crate::axes::{Axes, Point};
use crate::level::{lower, lower_of, upper, upper_of, Level};

verus! {

/// The level at place `i` of `levels`, or none where there is no such place.
pub open spec fn level_at(levels: Seq<Level>, i: int) -> Level {
    if 0 <= i < levels.len() {
        levels[i]
    } else {
        None
    }
}

/// The longer of two lengths.
pub open spec fn longer(a: nat, b: nat) -> nat {
    if a >= b {
        a
    } else {
        b
    }
}

/// The least level that the points have on `axis`: none where no point has a
/// level there.
pub open spec fn least_on(points: Seq<Seq<Level>>, axis: int) -> Level
    decreases points.len(),
{
    if points.len() == 0 {
        None
    } else {
        lower_of(least_on(points.drop_last(), axis), points.last()[axis])
    }
}

/// The greatest level that the points have on `axis`: none where no point has
/// a level there.
pub open spec fn greatest_on(points: Seq<Seq<Level>>, axis: int) -> Level
    decreases points.len(),
{
    if points.len() == 0 {
        None
    } else {
        upper_of(greatest_on(points.drop_last(), axis), points.last()[axis])
    }
}

/// The least level of the points on each of the first `arity` axes.
pub open spec fn least_levels(points: Seq<Seq<Level>>, arity: nat) -> Seq<Level> {
    Seq::new(arity, |i: int| least_on(points, i))
}

/// The greatest level of the points on each of the first `arity` axes.
pub open spec fn greatest_levels(points: Seq<Seq<Level>>, arity: nat) -> Seq<Level> {
    Seq::new(arity, |i: int| greatest_on(points, i))
}

/// The least level on an axis is none exactly where no point has a level
/// there. Otherwise some point has it, and no point lies below it.
pub proof fn lemma_least_is_least(points: Seq<Seq<Level>>, axis: int)
    ensures
        least_on(points, axis) is None <==> forall|i: int|
            0 <= i < points.len() ==> (#[trigger] points[i])[axis] is None,
        least_on(points, axis) is Some ==> exists|i: int|
            0 <= i < points.len() && (#[trigger] points[i])[axis] == least_on(points, axis),
        forall|i: int|
            0 <= i < points.len() && (#[trigger] points[i])[axis] is Some ==> least_on(
                points,
                axis,
            ) is Some && least_on(points, axis)->0 <= points[i][axis]->0,
    decreases points.len(),
{
    if points.len() > 0 {
        let rest = points.drop_last();
        lemma_least_is_least(rest, axis);
        assert forall|i: int| 0 <= i < rest.len() implies #[trigger] rest[i] == points[i] by {}
        if least_on(points, axis) is Some {
            if least_on(points, axis) == points.last()[axis] {
                assert(points[points.len() - 1][axis] == least_on(points, axis));
            } else {
                let i = choose|i: int|
                    0 <= i < rest.len() && (#[trigger] rest[i])[axis] == least_on(rest, axis);
                assert(points[i][axis] == least_on(points, axis));
            }
        }
        assert forall|i: int|
            0 <= i < points.len() && (#[trigger] points[i])[axis] is Some implies least_on(
            points,
            axis,
        ) is Some && least_on(points, axis)->0 <= points[i][axis]->0 by {
            if i < rest.len() {
                assert(rest[i][axis] is Some);
            }
        }
        if least_on(points, axis) is None {
            assert forall|i: int| 0 <= i < points.len() implies (#[trigger] points[i])[axis]
                is None by {
                if i < rest.len() {
                    assert(rest[i][axis] is None);
                }
            }
        }
    }
}

/// The greatest level on an axis is none exactly where no point has a level
/// there. Otherwise some point has it, and no point lies above it.
pub proof fn lemma_greatest_is_greatest(points: Seq<Seq<Level>>, axis: int)
    ensures
        greatest_on(points, axis) is None <==> forall|i: int|
            0 <= i < points.len() ==> (#[trigger] points[i])[axis] is None,
        greatest_on(points, axis) is Some ==> exists|i: int|
            0 <= i < points.len() && (#[trigger] points[i])[axis] == greatest_on(points, axis),
        forall|i: int|
            0 <= i < points.len() && (#[trigger] points[i])[axis] is Some ==> greatest_on(
                points,
                axis,
            ) is Some && greatest_on(points, axis)->0 >= points[i][axis]->0,
    decreases points.len(),
{
    if points.len() > 0 {
        let rest = points.drop_last();
        lemma_greatest_is_greatest(rest, axis);
        assert forall|i: int| 0 <= i < rest.len() implies #[trigger] rest[i] == points[i] by {}
        if greatest_on(points, axis) is Some {
            if greatest_on(points, axis) == points.last()[axis] {
                assert(points[points.len() - 1][axis] == greatest_on(points, axis));
            } else {
                let i = choose|i: int|
                    0 <= i < rest.len() && (#[trigger] rest[i])[axis] == greatest_on(rest, axis);
                assert(points[i][axis] == greatest_on(points, axis));
            }
        }
        assert forall|i: int|
            0 <= i < points.len() && (#[trigger] points[i])[axis] is Some implies greatest_on(
            points,
            axis,
        ) is Some && greatest_on(points, axis)->0 >= points[i][axis]->0 by {
            if i < rest.len() {
                assert(rest[i][axis] is Some);
            }
        }
        if greatest_on(points, axis) is None {
            assert forall|i: int| 0 <= i < points.len() implies (#[trigger] points[i])[axis]
                is None by {
                if i < rest.len() {
                    assert(rest[i][axis] is None);
                }
            }
        }
    }
}

/// The range of some points does not depend on the order in which they
/// came: two sequences that hold the same points, each as often as the other,
/// have the same least and the same greatest level on every axis.
pub proof fn lemma_range_ignores_order(p: Seq<Seq<Level>>, q: Seq<Seq<Level>>, axis: int)
    requires
        p.to_multiset() == q.to_multiset(),
    ensures
        least_on(p, axis) == least_on(q, axis),
        greatest_on(p, axis) == greatest_on(q, axis),
{
    p.to_multiset_ensures();
    q.to_multiset_ensures();
    lemma_least_is_least(p, axis);
    lemma_least_is_least(q, axis);
    lemma_greatest_is_greatest(p, axis);
    lemma_greatest_is_greatest(q, axis);
    assert forall|i: int| 0 <= i < p.len() implies exists|j: int|
        0 <= j < q.len() && #[trigger] q[j] == #[trigger] p[i] by {
        assert(p.contains(p[i]));
        assert(q.to_multiset().count(p[i]) > 0);
        assert(q.contains(p[i]));
    }
    assert forall|j: int| 0 <= j < q.len() implies exists|i: int|
        0 <= i < p.len() && #[trigger] p[i] == #[trigger] q[j] by {
        assert(q.contains(q[j]));
        assert(p.to_multiset().count(q[j]) > 0);
        assert(p.contains(q[j]));
    }
    if least_on(p, axis) is Some {
        let i = choose|i: int| 0 <= i < p.len() && (#[trigger] p[i])[axis] == least_on(p, axis);
        let j = choose|j: int| 0 <= j < q.len() && #[trigger] q[j] == p[i];
        assert(q[j][axis] is Some);
    }
    if least_on(q, axis) is Some {
        let j = choose|j: int| 0 <= j < q.len() && (#[trigger] q[j])[axis] == least_on(q, axis);
        let i = choose|i: int| 0 <= i < p.len() && #[trigger] p[i] == q[j];
        assert(p[i][axis] is Some);
    }
    if greatest_on(p, axis) is Some {
        let i = choose|i: int|
            0 <= i < p.len() && (#[trigger] p[i])[axis] == greatest_on(p, axis);
        let j = choose|j: int| 0 <= j < q.len() && #[trigger] q[j] == p[i];
        assert(q[j][axis] is Some);
    }
    if greatest_on(q, axis) is Some {
        let j = choose|j: int|
            0 <= j < q.len() && (#[trigger] q[j])[axis] == greatest_on(q, axis);
        let i = choose|i: int| 0 <= i < p.len() && #[trigger] p[i] == q[j];
        assert(p[i][axis] is Some);
    }
}

/// The bounds of some points, axis by axis. A bound that is none has not been
/// set by any point.
#[derive(Debug)]
pub struct Range {
    /// The least level on each axis.
    pub min: Vec<Level>,
    /// The greatest level on each axis.
    pub max: Vec<Level>,
}

impl Clone for Range {
    fn clone(&self) -> (r: Range)
        ensures
            r.min@ == self.min@,
            r.max@ == self.max@,
    {
        Range { min: copy_levels(&self.min), max: copy_levels(&self.max) }
    }
}

/// A copy of the given levels.
pub fn copy_levels(levels: &Vec<Level>) -> (copy: Vec<Level>)
    ensures
        copy@ == levels@,
{
    let mut copy: Vec<Level> = Vec::new();
    let mut i: usize = 0;
    while i < levels.len()
        invariant
            i <= levels.len(),
            copy@ == levels@.take(i as int),
        decreases levels.len() - i,
    {
        copy.push(levels[i]);
        assert(levels@.take(i + 1) =~= levels@.take(i as int).push(levels@[i as int]));
        i += 1;
    }
    assert(levels@.take(levels.len() as int) =~= levels@);
    copy
}

/// The bounds that `ours` and `theirs` have together: on each axis that
/// either of them has, the lesser of the two bounds, where a missing or unset
/// bound yields to the other.
pub open spec fn joined_min(ours: Seq<Level>, theirs: Seq<Level>) -> Seq<Level> {
    Seq::new(
        longer(ours.len(), theirs.len()),
        |i: int| lower_of(level_at(theirs, i), level_at(ours, i)),
    )
}

/// As `joined_min`, with the greater of the two bounds.
pub open spec fn joined_max(ours: Seq<Level>, theirs: Seq<Level>) -> Seq<Level> {
    Seq::new(
        longer(ours.len(), theirs.len()),
        |i: int| upper_of(level_at(theirs, i), level_at(ours, i)),
    )
}

/// The level at place `i`, or none where the vector is shorter.
pub fn level_or_none(levels: &Vec<Level>, i: usize) -> (level: Level)
    ensures
        level == level_at(levels@, i as int),
{
    if i < levels.len() {
        levels[i]
    } else {
        None
    }
}

impl Range {
    /// The range without axes.
    pub fn new() -> (r: Range)
        ensures
            r.min@ == Seq::<Level>::empty(),
            r.max@ == Seq::<Level>::empty(),
    {
        Range { min: Vec::new(), max: Vec::new() }
    }

    /// The range of `cap` axes on which no bound is set.
    pub fn new_cap(cap: usize) -> (r: Range)
        ensures
            r.min@ == Seq::new(cap as nat, |i: int| None::<i64>),
            r.max@ == Seq::new(cap as nat, |i: int| None::<i64>),
    {
        let mut min: Vec<Level> = Vec::new();
        let mut max: Vec<Level> = Vec::new();
        let mut i: usize = 0;
        while i < cap
            invariant
                i <= cap,
                min@ == Seq::new(i as nat, |k: int| None::<i64>),
                max@ == Seq::new(i as nat, |k: int| None::<i64>),
            decreases cap - i,
        {
            min.push(None);
            max.push(None);
            i += 1;
            assert(min@ =~= Seq::new(i as nat, |k: int| None::<i64>));
            assert(max@ =~= Seq::new(i as nat, |k: int| None::<i64>));
        }
        Range { min, max }
    }

    /// Widens this range so that it holds `other` too.
    pub fn expandby(&mut self, other: &Range)
        ensures
            final(self).min@ == joined_min(old(self).min@, other.min@),
            final(self).max@ == joined_max(old(self).max@, other.max@),
    {
        let mut new_min: Vec<Level> = Vec::new();
        let min_len = if self.min.len() >= other.min.len() {
            self.min.len()
        } else {
            other.min.len()
        };
        let mut i: usize = 0;
        while i < min_len
            invariant
                i <= min_len,
                min_len == longer(self.min@.len(), other.min@.len()),
                new_min@ == joined_min(self.min@, other.min@).take(i as int),
            decreases min_len - i,
        {
            let a = level_or_none(&other.min, i);
            let b = level_or_none(&self.min, i);
            new_min.push(lower(a, b));
            i += 1;
            assert(new_min@ =~= joined_min(self.min@, other.min@).take(i as int));
        }
        assert(new_min@ =~= joined_min(self.min@, other.min@));
        let mut new_max: Vec<Level> = Vec::new();
        let max_len = if self.max.len() >= other.max.len() {
            self.max.len()
        } else {
            other.max.len()
        };
        let mut j: usize = 0;
        while j < max_len
            invariant
                j <= max_len,
                max_len == longer(self.max@.len(), other.max@.len()),
                new_max@ == joined_max(self.max@, other.max@).take(j as int),
            decreases max_len - j,
        {
            let a = level_or_none(&other.max, j);
            let b = level_or_none(&self.max, j);
            new_max.push(upper(a, b));
            j += 1;
            assert(new_max@ =~= joined_max(self.max@, other.max@).take(j as int));
        }
        assert(new_max@ =~= joined_max(self.max@, other.max@));
        self.min = new_min;
        self.max = new_max;
    }
}

/// An append-only buffer of points that keeps, with every push, the exact
/// range of the points it holds.
#[derive(Debug)]
pub struct RangedDeque<A> {
    points: VecDeque<Point<A>>,
    range: Range,
}

impl<A: Axes + Clone> RangedDeque<A> {
    /// The points held, oldest first.
    pub closed spec fn points(&self) -> Seq<Point<A>> {
        self.points@
    }

    /// The levels of the points held, oldest first.
    pub open spec fn view(&self) -> Seq<Seq<Level>> {
        Seq::new(self.points().len(), |i: int| self.points()[i].axes.levels())
    }

    /// The least level kept for each axis.
    pub closed spec fn min(&self) -> Seq<Level> {
        self.range.min@
    }

    /// The greatest level kept for each axis.
    pub closed spec fn max(&self) -> Seq<Level> {
        self.range.max@
    }

    /// The range kept is the exact range of the points held.
    pub open spec fn wf(&self) -> bool {
        &&& self.min() == least_levels(self@, A::arity())
        &&& self.max() == greatest_levels(self@, A::arity())
    }

    /// The empty buffer.
    pub fn new() -> (buffer: RangedDeque<A>)
        ensures
            buffer.wf(),
            buffer.points() == Seq::<Point<A>>::empty(),
    {
        let unset = A::default();
        let buffer = RangedDeque {
            points: VecDeque::new(),
            range: Range { min: unset.as_vec(), max: unset.as_vec() },
        };
        proof {
            unset.levels_fill_axes();
            assert(buffer@ =~= Seq::<Seq<Level>>::empty());
            assert(buffer.min() =~= least_levels(buffer@, A::arity()));
            assert(buffer.max() =~= greatest_levels(buffer@, A::arity()));
        }
        buffer
    }

    /// Appends a point and widens the range to hold it. Tells whether the
    /// range changed.
    pub fn push(&mut self, pt: Point<A>) -> (range_update: bool)
        requires
            old(self).wf(),
        ensures
            final(self).wf(),
            final(self).points() == old(self).points().push(pt),
            final(self)@ == old(self)@.push(pt.axes.levels()),
            range_update == (final(self).min() != old(self).min() || final(self).max() != old(self).max()),
    {
        let mut range_update = false;
        let size = A::size();
        let ghost before = self@;
        let ghost after = self@.push(pt.axes.levels());
        proof {
            pt.axes.levels_fill_axes();
            assert(after.drop_last() =~= before);
        }
        let mut i: usize = 0;
        while i < size
            invariant
                i <= size,
                size == A::arity(),
                self.points == old(self).points,
                self@ == before,
                after.drop_last() == before,
                after.last() == pt.axes.levels(),
                after.len() > 0,
                old(self).min() == least_levels(before, A::arity()),
                old(self).max() == greatest_levels(before, A::arity()),
                self.range.min@.len() == A::arity(),
                self.range.max@.len() == A::arity(),
                forall|k: int| 0 <= k < i ==> self.range.min@[k] == least_on(after, k),
                forall|k: int| 0 <= k < i ==> self.range.max@[k] == greatest_on(after, k),
                forall|k: int| i <= k < size ==> self.range.min@[k] == least_on(before, k),
                forall|k: int| i <= k < size ==> self.range.max@[k] == greatest_on(before, k),
                range_update == exists|k: int|
                    0 <= k < i && (least_on(after, k) != least_on(before, k) || greatest_on(
                        after,
                        k,
                    ) != greatest_on(before, k)),
            decreases size - i,
        {
            let t = pt.axes.at(i);
            let low = lower(self.range.min[i], t);
            let high = upper(self.range.max[i], t);
            let ghost was = range_update;
            assert(low == least_on(after, i as int));
            assert(high == greatest_on(after, i as int));
            if !same_level(low, self.range.min[i]) {
                self.range.min.set(i, low);
                range_update = true;
            }
            if !same_level(high, self.range.max[i]) {
                self.range.max.set(i, high);
                range_update = true;
            }
            proof {
                let at = i as int;
                if was {
                    let k = choose|k: int|
                        0 <= k < at && (least_on(after, k) != least_on(before, k) || greatest_on(
                            after,
                            k,
                        ) != greatest_on(before, k));
                    assert(0 <= k < at + 1 && (least_on(after, k) != least_on(before, k)
                        || greatest_on(after, k) != greatest_on(before, k)));
                } else if range_update {
                    assert(0 <= at < at + 1 && (least_on(after, at) != least_on(before, at)
                        || greatest_on(after, at) != greatest_on(before, at)));
                }
            }
            i += 1;
        }
        self.points.push_back(pt);
        proof {
            assert(self@ =~= after);
            assert(self.min() =~= least_levels(after, A::arity()));
            assert(self.max() =~= greatest_levels(after, A::arity()));
            if range_update {
                let k = choose|k: int|
                    0 <= k < size && (least_on(after, k) != least_on(before, k) || greatest_on(
                        after,
                        k,
                    ) != greatest_on(before, k));
                assert(self.min()[k] != old(self).min()[k] || self.max()[k] != old(self).max()[k]);
            } else {
                assert(self.min() =~= old(self).min());
                assert(self.max() =~= old(self).max());
            }
        }
        range_update
    }

    /// The point pushed last, if there is one.
    pub fn get_last(&self) -> (last: Option<&Point<A>>)
        ensures
            self.points().len() == 0 ==> last is None,
            self.points().len() > 0 ==> last == Some(&self.points().last()),
    {
        let n = self.points.len();
        if n == 0 {
            None
        } else {
            Some(&self.points[n - 1])
        }
    }

    /// The point at place `idx`, counted from the oldest.
    pub fn get(&self, idx: usize) -> (pt: &Point<A>)
        requires
            idx < self.points().len(),
        ensures
            *pt == self.points()[idx as int],
    {
        &self.points[idx]
    }

    /// The number of points held.
    pub fn len(&self) -> (n: usize)
        ensures
            n == self.points().len(),
    {
        self.points.len()
    }

    /// Walks the points held, oldest first.
    pub fn iter(&self) -> (it: std::collections::vec_deque::Iter<'_, Point<A>>)
        ensures
            vstd::std_specs::iter::IteratorSpec::remaining(&it) == self.points().as_ref(),
            vstd::std_specs::iter::IteratorSpec::decrease(&it) is Some,
            vstd::std_specs::iter::IteratorSpec::initial_value_relation(&it, &it),
    {
        broadcast use vstd::std_specs::vecdeque::axiom_spec_iter;

        self.points.iter()
    }

    /// The range of the points held: on every axis the least and the greatest
    /// level that any of them has there.
    pub fn get_range(&self) -> (r: Range)
        requires
            self.wf(),
        ensures
            r.min@ == least_levels(self@, A::arity()),
            r.max@ == greatest_levels(self@, A::arity()),
    {
        self.range.clone()
    }
}

/// Tells whether two levels are the same.
pub fn same_level(a: Level, b: Level) -> (same: bool)
    ensures
        same == (a == b),
{
    match (a, b) {
        (None, None) => true,
        (Some(x), Some(y)) => x == y,
        _ => false,
    }
}

} // verus!
