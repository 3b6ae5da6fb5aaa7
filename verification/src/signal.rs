//! Signals and their registry.
//!
//! A signal is a named series of points with a fixed number of axes, a way of
//! drawing and a handle on a view. The manager keeps the signals by name
//! together with the state of every view, routes decoded points to them,
//! rebuilds the shared ranges once per frame, and binds and frees views.

use vstd::prelude::*;
use vstd::view::View as _;
use crate::axes::{Axes, MsgPoint, PointType, D1, D2, D3};
use crate::drawstyles::{get_range, is_picked, pick, Styles};
use crate::level::{above, Level, LEVEL_ONE, LEVEL_ZERO};
use crate::range::{greatest_on, least_on, level_at, Range, RangedDeque};
use crate::view::{axis_bound, shared_max, shared_min, Framing, View, ViewData, SHARED_AXES};

verus! {

/// Whether the lines of a signal could all be read.
#[derive(Debug, Clone, Copy, PartialEq, Eq, Structural)]
pub enum SignalHealth {
    /// Every line could be read.
    Good,
    /// A line held a field that is no number.
    InvalidFormat,
}

/// The points of a signal, on the axes that its first point had.
pub enum Samples {
    /// Points with one value.
    One(RangedDeque<D1>),
    /// Points with two values.
    Two(RangedDeque<D2>),
    /// Points with three values.
    Three(RangedDeque<D3>),
}

impl Samples {
    /// Every buffer keeps the exact range of its points.
    pub open spec fn wf(&self) -> bool {
        match self {
            Samples::One(buffer) => buffer.wf(),
            Samples::Two(buffer) => buffer.wf(),
            Samples::Three(buffer) => buffer.wf(),
        }
    }

    /// The levels of the points held, oldest first.
    pub open spec fn levels(&self) -> Seq<Seq<Level>> {
        match self {
            Samples::One(buffer) => buffer@,
            Samples::Two(buffer) => buffer@,
            Samples::Three(buffer) => buffer@,
        }
    }

    /// The number of values that each point has beside its timestamp.
    pub open spec fn values(&self) -> nat {
        match self {
            Samples::One(_) => 1,
            Samples::Two(_) => 2,
            Samples::Three(_) => 3,
        }
    }

    /// The levels that a decoded point has on the axes of these points: the
    /// timestamp and as many values as the axes take, whatever the type of the
    /// point says.
    pub open spec fn chosen(&self, point: MsgPoint) -> Seq<Level> {
        match self {
            Samples::One(_) => D1::chosen(point),
            Samples::Two(_) => D2::chosen(point),
            Samples::Three(_) => D3::chosen(point),
        }
    }

    /// The axis that is drawn horizontally.
    pub open spec fn x_axis(&self) -> int {
        match self {
            Samples::One(_) => D1::x_axis(),
            Samples::Two(_) => D2::x_axis(),
            Samples::Three(_) => D3::x_axis(),
        }
    }

    /// The axis that is drawn vertically.
    pub open spec fn y_axis(&self) -> int {
        match self {
            Samples::One(_) => D1::y_axis(),
            Samples::Two(_) => D2::y_axis(),
            Samples::Three(_) => D3::y_axis(),
        }
    }

    /// The lower bounds of the two drawn axes.
    pub open spec fn drawn_min(&self) -> Seq<Level> {
        seq![least_on(self.levels(), self.x_axis()), least_on(self.levels(), self.y_axis())]
    }

    /// The upper bounds of the two drawn axes.
    pub open spec fn drawn_max(&self) -> Seq<Level> {
        seq![greatest_on(self.levels(), self.x_axis()), greatest_on(self.levels(), self.y_axis())]
    }

    /// No points yet, on the axes that a point of the type `ty` needs. A
    /// marker without values gets the axes of one value.
    pub fn new(ty: PointType) -> (samples: Samples)
        ensures
            samples.wf(),
            samples.levels() == Seq::<Seq<Level>>::empty(),
            samples.values() == (match ty {
                PointType::BreakPoint => 1nat,
                PointType::D1 => 1nat,
                PointType::D2 => 2nat,
                PointType::D3 => 3nat,
            }),
    {
        match ty {
            PointType::BreakPoint => {
                let buffer = RangedDeque::<D1>::new();
                assert(buffer@ =~= Seq::<Seq<Level>>::empty());
                Samples::One(buffer)
            },
            PointType::D1 => {
                let buffer = RangedDeque::<D1>::new();
                assert(buffer@ =~= Seq::<Seq<Level>>::empty());
                Samples::One(buffer)
            },
            PointType::D2 => {
                let buffer = RangedDeque::<D2>::new();
                assert(buffer@ =~= Seq::<Seq<Level>>::empty());
                Samples::Two(buffer)
            },
            PointType::D3 => {
                let buffer = RangedDeque::<D3>::new();
                assert(buffer@ =~= Seq::<Seq<Level>>::empty());
                Samples::Three(buffer)
            },
        }
    }

    /// Appends a decoded point, taking from it the levels that these axes
    /// hold.
    pub fn push(&mut self, point: MsgPoint)
        requires
            old(self).wf(),
        ensures
            final(self).wf(),
            final(self).values() == old(self).values(),
            final(self).levels() == old(self).levels().push(old(self).chosen(point)),
    {
        match self {
            Samples::One(buffer) => {
                buffer.push(<D1 as Axes>::into(point));
            },
            Samples::Two(buffer) => {
                buffer.push(<D2 as Axes>::into(point));
            },
            Samples::Three(buffer) => {
                buffer.push(<D3 as Axes>::into(point));
            },
        }
    }

    /// The number of points held.
    pub fn len(&self) -> (n: usize)
        ensures
            n == self.levels().len(),
    {
        match self {
            Samples::One(buffer) => buffer.len(),
            Samples::Two(buffer) => buffer.len(),
            Samples::Three(buffer) => buffer.len(),
        }
    }

    /// The levels of the point at place `idx`, counted from the oldest.
    pub fn get(&self, idx: usize) -> (levels: Vec<Level>)
        requires
            idx < self.levels().len(),
        ensures
            levels@ == self.levels()[idx as int],
    {
        match self {
            Samples::One(buffer) => buffer.get(idx).axes.as_vec(),
            Samples::Two(buffer) => buffer.get(idx).axes.as_vec(),
            Samples::Three(buffer) => buffer.get(idx).axes.as_vec(),
        }
    }

    /// The range of the two drawn axes.
    pub fn get_range(&self) -> (r: Range)
        requires
            self.wf(),
        ensures
            r.min@ == self.drawn_min(),
            r.max@ == self.drawn_max(),
    {
        match self {
            Samples::One(buffer) => get_range(buffer),
            Samples::Two(buffer) => get_range(buffer),
            Samples::Three(buffer) => get_range(buffer),
        }
    }
}

/// One named series of points.
pub struct Signal {
    /// The name under which its points arrive.
    pub name: String,
    /// Its points.
    pub points: Samples,
    /// How it is drawn.
    pub style: Styles,
    /// Whether its lines could all be read.
    pub health: SignalHealth,
    /// Its handle on a view.
    pub view: View,
}

impl Signal {
    /// The points keep their exact range.
    pub open spec fn wf(&self) -> bool {
        self.points.wf()
    }

    /// A signal without points, in good health.
    pub fn new(name: String, ty: PointType, style: Styles, view: View) -> (signal: Signal)
        ensures
            signal.wf(),
            signal.name == name,
            signal.points.levels() == Seq::<Seq<Level>>::empty(),
            signal.points.values() == (match ty {
                PointType::BreakPoint => 1nat,
                PointType::D1 => 1nat,
                PointType::D2 => 2nat,
                PointType::D3 => 3nat,
            }),
            signal.style == style,
            signal.health == SignalHealth::Good,
            signal.view == view,
    {
        Signal { name, points: Samples::new(ty), style, health: SignalHealth::Good, view }
    }

    /// Appends a decoded point.
    pub fn add_point(&mut self, point: MsgPoint)
        requires
            old(self).wf(),
        ensures
            final(self).wf(),
            final(self).points.values() == old(self).points.values(),
            final(self).points.levels() == old(self).points.levels().push(
                old(self).points.chosen(point),
            ),
            final(self).name == old(self).name,
            final(self).style == old(self).style,
            final(self).health == old(self).health,
            final(self).view == old(self).view,
    {
        self.points.push(point);
    }

    /// The name of the signal.
    pub fn get_name(&self) -> (name: &String)
        ensures
            *name == self.name,
    {
        &self.name
    }

    /// Whether the lines of the signal could all be read.
    pub fn get_health(&self) -> (health: SignalHealth)
        ensures
            health == self.health,
    {
        self.health
    }

    /// The signal's handle on its view.
    pub fn get_view(&self) -> (view: &View)
        ensures
            *view == self.view,
    {
        &self.view
    }

    /// The range of the two drawn axes of the signal's points.
    pub fn get_range(&self) -> (r: Range)
        requires
            self.wf(),
        ensures
            r.min@ == self.points.drawn_min(),
            r.max@ == self.points.drawn_max(),
    {
        self.points.get_range()
    }

    /// Changes how the signal is drawn.
    pub fn set_style(&mut self, style: &Styles)
        ensures
            final(self).style == *style,
            final(self).name == old(self).name,
            final(self).points == old(self).points,
            final(self).health == old(self).health,
            final(self).view == old(self).view,
    {
        self.style = *style;
    }

    /// Replaces the bind mask of the signal's view handle.
    pub fn set_bind_mode(&mut self, mode: u8)
        ensures
            final(self).view.mode == mode,
            final(self).view.data == old(self).view.data,
            final(self).view.local_pos == old(self).view.local_pos,
            final(self).name == old(self).name,
            final(self).points == old(self).points,
            final(self).health == old(self).health,
            final(self).style == old(self).style,
    {
        self.view.set_bind_mode(mode);
    }

    /// Reports the range of the signal's drawn axes to the state of its view.
    pub fn share_view(&self, data: &mut ViewData)
        requires
            self.wf(),
            old(data).wf(),
        ensures
            final(data).wf(),
            final(data).range.min@ == shared_min(
                self.view.mode,
                old(data).range.min@,
                self.points.drawn_min(),
            ),
            final(data).range.max@ == shared_max(
                self.view.mode,
                old(data).range.max@,
                self.points.drawn_max(),
            ),
            final(data).pos == old(data).pos,
            final(data).zoom == old(data).zoom,
            final(data).maintain_aspect == old(data).maintain_aspect,
            final(data).id == old(data).id,
    {
        let range = self.get_range();
        self.view.share(data, &range);
    }

    /// Gathers what the signal's transform is computed from: the bounds of
    /// the drawn axes, the pan offset and the zoom, each from the shared state
    /// where the axis is bound and from the signal where it is not.
    pub fn get_framing(&self, data: &ViewData) -> (framing: Framing)
        requires
            self.wf(),
            data.wf(),
        ensures
            framing.xmin == (if axis_bound(self.view.mode, 0) {
                data.range.min@[0]
            } else {
                self.points.drawn_min()[0]
            }),
            framing.xmax == (if axis_bound(self.view.mode, 0) {
                data.range.max@[0]
            } else {
                self.points.drawn_max()[0]
            }),
            framing.ymin == (if axis_bound(self.view.mode, 1) {
                data.range.min@[1]
            } else {
                self.points.drawn_min()[1]
            }),
            framing.ymax == (if axis_bound(self.view.mode, 1) {
                data.range.max@[1]
            } else {
                self.points.drawn_max()[1]
            }),
            (framing.dx, framing.dy) == self.view.offset(data),
            framing.zoom == (if above(data.zoom, Some(LEVEL_ONE)) {
                data.zoom
            } else {
                Some(LEVEL_ONE)
            }),
            framing.maintain_aspect == data.maintain_aspect,
    {
        let range = self.get_range();
        self.view.get_framing(data, &range)
    }

    /// Sets the zoom of the signal's view, and its pan offset to `moved`; a
    /// zoom that is not above one resets both.
    pub fn zoom_by(&mut self, data: &mut ViewData, zoom: Level, moved: (Level, Level))
        ensures
            final(self).name == old(self).name,
            final(self).points == old(self).points,
            final(self).health == old(self).health,
            final(self).style == old(self).style,
            final(self).view.data == old(self).view.data,
            final(self).view.mode == old(self).view.mode,
            final(data).range == old(data).range,
            final(data).maintain_aspect == old(data).maintain_aspect,
            final(data).id == old(data).id,
            above(zoom, Some(LEVEL_ONE)) ==> final(data).zoom == zoom && (
                final(self).view.local_pos,
                final(data).pos,
            ) == old(self).view.placed(old(data), moved),
            !above(zoom, Some(LEVEL_ONE)) ==> final(data).zoom == Some(LEVEL_ONE) && (
                final(self).view.local_pos,
                final(data).pos,
            ) == old(self).view.placed(old(data), (Some(LEVEL_ZERO), Some(LEVEL_ZERO))),
    {
        self.view.zoom(data, zoom, moved);
    }

    /// Sets the pan offset of the signal's view to `moved`.
    pub fn move_view_by(&mut self, data: &mut ViewData, moved: (Level, Level))
        ensures
            final(self).name == old(self).name,
            final(self).points == old(self).points,
            final(self).health == old(self).health,
            final(self).style == old(self).style,
            final(self).view.data == old(self).view.data,
            final(self).view.mode == old(self).view.mode,
            final(data).zoom == old(data).zoom,
            final(data).range == old(data).range,
            final(data).maintain_aspect == old(data).maintain_aspect,
            final(data).id == old(data).id,
            (final(self).view.local_pos, final(data).pos) == old(self).view.placed(
                old(data),
                moved,
            ),
    {
        self.view.move_by(data, moved);
    }

    /// Picks the point of the signal that is drawn nearest to the pointer.
    /// `distances` holds for each point, oldest first, how far it is drawn
    /// from the pointer.
    pub fn pick(&self, distances: &Vec<Level>, pick_thresh: Level) -> (hit: Option<usize>)
        ensures
            hit is Some ==> is_picked(distances@, pick_thresh, hit->0 as int),
            hit is None ==> forall|i: int| !is_picked(distances@, pick_thresh, i),
    {
        pick(distances, pick_thresh)
    }
}

/// Whether `data` is the state of a view made anew for the signal `name`:
/// no pan, a zoom of one, no range.
pub open spec fn is_fresh_state(data: ViewData, name: Seq<char>) -> bool {
    &&& data.wf()
    &&& data.pos == (Some(LEVEL_ZERO), Some(LEVEL_ZERO))
    &&& data.zoom == Some(LEVEL_ONE)
    &&& data.range.min@ == Seq::new(SHARED_AXES as nat, |i: int| None::<i64>)
    &&& data.range.max@ == Seq::new(SHARED_AXES as nat, |i: int| None::<i64>)
    &&& !data.maintain_aspect
    &&& data.id@ == name
}

/// Whether `after` is the signal `before` with the decoded point appended
/// and nothing else changed.
pub open spec fn is_grown_by(before: Signal, after: Signal, point: MsgPoint) -> bool {
    &&& after.wf()
    &&& after.name == before.name
    &&& after.style == before.style
    &&& after.health == before.health
    &&& after.view == before.view
    &&& after.points.values() == before.points.values()
    &&& after.points.levels() == before.points.levels().push(before.points.chosen(point))
}

/// The way in which a signal is drawn that starts with a point of the type
/// `ty`.
pub open spec fn first_style(ty: PointType) -> Styles {
    match ty {
        PointType::BreakPoint => Styles::Scatter,
        PointType::D1 => Styles::Lines,
        PointType::D2 => Styles::Lines,
        PointType::D3 => Styles::Scatter,
    }
}

/// The number of values per point of a signal that starts with a point of
/// the type `ty`.
pub open spec fn first_values(ty: PointType) -> nat {
    match ty {
        PointType::BreakPoint => 1,
        PointType::D1 => 1,
        PointType::D2 => 2,
        PointType::D3 => 3,
    }
}

/// Whether `signal` is the signal that the decoded point starts: it has the
/// point's name and the axes of the point's type, holds that point alone, is in
/// good health, and looks at the state at place `state` through a handle of
/// its own.
pub open spec fn is_started_by(signal: Signal, point: MsgPoint, state: int) -> bool {
    &&& signal.wf()
    &&& signal.name@ == point.name@
    &&& signal.style == first_style(point.ty)
    &&& signal.health == SignalHealth::Good
    &&& signal.view.data == state
    &&& signal.view.mode == 0
    &&& signal.view.local_pos == (Some(LEVEL_ZERO), Some(LEVEL_ZERO))
    &&& signal.points.values() == first_values(point.ty)
    &&& signal.points.levels() == seq![signal.points.chosen(point)]
}

/// The registry of the signals and of the state of their views.
pub struct SignalManager {
    signals: Vec<Signal>,
    selection: Option<String>,
    views: Vec<ViewData>,
    /// The number of points added so far.
    pub point_count: usize,
}

impl SignalManager {
    /// The signals, in the order in which their names were first seen.
    pub closed spec fn signals(&self) -> Seq<Signal> {
        self.signals@
    }

    /// The state of every view that was ever made, oldest first.
    pub closed spec fn views(&self) -> Seq<ViewData> {
        self.views@
    }

    /// The name that is selected, if one is.
    pub closed spec fn selection(&self) -> Option<Seq<char>> {
        match self.selection {
            Some(name) => Some(name@),
            None => None,
        }
    }

    /// The number of points added so far.
    pub closed spec fn points_added(&self) -> usize {
        self.point_count
    }

    /// No two signals have the same name, every signal keeps the exact range
    /// of its points and looks at a state that exists, and every state has a
    /// shared range.
    pub open spec fn wf(&self) -> bool {
        &&& forall|i: int|
            0 <= i < self.signals().len() ==> (#[trigger] self.signals()[i]).wf()
                && self.signals()[i].view.data < self.views().len()
        &&& forall|i: int, j: int|
            0 <= i < j < self.signals().len() ==> (#[trigger] self.signals()[i]).name@ != (
            #[trigger] self.signals()[j]).name@
        &&& forall|v: int| 0 <= v < self.views().len() ==> (#[trigger] self.views()[v]).wf()
    }

    /// The names of the signals, in the order in which they were first seen.
    pub open spec fn names(&self) -> Seq<Seq<char>> {
        Seq::new(self.signals().len(), |i: int| self.signals()[i].name@)
    }

    /// Whether two registries are the same in everything.
    pub open spec fn same_as(&self, other: &SignalManager) -> bool {
        &&& self.signals() == other.signals()
        &&& self.views() == other.views()
        &&& self.selection() == other.selection()
        &&& self.points_added() == other.points_added()
    }

    /// Whether a signal has the name `name`.
    pub open spec fn has(&self, name: Seq<char>) -> bool {
        exists|i: int| 0 <= i < self.signals().len() && (#[trigger] self.signals()[i]).name@ == name
    }

    /// The place of the signal with the name `name`.
    pub open spec fn place(&self, name: Seq<char>) -> int {
        choose|i: int| 0 <= i < self.signals().len() && (#[trigger] self.signals()[i]).name@ == name
    }

    /// The registry without signals.
    pub fn new() -> (manager: SignalManager)
        ensures
            manager.wf(),
            manager.signals() == Seq::<Signal>::empty(),
            manager.views() == Seq::<ViewData>::empty(),
            manager.selection() is None,
            manager.points_added() == 0,
    {
        SignalManager { signals: Vec::new(), selection: None, views: Vec::new(), point_count: 0 }
    }

    /// Finds the place of the signal with the given name.
    pub fn position(&self, name: &String) -> (found: Option<usize>)
        ensures
            found is Some ==> found->0 < self.signals().len() && self.signals()[found->0 as int].name@
                == name@,
            found is None ==> !self.has(name@),
            self.wf() && found is Some ==> found->0 == self.place(name@),
            found is Some <==> self.has(name@),
    {
        let mut i: usize = 0;
        while i < self.signals.len()
            invariant
                i <= self.signals.len(),
                forall|k: int| 0 <= k < i ==> (#[trigger] self.signals@[k]).name@ != name@,
            decreases self.signals.len() - i,
        {
            if self.signals[i].name == *name {
                proof {
                    if self.wf() {
                        let p = self.place(name@);
                        assert(self.signals()[i as int].name@ == name@);
                        if p < i {
                            assert(self.signals()[p].name@ != self.signals()[i as int].name@);
                        } else if p > i {
                            assert(self.signals()[i as int].name@ != self.signals()[p].name@);
                        }
                    }
                }
                return Some(i);
            }
            i += 1;
        }
        None
    }

    /// What adding a decoded point does. The count of points grows by one.
    /// Where a signal has the point's name, the point is appended to it;
    /// otherwise a fresh state is added, and a signal that the point starts.
    /// Nothing else changes.
    pub open spec fn adds(&self, after: &SignalManager, point: MsgPoint) -> bool {
        &&& after.points_added() == self.points_added() + 1
        &&& after.selection() == self.selection()
        &&& if self.has(point.name@) {
            let at = self.place(point.name@);
            &&& after.views() == self.views()
            &&& after.signals().len() == self.signals().len()
            &&& is_grown_by(self.signals()[at], after.signals()[at], point)
            &&& forall|j: int|
                0 <= j < self.signals().len() && j != at ==> #[trigger] after.signals()[j]
                    == self.signals()[j]
        } else {
            &&& after.views().len() == self.views().len() + 1
            &&& after.views().drop_last() == self.views()
            &&& is_fresh_state(after.views().last(), point.name@)
            &&& after.signals().len() == self.signals().len() + 1
            &&& after.signals().drop_last() == self.signals()
            &&& is_started_by(after.signals().last(), point, self.views().len() as int)
        }
    }

    /// Routes a decoded point to the signal of its name. A name that is new
    /// starts a signal, whose axes the type of this first point fixes, with a
    /// view of its own. Tells whether a signal was started.
    pub fn add_point(&mut self, point: MsgPoint) -> (started: bool)
        requires
            old(self).wf(),
            old(self).points_added() < usize::MAX,
        ensures
            final(self).wf(),
            started == !old(self).has(point.name@),
            old(self).adds(final(self), point),
    {
        let name = point.name.clone();
        let started = match self.position(&name) {
            Some(at) => {
                self.signals[at].add_point(point);
                false
            },
            None => {
                let state = self.views.len();
                let view = View::new(state);
                self.views.push(ViewData::new(name.clone()));
                let style = match point.ty {
                    PointType::D1 => Styles::Lines,
                    PointType::D2 => Styles::Lines,
                    PointType::D3 => Styles::Scatter,
                    PointType::BreakPoint => Styles::Scatter,
                };
                let mut ch = Signal::new(name, point.ty, style, view);
                ch.add_point(point);
                self.signals.push(ch);
                proof {
                    assert(self.views().drop_last() =~= old(self).views());
                    assert(self.signals().drop_last() =~= old(self).signals());
                    assert(self.signals().last().points.levels() =~= seq![
                        self.signals().last().points.chosen(point),
                    ]);
                }
                true
            },
        };
        self.point_count += 1;
        started
    }

    /// Where the names are unique, a name is found at one place only.
    pub proof fn lemma_place(&self, name: Seq<char>, i: int)
        requires
            self.wf(),
            0 <= i < self.signals().len(),
            self.signals()[i].name@ == name,
        ensures
            self.has(name),
            self.place(name) == i,
    {
        let p = self.place(name);
        if p < i {
            assert(self.signals()[p].name@ != self.signals()[i].name@);
        } else if p > i {
            assert(self.signals()[i].name@ != self.signals()[p].name@);
        }
    }

    /// The pan offset that the signal `name` is drawn with.
    pub open spec fn offset_of(&self, name: Seq<char>) -> (Level, Level) {
        let signal = self.signals()[self.place(name)];
        signal.view.offset(&self.views()[signal.view.data as int])
    }

    /// The zoom that the signal `name` is drawn with.
    pub open spec fn zoom_of(&self, name: Seq<char>) -> Level {
        self.views()[self.signals()[self.place(name)].view.data as int].zoom
    }

    /// Whether two registries hold the same signals but for the one at place
    /// `at`, which is `signal` in the second.
    pub open spec fn replaces(&self, after: &SignalManager, at: int, signal: Signal) -> bool {
        after.signals() == self.signals().update(at, signal)
    }

    /// The shared range of the state at place `state` after the first `n`
    /// signals have reported their own: it starts unset, and each signal that
    /// looks at the state widens it on the axes that the signal is bound on.
    pub open spec fn shared_upto(signals: Seq<Signal>, state: int, n: int) -> (
        Seq<Level>,
        Seq<Level>,
    )
        decreases n,
    {
        if n <= 0 {
            (
                Seq::new(SHARED_AXES as nat, |i: int| None::<i64>),
                Seq::new(SHARED_AXES as nat, |i: int| None::<i64>),
            )
        } else {
            let before = Self::shared_upto(signals, state, n - 1);
            let signal = signals[n - 1];
            if signal.view.data == state {
                (
                    shared_min(signal.view.mode, before.0, signal.points.drawn_min()),
                    shared_max(signal.view.mode, before.1, signal.points.drawn_max()),
                )
            } else {
                before
            }
        }
    }

    /// Prepares a frame: forgets the shared range of every state, and lets
    /// every signal report the range of its drawn axes to the state it looks at.
    /// Afterwards each shared range is that of this frame's signals alone.
    pub fn draw_signals(&mut self)
        requires
            old(self).wf(),
        ensures
            final(self).wf(),
            final(self).signals() == old(self).signals(),
            final(self).selection() == old(self).selection(),
            final(self).points_added() == old(self).points_added(),
            final(self).views().len() == old(self).views().len(),
            forall|v: int|
                #![trigger final(self).views()[v]]
                0 <= v < old(self).views().len() ==> {
                    let shared = Self::shared_upto(
                        old(self).signals(),
                        v,
                        old(self).signals().len() as int,
                    );
                    &&& final(self).views()[v].range.min@ == shared.0
                    &&& final(self).views()[v].range.max@ == shared.1
                    &&& final(self).views()[v].pos == old(self).views()[v].pos
                    &&& final(self).views()[v].zoom == old(self).views()[v].zoom
                    &&& final(self).views()[v].maintain_aspect == old(self).views()[v].maintain_aspect
                    &&& final(self).views()[v].id == old(self).views()[v].id
                },
    {
        let states = self.views.len();
        let mut i: usize = 0;
        while i < states
            invariant
                i <= states,
                states == self.views@.len(),
                states == old(self).views@.len(),
                self.signals == old(self).signals,
                self.selection == old(self).selection,
                self.point_count == old(self).point_count,
                forall|v: int| 0 <= v < states ==> (#[trigger] self.views@[v]).wf(),
                forall|v: int|
                    #![trigger self.views@[v]]
                    0 <= v < states ==> {
                        &&& self.views@[v].pos == old(self).views@[v].pos
                        &&& self.views@[v].zoom == old(self).views@[v].zoom
                        &&& self.views@[v].maintain_aspect == old(self).views@[v].maintain_aspect
                        &&& self.views@[v].id == old(self).views@[v].id
                    },
                forall|v: int|
                    #![trigger self.views@[v]]
                    0 <= v < i ==> {
                        &&& self.views@[v].range.min@ == Seq::new(
                            SHARED_AXES as nat,
                            |k: int| None::<i64>,
                        )
                        &&& self.views@[v].range.max@ == Seq::new(
                            SHARED_AXES as nat,
                            |k: int| None::<i64>,
                        )
                    },
            decreases states - i,
        {
            self.views[i].clear_range();
            i += 1;
        }
        let count = self.signals.len();
        let mut j: usize = 0;
        while j < count
            invariant
                j <= count,
                count == self.signals@.len(),
                states == self.views@.len(),
                states == old(self).views@.len(),
                old(self).wf(),
                self.signals == old(self).signals,
                self.selection == old(self).selection,
                self.point_count == old(self).point_count,
                forall|v: int| 0 <= v < states ==> (#[trigger] self.views@[v]).wf(),
                forall|v: int|
                    #![trigger self.views@[v]]
                    0 <= v < states ==> {
                        &&& self.views@[v].pos == old(self).views@[v].pos
                        &&& self.views@[v].zoom == old(self).views@[v].zoom
                        &&& self.views@[v].maintain_aspect == old(self).views@[v].maintain_aspect
                        &&& self.views@[v].id == old(self).views@[v].id
                        &&& self.views@[v].range.min@ == Self::shared_upto(
                            self.signals@,
                            v,
                            j as int,
                        ).0
                        &&& self.views@[v].range.max@ == Self::shared_upto(
                            self.signals@,
                            v,
                            j as int,
                        ).1
                    },
            decreases count - j,
        {
            assert(old(self).signals()[j as int].wf());
            let state = self.signals[j].view.data;
            let ghost before = self.views@;
            self.signals[j].share_view(&mut self.views[state]);
            proof {
                assert forall|v: int| 0 <= v < states implies {
                    &&& (#[trigger] self.views@[v]).range.min@ == Self::shared_upto(
                        self.signals@,
                        v,
                        j + 1,
                    ).0
                    &&& self.views@[v].range.max@ == Self::shared_upto(self.signals@, v, j + 1).1
                } by {
                    assert(before[v].range.min@ == Self::shared_upto(self.signals@, v, j as int).0);
                }
            }
            j += 1;
        }
    }

    /// The signals, in the order in which their names were first seen.
    pub fn iter(&self) -> (signals: &Vec<Signal>)
        ensures
            signals@ == self.signals(),
    {
        &self.signals
    }

    /// The names of the signals, in the order in which they were first seen.
    pub fn get_names(&self) -> (names: Vec<String>)
        ensures
            names@.len() == self.signals().len(),
            forall|i: int| 0 <= i < names@.len() ==> (#[trigger] names@[i])@ == self.signals()[i].name@,
    {
        let mut names: Vec<String> = Vec::new();
        let mut i: usize = 0;
        while i < self.signals.len()
            invariant
                i <= self.signals.len(),
                names@.len() == i,
                forall|k: int| 0 <= k < i ==> (#[trigger] names@[k])@ == self.signals@[k].name@,
            decreases self.signals.len() - i,
        {
            names.push(self.signals[i].name.clone());
            i += 1;
        }
        names
    }

    /// The signal with the given name, if there is one.
    pub fn get_signal(&self, name: &String) -> (signal: Option<&Signal>)
        ensures
            signal is Some <==> self.has(name@),
            signal is Some ==> signal->0.name@ == name@ && self.signals().contains(*signal->0),
            self.wf() && signal is Some ==> *signal->0 == self.signals()[self.place(name@)],
    {
        match self.position(name) {
            Some(at) => {
                assert(self.signals()[at as int] == self.signals@[at as int]);
                Some(&self.signals[at])
            },
            None => None,
        }
    }

    /// The state of the view at place `state`.
    pub fn get_view_data(&self, state: usize) -> (data: Option<&ViewData>)
        ensures
            state < self.views().len() ==> data == Some(&self.views()[state as int]),
            state >= self.views().len() ==> data is None,
    {
        if state < self.views.len() {
            Some(&self.views[state])
        } else {
            None
        }
    }

    /// The number of signals.
    pub fn len(&self) -> (n: usize)
        ensures
            n == self.signals().len(),
    {
        self.signals.len()
    }

    /// The selected name. A selection that names no signal is dropped first.
    pub fn get_selection(&mut self) -> (selection: &Option<String>)
        ensures
            final(self).signals() == old(self).signals(),
            final(self).views() == old(self).views(),
            final(self).points_added() == old(self).points_added(),
            final(self).selection() == (if old(self).selection() is Some && old(self).has(
                old(self).selection()->0,
            ) {
                old(self).selection()
            } else {
                None
            }),
            selection is Some <==> final(self).selection() is Some,
            selection is Some ==> selection->0@ == final(self).selection()->0,
    {
        let known = match &self.selection {
            Some(n) => self.position(n).is_some(),
            None => false,
        };
        if !known {
            self.selection = None;
        }
        &self.selection
    }

    /// The selected signal, if a signal is selected.
    pub fn get_selected(&mut self) -> (signal: Option<&Signal>)
        ensures
            final(self).signals() == old(self).signals(),
            final(self).views() == old(self).views(),
            final(self).points_added() == old(self).points_added(),
            final(self).selection() == (if old(self).selection() is Some && old(self).has(
                old(self).selection()->0,
            ) {
                old(self).selection()
            } else {
                None
            }),
            signal is Some <==> final(self).selection() is Some,
            signal is Some ==> signal->0.name@ == final(self).selection()->0
                && final(self).signals().contains(*signal->0),
    {
        let name = match self.get_selection() {
            Some(n) => Some(n.clone()),
            None => None,
        };
        match name {
            Some(n) => self.get_signal(&n),
            None => None,
        }
    }

    /// Selects the signal with the given name. A name that no signal has, or
    /// none, leaves nothing selected.
    pub fn set_selection(&mut self, s: Option<String>)
        ensures
            final(self).signals() == old(self).signals(),
            final(self).views() == old(self).views(),
            final(self).points_added() == old(self).points_added(),
            final(self).selection() == (if s is Some && old(self).has(s->0@) {
                Some(s->0@)
            } else {
                None
            }),
    {
        self.selection = match s {
            Some(n) => {
                if self.position(&n).is_some() {
                    Some(n)
                } else {
                    None
                }
            },
            None => None,
        };
    }

    /// What binding does: where both names are known, `other` gets a copy of
    /// the view handle of `base`, and so looks at the same state with the same
    /// mask; everything else stays. Where either name is unknown, nothing
    /// changes.
    pub open spec fn binds(&self, after: &SignalManager, base: Seq<char>, other: Seq<char>) -> bool {
        &&& after.views() == self.views()
        &&& after.selection() == self.selection()
        &&& after.points_added() == self.points_added()
        &&& if self.has(base) && self.has(other) {
            let from = self.signals()[self.place(base)];
            let to = self.signals()[self.place(other)];
            after.signals() == self.signals().update(
                self.place(other),
                Signal { view: from.view, ..to },
            )
        } else {
            after.signals() == self.signals()
        }
    }

    /// Binds the signal `other` to the view of the signal `base`.
    pub fn bind(&mut self, base: &String, other: &String)
        requires
            old(self).wf(),
        ensures
            final(self).wf(),
            old(self).binds(final(self), base@, other@),
    {
        let v;
        match self.position(base) {
            Some(b) => {
                v = self.signals[b].view;
            },
            None => {
                return ;
            },
        }
        match self.position(other) {
            Some(o) => {
                self.signals[o].view = v;
                proof {
                    let from = old(self).signals()[old(self).place(base@)];
                    let to = old(self).signals()[o as int];
                    assert(self.signals()[o as int] == Signal { view: from.view, ..to });
                    assert(self.signals() =~= old(self).signals().update(
                        o as int,
                        Signal { view: from.view, ..to },
                    ));
                }
            },
            None => {},
        }
    }

    /// What freeing does: where the name is known, a fresh state is added for
    /// it, and the signal gets a handle of its own on that state, bound on no
    /// axis; everything else stays. Where the name is unknown, nothing changes.
    pub open spec fn frees(&self, after: &SignalManager, name: Seq<char>) -> bool {
        &&& after.selection() == self.selection()
        &&& after.points_added() == self.points_added()
        &&& if self.has(name) {
            let signal = self.signals()[self.place(name)];
            &&& after.views().len() == self.views().len() + 1
            &&& after.views().drop_last() == self.views()
            &&& is_fresh_state(after.views().last(), name)
            &&& after.signals().len() == self.signals().len()
            &&& after.signals() == self.signals().update(
                self.place(name),
                Signal { view: after.signals()[self.place(name)].view, ..signal },
            )
            &&& after.signals()[self.place(name)].view.data == self.views().len()
            &&& after.signals()[self.place(name)].view.mode == 0
            &&& after.signals()[self.place(name)].view.local_pos == (
                Some(LEVEL_ZERO),
                Some(LEVEL_ZERO),
            )
        } else {
            &&& after.views() == self.views()
            &&& after.signals() == self.signals()
        }
    }

    /// Gives the signal `name` a view of its own again.
    pub fn free(&mut self, name: &String)
        requires
            old(self).wf(),
        ensures
            final(self).wf(),
            old(self).frees(final(self), name@),
    {
        match self.position(name) {
            Some(at) => {
                let view = View::new(self.views.len());
                self.views.push(ViewData::new(name.clone()));
                self.signals[at].view = view;
                proof {
                    assert(self.views().drop_last() =~= old(self).views());
                    let signal = old(self).signals()[at as int];
                    assert(self.signals() =~= old(self).signals().update(
                        at as int,
                        Signal { view, ..signal },
                    ));
                }
            },
            None => {},
        }
    }

    /// Changes how the signal `name` is drawn. An unknown name changes
    /// nothing.
    pub fn set_style(&mut self, name: &String, style: &Styles)
        requires
            old(self).wf(),
        ensures
            final(self).wf(),
            final(self).views() == old(self).views(),
            final(self).selection() == old(self).selection(),
            final(self).points_added() == old(self).points_added(),
            old(self).has(name@) ==> final(self).signals() == old(self).signals().update(
                old(self).place(name@),
                Signal { style: *style, ..old(self).signals()[old(self).place(name@)] },
            ),
            !old(self).has(name@) ==> final(self).signals() == old(self).signals(),
    {
        match self.position(name) {
            Some(at) => {
                self.signals[at].set_style(style);
                proof {
                    let signal = old(self).signals()[at as int];
                    assert(self.signals() =~= old(self).signals().update(
                        at as int,
                        Signal { style: *style, ..signal },
                    ));
                }
            },
            None => {},
        }
    }

    /// Marks the signal `name` as one that had a line with a field that is no
    /// number. An unknown name changes nothing.
    pub fn mark_invalid(&mut self, name: &String)
        requires
            old(self).wf(),
        ensures
            final(self).wf(),
            final(self).views() == old(self).views(),
            final(self).selection() == old(self).selection(),
            final(self).points_added() == old(self).points_added(),
            old(self).has(name@) ==> final(self).signals() == old(self).signals().update(
                old(self).place(name@),
                Signal {
                    health: SignalHealth::InvalidFormat,
                    ..old(self).signals()[old(self).place(name@)]
                },
            ),
            !old(self).has(name@) ==> final(self).signals() == old(self).signals(),
    {
        match self.position(name) {
            Some(at) => {
                self.signals[at].health = SignalHealth::InvalidFormat;
                proof {
                    let signal = old(self).signals()[at as int];
                    assert(self.signals() =~= old(self).signals().update(
                        at as int,
                        Signal { health: SignalHealth::InvalidFormat, ..signal },
                    ));
                }
            },
            None => {},
        }
    }

    /// Replaces the bind mask of the signal `name`. An unknown name changes
    /// nothing.
    pub fn set_bind_mode(&mut self, name: &String, mode: u8)
        requires
            old(self).wf(),
        ensures
            final(self).wf(),
            final(self).views() == old(self).views(),
            final(self).selection() == old(self).selection(),
            final(self).points_added() == old(self).points_added(),
            old(self).has(name@) ==> {
                let signal = old(self).signals()[old(self).place(name@)];
                final(self).signals() == old(self).signals().update(
                    old(self).place(name@),
                    Signal { view: View { mode, ..signal.view }, ..signal },
                )
            },
            !old(self).has(name@) ==> final(self).signals() == old(self).signals(),
    {
        match self.position(name) {
            Some(at) => {
                self.signals[at].set_bind_mode(mode);
                proof {
                    let signal = old(self).signals()[at as int];
                    assert(self.signals() =~= old(self).signals().update(
                        at as int,
                        Signal { view: View { mode, ..signal.view }, ..signal },
                    ));
                }
            },
            None => {},
        }
    }

    /// What the transform of the signal `name` is computed from, or nothing
    /// for an unknown name.
    pub fn get_framing(&self, name: &String) -> (framing: Option<Framing>)
        requires
            self.wf(),
        ensures
            framing is Some <==> self.has(name@),
            framing is Some ==> {
                let signal = self.signals()[self.place(name@)];
                let data = self.views()[signal.view.data as int];
                let mode = signal.view.mode;
                &&& framing->0.xmin == (if axis_bound(mode, 0) {
                    data.range.min@[0]
                } else {
                    signal.points.drawn_min()[0]
                })
                &&& framing->0.xmax == (if axis_bound(mode, 0) {
                    data.range.max@[0]
                } else {
                    signal.points.drawn_max()[0]
                })
                &&& framing->0.ymin == (if axis_bound(mode, 1) {
                    data.range.min@[1]
                } else {
                    signal.points.drawn_min()[1]
                })
                &&& framing->0.ymax == (if axis_bound(mode, 1) {
                    data.range.max@[1]
                } else {
                    signal.points.drawn_max()[1]
                })
                &&& (framing->0.dx, framing->0.dy) == self.offset_of(name@)
                &&& framing->0.zoom == (if above(self.zoom_of(name@), Some(LEVEL_ONE)) {
                    self.zoom_of(name@)
                } else {
                    Some(LEVEL_ONE)
                })
                &&& framing->0.maintain_aspect == data.maintain_aspect
            },
    {
        match self.position(name) {
            Some(at) => {
                assert(self.signals()[at as int].wf());
                let state = self.signals[at].view.data;
                assert(self.views()[state as int].wf());
                Some(self.signals[at].get_framing(&self.views[state]))
            },
            None => None,
        }
    }

    /// What moving does: where the name is known, the pan offset that the
    /// signal works with becomes `moved`. On a bound axis that is the offset of
    /// the state it looks at, on any other that of its own handle. Where the
    /// name is unknown, nothing changes.
    pub open spec fn moves(&self, after: &SignalManager, name: Seq<char>, moved: (
        Level,
        Level,
    )) -> bool {
        &&& after.selection() == self.selection()
        &&& after.points_added() == self.points_added()
        &&& if self.has(name) {
            let signal = self.signals()[self.place(name)];
            let state = signal.view.data as int;
            let data = self.views()[state];
            let placed = signal.view.placed(&data, moved);
            &&& after.signals() == self.signals().update(
                self.place(name),
                Signal { view: View { local_pos: placed.0, ..signal.view }, ..signal },
            )
            &&& after.views() == self.views().update(state, ViewData { pos: placed.1, ..data })
        } else {
            &&& after.views() == self.views()
            &&& after.signals() == self.signals()
        }
    }

    /// Sets the pan offset of the signal `name` to `moved`.
    pub fn move_view_by(&mut self, name: &String, moved: (Level, Level))
        requires
            old(self).wf(),
        ensures
            final(self).wf(),
            old(self).moves(final(self), name@, moved),
    {
        match self.position(name) {
            Some(at) => {
                assert(old(self).signals()[at as int].wf());
                let state = self.signals[at].view.data;
                self.signals[at].move_view_by(&mut self.views[state], moved);
                proof {
                    let signal = old(self).signals()[at as int];
                    let data = old(self).views()[state as int];
                    let placed = signal.view.placed(&data, moved);
                    assert(self.signals() =~= old(self).signals().update(
                        at as int,
                        Signal { view: View { local_pos: placed.0, ..signal.view }, ..signal },
                    ));
                    assert(self.views() =~= old(self).views().update(
                        state as int,
                        ViewData { pos: placed.1, ..data },
                    ));
                }
            },
            None => {},
        }
    }

    /// What zooming does: where the name is known and `zoom` is above one,
    /// the state that the signal looks at takes the zoom, and the pan offset
    /// that the signal works with becomes `moved`. A zoom that is not above one
    /// resets the zoom to one and that pan offset to zero. Where the name is
    /// unknown, nothing changes.
    pub open spec fn zooms(&self, after: &SignalManager, name: Seq<char>, zoom: Level, moved: (
        Level,
        Level,
    )) -> bool {
        &&& after.selection() == self.selection()
        &&& after.points_added() == self.points_added()
        &&& if self.has(name) {
            let signal = self.signals()[self.place(name)];
            let state = signal.view.data as int;
            let data = self.views()[state];
            let to = if above(zoom, Some(LEVEL_ONE)) {
                moved
            } else {
                (Some(LEVEL_ZERO), Some(LEVEL_ZERO))
            };
            let factor = if above(zoom, Some(LEVEL_ONE)) {
                zoom
            } else {
                Some(LEVEL_ONE)
            };
            let placed = signal.view.placed(&data, to);
            &&& after.signals() == self.signals().update(
                self.place(name),
                Signal { view: View { local_pos: placed.0, ..signal.view }, ..signal },
            )
            &&& after.views() == self.views().update(
                state,
                ViewData { pos: placed.1, zoom: factor, ..data },
            )
        } else {
            &&& after.views() == self.views()
            &&& after.signals() == self.signals()
        }
    }

    /// Sets the zoom of the view of the signal `name`, and the pan offset
    /// that keeps the zoom's centre in place.
    pub fn zoom_by(&mut self, name: &String, zoom: Level, moved: (Level, Level))
        requires
            old(self).wf(),
        ensures
            final(self).wf(),
            old(self).zooms(final(self), name@, zoom, moved),
    {
        match self.position(name) {
            Some(at) => {
                assert(old(self).signals()[at as int].wf());
                let state = self.signals[at].view.data;
                self.signals[at].zoom_by(&mut self.views[state], zoom, moved);
                proof {
                    let signal = old(self).signals()[at as int];
                    let data = old(self).views()[state as int];
                    let to = if above(zoom, Some(LEVEL_ONE)) {
                        moved
                    } else {
                        (Some(LEVEL_ZERO), Some(LEVEL_ZERO))
                    };
                    let factor = if above(zoom, Some(LEVEL_ONE)) {
                        zoom
                    } else {
                        Some(LEVEL_ONE)
                    };
                    let placed = signal.view.placed(&data, to);
                    assert(self.signals() =~= old(self).signals().update(
                        at as int,
                        Signal { view: View { local_pos: placed.0, ..signal.view }, ..signal },
                    ));
                    assert(self.views() =~= old(self).views().update(
                        state as int,
                        ViewData { pos: placed.1, zoom: factor, ..data },
                    ));
                }
            },
            None => {},
        }
    }
}

/// Bound signals pan together. After `other` was bound to `base`, a pan
/// offset set through `other` is the offset of `base` on every axis that the
/// mask binds, and leaves the offset of `base` as it was on every other axis.
pub proof fn lemma_bound_signals_pan_together(
    start: SignalManager,
    bound: SignalManager,
    end: SignalManager,
    base: Seq<char>,
    other: Seq<char>,
    moved: (Level, Level),
)
    requires
        start.wf(),
        bound.wf(),
        start.has(base),
        start.has(other),
        base != other,
        start.binds(&bound, base, other),
        bound.moves(&end, other, moved),
    ensures
        ({
            let mode = start.signals()[start.place(base)].view.mode;
            &&& axis_bound(mode, 0) ==> end.offset_of(base).0 == moved.0
            &&& !axis_bound(mode, 0) ==> end.offset_of(base).0 == bound.offset_of(base).0
            &&& axis_bound(mode, 1) ==> end.offset_of(base).1 == moved.1
            &&& !axis_bound(mode, 1) ==> end.offset_of(base).1 == bound.offset_of(base).1
            &&& end.offset_of(other) == moved
        }),
{
    let b = start.place(base);
    let o = start.place(other);
    bound.lemma_place(base, b);
    bound.lemma_place(other, o);
    lemma_names_stay(bound, end, base, b);
    lemma_names_stay(bound, end, other, o);
}

/// Bound signals zoom together. After `other` was bound to `base`, a zoom
/// set through `other` is the zoom of `base`.
pub proof fn lemma_bound_signals_zoom_together(
    start: SignalManager,
    bound: SignalManager,
    end: SignalManager,
    base: Seq<char>,
    other: Seq<char>,
    zoom: Level,
    moved: (Level, Level),
)
    requires
        start.wf(),
        bound.wf(),
        start.has(base),
        start.has(other),
        base != other,
        start.binds(&bound, base, other),
        bound.zooms(&end, other, zoom, moved),
    ensures
        end.zoom_of(base) == end.zoom_of(other),
        above(zoom, Some(LEVEL_ONE)) ==> end.zoom_of(base) == zoom,
        !above(zoom, Some(LEVEL_ONE)) ==> end.zoom_of(base) == Some(LEVEL_ONE),
{
    let b = start.place(base);
    let o = start.place(other);
    bound.lemma_place(base, b);
    bound.lemma_place(other, o);
    lemma_names_stay(bound, end, base, b);
    lemma_names_stay(bound, end, other, o);
}

/// A freed signal stands alone. After `name` was freed, neither a pan offset
/// nor a zoom set through another signal changes what `name` is drawn with.
pub proof fn lemma_freed_signal_stands_alone(
    start: SignalManager,
    freed: SignalManager,
    end: SignalManager,
    name: Seq<char>,
    mover: Seq<char>,
    zoom: Level,
    moved: (Level, Level),
)
    requires
        start.wf(),
        freed.wf(),
        start.has(name),
        start.has(mover),
        name != mover,
        start.frees(&freed, name),
        freed.moves(&end, mover, moved) || freed.zooms(&end, mover, zoom, moved),
    ensures
        end.offset_of(name) == freed.offset_of(name),
        end.zoom_of(name) == freed.zoom_of(name),
{
    let n = start.place(name);
    let m = start.place(mover);
    assert(start.signals()[m].view.data < start.views().len());
    freed.lemma_place(name, n);
    freed.lemma_place(mover, m);
    assert(freed.signals()[m] == start.signals()[m]);
    assert(freed.signals()[n].view.data == start.views().len());
    let state = freed.signals()[m].view.data as int;
    let own = freed.signals()[n].view.data as int;
    assert(state != own);
    assert(end.signals().len() == freed.signals().len());
    assert(end.signals()[n] == freed.signals()[n]);
    assert(end.views()[own] == freed.views()[own]);
    assert forall|k: int| 0 <= k < freed.signals().len() implies (#[trigger] end.signals()[k]).name@
        == freed.signals()[k].name@ by {
        if k != m {
            assert(end.signals()[k] == freed.signals()[k]);
        }
    }
    lemma_names_stay(freed, end, name, n);
}

/// Where two registries have signals of the same names at the same places,
/// a name that is at place `i` in the first is at place `i` in the second.
proof fn lemma_names_stay(before: SignalManager, after: SignalManager, name: Seq<char>, i: int)
    requires
        before.wf(),
        before.signals().len() == after.signals().len(),
        forall|k: int|
            0 <= k < before.signals().len() ==> (#[trigger] after.signals()[k]).name@
                == before.signals()[k].name@,
        0 <= i < before.signals().len(),
        before.signals()[i].name@ == name,
    ensures
        after.has(name),
        after.place(name) == i,
{
    assert(after.signals()[i].name@ == name);
    let p = after.place(name);
    if p != i {
        assert(after.signals()[p].name@ == before.signals()[p].name@);
        if p < i {
            assert(before.signals()[p].name@ != before.signals()[i].name@);
        } else {
            assert(before.signals()[i].name@ != before.signals()[p].name@);
        }
    }
}

/// Whether a signal reports its range on `axis` to the state at place
/// `state`: it looks at that state, and its mask binds the axis.
pub open spec fn reports_to(signal: Signal, state: int, axis: int) -> bool {
    signal.view.data == state && axis_bound(signal.view.mode, axis)
}

/// After a frame was prepared, a shared range is the range of this frame's
/// signals and of nothing else. On every axis the shared lower bound is the
/// least of the lower bounds that the signals bound on that axis report to the
/// state, and it is unset where none of them reports a bound; likewise the
/// upper bound with the greatest.
pub proof fn lemma_shared_range_is_the_frame(signals: Seq<Signal>, state: int, n: int, axis: int)
    requires
        0 <= n <= signals.len(),
        0 <= axis < SHARED_AXES,
    ensures
        SignalManager::shared_upto(signals, state, n).0.len() == SHARED_AXES,
        SignalManager::shared_upto(signals, state, n).1.len() == SHARED_AXES,
        forall|i: int|
            0 <= i < n && reports_to(#[trigger] signals[i], state, axis) && level_at(
                signals[i].points.drawn_min(),
                axis,
            ) is Some ==> SignalManager::shared_upto(signals, state, n).0[axis] is Some
                && SignalManager::shared_upto(signals, state, n).0[axis]->0 <= level_at(
                signals[i].points.drawn_min(),
                axis,
            )->0,
        SignalManager::shared_upto(signals, state, n).0[axis] is Some ==> exists|i: int|
            0 <= i < n && reports_to(#[trigger] signals[i], state, axis) && level_at(
                signals[i].points.drawn_min(),
                axis,
            ) == SignalManager::shared_upto(signals, state, n).0[axis],
        forall|i: int|
            0 <= i < n && reports_to(#[trigger] signals[i], state, axis) && level_at(
                signals[i].points.drawn_max(),
                axis,
            ) is Some ==> SignalManager::shared_upto(signals, state, n).1[axis] is Some
                && SignalManager::shared_upto(signals, state, n).1[axis]->0 >= level_at(
                signals[i].points.drawn_max(),
                axis,
            )->0,
        SignalManager::shared_upto(signals, state, n).1[axis] is Some ==> exists|i: int|
            0 <= i < n && reports_to(#[trigger] signals[i], state, axis) && level_at(
                signals[i].points.drawn_max(),
                axis,
            ) == SignalManager::shared_upto(signals, state, n).1[axis],
    decreases n,
{
    if n > 0 {
        lemma_shared_range_is_the_frame(signals, state, n - 1, axis);
        let before = SignalManager::shared_upto(signals, state, n - 1);
        let after = SignalManager::shared_upto(signals, state, n);
        let last = signals[n - 1];
        if after.0[axis] is Some {
            if reports_to(last, state, axis) && level_at(last.points.drawn_min(), axis)
                == after.0[axis] {
            } else {
                assert(after.0[axis] == before.0[axis]);
                let i = choose|i: int|
                    0 <= i < n - 1 && reports_to(#[trigger] signals[i], state, axis) && level_at(
                        signals[i].points.drawn_min(),
                        axis,
                    ) == before.0[axis];
                assert(reports_to(signals[i], state, axis));
            }
        }
        if after.1[axis] is Some {
            if reports_to(last, state, axis) && level_at(last.points.drawn_max(), axis)
                == after.1[axis] {
            } else {
                assert(after.1[axis] == before.1[axis]);
                let i = choose|i: int|
                    0 <= i < n - 1 && reports_to(#[trigger] signals[i], state, axis) && level_at(
                        signals[i].points.drawn_max(),
                        axis,
                    ) == before.1[axis];
                assert(reports_to(signals[i], state, axis));
            }
        }
    }
}

} // verus!
