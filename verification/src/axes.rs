//! Decoded points and their axes.
//!
//! Every point carries a timestamp on axis 0 and one to three values after it.
//! The number of axes is fixed by the point's type: `D1`, `D2` or `D3`.

use vstd::prelude::*;
use crate::level::{Level, LEVEL_ONE};

verus! {

/// How many values a decoded point carries.
#[derive(Clone, Copy, Debug, PartialEq, Eq, Structural)]
pub enum PointType {
    /// A marker without values.
    BreakPoint,
    /// One value.
    D1,
    /// Two values.
    D2,
    /// Three values.
    D3,
}

/// A point as it was decoded from one line of the stream.
pub struct MsgPoint {
    /// The signal that the point belongs to.
    pub name: String,
    /// The number of the line that it was read from.
    pub line_number: usize,
    /// When the line was read.
    pub timestamp: Level,
    /// How many of `x`, `y` and `z` are meant.
    pub ty: PointType,
    /// The first value.
    pub x: Level,
    /// The second value.
    pub y: Level,
    /// The third value.
    pub z: Level,
}

/// The axes of a point with one value: the timestamp and `x`.
#[derive(Clone, Copy, Debug)]
pub struct D1(pub [Level; 2]);

/// The axes of a point with two values: the timestamp, `x` and `y`.
#[derive(Clone, Copy, Debug)]
pub struct D2(pub [Level; 3]);

/// The axes of a point with three values: the timestamp, `x`, `y` and `z`.
#[derive(Clone, Copy, Debug)]
pub struct D3(pub [Level; 4]);

/// A fixed number of axes, the first of which is the timestamp.
pub trait Axes: Sized {
    /// The number of axes.
    spec fn arity() -> nat;

    /// The level on each axis, in order.
    spec fn levels(&self) -> Seq<Level>;

    /// The levels that a decoded point has on these axes.
    spec fn chosen(point: MsgPoint) -> Seq<Level>;

    /// The axis that is drawn horizontally.
    spec fn x_axis() -> int;

    /// The axis that is drawn vertically.
    spec fn y_axis() -> int;

    /// The axis that sets the size of a drawn point, or -1 where there is none.
    spec fn z_axis() -> int;

    /// Every value has a level on each axis.
    proof fn levels_fill_axes(&self)
        ensures
            self.levels().len() == Self::arity(),
    ;

    /// There are at least two axes, and the drawn axes are among them.
    proof fn axes_in_range()
        ensures
            Self::arity() >= 2,
            0 <= Self::x_axis() < Self::arity(),
            0 <= Self::y_axis() < Self::arity(),
            -1 <= Self::z_axis() < Self::arity(),
    ;

    /// The number of axes.
    fn size() -> (n: usize)
        ensures
            n == Self::arity(),
    ;

    /// The axes on which no level is set.
    fn default() -> (axes: Self)
        ensures
            axes.levels() == Seq::new(Self::arity(), |i: int| None::<i64>),
    ;

    /// The axes on which every level is the number one.
    fn ones() -> (axes: Self)
        ensures
            axes.levels() == Seq::new(Self::arity(), |i: int| Some(LEVEL_ONE)),
    ;

    /// The levels as a vector, in the order of the axes.
    fn as_vec(&self) -> (v: Vec<Level>)
        ensures
            v@ == self.levels(),
    ;

    /// The level on axis `idx`.
    fn at(&self, idx: usize) -> (level: Level)
        requires
            idx < Self::arity(),
        ensures
            level == self.levels()[idx as int],
    ;

    /// Takes from a decoded point the levels that belong on these axes.
    fn into(point: MsgPoint) -> (p: Point<Self>)
        ensures
            p.axes.levels() == Self::chosen(point),
    ;

    /// The axis of the timestamp.
    fn timestamp() -> (axis: usize)
        ensures
            axis == 0,
    ;

    /// The axis that is drawn horizontally.
    fn x() -> (axis: usize)
        ensures
            axis == Self::x_axis(),
    ;

    /// The axis that is drawn vertically.
    fn y() -> (axis: usize)
        ensures
            axis == Self::y_axis(),
    ;

    /// The axis that sets the size of a drawn point, or -1 where there is none.
    fn z() -> (axis: i32)
        ensures
            axis == Self::z_axis(),
    ;
}

impl Axes for D1 {
    open spec fn arity() -> nat {
        2
    }

    open spec fn levels(&self) -> Seq<Level> {
        self.0@
    }

    open spec fn chosen(point: MsgPoint) -> Seq<Level> {
        seq![point.timestamp, point.x]
    }

    open spec fn x_axis() -> int {
        0
    }

    open spec fn y_axis() -> int {
        1
    }

    open spec fn z_axis() -> int {
        -1
    }

    proof fn levels_fill_axes(&self) {
    }

    proof fn axes_in_range() {
    }

    fn size() -> (n: usize) {
        2
    }

    fn default() -> (axes: Self) {
        let axes = D1([None, None]);
        assert(axes.levels() =~= Seq::new(Self::arity(), |i: int| None::<i64>));
        axes
    }

    fn ones() -> (axes: Self) {
        let axes = D1([Some(LEVEL_ONE), Some(LEVEL_ONE)]);
        assert(axes.levels() =~= Seq::new(Self::arity(), |i: int| Some(LEVEL_ONE)));
        axes
    }

    fn as_vec(&self) -> (v: Vec<Level>) {
        let v = vec![self.0[0], self.0[1]];
        assert(v@ =~= self.levels());
        v
    }

    fn at(&self, idx: usize) -> (level: Level) {
        self.0[idx]
    }

    fn into(point: MsgPoint) -> (p: Point<Self>) {
        let p = Point::new(D1([point.timestamp, point.x]));
        assert(p.axes.levels() =~= Self::chosen(point));
        p
    }

    fn timestamp() -> (axis: usize) {
        0
    }

    fn x() -> (axis: usize) {
        Self::timestamp()
    }

    fn y() -> (axis: usize) {
        1
    }

    fn z() -> (axis: i32) {
        -1
    }
}

impl Axes for D2 {
    open spec fn arity() -> nat {
        3
    }

    open spec fn levels(&self) -> Seq<Level> {
        self.0@
    }

    open spec fn chosen(point: MsgPoint) -> Seq<Level> {
        seq![point.timestamp, point.x, point.y]
    }

    open spec fn x_axis() -> int {
        1
    }

    open spec fn y_axis() -> int {
        2
    }

    open spec fn z_axis() -> int {
        -1
    }

    proof fn levels_fill_axes(&self) {
    }

    proof fn axes_in_range() {
    }

    fn size() -> (n: usize) {
        3
    }

    fn default() -> (axes: Self) {
        let axes = D2([None, None, None]);
        assert(axes.levels() =~= Seq::new(Self::arity(), |i: int| None::<i64>));
        axes
    }

    fn ones() -> (axes: Self) {
        let axes = D2([Some(LEVEL_ONE), Some(LEVEL_ONE), Some(LEVEL_ONE)]);
        assert(axes.levels() =~= Seq::new(Self::arity(), |i: int| Some(LEVEL_ONE)));
        axes
    }

    fn as_vec(&self) -> (v: Vec<Level>) {
        let v = vec![self.0[0], self.0[1], self.0[2]];
        assert(v@ =~= self.levels());
        v
    }

    fn at(&self, idx: usize) -> (level: Level) {
        self.0[idx]
    }

    fn into(point: MsgPoint) -> (p: Point<Self>) {
        let p = Point::new(D2([point.timestamp, point.x, point.y]));
        assert(p.axes.levels() =~= Self::chosen(point));
        p
    }

    fn timestamp() -> (axis: usize) {
        0
    }

    fn x() -> (axis: usize) {
        1
    }

    fn y() -> (axis: usize) {
        2
    }

    fn z() -> (axis: i32) {
        -1
    }
}

impl Axes for D3 {
    open spec fn arity() -> nat {
        4
    }

    open spec fn levels(&self) -> Seq<Level> {
        self.0@
    }

    open spec fn chosen(point: MsgPoint) -> Seq<Level> {
        seq![point.timestamp, point.x, point.y, point.z]
    }

    open spec fn x_axis() -> int {
        1
    }

    open spec fn y_axis() -> int {
        2
    }

    open spec fn z_axis() -> int {
        3
    }

    proof fn levels_fill_axes(&self) {
    }

    proof fn axes_in_range() {
    }

    fn size() -> (n: usize) {
        4
    }

    fn default() -> (axes: Self) {
        let axes = D3([None, None, None, None]);
        assert(axes.levels() =~= Seq::new(Self::arity(), |i: int| None::<i64>));
        axes
    }

    fn ones() -> (axes: Self) {
        let axes = D3([Some(LEVEL_ONE), Some(LEVEL_ONE), Some(LEVEL_ONE), Some(LEVEL_ONE)]);
        assert(axes.levels() =~= Seq::new(Self::arity(), |i: int| Some(LEVEL_ONE)));
        axes
    }

    fn as_vec(&self) -> (v: Vec<Level>) {
        let v = vec![self.0[0], self.0[1], self.0[2], self.0[3]];
        assert(v@ =~= self.levels());
        v
    }

    fn at(&self, idx: usize) -> (level: Level) {
        self.0[idx]
    }

    fn into(point: MsgPoint) -> (p: Point<Self>) {
        let p = Point::new(D3([point.timestamp, point.x, point.y, point.z]));
        assert(p.axes.levels() =~= Self::chosen(point));
        p
    }

    fn timestamp() -> (axis: usize) {
        0
    }

    fn x() -> (axis: usize) {
        1
    }

    fn y() -> (axis: usize) {
        2
    }

    fn z() -> (axis: i32) {
        3
    }
}

/// A point on the axes `A`.
#[derive(Clone, Copy, Debug)]
pub struct Point<A> {
    /// The point's level on every axis.
    pub axes: A,
}

impl<A> Point<A> {
    /// The point with the given axes.
    pub fn new(axes: A) -> (p: Point<A>)
        ensures
            p.axes == axes,
    {
        Point { axes }
    }
}

} // verus!
