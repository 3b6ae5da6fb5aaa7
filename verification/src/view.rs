//! Views: the pan, zoom and range state through which a signal is framed,
//! and the handle by which signals share it axis by axis.

use vstd::prelude::*;
use vstd::view::View as _;
use crate::level::{is_above, lower, lower_of, upper, upper_of, above, Level, LEVEL_ONE, LEVEL_ZERO};
use crate::range::{level_at, level_or_none, Range};

verus! {

/// The number of axes of a shared range.
pub const SHARED_AXES: usize = 3;

/// The bits of a bind mask.
#[derive(Clone, Copy, Debug, PartialEq, Eq, Structural)]
pub enum AxisBind {
    /// No axis.
    Unbound,
    /// The position on the horizontal axis.
    X,
    /// The position on the vertical axis.
    Y,
    /// The position on the third axis.
    Z,
    /// The zoom on the horizontal axis.
    SX,
    /// The zoom on the vertical axis.
    SY,
    /// The zoom on the third axis.
    SZ,
}

impl AxisBind {
    /// The bit that stands for this axis in a bind mask.
    pub open spec fn mask(self) -> u8 {
        match self {
            AxisBind::Unbound => 0u8,
            AxisBind::X => 2u8,
            AxisBind::Y => 4u8,
            AxisBind::Z => 8u8,
            AxisBind::SX => 16u8,
            AxisBind::SY => 32u8,
            AxisBind::SZ => 64u8,
        }
    }

    /// The bit that stands for this axis in a bind mask.
    pub fn bits(self) -> (bit: u8)
        ensures
            bit == self.mask(),
    {
        match self {
            AxisBind::Unbound => 0u8,
            AxisBind::X => 2u8,
            AxisBind::Y => 4u8,
            AxisBind::Z => 8u8,
            AxisBind::SX => 16u8,
            AxisBind::SY => 32u8,
            AxisBind::SZ => 64u8,
        }
    }
}

/// The bit of a bind mask that stands for the position on `axis`.
pub open spec fn axis_bit(axis: int) -> u8 {
    if axis == 0 {
        2u8
    } else if axis == 1 {
        4u8
    } else if axis == 2 {
        8u8
    } else {
        0u8
    }
}

/// Whether the mask `mode` binds the position on `axis`.
pub open spec fn axis_bound(mode: u8, axis: int) -> bool {
    mode & axis_bit(axis) != 0
}

/// Tells whether the mask `mode` binds the position on `axis`.
pub fn is_bound(mode: u8, axis: usize) -> (bound: bool)
    ensures
        bound == axis_bound(mode, axis as int),
{
    if axis == 0 {
        mode & 2u8 != 0
    } else if axis == 1 {
        mode & 4u8 != 0
    } else if axis == 2 {
        mode & 8u8 != 0
    } else {
        assert(mode & 0u8 == 0u8) by (bit_vector);
        false
    }
}

/// The state that every signal bound to one view shares.
pub struct ViewData {
    /// The pan offset of the bound axes.
    pub pos: (Level, Level),
    /// The zoom factor, at least one.
    pub zoom: Level,
    /// The range that the bound signals have together in this frame.
    pub range: Range,
    /// Whether both drawn axes are scaled alike.
    pub maintain_aspect: bool,
    /// The name of the signal that the state was made for.
    pub id: String,
}

impl ViewData {
    /// The shared range has one bound of each kind for every shared axis.
    pub open spec fn wf(&self) -> bool {
        &&& self.range.min@.len() == SHARED_AXES
        &&& self.range.max@.len() == SHARED_AXES
    }

    /// The state of a fresh view: no pan, no zoom, no range.
    pub fn new(name: String) -> (data: ViewData)
        ensures
            data.wf(),
            data.pos == (Some(LEVEL_ZERO), Some(LEVEL_ZERO)),
            data.zoom == Some(LEVEL_ONE),
            data.range.min@ == Seq::new(SHARED_AXES as nat, |i: int| None::<i64>),
            data.range.max@ == Seq::new(SHARED_AXES as nat, |i: int| None::<i64>),
            !data.maintain_aspect,
            data.id == name,
    {
        ViewData {
            pos: (Some(LEVEL_ZERO), Some(LEVEL_ZERO)),
            zoom: Some(LEVEL_ONE),
            range: Range::new_cap(SHARED_AXES),
            maintain_aspect: false,
            id: name,
        }
    }

    /// Forgets the shared range, so that the next frame builds it anew.
    pub fn clear_range(&mut self)
        requires
            old(self).wf(),
        ensures
            final(self).wf(),
            final(self).range.min@ == Seq::new(SHARED_AXES as nat, |i: int| None::<i64>),
            final(self).range.max@ == Seq::new(SHARED_AXES as nat, |i: int| None::<i64>),
            final(self).pos == old(self).pos,
            final(self).zoom == old(self).zoom,
            final(self).maintain_aspect == old(self).maintain_aspect,
            final(self).id == old(self).id,
    {
        let n = self.range.min.len();
        let mut i: usize = 0;
        while i < n
            invariant
                i <= n,
                n == SHARED_AXES,
                self.range.min@.len() == n,
                self.range.max@.len() == n,
                forall|k: int| 0 <= k < i ==> self.range.min@[k] is None,
                forall|k: int| 0 <= k < i ==> self.range.max@[k] is None,
                self.pos == old(self).pos,
                self.zoom == old(self).zoom,
                self.maintain_aspect == old(self).maintain_aspect,
                self.id == old(self).id,
            decreases n - i,
        {
            self.range.min.set(i, None);
            self.range.max.set(i, None);
            i += 1;
        }
        assert(self.range.min@ =~= Seq::new(SHARED_AXES as nat, |i: int| None::<i64>));
        assert(self.range.max@ =~= Seq::new(SHARED_AXES as nat, |i: int| None::<i64>));
    }
}

/// What the arithmetic of a transform reads from a view: for each drawn axis
/// the bounds to frame, the pan offset, and the zoom.
#[derive(Clone, Copy, Debug)]
pub struct Framing {
    /// The lower bound on the horizontal axis.
    pub xmin: Level,
    /// The upper bound on the horizontal axis.
    pub xmax: Level,
    /// The lower bound on the vertical axis.
    pub ymin: Level,
    /// The upper bound on the vertical axis.
    pub ymax: Level,
    /// The pan offset on the horizontal axis.
    pub dx: Level,
    /// The pan offset on the vertical axis.
    pub dy: Level,
    /// The zoom factor.
    pub zoom: Level,
    /// Whether both axes are scaled alike.
    pub maintain_aspect: bool,
}

/// The shared bounds after a signal with the mask `mode` has reported its
/// own lower bounds: every bound axis takes the lesser of the two.
pub open spec fn shared_min(mode: u8, shared: Seq<Level>, own: Seq<Level>) -> Seq<Level> {
    Seq::new(
        shared.len(),
        |i: int|
            if axis_bound(mode, i) {
                lower_of(level_at(own, i), shared[i])
            } else {
                shared[i]
            },
    )
}

/// As `shared_min`, for the upper bounds.
pub open spec fn shared_max(mode: u8, shared: Seq<Level>, own: Seq<Level>) -> Seq<Level> {
    Seq::new(
        shared.len(),
        |i: int|
            if axis_bound(mode, i) {
                upper_of(level_at(own, i), shared[i])
            } else {
                shared[i]
            },
    )
}

/// Sharing only widens. On every axis the shared lower bound stays or
/// falls, the upper bound stays or rises, and a bound that was set stays set.
/// An axis that the mask does not bind keeps its bounds.
pub proof fn lemma_share_only_widens(mode: u8, shared: Seq<Level>, own: Seq<Level>, axis: int)
    requires
        0 <= axis < shared.len(),
    ensures
        shared[axis] is Some ==> shared_min(mode, shared, own)[axis] is Some && shared_min(
            mode,
            shared,
            own,
        )[axis]->0 <= shared[axis]->0,
        shared[axis] is Some ==> shared_max(mode, shared, own)[axis] is Some && shared_max(
            mode,
            shared,
            own,
        )[axis]->0 >= shared[axis]->0,
        !axis_bound(mode, axis) ==> shared_min(mode, shared, own)[axis] == shared[axis]
            && shared_max(mode, shared, own)[axis] == shared[axis],
{
}

/// A signal's handle on a view: which state it looks at, which axes it is
/// bound on, and its own pan offset for the axes that are not bound.
#[derive(Clone, Copy, Debug)]
pub struct View {
    /// The place of the state among the states that the manager keeps.
    pub data: usize,
    /// The bind mask.
    pub mode: u8,
    /// The pan offset of the axes that are not bound.
    pub local_pos: (Level, Level),
}

impl View {
    /// The pan offset that this handle works with: on a bound axis that of the
    /// shared state, otherwise its own.
    pub open spec fn offset(&self, data: &ViewData) -> (Level, Level) {
        (
            if axis_bound(self.mode, 0) {
                data.pos.0
            } else {
                self.local_pos.0
            },
            if axis_bound(self.mode, 1) {
                data.pos.1
            } else {
                self.local_pos.1
            },
        )
    }

    /// The handle and the state after the pan offset was set to `to`: a bound
    /// axis is written to the shared state, any other to the handle.
    pub open spec fn placed(&self, data: &ViewData, to: (Level, Level)) -> ((Level, Level), (
        Level,
        Level,
    )) {
        (
            (
                if axis_bound(self.mode, 0) {
                    self.local_pos.0
                } else {
                    to.0
                },
                if axis_bound(self.mode, 1) {
                    self.local_pos.1
                } else {
                    to.1
                },
            ),
            (
                if axis_bound(self.mode, 0) {
                    to.0
                } else {
                    data.pos.0
                },
                if axis_bound(self.mode, 1) {
                    to.1
                } else {
                    data.pos.1
                },
            ),
        )
    }

    /// A handle on the state at place `data`, bound on no axis.
    pub fn new(data: usize) -> (view: View)
        ensures
            view.data == data,
            view.mode == 0,
            view.local_pos == (Some(LEVEL_ZERO), Some(LEVEL_ZERO)),
    {
        View { data, mode: 0, local_pos: (Some(LEVEL_ZERO), Some(LEVEL_ZERO)) }
    }

    /// Reports a signal's own range to the shared state: every bound axis of
    /// the shared range widens to hold it, the others stay.
    pub fn share(&self, data: &mut ViewData, range: &Range)
        requires
            old(data).wf(),
        ensures
            final(data).wf(),
            final(data).range.min@ == shared_min(self.mode, old(data).range.min@, range.min@),
            final(data).range.max@ == shared_max(self.mode, old(data).range.max@, range.max@),
            final(data).pos == old(data).pos,
            final(data).zoom == old(data).zoom,
            final(data).maintain_aspect == old(data).maintain_aspect,
            final(data).id == old(data).id,
    {
        let n = data.range.min.len();
        let mut i: usize = 0;
        while i < n
            invariant
                i <= n,
                n == SHARED_AXES,
                old(data).wf(),
                data.range.min@.len() == n,
                data.range.max@.len() == n,
                forall|k: int|
                    0 <= k < i ==> data.range.min@[k] == shared_min(
                        self.mode,
                        old(data).range.min@,
                        range.min@,
                    )[k],
                forall|k: int|
                    0 <= k < i ==> data.range.max@[k] == shared_max(
                        self.mode,
                        old(data).range.max@,
                        range.max@,
                    )[k],
                forall|k: int| i <= k < n ==> data.range.min@[k] == old(data).range.min@[k],
                forall|k: int| i <= k < n ==> data.range.max@[k] == old(data).range.max@[k],
                data.pos == old(data).pos,
                data.zoom == old(data).zoom,
                data.maintain_aspect == old(data).maintain_aspect,
                data.id == old(data).id,
            decreases n - i,
        {
            if is_bound(self.mode, i) {
                let low = lower(level_or_none(&range.min, i), data.range.min[i]);
                let high = upper(level_or_none(&range.max, i), data.range.max[i]);
                data.range.min.set(i, low);
                data.range.max.set(i, high);
            }
            i += 1;
        }
        assert(data.range.min@ =~= shared_min(self.mode, old(data).range.min@, range.min@));
        assert(data.range.max@ =~= shared_max(self.mode, old(data).range.max@, range.max@));
    }

    /// Gathers what a transform is computed from. The bounds of a drawn axis
    /// come from the shared range where the axis is bound and from `range`,
    /// the signal's own, where it is not; the pan offset likewise from the
    /// shared state or from this handle.
    pub fn get_framing(&self, data: &ViewData, range: &Range) -> (framing: Framing)
        requires
            data.wf(),
            range.min@.len() >= 2,
            range.max@.len() >= 2,
        ensures
            framing.xmin == (if axis_bound(self.mode, 0) {
                data.range.min@[0]
            } else {
                range.min@[0]
            }),
            framing.xmax == (if axis_bound(self.mode, 0) {
                data.range.max@[0]
            } else {
                range.max@[0]
            }),
            framing.ymin == (if axis_bound(self.mode, 1) {
                data.range.min@[1]
            } else {
                range.min@[1]
            }),
            framing.ymax == (if axis_bound(self.mode, 1) {
                data.range.max@[1]
            } else {
                range.max@[1]
            }),
            (framing.dx, framing.dy) == self.offset(data),
            framing.zoom == (if above(data.zoom, Some(LEVEL_ONE)) {
                data.zoom
            } else {
                Some(LEVEL_ONE)
            }),
            framing.maintain_aspect == data.maintain_aspect,
    {
        let x_bound = is_bound(self.mode, 0);
        let y_bound = is_bound(self.mode, 1);
        let x_range = if x_bound {
            &data.range
        } else {
            range
        };
        let y_range = if y_bound {
            &data.range
        } else {
            range
        };
        Framing {
            xmin: x_range.min[0],
            xmax: x_range.max[0],
            ymin: y_range.min[1],
            ymax: y_range.max[1],
            dx: if x_bound {
                data.pos.0
            } else {
                self.local_pos.0
            },
            dy: if y_bound {
                data.pos.1
            } else {
                self.local_pos.1
            },
            zoom: if is_above(data.zoom, Some(LEVEL_ONE)) {
                data.zoom
            } else {
                Some(LEVEL_ONE)
            },
            maintain_aspect: data.maintain_aspect,
        }
    }

    /// Sets the zoom to `zoom` and the pan offset to `moved`, the offset that
    /// keeps the zoom's centre in place. A zoom that is not above one resets
    /// the view instead: the zoom becomes one and the pan offset zero. A bound
    /// axis is written to the shared state, any other to this handle.
    pub fn zoom(&mut self, data: &mut ViewData, zoom: Level, moved: (Level, Level))
        ensures
            final(self).data == old(self).data,
            final(self).mode == old(self).mode,
            final(data).range == old(data).range,
            final(data).maintain_aspect == old(data).maintain_aspect,
            final(data).id == old(data).id,
            above(zoom, Some(LEVEL_ONE)) ==> final(data).zoom == zoom && (
                final(self).local_pos,
                final(data).pos,
            ) == old(self).placed(old(data), moved),
            !above(zoom, Some(LEVEL_ONE)) ==> final(data).zoom == Some(LEVEL_ONE) && (
                final(self).local_pos,
                final(data).pos,
            ) == old(self).placed(old(data), (Some(LEVEL_ZERO), Some(LEVEL_ZERO))),
    {
        if is_above(zoom, Some(LEVEL_ONE)) {
            data.zoom = zoom;
            self.move_by(data, moved);
        } else {
            data.zoom = Some(LEVEL_ONE);
            self.move_by(data, (Some(LEVEL_ZERO), Some(LEVEL_ZERO)));
        }
    }

    /// Sets the pan offset to `moved`: a bound axis is written to the shared
    /// state, any other to this handle.
    pub fn move_by(&mut self, data: &mut ViewData, moved: (Level, Level))
        ensures
            final(self).data == old(self).data,
            final(self).mode == old(self).mode,
            final(data).zoom == old(data).zoom,
            final(data).range == old(data).range,
            final(data).maintain_aspect == old(data).maintain_aspect,
            final(data).id == old(data).id,
            (final(self).local_pos, final(data).pos) == old(self).placed(old(data), moved),
            final(self).offset(final(data)) == moved,
    {
        if is_bound(self.mode, 0) {
            data.pos.0 = moved.0;
        } else {
            self.local_pos.0 = moved.0;
        }
        if is_bound(self.mode, 1) {
            data.pos.1 = moved.1;
        } else {
            self.local_pos.1 = moved.1;
        }
    }

    /// Replaces the bind mask.
    pub fn set_bind_mode(&mut self, mode: u8)
        ensures
            final(self).mode == mode,
            final(self).data == old(self).data,
            final(self).local_pos == old(self).local_pos,
    {
        self.mode = mode;
    }
}

} // verus!
