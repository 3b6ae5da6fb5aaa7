//! Taking decoded points into the registry within the time that a frame
//! allows.
//!
//! A frame waits for points only as long as its refresh time lasts. Each
//! step of the wait ends with a point, with word of a malformed line, with the
//! time running out, or with the sender being gone.

use vstd::prelude::*;
use crate::axes::MsgPoint;
use crate::signal::{Signal, SignalHealth, SignalManager};

verus! {

/// How one wait for a point ended.
pub enum Received {
    /// A decoded point arrived.
    Point(MsgPoint),
    /// A line for the signal of this name had a field that is no number.
    Malformed(String),
    /// The time ran out.
    Timeout,
    /// The sender is gone.
    Disconnected,
}

/// The microseconds of a duration, given as its whole seconds and the
/// nanoseconds beyond them.
pub fn duration2us(secs: u64, subsec_nanos: u32) -> (us: u64)
    requires
        secs * 1000_000 + subsec_nanos / 1000 <= u64::MAX,
    ensures
        us == secs * 1000_000 + subsec_nanos / 1000,
{
    secs * 1000_000 + (subsec_nanos / 1000) as u64
}

/// How long a frame may still wait for a point: what is left of the refresh
/// time, and nothing once it has passed. Both times are in nanoseconds.
pub fn wait_budget(refresh_rate: u128, elapsed: u128) -> (budget: u128)
    ensures
        budget == (if elapsed <= refresh_rate {
            refresh_rate - elapsed
        } else {
            0
        }),
{
    if elapsed <= refresh_rate {
        refresh_rate - elapsed
    } else {
        0
    }
}

/// Tells whether the frame has used up its refresh time.
pub fn frame_is_over(refresh_rate: u128, elapsed: u128) -> (over: bool)
    ensures
        over == (elapsed > refresh_rate),
{
    elapsed > refresh_rate
}

/// Takes what one wait brought. A point is added to the registry, and word
/// of a malformed line marks the signal it was meant for; after either the
/// frame may wait again. When the time ran out or the sender is gone, nothing
/// changes and the frame waits no more.
pub fn get_points(received: Received, man: &mut SignalManager) -> (again: bool)
    requires
        old(man).wf(),
        old(man).points_added() < usize::MAX,
    ensures
        final(man).wf(),
        again == (received is Point || received is Malformed),
        received is Timeout || received is Disconnected ==> final(man).same_as(old(man)),
        received is Malformed ==> {
            let name = received->Malformed_0@;
            &&& final(man).views() == old(man).views()
            &&& final(man).selection() == old(man).selection()
            &&& final(man).points_added() == old(man).points_added()
            &&& old(man).has(name) ==> final(man).signals() == old(man).signals().update(
                old(man).place(name),
                Signal {
                    health: SignalHealth::InvalidFormat,
                    ..old(man).signals()[old(man).place(name)]
                },
            )
            &&& !old(man).has(name) ==> final(man).signals() == old(man).signals()
        },
        received is Point ==> old(man).adds(final(man), received->Point_0),
{
    match received {
        Received::Point(d) => {
            man.add_point(d);
            true
        },
        Received::Malformed(name) => {
            man.mark_invalid(&name);
            true
        },
        Received::Timeout => false,
        Received::Disconnected => false,
    }
}

} // verus!
