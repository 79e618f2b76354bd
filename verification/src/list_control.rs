//! What a scrolling list decides from its numbers: how far its content has
//! left its bounds, what a drag past the edge shows, and which animation
//! follows when the pointer lets go.

use vstd::prelude::*;
use crate::fixed::divide;
use crate::fixed::magnitude;
use crate::fixed::ratio;
use crate::fixed::saturate;
use crate::fixed::saturated;
use crate::point::Point;
use crate::rubber_band::calculate_offset;
use crate::rubber_band::calculate_offset_inv;
use crate::rubber_band::coarse;
use crate::rubber_band::compressed;
use crate::rubber_band::expanded;
use crate::rubber_band::fine;
use crate::rubber_band::from_fine;
use crate::rubber_band::to_fine;
use crate::velocity_tracker::HALT_SPEED_SQUARED;
use crate::velocity_tracker::VelocityTracker;

verus! {

/// The animation that moves a list while no pointer holds it.
#[derive(Clone, Copy, Debug, PartialEq, Eq)]
pub enum ListAnimationType {
    /// The list is still.
    Idle,
    /// The list goes on scrolling and slows down.
    Decelerate,
    /// The list is pulled back to the edge that it has left.
    SpringBack,
}

impl Default for ListAnimationType {
    fn default() -> (animation: Self)
        ensures
            animation == ListAnimationType::Idle,
    {
        ListAnimationType::Idle
    }
}

/// The time, in milliseconds, in which the pull of an overscrolled list
/// alone would bring it back.
pub const OVERFLOW_RETURN_MILLISECONDS: i64 = 100;

/// How far `content_offset` lies outside the bounds: below 0 in front of
/// `min_offset`, above 0 behind `max_offset`, 0 in between.
pub open spec fn overflow(content_offset: int, min_offset: int, max_offset: int) -> int {
    if content_offset < min_offset {
        content_offset - min_offset
    } else if content_offset > max_offset {
        content_offset - max_offset
    } else {
        0
    }
}

/// The bound that an overscrolled list is pulled back to.
pub open spec fn edge(overflow: int, min_offset: int, max_offset: int) -> int {
    if overflow < 0 {
        min_offset
    } else {
        max_offset
    }
}

/// The offset at which a list is shown that was dragged to `offset`, or,
/// with `inv`, the offset that it was dragged to when it is shown at
/// `offset`. Inside the bounds the two are the same; outside, the distance
/// to the nearest bound is put through the rubber band of the given
/// `range`, to the millionth of a point. A `range` of 0 leaves `offset` as
/// it is.
pub open spec fn banded(offset: int, range: int, min_offset: int, max_offset: int, inv: bool)
    -> int {
    let upper = if max_offset > min_offset {
        max_offset
    } else {
        min_offset
    };
    if range == 0 || min_offset <= offset <= upper {
        offset
    } else {
        let target = if offset < min_offset {
            min_offset
        } else {
            upper
        };
        let distance = saturated(magnitude(offset - target));
        let transformed = if inv {
            expanded(fine(distance), range)
        } else {
            coarse(compressed(distance, range))
        };
        if offset < target {
            saturated(target - transformed)
        } else {
            saturated(target + transformed)
        }
    }
}

/// The velocity that pulls an overscrolled list back: the overflow covered
/// in `OVERFLOW_RETURN_MILLISECONDS`, toward the bounds.
pub open spec fn overflow_velocity(overflow: int) -> int {
    ratio(-overflow, OVERFLOW_RETURN_MILLISECONDS as int)
}

/// The velocity of the list when the pointer lets go, `pointer` being the
/// velocity of the pointer: the opposite, since the offset grows as the
/// pointer moves back, and nothing at all where the pointer was coming to a
/// halt.
pub open spec fn released_velocity(pointer: Point) -> Point {
    let velocity = pointer.spec_negated();
    if velocity.x * velocity.x + velocity.y * velocity.y < HALT_SPEED_SQUARED {
        Point { x: 0, y: 0 }
    } else {
        velocity
    }
}

/// The animation that follows when the pointer lets go, and the velocity
/// that it starts with. A list outside its bounds springs back: the pull of
/// the overflow is added to a velocity that points the other way and takes
/// the place of one that points the same way. A list inside its bounds
/// decelerates if it moves at all.
pub open spec fn released(pointer: Point, overflow: int) -> (ListAnimationType, int) {
    let velocity = released_velocity(pointer);
    if overflow != 0 {
        let pull = overflow_velocity(overflow);
        if (pull < 0) != (velocity.y < 0) {
            (ListAnimationType::SpringBack, saturated(velocity.y + pull))
        } else {
            (ListAnimationType::SpringBack, saturated(pull))
        }
    } else if velocity.x != 0 || velocity.y != 0 {
        (ListAnimationType::Decelerate, velocity.y as int)
    } else {
        (ListAnimationType::Idle, 0)
    }
}

/// How far `content_offset` lies outside the bounds.
pub fn overflow_offset(content_offset: i64, min_offset: i64, max_offset: i64) -> (distance: i64)
    ensures
        distance == saturated(overflow(content_offset as int, min_offset as int, max_offset as int)),
{
    if content_offset < min_offset {
        saturate(content_offset as i128 - min_offset as i128)
    } else if content_offset > max_offset {
        saturate(content_offset as i128 - max_offset as i128)
    } else {
        0
    }
}

/// The bound that a list with the given overflow is pulled back to.
pub fn spring_target(overflow: i64, min_offset: i64, max_offset: i64) -> (target: i64)
    ensures
        target == edge(overflow as int, min_offset as int, max_offset as int),
{
    if overflow < 0 {
        min_offset
    } else {
        max_offset
    }
}

/// The offset at which a list is shown that was dragged to `offset`, or,
/// with `inv`, the offset that it was dragged to when it is shown at
/// `offset`.
pub fn rubber_band_for_offset(
    offset: i64,
    range: i64,
    min_offset: i64,
    max_offset: i64,
    inv: bool,
) -> (shown: i64)
    ensures
        shown == banded(offset as int, range as int, min_offset as int, max_offset as int, inv),
{
    if range == 0 {
        return offset;
    }
    let min: i64 = min_offset;
    let max: i64 = if max_offset > min {
        max_offset
    } else {
        min
    };
    if min <= offset && offset <= max {
        return offset;
    }
    let target: i64 = if offset < min {
        min
    } else {
        max
    };
    let distance: i128 = offset as i128 - target as i128;
    let length: i64 = saturate(
        if distance < 0 {
            -distance
        } else {
            distance
        },
    );
    let transformed: i64 = if inv {
        calculate_offset_inv(to_fine(length), range)
    } else {
        from_fine(calculate_offset(length, range))
    };
    if distance < 0 {
        saturate(target as i128 - transformed as i128)
    } else {
        saturate(target as i128 + transformed as i128)
    }
}

/// The animation that follows when the pointer lets go of a list with the
/// given overflow, `pointer` being the velocity of the pointer, and the
/// velocity that the animation starts with.
pub fn release(pointer: Point, overflow: i64) -> (next: (ListAnimationType, i64))
    ensures
        next.0 == released(pointer, overflow as int).0,
        next.1 == released(pointer, overflow as int).1,
{
    let mut velocity = pointer.negated();
    if VelocityTracker::approaching_halt(velocity.x, velocity.y) {
        velocity = Point::zero();
    }
    if overflow != 0 {
        // When released, the content offset has exceeded the boundary.
        let pull: i128 = divide(-(overflow as i128), OVERFLOW_RETURN_MILLISECONDS as i128);
        // If two velocities are in opposite directions, add the two velocities.
        if (pull < 0) != (velocity.y < 0) {
            (ListAnimationType::SpringBack, saturate(velocity.y as i128 + pull))
        } else {
            (ListAnimationType::SpringBack, saturate(pull))
        }
    } else if !velocity.is_zero() {
        (ListAnimationType::Decelerate, velocity.y)
    } else {
        // No velocity, no spring back, no decelerate.
        (ListAnimationType::Idle, 0)
    }
}

/// Inside its bounds a list is shown where it was dragged to, and a list
/// shown inside its bounds was dragged to where it is shown.
pub proof fn lemma_band_leaves_the_inside(
    offset: i64,
    range: i64,
    min_offset: i64,
    max_offset: i64,
    inv: bool,
)
    requires
        min_offset <= offset <= max_offset,
    ensures
        banded(offset as int, range as int, min_offset as int, max_offset as int, inv) == offset,
{
}

/// A drag past an edge never shows the list further out than it was
/// dragged, nor on the other side of the edge, and never more than `range`
/// away from the edge.
pub proof fn lemma_band_holds_back(offset: i64, range: i64, min_offset: i64, max_offset: i64)
    requires
        range > 0,
        min_offset <= max_offset,
    ensures
        offset < min_offset ==> offset <= banded(
            offset as int,
            range as int,
            min_offset as int,
            max_offset as int,
            false,
        ) <= min_offset,
        offset > max_offset ==> max_offset <= banded(
            offset as int,
            range as int,
            min_offset as int,
            max_offset as int,
            false,
        ) <= offset,
        magnitude(
            banded(offset as int, range as int, min_offset as int, max_offset as int, false)
                - if offset < min_offset {
                min_offset as int
            } else if offset > max_offset {
                max_offset as int
            } else {
                offset as int
            },
        ) < range,
{
    if offset < min_offset || offset > max_offset {
        let target = if offset < min_offset {
            min_offset as int
        } else {
            max_offset as int
        };
        let distance = saturated(magnitude(offset - target));
        crate::rubber_band::lemma_compressed_below_range(distance, range as int);
        crate::rubber_band::lemma_compressed_within_drag(distance, range as int);
        crate::rubber_band::lemma_coarse_below(compressed(distance, range as int), range as int);
        if distance < i64::MAX {
            crate::rubber_band::lemma_coarse_below(
                compressed(distance, range as int),
                distance + 1,
            );
        }
    }
}

/// A list that lies outside its bounds when the pointer lets go springs
/// back, one inside decelerates or rests, and a list inside its bounds
/// whose pointer was coming to a halt rests.
pub proof fn lemma_release_by_overflow(pointer: Point, overflow: i64)
    ensures
        overflow != 0 <==> released(pointer, overflow as int).0 == ListAnimationType::SpringBack,
        overflow == 0 && released_velocity(pointer) == (Point { x: 0, y: 0 }) ==> released(
            pointer,
            overflow as int,
        ) == (ListAnimationType::Idle, 0int),
{
}

} // verus!
