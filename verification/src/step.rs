//! The decision taken for one pair of boxes.

use vstd::prelude::*;

verus! {

/// One of the two axes of the plane.
#[derive(Clone, Copy, Debug, PartialEq, Eq, Structural)]
pub enum Axis {
    X,
    Y,
}

/// What is known of a pair of boxes `(first, second)` once their geometry
/// has been compared.
///
/// With `px` and `py` the penetration depths of the pair on the two axes
/// and `dx`, `dy` the centre of `first` minus the centre of `second`, the
/// fields record the outcome of five comparisons. A comparison that does
/// not hold, for whatever reason (an unordered threshold included), is
/// recorded as `false`.
#[derive(Clone, Copy, Debug, PartialEq, Eq, Structural)]
pub struct Overlap {
    /// `px > threshold`
    pub x_exceeds: bool,
    /// `py > threshold`
    pub y_exceeds: bool,
    /// `px < py`
    pub x_shallower: bool,
    /// `dx > 0`
    pub dx_positive: bool,
    /// `dy > 0`
    pub dy_positive: bool,
}

/// The displacement that separates a colliding pair: along `axis`, the
/// first box moves by half the penetration on that axis in the direction
/// given by `forward` (`true` for the positive direction), and the second
/// box moves by the same amount the opposite way.
#[derive(Clone, Copy, Debug, PartialEq, Eq, Structural)]
pub struct Push {
    pub axis: Axis,
    pub forward: bool,
}

impl Overlap {
    /// A pair collides when both penetrations exceed the threshold.
    pub open spec fn collides(self) -> bool {
        self.x_exceeds && self.y_exceeds
    }

    /// The axis of least penetration; the y-axis wins a tie.
    pub open spec fn least_axis(self) -> Axis {
        if self.x_shallower {
            Axis::X
        } else {
            Axis::Y
        }
    }

    /// The displacement owed to the pair, if it collides. The direction
    /// follows the centre delta on the chosen axis: forward only when that
    /// delta is strictly positive, so coinciding centres push backward.
    pub open spec fn push(self) -> Option<Push> {
        if self.collides() {
            Some(
                match self.least_axis() {
                    Axis::X => Push { axis: Axis::X, forward: self.dx_positive },
                    Axis::Y => Push { axis: Axis::Y, forward: self.dy_positive },
                },
            )
        } else {
            None
        }
    }

    /// Tests whether the pair collides.
    pub fn is_collision(&self) -> (hit: bool)
        ensures
            hit == self.collides(),
    {
        self.x_exceeds && self.y_exceeds
    }

    /// Decides what to do with the pair: nothing when it does not collide,
    /// otherwise the displacement along the axis of least penetration.
    pub fn resolve(&self) -> (push: Option<Push>)
        ensures
            push == self.push(),
    {
        if self.x_exceeds && self.y_exceeds {
            if self.x_shallower {
                Some(Push { axis: Axis::X, forward: self.dx_positive })
            } else {
                Some(Push { axis: Axis::Y, forward: self.dy_positive })
            }
        } else {
            None
        }
    }
}

impl Push {
    /// The unit factor that the first box's displacement is multiplied by:
    /// `1` forward, `-1` backward. The second box takes the negation.
    pub open spec fn sign(self) -> int {
        if self.forward {
            1
        } else {
            -1
        }
    }

    /// The sign of the first box's displacement, `1` or `-1`.
    pub fn signum(&self) -> (s: i8)
        ensures
            s == self.sign(),
    {
        if self.forward {
            1i8
        } else {
            -1i8
        }
    }
}

/// A displacement is owed exactly to the pairs that collide.
pub proof fn push_iff_collision(o: Overlap)
    ensures
        o.push().is_some() <==> o.collides(),
{
}

/// The comparisons on the axis that is not chosen do not influence the
/// direction of the displacement.
pub proof fn direction_follows_chosen_axis(a: Overlap, b: Overlap)
    requires
        a.collides(),
        b.collides(),
        a.x_shallower == b.x_shallower,
        a.x_shallower ==> a.dx_positive == b.dx_positive,
        !a.x_shallower ==> a.dy_positive == b.dy_positive,
    ensures
        a.push() == b.push(),
{
}

} // verus!
