use vstd::prelude::*;
use crate::scalar::Scalar;

verus! {

/// How far a point is from a place, held against how far it may be: both
/// distances squared.
#[derive(Clone, Copy, Debug)]
pub struct Reach {
    /// The squared distance between the place and the point.
    pub separation: Scalar,
    /// The squared distance that the point has to be within.
    pub limit: Scalar,
}

impl Reach {
    /// Whether the point lies strictly within the distance.
    pub open spec fn near(self) -> bool {
        self.separation.less(self.limit)
    }

    /// Whether the point lies strictly within the distance.
    #[verifier::when_used_as_spec(near)]
    pub fn within(self) -> (holds: bool)
        ensures
            holds == self.near(),
    {
        self.separation.less_than(self.limit)
    }
}

/// What the closest approach of an eraser to a point over one tick is read
/// from. Both move on straight paths; the eraser is taken relative to the
/// point, so that it moves from one place to another about a point at rest.
#[derive(Clone, Copy, Debug)]
pub struct Approach {
    /// The squared distance of the eraser from the point when the tick begins.
    pub start: Scalar,
    /// The squared distance of the eraser from the point when the tick ends.
    pub end: Scalar,
    /// The squared radius of the eraser.
    pub limit: Scalar,
    /// The squared length of the eraser's path relative to the point.
    pub span: Scalar,
    /// The fraction of the tick at which the eraser's line is nearest the
    /// point.
    pub time: Scalar,
    /// The squared distance of the eraser's line from the point, times `span`.
    pub gap: Scalar,
    /// The squared radius, times `span`.
    pub reach: Scalar,
}

impl Approach {
    /// Whether the eraser comes within its radius of the point during the
    /// tick: it is within it when the tick begins or when it ends, or it
    /// moves relative to the point, is nearest to it strictly inside the
    /// tick, and is within its radius then.
    pub open spec fn meets(self) -> bool {
        ||| self.start.less(self.limit)
        ||| self.end.less(self.limit)
        ||| {
            &&& !self.span.zero_number()
            &&& self.time.positive()
            &&& self.time.below_one()
            &&& self.gap.less(self.reach)
        }
    }

    /// Whether the eraser comes within its radius of the point during the
    /// tick.
    #[verifier::when_used_as_spec(meets)]
    pub fn touches(self) -> (hit: bool)
        ensures
            hit == self.meets(),
    {
        if self.start.less_than(self.limit) {
            true
        } else if self.end.less_than(self.limit) {
            true
        } else {
            !self.span.is_zero() && self.time.is_positive() && self.time.is_below_one()
                && self.gap.less_than(self.reach)
        }
    }
}

/// A moment at which the line of an eraser's path meets the line of a link,
/// and where on the link's line that is.
#[derive(Clone, Copy, Debug)]
pub struct Candidate {
    /// The moment, as a fraction of the tick.
    pub time: Scalar,
    /// How far along the link the eraser is at that moment: the dot product
    /// of the eraser's place and the link's far end, both taken from the
    /// link's near end.
    pub along: Scalar,
    /// The squared length of the link at that moment.
    pub extent: Scalar,
}

impl Candidate {
    /// Whether the moment lies in the tick, its end left out, and the eraser
    /// is then strictly between the two ends of the link.
    pub open spec fn fits(self) -> bool {
        &&& self.time.not_negative()
        &&& self.time.below_one()
        &&& self.along.positive()
        &&& self.along.less(self.extent)
    }

    /// Whether the moment lies in the tick and on the link.
    #[verifier::when_used_as_spec(fits)]
    pub fn valid(self) -> (holds: bool)
        ensures
            holds == self.fits(),
    {
        if self.time.is_not_negative() && self.time.is_below_one() {
            self.along.is_positive() && self.along.less_than(self.extent)
        } else {
            false
        }
    }
}

/// What the crossing of an eraser and a link over one tick is read from.
///
/// Both move on straight paths. The eraser's place is on the line of the
/// link at the moments `t` at which `lead * t * t + slope * t + offset` is
/// zero.
#[derive(Clone, Copy, Debug)]
pub struct Crossing {
    /// The coefficient of the square.
    pub lead: Scalar,
    /// The coefficient of the first power.
    pub slope: Scalar,
    /// The constant coefficient.
    pub offset: Scalar,
    /// The discriminant, `slope * slope - 4 * lead * offset`.
    pub det: Scalar,
    /// The middle of the tick, which stands for all its moments where every
    /// coefficient is zero.
    pub middle: Candidate,
    /// The one root where `lead` is zero and `slope` is not.
    pub linear: Candidate,
    /// The root `(-slope - sqrt(det)) / (2 * lead)`.
    pub lower: Candidate,
    /// The root `(-slope + sqrt(det)) / (2 * lead)`.
    pub upper: Candidate,
}

impl Crossing {
    /// Whether the eraser crosses the link during the tick.
    ///
    /// Where the square's coefficient is not zero, the discriminant must not
    /// be negative and one of the two roots must fit. Where it is zero and
    /// the first power's is not, the one root must fit. Where both are zero,
    /// the constant must be zero too, exactly, and the middle of the tick
    /// must fit.
    pub open spec fn severs(self) -> bool {
        if self.lead.zero_number() {
            if self.slope.zero_number() {
                self.offset.zero_number() && self.middle.fits()
            } else {
                self.linear.fits()
            }
        } else {
            self.det.not_negative() && (self.lower.fits() || self.upper.fits())
        }
    }

    /// Whether the eraser crosses the link during the tick.
    #[verifier::when_used_as_spec(severs)]
    pub fn cuts(self) -> (hit: bool)
        ensures
            hit == self.severs(),
    {
        if self.lead.is_zero() {
            if self.slope.is_zero() {
                self.offset.is_zero() && self.middle.valid()
            } else {
                self.linear.valid()
            }
        } else if self.det.is_not_negative() {
            if self.lower.valid() {
                true
            } else {
                self.upper.valid()
            }
        } else {
            false
        }
    }
}

} // verus!
