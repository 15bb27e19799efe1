//! The one way in which planning fails: a parameter breaks a constraint.

use vstd::prelude::*;
use vstd::string::*;

verus! {

/// A topology or problem parameter that the planner cannot work with. Each
/// variant names the constraint that does not hold.
#[derive(Clone, Copy, Debug, PartialEq, Eq, Structural)]
pub enum PreconditionViolation {
    /// There is no mapper.
    NoMappers,
    /// There is no reducer.
    NoReducers,
    /// The processing elements are more than identifiers can tell apart
    /// from main memory.
    TooManyElements,
    /// The K dimension is smaller than the number of mappers.
    DepthBelowMappers,
    /// The output has no more elements than there are reducers.
    TooFewTiles,
    /// What a mapper loads in one round, or what one reducer is sent in
    /// one round, has more elements than a machine word can count.
    WorkloadTooLarge,
    /// The schedule has more operations than identifiers are left.
    ScheduleTooLong,
}

impl PreconditionViolation {
    /// The explanation that `message` returns.
    pub open spec fn explanation(self) -> Seq<char> {
        match self {
            PreconditionViolation::NoMappers => "Mapper num should be at least one."@,
            PreconditionViolation::NoReducers => "Reducer num should be at least one."@,
            PreconditionViolation::TooManyElements => "Mapper num plus reducer num should fit a processing element id."@,
            PreconditionViolation::DepthBelowMappers => "K dim should be larger-equal than mapper num."@,
            PreconditionViolation::TooFewTiles => "M dim times N dim should be larger than reducer num."@,
            PreconditionViolation::WorkloadTooLarge => "Workload sizes should fit a machine word."@,
            PreconditionViolation::ScheduleTooLong => "Operation ids should fit a machine word."@,
        }
    }

    /// Says in words which constraint does not hold.
    pub fn message(&self) -> (s: String)
        ensures
            s@ == self.explanation(),
    {
        match self {
            PreconditionViolation::NoMappers => String::from_str(
                "Mapper num should be at least one.",
            ),
            PreconditionViolation::NoReducers => String::from_str(
                "Reducer num should be at least one.",
            ),
            PreconditionViolation::TooManyElements => String::from_str(
                "Mapper num plus reducer num should fit a processing element id.",
            ),
            PreconditionViolation::DepthBelowMappers => String::from_str(
                "K dim should be larger-equal than mapper num.",
            ),
            PreconditionViolation::TooFewTiles => String::from_str(
                "M dim times N dim should be larger than reducer num.",
            ),
            PreconditionViolation::WorkloadTooLarge => String::from_str(
                "Workload sizes should fit a machine word.",
            ),
            PreconditionViolation::ScheduleTooLong => String::from_str(
                "Operation ids should fit a machine word.",
            ),
        }
    }
}

} // verus!
