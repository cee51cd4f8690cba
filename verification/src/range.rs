//! Repetition ranges.
//!
//! A bounded repetition is described by an inclusive lower and upper bound,
//! with `usize::MAX` standing for "unbounded". The bounds are resolved at
//! construction time from a single count `n`, a half-open range `a..b`, an
//! inclusive range `a..=b`, or an unbounded range `a..`.

use vstd::prelude::*;

verus! {

/// Anything `repeat` accepts as a repetition count: the resolved bounds are
/// `spec_start()` up to and including `spec_end()`.
pub trait RangeArgument {
    /// The inclusive lower bound.
    spec fn spec_start(&self) -> usize;

    /// The inclusive upper bound; `usize::MAX` stands for "unbounded".
    spec fn spec_end(&self) -> usize;

    /// When the bounds can be computed.
    spec fn wf(&self) -> bool;

    /// The inclusive lower bound.
    fn lower(&self) -> (r: usize)
        requires
            self.wf(),
        ensures
            r == self.spec_start(),
    ;

    /// The inclusive upper bound.
    fn upper(&self) -> (r: usize)
        requires
            self.wf(),
        ensures
            r == self.spec_end(),
    ;
}

impl RangeArgument for core::ops::Range<usize> {
    open spec fn spec_start(&self) -> usize {
        self.start
    }

    open spec fn spec_end(&self) -> usize {
        (self.end - 1) as usize
    }

    open spec fn wf(&self) -> bool {
        self.end >= 1
    }

    fn lower(&self) -> usize {
        self.start
    }

    fn upper(&self) -> usize {
        self.end - 1
    }
}

/// The type `a..`, which std declares and vstd does not: declaring it here
/// makes its `start` field visible to specifications.
#[verifier::external_type_specification]
#[verifier::reject_recursive_types(Idx)]
pub struct ExRangeFrom<Idx>(core::ops::RangeFrom<Idx>);

impl RangeArgument for core::ops::RangeFrom<usize> {
    open spec fn spec_start(&self) -> usize {
        self.start
    }

    open spec fn spec_end(&self) -> usize {
        usize::MAX
    }

    open spec fn wf(&self) -> bool {
        true
    }

    fn lower(&self) -> usize {
        self.start
    }

    fn upper(&self) -> usize {
        usize::MAX
    }
}

/// Relies on RangeInclusive::start: it returns the lower bound the range
/// was created with.
pub assume_specification<Idx>[ core::ops::RangeInclusive::<Idx>::start ](
    r: &core::ops::RangeInclusive<Idx>,
) -> (ret: &Idx)
    ensures
        *ret == r@.start,
;

/// Relies on RangeInclusive::end: it returns the upper bound the range was
/// created with.
pub assume_specification<Idx>[ core::ops::RangeInclusive::<Idx>::end ](
    r: &core::ops::RangeInclusive<Idx>,
) -> (ret: &Idx)
    ensures
        *ret == r@.end,
;

impl RangeArgument for core::ops::RangeInclusive<usize> {
    open spec fn spec_start(&self) -> usize {
        self@.start
    }

    open spec fn spec_end(&self) -> usize {
        self@.end
    }

    open spec fn wf(&self) -> bool {
        true
    }

    fn lower(&self) -> usize {
        *self.start()
    }

    fn upper(&self) -> usize {
        *self.end()
    }
}

impl RangeArgument for usize {
    open spec fn spec_start(&self) -> usize {
        *self
    }

    open spec fn spec_end(&self) -> usize {
        *self
    }

    open spec fn wf(&self) -> bool {
        true
    }

    fn lower(&self) -> usize {
        *self
    }

    fn upper(&self) -> usize {
        *self
    }
}

} // verus!
