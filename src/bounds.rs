use crate::date::{date_le, date_lt, Date};
use vstd::prelude::*;

verus! {

/// One end of a range: inclusive, exclusive, or open.
#[derive(Clone, Copy, Debug, PartialEq, Eq, Structural)]
pub enum Bound<B> {
    Included(B),
    Excluded(B),
    Unbounded,
}

/// A lower and an upper bound.
pub type Bounds<B> = (Bound<B>, Bound<B>);

/// The range that holds every value.
pub fn unbounded<B>() -> (r: Bounds<B>)
    ensures
        r.0 is Unbounded,
        r.1 is Unbounded,
{
    (Bound::Unbounded, Bound::Unbounded)
}

pub open spec fn above_lower(b: Bound<Date>, d: Date) -> bool {
    match b {
        Bound::Included(x) => date_le(x, d),
        Bound::Excluded(x) => date_lt(x, d),
        Bound::Unbounded => true,
    }
}

pub open spec fn below_upper(b: Bound<Date>, d: Date) -> bool {
    match b {
        Bound::Included(x) => date_le(d, x),
        Bound::Excluded(x) => date_lt(d, x),
        Bound::Unbounded => true,
    }
}

/// The date lies within both bounds.
pub open spec fn in_bounds(b: Bounds<Date>, d: Date) -> bool {
    above_lower(b.0, d) && below_upper(b.1, d)
}

/// Whether the date lies within both bounds.
pub fn contains_date(b: &Bounds<Date>, d: &Date) -> (r: bool)
    ensures
        r == in_bounds(*b, *d),
{
    let lower = match &b.0 {
        Bound::Included(x) => x.le(d),
        Bound::Excluded(x) => x.lt(d),
        Bound::Unbounded => true,
    };
    let upper = match &b.1 {
        Bound::Included(x) => d.le(x),
        Bound::Excluded(x) => d.lt(x),
        Bound::Unbounded => true,
    };
    lower && upper
}

/// A date lies within a range whose lower bound includes that very date, and
/// outside one whose lower bound excludes it; the same holds of upper bounds.
pub proof fn lemma_bound_edges(d: Date)
    ensures
        in_bounds((Bound::Included(d), Bound::Unbounded), d),
        !in_bounds((Bound::Excluded(d), Bound::Unbounded), d),
        in_bounds((Bound::Unbounded, Bound::Included(d)), d),
        !in_bounds((Bound::Unbounded, Bound::Excluded(d)), d),
{
}

} // verus!
