//! Running-minimum and running-maximum updates in one call, reporting
//! whether the held value changed.

use vstd::prelude::*;

verus! {

/// A value that can be lowered toward a minimum or raised toward a
/// maximum, reporting whether it moved.
pub trait ChangeMinMax: Sized {
    /// The strict order the two updates compare by.
    spec fn lt_spec(&self, other: &Self) -> bool;

    /// Replaces `self` by `v` when `v` is strictly smaller.
    fn change_min(&mut self, v: Self) -> (r: bool)
        ensures
            r == v.lt_spec(old(self)),
            r ==> *final(self) == v,
            !r ==> *final(self) == *old(self),
    ;

    /// Replaces `self` by `v` when `v` is strictly larger.
    fn change_max(&mut self, v: Self) -> (r: bool)
        ensures
            r == old(self).lt_spec(&v),
            r ==> *final(self) == v,
            !r ==> *final(self) == *old(self),
    ;
}

impl ChangeMinMax for u64 {
    open spec fn lt_spec(&self, other: &Self) -> bool {
        *self < *other
    }

    fn change_min(&mut self, v: Self) -> (r: bool) {
        if v < *self {
            *self = v;
            true
        } else {
            false
        }
    }

    fn change_max(&mut self, v: Self) -> (r: bool) {
        if *self < v {
            *self = v;
            true
        } else {
            false
        }
    }
}

impl ChangeMinMax for u128 {
    open spec fn lt_spec(&self, other: &Self) -> bool {
        *self < *other
    }

    fn change_min(&mut self, v: Self) -> (r: bool) {
        if v < *self {
            *self = v;
            true
        } else {
            false
        }
    }

    fn change_max(&mut self, v: Self) -> (r: bool) {
        if *self < v {
            *self = v;
            true
        } else {
            false
        }
    }
}

impl ChangeMinMax for usize {
    open spec fn lt_spec(&self, other: &Self) -> bool {
        *self < *other
    }

    fn change_min(&mut self, v: Self) -> (r: bool) {
        if v < *self {
            *self = v;
            true
        } else {
            false
        }
    }

    fn change_max(&mut self, v: Self) -> (r: bool) {
        if *self < v {
            *self = v;
            true
        } else {
            false
        }
    }
}

} // verus!
