use vstd::prelude::*;
use crate::rank_math::abs_val;

verus! {

/// A difference seen through its magnitude: wrappers are compared and sorted
/// by the absolute value of `value`, whatever its sign.
#[derive(Clone, Copy, Debug)]
pub struct AbsWrapper {
    pub value: i128,
}

impl From<i128> for AbsWrapper {
    fn from(value: i128) -> Self {
        AbsWrapper { value }
    }
}

impl vstd::std_specs::convert::FromSpecImpl<i128> for AbsWrapper {
    open spec fn obeys_from_spec() -> bool {
        true
    }

    open spec fn from_spec(v: i128) -> Self {
        AbsWrapper { value: v }
    }
}

/// Radix key of a difference: twice its magnitude, plus one when it is
/// negative. Keys ascend with the magnitude.
pub open spec fn radix_key_of(v: i128) -> u128 {
    (2 * abs_val(v) + if v < 0 { 1int } else { 0int }) as u128
}

/// The difference that a radix key stands for.
pub open spec fn from_radix_key(k: u128) -> i128 {
    if k % 2 == 1 {
        -((k / 2) as int) as i128
    } else {
        (k / 2) as i128
    }
}

impl PartialEq for AbsWrapper {
    fn eq(&self, other: &AbsWrapper) -> bool {
        self.key() == other.key()
    }
}

impl vstd::std_specs::cmp::PartialEqSpecImpl for AbsWrapper {
    open spec fn obeys_eq_spec() -> bool {
        true
    }

    open spec fn eq_spec(&self, other: &AbsWrapper) -> bool {
        abs_val(self.value) == abs_val(other.value)
    }
}

impl PartialOrd for AbsWrapper {
    fn partial_cmp(&self, other: &AbsWrapper) -> Option<core::cmp::Ordering> {
        let a = self.key();
        let b = other.key();
        if a < b {
            Some(core::cmp::Ordering::Less)
        } else if a > b {
            Some(core::cmp::Ordering::Greater)
        } else {
            Some(core::cmp::Ordering::Equal)
        }
    }
}

impl vstd::std_specs::cmp::PartialOrdSpecImpl for AbsWrapper {
    open spec fn obeys_partial_cmp_spec() -> bool {
        true
    }

    open spec fn partial_cmp_spec(&self, other: &AbsWrapper) -> Option<core::cmp::Ordering> {
        if abs_val(self.value) < abs_val(other.value) {
            Some(core::cmp::Ordering::Less)
        } else if abs_val(self.value) > abs_val(other.value) {
            Some(core::cmp::Ordering::Greater)
        } else {
            Some(core::cmp::Ordering::Equal)
        }
    }
}

impl AbsWrapper {
    /// The magnitude, which orders wrappers.
    pub fn key(&self) -> (r: u128)
        ensures
            r == abs_val(self.value),
    {
        if self.value < 0 {
            (-(self.value + 1)) as u128 + 1
        } else {
            self.value as u128
        }
    }

    /// Compares two wrappers by magnitude.
    pub fn le_abs(&self, other: &AbsWrapper) -> (r: bool)
        ensures
            r == (abs_val(self.value) <= abs_val(other.value)),
    {
        self.key() <= other.key()
    }

    /// Key under which a radix sort orders the wrapped difference by magnitude,
    /// keeping its sign recoverable.
    pub fn radix_key(&self) -> (r: u128)
        requires
            self.value > i128::MIN,
        ensures
            r == radix_key_of(self.value),
            from_radix_key(r) == self.value,
    {
        let m = self.key();
        if self.value < 0 {
            2 * m + 1
        } else {
            2 * m
        }
    }

    /// Recovers a difference from its radix key.
    pub fn from_radix_key(k: u128) -> (r: AbsWrapper)
        ensures
            r.value == from_radix_key(k),
            abs_val(r.value) == k / 2,
    {
        let half = (k / 2) as i128;
        if k % 2 == 1 {
            AbsWrapper { value: -half }
        } else {
            AbsWrapper { value: half }
        }
    }
}

} // verus!
