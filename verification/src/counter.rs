//! A small signed counter that saturates at both ends of a fixed range.

use vstd::prelude::*;

verus! {

/// Where a [`SaturatedI8`] stands in its range.
#[derive(Debug, PartialEq, Eq, Structural, Clone, Copy)]
pub enum CounterState {
    NotSaturated,
    SaturatedDown,
    SaturatedUp,
}

/// `v` brought into `low..=high` (for `low <= high`).
pub open spec fn clamp(v: int, low: int, high: int) -> int {
    if v < low {
        low
    } else if v > high {
        high
    } else {
        v
    }
}

/// An `i8` that never leaves the range `-LOW ..= HIGH`.
///
/// The bounds are magnitudes: `SaturatedI8<2, 2>` counts between `-2` and `2`.
/// It starts at `0`, which lies in every such range.
#[derive(Debug, Clone, Copy)]
pub struct SaturatedI8<const LOW: u8, const HIGH: u8>(i8);

impl<const LOW: u8, const HIGH: u8> SaturatedI8<LOW, HIGH> {
    /// The least value of the counter: `-LOW`, as far as an `i8` can hold it.
    pub open spec fn low() -> int {
        if LOW > 128 {
            -128
        } else {
            -(LOW as int)
        }
    }

    /// The greatest value of the counter: `HIGH`, as far as an `i8` can hold it.
    pub open spec fn high() -> int {
        if HIGH > 127 {
            127
        } else {
            HIGH as int
        }
    }

    /// The number the counter holds.
    pub closed spec fn value(&self) -> int {
        self.0 as int
    }

    /// The counter is inside its range.
    pub open spec fn wf(&self) -> bool {
        Self::low() <= self.value() <= Self::high()
    }

    /// What `state` answers for a counter that holds `v`.
    pub open spec fn state_of(v: int) -> CounterState {
        if v == Self::low() {
            CounterState::SaturatedDown
        } else if v == Self::high() {
            CounterState::SaturatedUp
        } else {
            CounterState::NotSaturated
        }
    }

    /// A counter at zero.
    pub fn new() -> (c: Self)
        ensures
            c.wf(),
            c.value() == 0,
    {
        SaturatedI8(0)
    }

    fn low_bound() -> (b: i16)
        ensures
            b == Self::low(),
    {
        if LOW > 128 {
            -128
        } else {
            -(LOW as i16)
        }
    }

    fn high_bound() -> (b: i16)
        ensures
            b == Self::high(),
    {
        if HIGH > 127 {
            127
        } else {
            HIGH as i16
        }
    }

    /// Raises the counter by `rhs`, stopping at the ends of the range.
    pub fn add_assign(&mut self, rhs: i8)
        requires
            old(self).wf(),
        ensures
            final(self).wf(),
            final(self).value() == clamp(old(self).value() + rhs, Self::low(), Self::high()),
    {
        let sum: i16 = self.0 as i16 + rhs as i16;
        self.0 = Self::clamped(sum);
    }

    /// Lowers the counter by `rhs`, stopping at the ends of the range.
    pub fn sub_assign(&mut self, rhs: i8)
        requires
            old(self).wf(),
        ensures
            final(self).wf(),
            final(self).value() == clamp(old(self).value() - rhs, Self::low(), Self::high()),
    {
        let difference: i16 = self.0 as i16 - rhs as i16;
        self.0 = Self::clamped(difference);
    }

    fn clamped(v: i16) -> (r: i8)
        ensures
            r == clamp(v as int, Self::low(), Self::high()),
    {
        let low = Self::low_bound();
        let high = Self::high_bound();
        if v < low {
            low as i8
        } else if v > high {
            high as i8
        } else {
            v as i8
        }
    }

    /// Tells whether the counter stands at one end of its range.
    pub fn state(&self) -> (s: CounterState)
        ensures
            s == Self::state_of(self.value()),
    {
        let v = self.0 as i16;
        if v == Self::low_bound() {
            CounterState::SaturatedDown
        } else if v == Self::high_bound() {
            CounterState::SaturatedUp
        } else {
            CounterState::NotSaturated
        }
    }
}

impl<const LOW: u8, const HIGH: u8> Default for SaturatedI8<LOW, HIGH> {
    fn default() -> (c: Self)
        ensures
            c.wf(),
            c.value() == 0,
    {
        SaturatedI8(0)
    }
}

} // verus!
