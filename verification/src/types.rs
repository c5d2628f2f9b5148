//! Small integer-conversion helpers shared across the generation code.

use vstd::prelude::*;

verus! {

/// Lossless or clamped conversion into `usize`.
pub trait IntoUsize {
    /// Mathematical value of the conversion result.
    spec fn usize_value(self) -> int;

    fn into_usize(self) -> (r: usize)
        ensures
            r as int == self.usize_value(),
    ;
}

impl IntoUsize for u32 {
    open spec fn usize_value(self) -> int {
        self as int
    }

    fn into_usize(self) -> (r: usize)
        ensures
            r as int == self.usize_value(),
    {
        self as usize
    }
}

/// Conversion into `u32`; values that do not fit become 0.
pub trait IntoU32 {
    /// Mathematical value of the conversion result.
    spec fn u32_value(self) -> int;

    fn into_u32(self) -> (r: u32)
        ensures
            r as int == self.u32_value(),
    ;
}

impl IntoU32 for usize {
    open spec fn u32_value(self) -> int {
        if self <= u32::MAX as usize {
            self as int
        } else {
            0int
        }
    }

    fn into_u32(self) -> (r: u32)
        ensures
            r as int == self.u32_value(),
    {
        if self <= u32::MAX as usize {
            self as u32
        } else {
            0
        }
    }
}

impl IntoU32 for u8 {
    open spec fn u32_value(self) -> int {
        self as int
    }

    fn into_u32(self) -> (r: u32)
        ensures
            r as int == self.u32_value(),
    {
        self as u32
    }
}

} // verus!
