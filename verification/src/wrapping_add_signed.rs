//! Adding a signed delta to an unsigned carrier with two's-complement
//! wraparound: the sum is reduced modulo the carrier's range, adding the
//! delta when it is nonnegative and subtracting its magnitude otherwise.

use vstd::prelude::*;
use vstd::arithmetic::div_mod::{
    lemma_add_mod_noop_right, lemma_fundamental_div_mod_converse_mod, lemma_small_mod,
    lemma_sub_mod_noop_right,
};

verus! {

/// An unsigned carrier that can take a signed delta with wraparound.
pub trait WrappingAddSigned: Sized {
    /// The number of values the carrier can hold.
    spec fn spec_range() -> int;

    /// The carrier value as an integer.
    spec fn spec_value(&self) -> int;

    /// `self + x`, wrapped modulo the carrier's range.
    fn wrapping_add_i32(&self, x: i32) -> (r: Self)
        ensures
            r.spec_value() == (self.spec_value() + x) % Self::spec_range(),
    ;

    /// `self + x`, wrapped modulo the carrier's range.
    fn wrapping_add_i64(&self, x: i64) -> (r: Self)
        ensures
            r.spec_value() == (self.spec_value() + x) % Self::spec_range(),
    ;
}

/// A sum or difference that strays at most one range below zero or above the
/// range reduces by at most one correction.
proof fn lemma_shifted_mod(x: int, r: int)
    requires
        r >= 1,
        -r <= x < 2 * r,
    ensures
        x % r == (if x < 0 { x + r } else if x < r { x } else { x - r }),
{
    if x < 0 {
        lemma_fundamental_div_mod_converse_mod(x, r, -1, x + r);
    } else if x < r {
        lemma_small_mod(x as nat, r as nat);
    } else {
        lemma_fundamental_div_mod_converse_mod(x, r, 1, x - r);
    }
}

/// The magnitude of a negative `i32`, in a carrier wide enough to hold it.
fn mag_of_i32(x: i32) -> (m: u64)
    requires
        x < 0,
    ensures
        m == -(x as int),
{
    if x == i32::MIN {
        0x8000_0000u64
    } else {
        (-x) as u64
    }
}

/// The magnitude of a negative `i64`, in a carrier wide enough to hold it.
fn mag_of_i64(x: i64) -> (m: u64)
    requires
        x < 0,
    ensures
        m == -(x as int),
{
    if x == i64::MIN {
        0x8000_0000_0000_0000u64
    } else {
        (-x) as u64
    }
}

impl WrappingAddSigned for u32 {
    open spec fn spec_range() -> int {
        u32::MAX as int + 1
    }

    open spec fn spec_value(&self) -> int {
        *self as int
    }

    fn wrapping_add_i32(&self, x: i32) -> (r: u32) {
        proof {
            lemma_shifted_mod(*self + x, Self::spec_range());
        }
        if x >= 0 {
            self.wrapping_add(x as u32)
        } else {
            let mag = mag_of_i32(x);
            self.wrapping_sub(mag as u32)
        }
    }

    fn wrapping_add_i64(&self, x: i64) -> (r: u32) {
        if x >= 0 {
            let xr = (x as u64) % 0x1_0000_0000u64;
            proof {
                lemma_shifted_mod(*self + xr, Self::spec_range());
                lemma_add_mod_noop_right(*self as int, x as int, Self::spec_range());
            }
            self.wrapping_add(xr as u32)
        } else {
            let mag = mag_of_i64(x);
            let mr = mag % 0x1_0000_0000u64;
            proof {
                lemma_shifted_mod(*self - mr, Self::spec_range());
                lemma_sub_mod_noop_right(*self as int, mag as int, Self::spec_range());
            }
            self.wrapping_sub(mr as u32)
        }
    }
}

impl WrappingAddSigned for u64 {
    open spec fn spec_range() -> int {
        u64::MAX as int + 1
    }

    open spec fn spec_value(&self) -> int {
        *self as int
    }

    fn wrapping_add_i32(&self, x: i32) -> (r: u64) {
        proof {
            lemma_shifted_mod(*self + x, Self::spec_range());
        }
        if x >= 0 {
            self.wrapping_add(x as u64)
        } else {
            let mag = mag_of_i32(x);
            self.wrapping_sub(mag)
        }
    }

    fn wrapping_add_i64(&self, x: i64) -> (r: u64) {
        proof {
            lemma_shifted_mod(*self + x, Self::spec_range());
        }
        if x >= 0 {
            self.wrapping_add(x as u64)
        } else {
            let mag = mag_of_i64(x);
            self.wrapping_sub(mag)
        }
    }
}

impl WrappingAddSigned for usize {
    open spec fn spec_range() -> int {
        usize::MAX as int + 1
    }

    open spec fn spec_value(&self) -> int {
        *self as int
    }

    fn wrapping_add_i32(&self, x: i32) -> (r: usize) {
        proof {
            lemma_shifted_mod(*self + x, Self::spec_range());
        }
        if x >= 0 {
            self.wrapping_add(x as usize)
        } else {
            let mag = mag_of_i32(x);
            self.wrapping_sub(mag as usize)
        }
    }

    fn wrapping_add_i64(&self, x: i64) -> (r: usize) {
        let cap: u64 = usize::MAX as u64;
        if x >= 0 {
            let xv = x as u64;
            let xr: u64 = if cap == u64::MAX {
                xv
            } else {
                xv % (cap + 1)
            };
            proof {
                if cap == u64::MAX {
                    lemma_small_mod(xv as nat, Self::spec_range() as nat);
                }
                lemma_shifted_mod(*self + xr, Self::spec_range());
                lemma_add_mod_noop_right(*self as int, x as int, Self::spec_range());
            }
            self.wrapping_add(xr as usize)
        } else {
            let mag = mag_of_i64(x);
            let mr: u64 = if cap == u64::MAX {
                mag
            } else {
                mag % (cap + 1)
            };
            proof {
                if cap == u64::MAX {
                    lemma_small_mod(mag as nat, Self::spec_range() as nat);
                }
                lemma_shifted_mod(*self - mr, Self::spec_range());
                lemma_sub_mod_noop_right(*self as int, mag as int, Self::spec_range());
            }
            self.wrapping_sub(mr as usize)
        }
    }
}

} // verus!
