//! Decimal fixed-point scalars with nine fractional digits.

use vstd::prelude::*;

verus! {

/// The raw value of the scalar one: a scalar counts billionths.
pub const ONE: i64 = 1_000_000_000;

/// The nearest value to `x` that an `i64` can hold.
pub open spec fn saturate(x: int) -> int {
    if x < i64::MIN {
        i64::MIN as int
    } else if x > i64::MAX {
        i64::MAX as int
    } else {
        x
    }
}

/// The quotient of `n` by a positive `d`, rounded toward zero.
pub open spec fn trunc_div(n: int, d: int) -> int {
    if n >= 0 {
        n / d
    } else {
        -((-n) / d)
    }
}

/// The absolute value of `x`.
pub open spec fn magnitude(x: int) -> int {
    if x >= 0 {
        x
    } else {
        -x
    }
}

/// The raw value of the product of two scalars given by their raw values:
/// the exact product rounded toward zero, then saturated.
pub open spec fn scaled_product(a: int, b: int) -> int {
    saturate(trunc_div(a * b, ONE as int))
}

/// A signed fixed-point number: `raw` billionths.
#[derive(Clone, Copy, Debug, PartialEq, Eq, Structural)]
pub struct Fixed {
    pub raw: i64,
}

impl View for Fixed {
    type V = int;

    open spec fn view(&self) -> int {
        self.raw as int
    }
}

/// The magnitude of `x` as an unsigned number.
pub fn abs_u64(x: i64) -> (m: u64)
    ensures
        m == magnitude(x as int),
{
    if x >= 0 {
        x as u64
    } else {
        (-(x as i128)) as u64
    }
}

/// The `i64` nearest to `x`.
pub fn saturate_i128(x: i128) -> (r: i64)
    ensures
        r == saturate(x as int),
{
    if x < i64::MIN as i128 {
        i64::MIN
    } else if x > i64::MAX as i128 {
        i64::MAX
    } else {
        x as i64
    }
}

impl Fixed {
    /// The scalar with the given raw value.
    pub fn from_raw(raw: i64) -> (r: Fixed)
        ensures
            r@ == raw,
    {
        Fixed { raw }
    }

    /// The sum, saturated.
    pub fn add(self, rhs: Fixed) -> (r: Fixed)
        ensures
            r@ == saturate(self@ + rhs@),
    {
        Fixed { raw: saturate_i128(self.raw as i128 + rhs.raw as i128) }
    }

    /// The difference, saturated.
    pub fn sub(self, rhs: Fixed) -> (r: Fixed)
        ensures
            r@ == saturate(self@ - rhs@),
    {
        Fixed { raw: saturate_i128(self.raw as i128 - rhs.raw as i128) }
    }

    /// The negation, saturated.
    pub fn neg(self) -> (r: Fixed)
        ensures
            r@ == saturate(-self@),
    {
        Fixed { raw: saturate_i128(-(self.raw as i128)) }
    }

    /// The product, rounded toward zero and saturated.
    pub fn mul(self, rhs: Fixed) -> (r: Fixed)
        ensures
            r@ == scaled_product(self@, rhs@),
    {
        let a: u128 = abs_u64(self.raw) as u128;
        let b: u128 = abs_u64(rhs.raw) as u128;
        assert(a * b <= 0x8000_0000_0000_0000 * 0x8000_0000_0000_0000) by (nonlinear_arith)
            requires
                0 <= a <= 0x8000_0000_0000_0000,
                0 <= b <= 0x8000_0000_0000_0000,
        ;
        let q: u128 = (a * b) / (ONE as u128);
        let negative = (self.raw < 0) != (rhs.raw < 0);
        proof {
            let x = self@;
            let y = rhs@;
            assert(magnitude(x) * magnitude(y) == magnitude(x * y)) by (nonlinear_arith);
            assert(negative ==> x * y <= 0) by (nonlinear_arith)
                requires
                    negative == ((x < 0) != (y < 0)),
            ;
            assert(!negative ==> x * y >= 0) by (nonlinear_arith)
                requires
                    negative == ((x < 0) != (y < 0)),
            ;
        }
        if negative {
            Fixed { raw: saturate_i128(-(q as i128)) }
        } else {
            Fixed { raw: saturate_i128(q as i128) }
        }
    }
}

} // verus!
