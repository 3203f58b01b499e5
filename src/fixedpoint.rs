use vstd::prelude::*;

verus! {

/// Number of fractional bits.
pub const FIXED32_SCALE: i32 = 16;

/// `2^FIXED32_SCALE`, the raw value of one.
pub const FIXED32_ONE: i32 = 65536;

const FIXED32_FRACTION_MASK: i32 = 0x0000ffff;

const FIXED32_WHOLE_MASK: i32 = -65536;

/// A signed 16.16 fixed-point number. Its view is the raw integer, whose
/// value as a rational is `raw / 65536`.
#[derive(Clone, Copy, Debug)]
pub struct Fixed32(i32);

impl View for Fixed32 {
    type V = int;

    closed spec fn view(&self) -> int {
        self.0 as int
    }
}

impl Fixed32 {
    /// Wraps a raw 16.16 representation.
    pub fn from_raw(raw: i32) -> (r: Self)
        ensures
            r@ == raw as int,
    {
        Fixed32(raw)
    }

    /// The raw 16.16 representation.
    pub fn raw(self) -> (r: i32)
        ensures
            r as int == self@,
    {
        self.0
    }

    /// The fixed-point number equal to `input`. The integer is shifted into
    /// the whole bits, so one outside the 16 whole bits wraps around.
    pub fn from_i32(input: i32) -> (r: Self)
        ensures
            r@ == vstd::wrapping::i32_specs::wrapping_mul(input, FIXED32_ONE) as int,
            -32768 <= input <= 32767 ==> r@ == input as int * 65536,
    {
        proof {
            if -32768 <= input <= 32767 {
                let x = input as int * 65536;
                if x < 0 {
                    vstd::arithmetic::div_mod::lemma_fundamental_div_mod_converse(
                        x,
                        0x1_0000_0000,
                        -1,
                        x + 0x1_0000_0000,
                    );
                } else {
                    vstd::arithmetic::div_mod::lemma_small_mod(x as nat, 0x1_0000_0000);
                }
            }
        }
        Fixed32(input.wrapping_mul(FIXED32_ONE))
    }

    /// The integer part, rounded toward negative infinity.
    pub fn to_i32(self) -> (r: i32)
        ensures
            r as int == self@ / 65536,
    {
        let x = self.0;
        proof {
            lemma_shr_floor(x);
        }
        x >> FIXED32_SCALE
    }

    /// The fractional bits alone: `self - floor(self)`, never negative.
    pub fn fraction_part(self) -> (r: Self)
        ensures
            r@ == self@ % 65536,
            0 <= r@ < 65536,
    {
        let x = self.0;
        proof {
            lemma_low_bits(x);
        }
        Fixed32(x & FIXED32_FRACTION_MASK)
    }

    /// The value with its fractional bits cleared: `floor(self)`.
    pub fn whole_part(self) -> (r: Self)
        ensures
            r@ == self@ - self@ % 65536,
            r@ % 65536 == 0,
    {
        let x = self.0;
        proof {
            lemma_low_bits(x);
            lemma_high_bits(x);
        }
        Fixed32(x & FIXED32_WHOLE_MASK)
    }

    /// Sum; the result must be representable.
    pub fn plus(self, other: Self) -> (r: Self)
        requires
            i32::MIN <= self@ + other@ <= i32::MAX,
        ensures
            r@ == self@ + other@,
    {
        Fixed32(self.0 + other.0)
    }

    /// Difference; the result must be representable.
    pub fn minus(self, other: Self) -> (r: Self)
        requires
            i32::MIN <= self@ - other@ <= i32::MAX,
        ensures
            r@ == self@ - other@,
    {
        Fixed32(self.0 - other.0)
    }

    /// Quotient of the raw representations, truncated toward zero.
    pub fn divide(self, other: Self) -> (r: Self)
        requires
            other@ != 0,
            !(self@ == i32::MIN && other@ == -1),
        ensures
            r@ == trunc_div(self@, other@),
    {
        let a = self.0;
        let b = other.0;
        let ua: u32 = if a < 0 { (-(a as i64)) as u32 } else { a as u32 };
        let ub: u32 = if b < 0 { (-(b as i64)) as u32 } else { b as u32 };
        let uq = ua / ub;
        proof {
            vstd::arithmetic::div_mod::lemma_div_is_ordered_by_denominator(ua as int, 1, ub as int);
            if ub >= 2 {
                vstd::arithmetic::div_mod::lemma_div_is_ordered_by_denominator(ua as int, 2, ub as int);
            }
        }
        let q: i32 = if (a < 0) == (b < 0) { uq as i32 } else { (-(uq as i64)) as i32 };
        Fixed32(q)
    }
}

/// Absolute value.
pub open spec fn abs(a: int) -> int {
    if a < 0 {
        -a
    } else {
        a
    }
}

/// Integer division rounding toward zero.
pub open spec fn trunc_div(a: int, b: int) -> int {
    if (a < 0) == (b < 0) {
        abs(a) / abs(b)
    } else {
        -(abs(a) / abs(b))
    }
}

/// Splits a raw value into its high and low sixteen bits.
proof fn lemma_split(x: i32)
    ensures
        (x >> 16u32) as int * 65536 + (x & 0xffffi32) as int == x as int,
        0 <= (x & 0xffffi32) < 65536,
        (x & -65536i32) as int == (x >> 16u32) as int * 65536,
{
    assert(0 <= (x & 0xffffi32) < 65536) by (bit_vector);
    assert(((x >> 16u32) as i64) * 65536i64 + ((x & 0xffffi32) as i64) == x as i64) by (bit_vector);
    assert(((x & -65536i32) as i64) == ((x >> 16u32) as i64) * 65536i64) by (bit_vector);
}

proof fn lemma_shr_floor(x: i32)
    ensures
        (x >> 16u32) as int == x as int / 65536,
{
    lemma_split(x);
    vstd::arithmetic::div_mod::lemma_fundamental_div_mod_converse(
        x as int, 65536, (x >> 16u32) as int, (x & 0xffffi32) as int);
}

proof fn lemma_low_bits(x: i32)
    ensures
        (x & 0xffffi32) as int == x as int % 65536,
{
    lemma_split(x);
    vstd::arithmetic::div_mod::lemma_fundamental_div_mod_converse(
        x as int, 65536, (x >> 16u32) as int, (x & 0xffffi32) as int);
}

proof fn lemma_high_bits(x: i32)
    ensures
        (x & -65536i32) as int == x as int - (x & 0xffffi32) as int,
{
    lemma_split(x);
}

} // verus!
