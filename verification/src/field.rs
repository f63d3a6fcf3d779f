//! Field elements as the bookkeeping in this crate carries them: 256-bit
//! words, low half first. No arithmetic is done on them here.
use vstd::prelude::*;

verus! {

/// An element of the scalar field, as its 256-bit little-endian representation.
#[derive(Clone, Copy, Debug, PartialEq, Eq, Structural)]
pub struct Field {
    pub low: u128,
    pub high: u128,
}

impl Field {
    /// The field element one.
    pub fn one() -> (r: Field)
        ensures
            r == (Field { low: 1, high: 0 }),
    {
        Field { low: 1, high: 0 }
    }

    /// The field element whose bits are the 64 bits of `v` (two's complement
    /// for a negative `v`), as a 64-bit integer of a circuit is read as a field element.
    pub fn from_i64_bits(v: i64) -> (r: Field)
        ensures
            r.high == 0,
            r.low as int == (if v < 0 {
                v + 0x1_0000_0000_0000_0000
            } else {
                v as int
            }),
    {
        if v < 0 {
            let magnitude_minus_one = (-(v + 1)) as u128;
            Field { low: 0xffff_ffff_ffff_ffff - magnitude_minus_one, high: 0 }
        } else {
            Field { low: v as u128, high: 0 }
        }
    }
}

/// Copies a vector of field elements.
pub fn copy_elements(v: &Vec<Field>) -> (r: Vec<Field>)
    ensures
        r@ == v@,
{
    let mut r: Vec<Field> = Vec::new();
    let mut k: usize = 0;
    while k < v.len()
        invariant
            k <= v.len(),
            r@ == v@.subrange(0, k as int),
        decreases v.len() - k,
    {
        r.push(v[k]);
        k += 1;
    }
    assert(v@.subrange(0, v.len() as int) == v@);
    r
}

} // verus!
