//! Wrapping arithmetic on single bytes, shared by the framing and the
//! diffusion layers.
use vstd::prelude::*;

verus! {

/// `a + b` with 8-bit wraparound.
pub open spec fn w_add(a: u8, b: u8) -> u8 {
    ((a + b) % 256) as u8
}

/// `a - b` with 8-bit wraparound.
pub open spec fn w_sub(a: u8, b: u8) -> u8 {
    ((256 + a - b) % 256) as u8
}

/// Wrapping addition and subtraction on bytes cancel each other.
pub proof fn lemma_w_cancel(a: u8, b: u8)
    by (bit_vector)
    ensures
        w_sub(w_add(a, b), a) == b,
        w_sub(w_add(a, b), b) == a,
        w_add(a, w_sub(b, a)) == b,
        w_add(w_sub(a, b), b) == a,
{
}

/// Xoring the same byte twice restores the original value.
pub proof fn lemma_xor_cancel(a: u8, b: u8)
    by (bit_vector)
    ensures
        (a ^ b) ^ b == a,
        a ^ (a ^ b) == b,
        (a ^ b) ^ a == b,
{
}

/// `a + b` with 8-bit wraparound, executable.
pub fn wadd(a: u8, b: u8) -> (r: u8)
    ensures
        r == w_add(a, b),
{
    (((a as u16) + (b as u16)) % 256) as u8
}

/// `a - b` with 8-bit wraparound, executable.
pub fn wsub(a: u8, b: u8) -> (r: u8)
    ensures
        r == w_sub(a, b),
{
    ((256u16 + (a as u16) - (b as u16)) % 256) as u8
}

} // verus!
