//! The diffusion transform: a fixed sequence of byte-wise passes over an
//! aligned buffer, built so that applying the whole transform twice restores
//! the original buffer.
//!
//! The transform is `reverse(flip(forward(x)))`, where `forward` is six
//! passes, `reverse` their exact inverses in opposite order, and `flip` a
//! self-inverse middle pass. Expanding `mix(mix(x))` cancels pass against
//! inverse from the inside out, which makes the whole transform an
//! involution.
use vstd::prelude::*;

use crate::bytes::{w_add, w_sub, wadd, wsub, lemma_w_cancel, lemma_xor_cancel};

verus! {

// ---------------------------------------------------------------- pass 1
/// Running head-to-tail prefix sum: element `i` of the result is the
/// wrapping sum of the first `i + 1` input bytes.
pub open spec fn h2t_at(x: Seq<u8>, i: int) -> u8
    decreases i,
{
    if i <= 0 {
        x[i]
    } else {
        w_add(h2t_at(x, i - 1), x[i])
    }
}

pub open spec fn pass_h2t(x: Seq<u8>) -> Seq<u8> {
    Seq::new(x.len(), |i: int| h2t_at(x, i))
}

/// Inverse of the prefix sum: each element minus its untouched predecessor.
pub open spec fn pass_h2t_rev(y: Seq<u8>) -> Seq<u8> {
    Seq::new(
        y.len(),
        |i: int|
            if i <= 0 {
                y[i]
            } else {
                w_sub(y[i], y[i - 1])
            },
    )
}

pub proof fn lemma_h2t_rev_of_h2t(x: Seq<u8>)
    ensures
        pass_h2t_rev(pass_h2t(x)) == x,
{
    let y = pass_h2t(x);
    assert forall|i: int| 0 <= i < x.len() implies pass_h2t_rev(y)[i] == x[i] by {
        if i > 0 {
            lemma_w_cancel(h2t_at(x, i - 1), x[i]);
        }
    }
    assert(pass_h2t_rev(pass_h2t(x)) =~= x);
}

proof fn lemma_h2t_at_of_rev(y: Seq<u8>, i: int)
    requires
        0 <= i < y.len(),
    ensures
        h2t_at(pass_h2t_rev(y), i) == y[i],
    decreases i,
{
    if i > 0 {
        lemma_h2t_at_of_rev(y, i - 1);
        lemma_w_cancel(y[i - 1], y[i]);
    }
}

pub proof fn lemma_h2t_of_rev(y: Seq<u8>)
    ensures
        pass_h2t(pass_h2t_rev(y)) == y,
{
    assert forall|i: int| 0 <= i < y.len() implies pass_h2t(pass_h2t_rev(y))[i] == y[i] by {
        lemma_h2t_at_of_rev(y, i);
    }
    assert(pass_h2t(pass_h2t_rev(y)) =~= y);
}

// ---------------------------------------------------------------- pass 2
/// Up-to-down prefix xor with stride three: element `i` is xored with the
/// already-updated element three before it.
pub open spec fn u2d3_at(x: Seq<u8>, i: int) -> u8
    decreases i,
{
    if i < 3 {
        x[i]
    } else {
        x[i] ^ u2d3_at(x, i - 3)
    }
}

pub open spec fn pass_u2d3(x: Seq<u8>) -> Seq<u8> {
    Seq::new(x.len(), |i: int| u2d3_at(x, i))
}

pub open spec fn pass_u2d3_rev(y: Seq<u8>) -> Seq<u8> {
    Seq::new(
        y.len(),
        |i: int|
            if i < 3 {
                y[i]
            } else {
                y[i] ^ y[i - 3]
            },
    )
}

pub proof fn lemma_u2d3_rev_of_u2d3(x: Seq<u8>)
    ensures
        pass_u2d3_rev(pass_u2d3(x)) == x,
{
    let y = pass_u2d3(x);
    assert forall|i: int| 0 <= i < x.len() implies pass_u2d3_rev(y)[i] == x[i] by {
        if i >= 3 {
            lemma_xor_cancel(x[i], u2d3_at(x, i - 3));
        }
    }
    assert(pass_u2d3_rev(pass_u2d3(x)) =~= x);
}

proof fn lemma_u2d3_at_of_rev(y: Seq<u8>, i: int)
    requires
        0 <= i < y.len(),
    ensures
        u2d3_at(pass_u2d3_rev(y), i) == y[i],
    decreases i,
{
    if i >= 3 {
        lemma_u2d3_at_of_rev(y, i - 3);
        lemma_xor_cancel(y[i], y[i - 3]);
    }
}

pub proof fn lemma_u2d3_of_rev(y: Seq<u8>)
    ensures
        pass_u2d3(pass_u2d3_rev(y)) == y,
{
    assert forall|i: int| 0 <= i < y.len() implies pass_u2d3(pass_u2d3_rev(y))[i] == y[i] by {
        lemma_u2d3_at_of_rev(y, i);
    }
    assert(pass_u2d3(pass_u2d3_rev(y)) =~= y);
}

// ---------------------------------------------------------------- pass 3
/// Index-keyed additive whitening: each byte gets its index added, with
/// 8-bit wraparound.
pub open spec fn pass_addidx(x: Seq<u8>) -> Seq<u8> {
    Seq::new(x.len(), |i: int| w_add(x[i], (i % 256) as u8))
}

pub open spec fn pass_subidx(y: Seq<u8>) -> Seq<u8> {
    Seq::new(y.len(), |i: int| w_sub(y[i], (i % 256) as u8))
}

pub proof fn lemma_subidx_of_addidx(x: Seq<u8>)
    ensures
        pass_subidx(pass_addidx(x)) == x,
{
    assert forall|i: int| 0 <= i < x.len() implies pass_subidx(pass_addidx(x))[i] == x[i] by {
        lemma_w_cancel(x[i], (i % 256) as u8);
    }
    assert(pass_subidx(pass_addidx(x)) =~= x);
}

pub proof fn lemma_addidx_of_subidx(y: Seq<u8>)
    ensures
        pass_addidx(pass_subidx(y)) == y,
{
    assert forall|i: int| 0 <= i < y.len() implies pass_addidx(pass_subidx(y))[i] == y[i] by {
        lemma_w_cancel(y[i], (i % 256) as u8);
    }
    assert(pass_addidx(pass_subidx(y)) =~= y);
}

// ---------------------------------------------------------------- pass 4
/// Rotation angle for block `b`: the odd values 1, 3, 5, 7, cycling.
pub open spec fn blk_shift(b: int) -> u8 {
    ((b % 4) * 2 + 1) as u8
}

/// One byte of a left-rotated big-endian block: `a` shifted left, with the
/// top bits of the following byte `b` carried in.
pub open spec fn rl(a: u8, b: u8, s: u8) -> u8 {
    (a << s) | (b >> (8 - s) as u8)
}

/// One byte of a right-rotated big-endian block: `a` shifted right, with the
/// low bits of the preceding byte `b` carried in.
pub open spec fn rr(a: u8, b: u8, s: u8) -> u8 {
    (a >> s) | (b << (8 - s) as u8)
}

/// Rotating a three-byte block left and then right by the same angle (or the
/// other way round) restores each byte.
proof fn lemma_rot_cancel(a: u8, b: u8, c: u8, s: u8)
    by (bit_vector)
    requires
        1 <= s <= 7,
    ensures
        rr(rl(a, b, s), rl(c, a, s), s) == a,
        rl(rr(a, c, s), rr(b, a, s), s) == a,
{
}

/// Intra-block big-endian left rotation of each three-byte block.
pub open spec fn pass_rotl(x: Seq<u8>) -> Seq<u8> {
    Seq::new(
        x.len(),
        |i: int|
            {
                let b = 3 * (i / 3);
                let s = blk_shift(i / 3);
                if i % 3 == 0 {
                    rl(x[b], x[b + 1], s)
                } else if i % 3 == 1 {
                    rl(x[b + 1], x[b + 2], s)
                } else {
                    rl(x[b + 2], x[b], s)
                }
            },
    )
}

/// Intra-block big-endian right rotation of each three-byte block.
pub open spec fn pass_rotr(y: Seq<u8>) -> Seq<u8> {
    Seq::new(
        y.len(),
        |i: int|
            {
                let b = 3 * (i / 3);
                let s = blk_shift(i / 3);
                if i % 3 == 0 {
                    rr(y[b], y[b + 2], s)
                } else if i % 3 == 1 {
                    rr(y[b + 1], y[b], s)
                } else {
                    rr(y[b + 2], y[b + 1], s)
                }
            },
    )
}

pub proof fn lemma_rotr_of_rotl(x: Seq<u8>)
    requires
        x.len() % 3 == 0,
    ensures
        pass_rotr(pass_rotl(x)) == x,
{
    let y = pass_rotl(x);
    assert forall|i: int| 0 <= i < x.len() implies pass_rotr(y)[i] == x[i] by {
        let b = 3 * (i / 3);
        let s = blk_shift(i / 3);
        assert(b / 3 == i / 3 && (b + 1) / 3 == i / 3 && (b + 2) / 3 == i / 3);
        assert(b % 3 == 0 && (b + 1) % 3 == 1 && (b + 2) % 3 == 2);
        assert(b + 2 < x.len());
        assert(1 <= s <= 7);
        assert(y[b] == rl(x[b], x[b + 1], s));
        assert(y[b + 1] == rl(x[b + 1], x[b + 2], s));
        assert(y[b + 2] == rl(x[b + 2], x[b], s));
        lemma_rot_cancel(x[b], x[b + 1], x[b + 2], s);
        lemma_rot_cancel(x[b + 1], x[b + 2], x[b], s);
        lemma_rot_cancel(x[b + 2], x[b], x[b + 1], s);
    }
    assert(pass_rotr(pass_rotl(x)) =~= x);
}

pub proof fn lemma_rotl_of_rotr(y: Seq<u8>)
    requires
        y.len() % 3 == 0,
    ensures
        pass_rotl(pass_rotr(y)) == y,
{
    let z = pass_rotr(y);
    assert forall|i: int| 0 <= i < y.len() implies pass_rotl(z)[i] == y[i] by {
        let b = 3 * (i / 3);
        let s = blk_shift(i / 3);
        assert(b / 3 == i / 3 && (b + 1) / 3 == i / 3 && (b + 2) / 3 == i / 3);
        assert(b % 3 == 0 && (b + 1) % 3 == 1 && (b + 2) % 3 == 2);
        assert(b + 2 < y.len());
        assert(1 <= s <= 7);
        assert(z[b] == rr(y[b], y[b + 2], s));
        assert(z[b + 1] == rr(y[b + 1], y[b], s));
        assert(z[b + 2] == rr(y[b + 2], y[b + 1], s));
        lemma_rot_cancel(y[b], y[b + 1], y[b + 2], s);
        lemma_rot_cancel(y[b + 1], y[b + 2], y[b], s);
        lemma_rot_cancel(y[b + 2], y[b], y[b + 1], s);
    }
    assert(pass_rotl(pass_rotr(y)) =~= y);
}

// ---------------------------------------------------------------- pass 5
/// Down-to-up prefix sum with stride six: element `i` gets the
/// already-updated element six after it added.
pub open spec fn d2u6_at(x: Seq<u8>, i: int) -> u8
    decreases x.len() - i,
{
    if i + 6 >= x.len() {
        x[i]
    } else {
        w_add(x[i], d2u6_at(x, i + 6))
    }
}

pub open spec fn pass_d2u6(x: Seq<u8>) -> Seq<u8> {
    Seq::new(x.len(), |i: int| d2u6_at(x, i))
}

pub open spec fn pass_d2u6_rev(y: Seq<u8>) -> Seq<u8> {
    Seq::new(
        y.len(),
        |i: int|
            if i + 6 >= y.len() {
                y[i]
            } else {
                w_sub(y[i], y[i + 6])
            },
    )
}

pub proof fn lemma_d2u6_rev_of_d2u6(x: Seq<u8>)
    ensures
        pass_d2u6_rev(pass_d2u6(x)) == x,
{
    let y = pass_d2u6(x);
    assert forall|i: int| 0 <= i < x.len() implies pass_d2u6_rev(y)[i] == x[i] by {
        if i + 6 < x.len() {
            lemma_w_cancel(x[i], d2u6_at(x, i + 6));
        }
    }
    assert(pass_d2u6_rev(pass_d2u6(x)) =~= x);
}

proof fn lemma_d2u6_at_of_rev(y: Seq<u8>, i: int)
    requires
        0 <= i < y.len(),
    ensures
        d2u6_at(pass_d2u6_rev(y), i) == y[i],
    decreases y.len() - i,
{
    if i + 6 < y.len() {
        lemma_d2u6_at_of_rev(y, i + 6);
        lemma_w_cancel(y[i], y[i + 6]);
    }
}

pub proof fn lemma_d2u6_of_rev(y: Seq<u8>)
    ensures
        pass_d2u6(pass_d2u6_rev(y)) == y,
{
    assert forall|i: int| 0 <= i < y.len() implies pass_d2u6(pass_d2u6_rev(y))[i] == y[i] by {
        lemma_d2u6_at_of_rev(y, i);
    }
    assert(pass_d2u6(pass_d2u6_rev(y)) =~= y);
}

// ---------------------------------------------------------------- pass 6
/// Tail-to-head prefix xor: element `i` is xored with the already-updated
/// element after it, so the result is the running suffix xor.
pub open spec fn t2h_at(x: Seq<u8>, i: int) -> u8
    decreases x.len() - i,
{
    if i >= x.len() - 1 {
        x[i]
    } else {
        x[i] ^ t2h_at(x, i + 1)
    }
}

pub open spec fn pass_t2h(x: Seq<u8>) -> Seq<u8> {
    Seq::new(x.len(), |i: int| t2h_at(x, i))
}

pub open spec fn pass_t2h_rev(y: Seq<u8>) -> Seq<u8> {
    Seq::new(
        y.len(),
        |i: int|
            if i >= y.len() - 1 {
                y[i]
            } else {
                y[i] ^ y[i + 1]
            },
    )
}

pub proof fn lemma_t2h_rev_of_t2h(x: Seq<u8>)
    ensures
        pass_t2h_rev(pass_t2h(x)) == x,
{
    let y = pass_t2h(x);
    assert forall|i: int| 0 <= i < x.len() implies pass_t2h_rev(y)[i] == x[i] by {
        if i < x.len() - 1 {
            lemma_xor_cancel(x[i], t2h_at(x, i + 1));
        }
    }
    assert(pass_t2h_rev(pass_t2h(x)) =~= x);
}

proof fn lemma_t2h_at_of_rev(y: Seq<u8>, i: int)
    requires
        0 <= i < y.len(),
    ensures
        t2h_at(pass_t2h_rev(y), i) == y[i],
    decreases y.len() - i,
{
    if i < y.len() - 1 {
        lemma_t2h_at_of_rev(y, i + 1);
        lemma_xor_cancel(y[i], y[i + 1]);
    }
}

pub proof fn lemma_t2h_of_rev(y: Seq<u8>)
    ensures
        pass_t2h(pass_t2h_rev(y)) == y,
{
    assert forall|i: int| 0 <= i < y.len() implies pass_t2h(pass_t2h_rev(y))[i] == y[i] by {
        lemma_t2h_at_of_rev(y, i);
    }
    assert(pass_t2h(pass_t2h_rev(y)) =~= y);
}

// ---------------------------------------------------------------- flip
/// Reversal of the bits of a byte.
pub open spec fn rev8(b: u8) -> u8 {
    let c = ((b & 0xF0u8) >> 4u8) | ((b & 0x0Fu8) << 4u8);
    let d = ((c & 0xCCu8) >> 2u8) | ((c & 0x33u8) << 2u8);
    ((d & 0xAAu8) >> 1u8) | ((d & 0x55u8) << 1u8)
}

proof fn lemma_rev8_involution(b: u8)
    by (bit_vector)
    ensures
        rev8(rev8(b)) == b,
{
}

/// The self-inverse middle pass: in each three-byte block, swap the first
/// and last bytes and reverse the bits of the middle byte.
pub open spec fn pass_flip(x: Seq<u8>) -> Seq<u8> {
    Seq::new(
        x.len(),
        |i: int|
            if i % 3 == 0 {
                x[i + 2]
            } else if i % 3 == 1 {
                rev8(x[i])
            } else {
                x[i - 2]
            },
    )
}

pub proof fn lemma_flip_involution(x: Seq<u8>)
    requires
        x.len() % 3 == 0,
    ensures
        pass_flip(pass_flip(x)) == x,
{
    let y = pass_flip(x);
    assert forall|i: int| 0 <= i < x.len() implies pass_flip(y)[i] == x[i] by {
        if i % 3 == 0 {
            assert(i + 2 < x.len());
            assert((i + 2) % 3 == 2);
            assert(y[i + 2] == x[i]);
        } else if i % 3 == 1 {
            lemma_rev8_involution(x[i]);
        } else {
            assert((i - 2) % 3 == 0);
            assert(y[i - 2] == x[i]);
        }
    }
    assert(pass_flip(pass_flip(x)) =~= x);
}

// ---------------------------------------------------------------- mix
/// The whole transform: the six forward passes, the flip, and the six
/// inverse passes in opposite order.
pub open spec fn mix_spec(x: Seq<u8>) -> Seq<u8> {
    pass_h2t_rev(
        pass_u2d3_rev(
            pass_subidx(
                pass_rotr(
                    pass_d2u6_rev(
                        pass_t2h_rev(
                            pass_flip(
                                pass_t2h(pass_d2u6(pass_rotl(pass_addidx(pass_u2d3(pass_h2t(x)))))),
                            ),
                        ),
                    ),
                ),
            ),
        ),
    )
}

/// The transform preserves the buffer's length.
pub proof fn lemma_mix_spec_len(x: Seq<u8>)
    ensures
        mix_spec(x).len() == x.len(),
{
}

/// The transform is an involution: applying it twice restores any aligned
/// buffer.
pub proof fn lemma_mix_involution(x: Seq<u8>)
    requires
        x.len() % 3 == 0,
    ensures
        mix_spec(mix_spec(x)) == x,
{
    let a1 = pass_h2t(x);
    let a2 = pass_u2d3(a1);
    let a3 = pass_addidx(a2);
    let a4 = pass_rotl(a3);
    let a5 = pass_d2u6(a4);
    let a6 = pass_t2h(a5);
    let af = pass_flip(a6);
    let r6 = pass_t2h_rev(af);
    let r5 = pass_d2u6_rev(r6);
    let r4 = pass_rotr(r5);
    let r3 = pass_subidx(r4);
    let r2 = pass_u2d3_rev(r3);
    let y = pass_h2t_rev(r2);
    assert(y == mix_spec(x));
    assert(a3.len() == x.len() && r5.len() == x.len() && a6.len() == x.len());
    lemma_h2t_of_rev(r2);
    lemma_u2d3_of_rev(r3);
    lemma_addidx_of_subidx(r4);
    lemma_rotl_of_rotr(r5);
    lemma_d2u6_of_rev(r6);
    lemma_t2h_of_rev(af);
    lemma_flip_involution(a6);
    lemma_t2h_rev_of_t2h(a5);
    lemma_d2u6_rev_of_d2u6(a4);
    lemma_rotr_of_rotl(a3);
    lemma_subidx_of_addidx(a2);
    lemma_u2d3_rev_of_u2d3(a1);
    lemma_h2t_rev_of_h2t(x);
    assert(pass_h2t(y) == r2);
    assert(pass_u2d3(pass_h2t(y)) == r3);
    assert(pass_addidx(pass_u2d3(pass_h2t(y))) == r4);
    assert(pass_rotl(pass_addidx(pass_u2d3(pass_h2t(y)))) == r5);
    assert(pass_d2u6(pass_rotl(pass_addidx(pass_u2d3(pass_h2t(y))))) == r6);
    assert(pass_t2h(pass_d2u6(pass_rotl(pass_addidx(pass_u2d3(pass_h2t(y)))))) == af);
    assert(pass_flip(pass_t2h(pass_d2u6(pass_rotl(pass_addidx(pass_u2d3(pass_h2t(y))))))) == a6);
    assert(mix_spec(y) == pass_h2t_rev(
        pass_u2d3_rev(pass_subidx(pass_rotr(pass_d2u6_rev(pass_t2h_rev(a6))))),
    ));
    assert(pass_t2h_rev(a6) == a5);
    assert(pass_d2u6_rev(a5) == a4);
    assert(pass_rotr(a4) == a3);
    assert(pass_subidx(a3) == a2);
    assert(pass_u2d3_rev(a2) == a1);
    assert(pass_h2t_rev(a1) == x);
}

// ------------------------------------------------------------ executable
#[verifier::loop_isolation(false)]
fn apply_h2t(v: &mut Vec<u8>)
    ensures
        final(v)@ == pass_h2t(old(v)@),
{
    let ghost orig = old(v)@;
    let len = v.len();
    let mut i: usize = 1;
    while i < len
        invariant
            v@.len() == len,
            1 <= i,
            i <= len || len == 0,
            forall|j: int| 0 <= j < i && j < len ==> v@[j] == h2t_at(orig, j),
            forall|j: int| i <= j < len ==> v@[j] == orig[j],
        decreases len - i,
    {
        let prev = v[i - 1];
        let cur = v[i];
        proof {
            assert(h2t_at(orig, i as int) == w_add(h2t_at(orig, i - 1), orig[i as int]));
        }
        v.set(i, wadd(prev, cur));
        i = i + 1;
    }
    assert(v@ =~= pass_h2t(orig));
}

#[verifier::loop_isolation(false)]
fn apply_h2t_rev(v: &mut Vec<u8>)
    ensures
        final(v)@ == pass_h2t_rev(old(v)@),
{
    let ghost orig = old(v)@;
    let len = v.len();
    let mut i: usize = len;
    while i > 1
        invariant
            v@.len() == len,
            i <= len || (len == 0 && i == 0),
            i >= 1 || len == 0,
            forall|j: int| 0 <= j < i && j < len ==> v@[j] == orig[j],
            forall|j: int| i <= j < len ==> v@[j] == w_sub(orig[j], orig[j - 1]),
        decreases i,
    {
        i = i - 1;
        let prev = v[i - 1];
        let cur = v[i];
        v.set(i, wsub(cur, prev));
    }
    assert(v@ =~= pass_h2t_rev(orig));
}

#[verifier::loop_isolation(false)]
fn apply_u2d3(v: &mut Vec<u8>)
    ensures
        final(v)@ == pass_u2d3(old(v)@),
{
    let ghost orig = old(v)@;
    let len = v.len();
    if len > 3 {
        let mut i: usize = 3;
        while i < len
            invariant
                v@.len() == len,
                3 <= i <= len,
                forall|j: int| 0 <= j < i ==> v@[j] == u2d3_at(orig, j),
                forall|j: int| i <= j < len ==> v@[j] == orig[j],
            decreases len - i,
        {
            let other = v[i - 3];
            let cur = v[i];
            proof {
                assert(u2d3_at(orig, i as int) == (orig[i as int] ^ u2d3_at(orig, i - 3)));
            }
            v.set(i, cur ^ other);
            i = i + 1;
        }
    }
    assert(v@ =~= pass_u2d3(orig));
}

#[verifier::loop_isolation(false)]
fn apply_u2d3_rev(v: &mut Vec<u8>)
    ensures
        final(v)@ == pass_u2d3_rev(old(v)@),
{
    let ghost orig = old(v)@;
    let len = v.len();
    if len > 3 {
        let mut i: usize = len;
        while i > 3
            invariant
                v@.len() == len,
                3 <= i <= len,
                forall|j: int| 0 <= j < i ==> v@[j] == orig[j],
                forall|j: int| i <= j < len ==> v@[j] == (orig[j] ^ orig[j - 3]),
            decreases i,
        {
            i = i - 1;
            let other = v[i - 3];
            let cur = v[i];
            v.set(i, cur ^ other);
        }
    }
    assert(v@ =~= pass_u2d3_rev(orig));
}

#[verifier::loop_isolation(false)]
fn apply_addidx(v: &mut Vec<u8>)
    ensures
        final(v)@ == pass_addidx(old(v)@),
{
    let ghost orig = old(v)@;
    let len = v.len();
    let mut i: usize = 0;
    while i < len
        invariant
            v@.len() == len,
            0 <= i <= len,
            forall|j: int| 0 <= j < i ==> v@[j] == w_add(orig[j], (j % 256) as u8),
            forall|j: int| i <= j < len ==> v@[j] == orig[j],
        decreases len - i,
    {
        let cur = v[i];
        v.set(i, wadd(cur, (i % 256) as u8));
        i = i + 1;
    }
    assert(v@ =~= pass_addidx(orig));
}

#[verifier::loop_isolation(false)]
fn apply_subidx(v: &mut Vec<u8>)
    ensures
        final(v)@ == pass_subidx(old(v)@),
{
    let ghost orig = old(v)@;
    let len = v.len();
    let mut i: usize = 0;
    while i < len
        invariant
            v@.len() == len,
            0 <= i <= len,
            forall|j: int| 0 <= j < i ==> v@[j] == w_sub(orig[j], (j % 256) as u8),
            forall|j: int| i <= j < len ==> v@[j] == orig[j],
        decreases len - i,
    {
        let cur = v[i];
        v.set(i, wsub(cur, (i % 256) as u8));
        i = i + 1;
    }
    assert(v@ =~= pass_subidx(orig));
}

/// Performs a left rotation on a 3-byte block by `shift` bits.
fn block_be_rotl(b0: u8, b1: u8, b2: u8, shift: u8) -> (r: (u8, u8, u8))
    requires
        1 <= shift <= 7,
    ensures
        r.0 == rl(b0, b1, shift),
        r.1 == rl(b1, b2, shift),
        r.2 == rl(b2, b0, shift),
{
    let remain = 8 - shift;
    let carry = b0 >> remain;
    let r0 = (b0 << shift) | (b1 >> remain);
    let r1 = (b1 << shift) | (b2 >> remain);
    let r2 = (b2 << shift) | carry;
    (r0, r1, r2)
}

/// Performs a right rotation on a 3-byte block by `shift` bits.
fn block_be_rotr(b0: u8, b1: u8, b2: u8, shift: u8) -> (r: (u8, u8, u8))
    requires
        1 <= shift <= 7,
    ensures
        r.0 == rr(b0, b2, shift),
        r.1 == rr(b1, b0, shift),
        r.2 == rr(b2, b1, shift),
{
    let remain = 8 - shift;
    proof {
        assert(1u8 <= (1u8 << shift)) by (bit_vector)
            requires
                1 <= shift <= 7,
        ;
    }
    let carry = b2 & ((1u8 << shift) - 1);
    let r2 = (b2 >> shift) | (b1 << remain);
    let r1 = (b1 >> shift) | (b0 << remain);
    let r0 = (b0 >> shift) | (carry << remain);
    proof {
        assert((carry << remain) == (b2 << remain)) by (bit_vector)
            requires
                carry == b2 & (((1u8 << shift) - 1) as u8),
                remain == (8 - shift) as u8,
                1 <= shift <= 7,
        ;
    }
    (r0, r1, r2)
}

/// Reverses the bits of the middle byte of a 3-byte block and swaps the
/// first and last bytes.
fn middle_shift(b0: u8, b1: u8, b2: u8) -> (r: (u8, u8, u8))
    ensures
        r.0 == b2,
        r.1 == rev8(b1),
        r.2 == b0,
{
    let c = ((b1 & 0xF0) >> 4) | ((b1 & 0x0F) << 4);
    let d = ((c & 0xCC) >> 2) | ((c & 0x33) << 2);
    let m = ((d & 0xAA) >> 1) | ((d & 0x55) << 1);
    (b2, m, b0)
}

#[verifier::loop_isolation(false)]
fn apply_rotl(v: &mut Vec<u8>)
    requires
        old(v)@.len() % 3 == 0,
    ensures
        final(v)@ == pass_rotl(old(v)@),
{
    let ghost orig = old(v)@;
    let len = v.len();
    let mut i: usize = 0;
    while i < len
        invariant
            v@.len() == len,
            0 <= i <= len,
            i % 3 == 0,
            forall|j: int| 0 <= j < i ==> v@[j] == pass_rotl(orig)[j],
            forall|j: int| i <= j < len ==> v@[j] == orig[j],
        decreases len - i,
    {
        let s = (((i / 3) % 4) * 2 + 1) as u8;
        let (r0, r1, r2) = block_be_rotl(v[i], v[i + 1], v[i + 2], s);
        proof {
            assert(i / 3 == (i + 1) as int / 3 && i / 3 == (i + 2) as int / 3);
            assert(3 * (i as int / 3) == i);
            assert(s == blk_shift(i as int / 3));
        }
        v.set(i, r0);
        v.set(i + 1, r1);
        v.set(i + 2, r2);
        i = i + 3;
    }
    assert(v@ =~= pass_rotl(orig));
}

#[verifier::loop_isolation(false)]
fn apply_rotr(v: &mut Vec<u8>)
    requires
        old(v)@.len() % 3 == 0,
    ensures
        final(v)@ == pass_rotr(old(v)@),
{
    let ghost orig = old(v)@;
    let len = v.len();
    let mut i: usize = 0;
    while i < len
        invariant
            v@.len() == len,
            0 <= i <= len,
            i % 3 == 0,
            forall|j: int| 0 <= j < i ==> v@[j] == pass_rotr(orig)[j],
            forall|j: int| i <= j < len ==> v@[j] == orig[j],
        decreases len - i,
    {
        let s = (((i / 3) % 4) * 2 + 1) as u8;
        let (r0, r1, r2) = block_be_rotr(v[i], v[i + 1], v[i + 2], s);
        proof {
            assert(i / 3 == (i + 1) as int / 3 && i / 3 == (i + 2) as int / 3);
            assert(3 * (i as int / 3) == i);
            assert(s == blk_shift(i as int / 3));
        }
        v.set(i, r0);
        v.set(i + 1, r1);
        v.set(i + 2, r2);
        i = i + 3;
    }
    assert(v@ =~= pass_rotr(orig));
}

#[verifier::loop_isolation(false)]
fn apply_flip(v: &mut Vec<u8>)
    requires
        old(v)@.len() % 3 == 0,
    ensures
        final(v)@ == pass_flip(old(v)@),
{
    let ghost orig = old(v)@;
    let len = v.len();
    let mut i: usize = 0;
    while i < len
        invariant
            v@.len() == len,
            0 <= i <= len,
            i % 3 == 0,
            forall|j: int| 0 <= j < i ==> v@[j] == pass_flip(orig)[j],
            forall|j: int| i <= j < len ==> v@[j] == orig[j],
        decreases len - i,
    {
        let (r0, r1, r2) = middle_shift(v[i], v[i + 1], v[i + 2]);
        proof {
            assert((i + 1) as int % 3 == 1 && (i + 2) as int % 3 == 2);
        }
        v.set(i, r0);
        v.set(i + 1, r1);
        v.set(i + 2, r2);
        i = i + 3;
    }
    assert(v@ =~= pass_flip(orig));
}

#[verifier::loop_isolation(false)]
fn apply_d2u6(v: &mut Vec<u8>)
    ensures
        final(v)@ == pass_d2u6(old(v)@),
{
    let ghost orig = old(v)@;
    let len = v.len();
    if len > 6 {
        proof {
            assert forall|j: int| len - 6 <= j < len implies d2u6_at(orig, j) == orig[j] by {}
        }
        let mut i: usize = len - 6;
        while i > 0
            invariant
                v@.len() == len,
                0 <= i <= len - 6,
                forall|j: int| 0 <= j < i ==> v@[j] == orig[j],
                forall|j: int| i <= j < len ==> v@[j] == d2u6_at(orig, j),
            decreases i,
        {
            i = i - 1;
            let other = v[i + 6];
            let cur = v[i];
            proof {
                assert(d2u6_at(orig, i as int) == w_add(orig[i as int], d2u6_at(orig, i + 6)));
            }
            v.set(i, wadd(cur, other));
        }
    }
    assert(v@ =~= pass_d2u6(orig));
}

#[verifier::loop_isolation(false)]
fn apply_d2u6_rev(v: &mut Vec<u8>)
    ensures
        final(v)@ == pass_d2u6_rev(old(v)@),
{
    let ghost orig = old(v)@;
    let len = v.len();
    if len > 6 {
        let mut i: usize = 0;
        while i < len - 6
            invariant
                v@.len() == len,
                0 <= i <= len - 6,
                forall|j: int| 0 <= j < i ==> v@[j] == w_sub(orig[j], orig[j + 6]),
                forall|j: int| i <= j < len ==> v@[j] == orig[j],
            decreases len - i,
        {
            let other = v[i + 6];
            let cur = v[i];
            v.set(i, wsub(cur, other));
            i = i + 1;
        }
    }
    assert(v@ =~= pass_d2u6_rev(orig));
}

#[verifier::loop_isolation(false)]
fn apply_t2h(v: &mut Vec<u8>)
    ensures
        final(v)@ == pass_t2h(old(v)@),
{
    let ghost orig = old(v)@;
    let len = v.len();
    if len >= 2 {
        proof {
            assert(t2h_at(orig, len - 1) == orig[len - 1]);
        }
        let mut i: usize = len - 1;
        while i > 0
            invariant
                v@.len() == len,
                0 <= i <= len - 1,
                forall|j: int| 0 <= j < i ==> v@[j] == orig[j],
                forall|j: int| i <= j < len ==> v@[j] == t2h_at(orig, j),
            decreases i,
        {
            i = i - 1;
            let other = v[i + 1];
            let cur = v[i];
            proof {
                assert(t2h_at(orig, i as int) == (orig[i as int] ^ t2h_at(orig, i + 1)));
            }
            v.set(i, cur ^ other);
        }
    }
    assert(v@ =~= pass_t2h(orig));
}

#[verifier::loop_isolation(false)]
fn apply_t2h_rev(v: &mut Vec<u8>)
    ensures
        final(v)@ == pass_t2h_rev(old(v)@),
{
    let ghost orig = old(v)@;
    let len = v.len();
    if len >= 2 {
        let mut i: usize = 0;
        while i < len - 1
            invariant
                v@.len() == len,
                0 <= i <= len - 1,
                forall|j: int| 0 <= j < i ==> v@[j] == (orig[j] ^ orig[j + 1]),
                forall|j: int| i <= j < len ==> v@[j] == orig[j],
            decreases len - i,
        {
            let other = v[i + 1];
            let cur = v[i];
            v.set(i, cur ^ other);
            i = i + 1;
        }
    }
    assert(v@ =~= pass_t2h_rev(orig));
}

/// The `Mixer` owns an aligned buffer and applies the diffusion transform to
/// it in place.
pub struct Mixer {
    content: Vec<u8>,
}

impl View for Mixer {
    type V = Seq<u8>;

    closed spec fn view(&self) -> Seq<u8> {
        self.content@
    }
}

impl Mixer {
    /// The buffer's length is a multiple of the alignment.
    pub closed spec fn wf(&self) -> bool {
        self.content@.len() % 3 == 0
    }

    /// Creates a new `Mixer` owning `input`, if its length is aligned.
    pub fn new(input: Vec<u8>) -> (r: Option<Mixer>)
        ensures
            input@.len() % 3 == 0 ==> (r matches Some(m) && m.wf() && m@ == input@),
            input@.len() % 3 != 0 ==> r is None,
    {
        if input.len() % 3 != 0 {
            None
        } else {
            Some(Mixer { content: input })
        }
    }

    /// Creates a new `Mixer` holding a copy of `input`, if its length is
    /// aligned.
    pub fn new_with_copy(input: &[u8]) -> (r: Option<Mixer>)
        ensures
            input@.len() % 3 == 0 ==> (r matches Some(m) && m.wf() && m@ == input@),
            input@.len() % 3 != 0 ==> r is None,
    {
        if input.len() % 3 != 0 {
            None
        } else {
            Self::new(vstd::slice::slice_to_vec(input))
        }
    }

    /// Creates a new `Mixer` from the frame of a `Padder`; a frame is always
    /// aligned.
    pub fn new_from_padder(padder: crate::padder::Padder) -> (r: Mixer)
        requires
            padder.wf(),
        ensures
            r.wf(),
            r@ == padder.frame(),
    {
        proof {
            padder.lemma_frame_shape();
        }
        Mixer { content: padder.into_content() }
    }

    /// Applies the diffusion transform in place. Applying it a second time
    /// restores the buffer.
    pub fn mix(&mut self)
        requires
            old(self).wf(),
        ensures
            final(self).wf(),
            final(self)@ == mix_spec(old(self)@),
    {
        apply_h2t(&mut self.content);
        apply_u2d3(&mut self.content);
        apply_addidx(&mut self.content);
        apply_rotl(&mut self.content);
        apply_d2u6(&mut self.content);
        apply_t2h(&mut self.content);
        apply_flip(&mut self.content);
        apply_t2h_rev(&mut self.content);
        apply_d2u6_rev(&mut self.content);
        apply_rotr(&mut self.content);
        apply_subidx(&mut self.content);
        apply_u2d3_rev(&mut self.content);
        apply_h2t_rev(&mut self.content);
    }

    /// Returns the buffer's contents.
    pub fn as_slice(&self) -> (r: &[u8])
        ensures
            r@ == self@,
    {
        self.content.as_slice()
    }

    /// Consumes the `Mixer` and returns the buffer.
    pub fn into_content(self) -> (r: Vec<u8>)
        ensures
            r@ == self@,
    {
        self.content
    }
}

} // verus!
