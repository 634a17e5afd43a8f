//! Frame layout: a leb128-style length prefix, the payload, and a checksum
//! field that pads the total length to a multiple of the alignment.
use vstd::prelude::*;

use crate::bytes::{w_add, wadd};

verus! {

/// Number of bytes a leb128 (base-128, 7 bits per byte) encoding of `n`
/// occupies, except that `0` is given size zero: the padding arithmetic
/// treats an empty payload as having no length field.
pub open spec fn spec_leb128_size(n: nat) -> nat
    decreases n,
{
    if n == 0 {
        0
    } else {
        1 + spec_leb128_size(n / 128)
    }
}

pub proof fn lemma_leb128_size_le(n: nat)
    ensures
        spec_leb128_size(n) <= n,
    decreases n,
{
    if n > 0 {
        lemma_leb128_size_le(n / 128);
    }
}

/// This function calculates the size of a leb128 encoded integer.
pub fn leb128_size(input: usize) -> (r: usize)
    ensures
        r == spec_leb128_size(input as nat),
{
    let mut v: usize = input;
    let mut c: usize = 0;
    proof {
        lemma_leb128_size_le(input as nat);
    }
    while v > 0
        invariant
            c + spec_leb128_size(v as nat) == spec_leb128_size(input as nat),
            spec_leb128_size(input as nat) <= usize::MAX,
        decreases v,
    {
        v = v / 128;
        c = c + 1;
    }
    c
}

/// Any value that fits in 64 bits needs at most ten base-128 groups.
pub proof fn lemma_leb128_size_bound(n: nat)
    requires
        n <= u64::MAX,
    ensures
        spec_leb128_size(n) <= 10,
{
    let n1 = n / 128;
    let n2 = n1 / 128;
    let n3 = n2 / 128;
    let n4 = n3 / 128;
    let n5 = n4 / 128;
    let n6 = n5 / 128;
    let n7 = n6 / 128;
    let n8 = n7 / 128;
    let n9 = n8 / 128;
    let n10 = n9 / 128;
    assert(n10 == 0);
    assert(spec_leb128_size(n10) == 0);
    assert(spec_leb128_size(n9) <= 1);
    assert(spec_leb128_size(n8) <= 2);
    assert(spec_leb128_size(n7) <= 3);
    assert(spec_leb128_size(n6) <= 4);
    assert(spec_leb128_size(n5) <= 5);
    assert(spec_leb128_size(n4) <= 6);
    assert(spec_leb128_size(n3) <= 7);
    assert(spec_leb128_size(n2) <= 8);
    assert(spec_leb128_size(n1) <= 9);
    assert(spec_leb128_size(n) <= 10);
}

/// The base-128 continuation-bit encoding of `n`, least-significant group
/// first. Unlike `spec_leb128_size`, the encoding of `0` is one zero byte.
pub open spec fn spec_varint(n: nat) -> Seq<u8>
    decreases n,
{
    if n < 128 {
        seq![n as u8]
    } else {
        seq![((n % 128) + 128) as u8] + spec_varint(n / 128)
    }
}

pub proof fn lemma_varint_len(n: nat)
    ensures
        n == 0 ==> spec_varint(n).len() == 1,
        n > 0 ==> spec_varint(n).len() == spec_leb128_size(n),
        spec_varint(n).len() >= 1,
    decreases n,
{
    if n >= 128 {
        lemma_varint_len(n / 128);
    } else if n > 0 {
        assert(spec_leb128_size(n) == 1 + spec_leb128_size(n / 128));
        assert(spec_leb128_size(n / 128) == 0);
    }
}

/// All ones: the largest value a `usize` can hold.
pub open spec fn usize_ones() -> usize {
    !0usize
}

pub proof fn lemma_usize_ones(m: usize)
    by (bit_vector)
    ensures
        m <= usize_ones(),
        usize_ones() >> 0usize == usize_ones(),
{
}

/// One step of decoding a base-128 length field, starting at byte `i` with
/// `shift` bits already consumed into `acc`. Returns the decoded value and
/// the position just past the field, or `None` when the field does not
/// terminate inside the buffer or the value does not fit in a `usize`.
pub open spec fn spec_varint_decode_from(s: Seq<u8>, i: int, shift: usize, acc: usize) -> Option<
    (usize, int),
>
    decreases s.len() - i,
{
    if i < 0 || i >= s.len() {
        None
    } else {
        let b = s[i];
        let low = (b & 0x7f) as usize;
        if shift >= usize::BITS as usize {
            None
        } else if low > usize_ones() >> shift {
            None
        } else {
            let acc2 = acc | (low << shift);
            if b & 0x80 == 0 {
                Some((acc2, i + 1))
            } else {
                spec_varint_decode_from(s, i + 1, (shift + 7) as usize, acc2)
            }
        }
    }
}

pub open spec fn spec_varint_decode(s: Seq<u8>) -> Option<(usize, int)> {
    spec_varint_decode_from(s, 0, 0, 0)
}

/// Reads a base-128 length field from the front of `buf`.
fn read_varint(buf: &Vec<u8>) -> (r: Option<(usize, usize)>)
    ensures
        match spec_varint_decode(buf@) {
            Some((v, l)) => r matches Some(p) && p.0 == v && p.1 == l,
            None => r is None,
        },
{
    let len = buf.len();
    let mut idx: usize = 0;
    let mut shift: usize = 0;
    let mut acc: usize = 0;
    while idx < len
        invariant
            len == buf@.len(),
            0 <= idx <= len,
            spec_varint_decode(buf@) == spec_varint_decode_from(buf@, idx as int, shift, acc),
        decreases len - idx,
    {
        let b = buf[idx];
        let low = (b & 0x7f) as usize;
        if shift >= usize::BITS as usize {
            return None;
        }
        if low > !0usize >> shift {
            return None;
        }
        acc = acc | (low << shift);
        if b & 0x80 == 0 {
            return Some((acc, idx + 1));
        }
        idx = idx + 1;
        shift = shift + 7;
    }
    None
}

/// Decoding a buffer that starts (at `i`) with the encoding of `m` succeeds,
/// consumes exactly the encoding, and merges `m` into the accumulator at the
/// current shift position, whatever follows the encoding in the buffer.
pub proof fn lemma_varint_decode_prefix(s: Seq<u8>, m: usize, i: int, shift: usize, acc: usize)
    requires
        0 <= i,
        i + spec_varint(m as nat).len() <= s.len(),
        s.subrange(i, i + spec_varint(m as nat).len() as int) == spec_varint(m as nat),
        shift < usize::BITS as usize,
        m <= usize_ones() >> shift,
    ensures
        spec_varint_decode_from(s, i, shift, acc) == Some(
            ((acc | (m << shift)), i + spec_varint(m as nat).len()),
        ),
    decreases m,
{
    let v = spec_varint(m as nat);
    assert(s[i] == v[0]);
    if m < 128 {
        let b = (m as nat) as u8;
        assert(s[i] == b);
        assert((b & 0x7f) as usize == m && b & 0x80 == 0) by (bit_vector)
            requires
                b == m as u8,
                m < 128usize,
        ;
    } else {
        let b = (((m as nat) % 128) + 128) as u8;
        assert(s[i] == b);
        let md = (m % 128) as usize;
        let mq = (m / 128) as usize;
        assert((b & 0x7f) as usize == md && b & 0x80 != 0 && md < 128) by (bit_vector)
            requires
                b == ((m % 128) + 128) as u8,
                md == (m % 128) as usize,
                m >= 128usize,
        ;
        let shift7 = (shift + 7) as usize;
        assert(shift + 7 < usize::BITS as usize && mq <= usize_ones() >> ((shift + 7) as usize)
            && md <= usize_ones() >> shift) by (bit_vector)
            requires
                m >= 128usize,
                m <= usize_ones() >> shift,
                shift < usize::BITS as usize,
                md == (m % 128) as usize,
                mq == (m / 128) as usize,
        ;
        let acc2 = acc | (md << shift);
        lemma_varint_len(m as nat);
        lemma_varint_len((m / 128) as nat);
        assert(spec_varint((m / 128) as nat) == v.subrange(1, v.len() as int));
        assert(s.subrange(i + 1, i + 1 + spec_varint(mq as nat).len() as int) == spec_varint(
            mq as nat,
        )) by {
            assert(s.subrange(i + 1, i + 1 + spec_varint(mq as nat).len() as int) =~= v.subrange(
                1,
                v.len() as int,
            ));
        }
        lemma_varint_decode_prefix(s, mq, i + 1, shift7, acc2);
        assert((acc | (md << shift)) | (mq << shift7) == acc | (m << shift)) by (bit_vector)
            requires
                md == (m % 128) as usize,
                mq == (m / 128) as usize,
                shift7 == (shift + 7) as usize,
                shift + 7 < usize::BITS as usize,
                m <= usize_ones() >> shift,
        ;
    }
}

/// `spec_varint_decode_from` only reports positions inside the buffer, past
/// the starting point.
pub proof fn lemma_varint_decode_bounds(s: Seq<u8>, i: int, shift: usize, acc: usize)
    requires
        spec_varint_decode_from(s, i, shift, acc) is Some,
    ensures
        i < spec_varint_decode_from(s, i, shift, acc)->Some_0.1 <= s.len(),
    decreases s.len() - i,
{
    let b = s[i];
    let low = (b & 0x7f) as usize;
    if !(shift >= usize::BITS as usize) && !(low > usize_ones() >> shift) && b & 0x80 != 0 {
        lemma_varint_decode_bounds(s, i + 1, (shift + 7) as usize, (acc | (low << shift)) as usize);
    }
}

/// The size of the whole frame for a payload of `n` bytes: length prefix,
/// payload, and a checksum field of one to three bytes, the total padded to
/// a multiple of three.
pub open spec fn spec_padded_size(n: nat) -> nat {
    let base = spec_leb128_size(n) + n + 1;
    (base + ((3 - (base % 3)) % 3)) as nat
}

/// The padded size is always a multiple of three, always has room for the
/// payload and at least one prefix or checksum byte on each side, and an
/// empty payload still occupies a full three-byte frame.
pub proof fn lemma_padded_size_props(n: nat)
    ensures
        spec_padded_size(n) % 3 == 0,
        spec_padded_size(n) >= n + 2,
        spec_padded_size(n) <= spec_leb128_size(n) + n + 3,
        spec_padded_size(n) >= spec_varint(n).len() + n + 1,
        n == 0 ==> spec_padded_size(n) == 3,
{
    lemma_varint_len(n);
    if n > 0 {
        assert(spec_leb128_size(n) == 1 + spec_leb128_size(n / 128));
    }
}

impl Padder {
    /// This function calculates the size of the padded data block.
    pub fn padded_size(input_size: usize) -> (r: usize)
        requires
            input_size + 13 <= usize::MAX,
        ensures
            r == spec_padded_size(input_size as nat),
    {
        proof {
            lemma_leb128_size_bound(input_size as nat);
        }
        let size_leb128 = leb128_size(input_size);
        let size_without_checksum = size_leb128 + input_size + 1;
        let size_checksum = (3 - (size_without_checksum % 3)) % 3;
        size_without_checksum + size_checksum
    }
}

/// The checksum the SAE-J1850 8-bit cyclic redundancy check assigns to a
/// sequence of bytes.
pub uninterp spec fn crc8_of(data: Seq<u8>) -> u8;

/// Relies on `crc::Crc::<u8>::checksum` with the `CRC_8_SAE_J1850` algorithm
/// of the crc catalog: the checksum is a function of the input bytes alone.
#[verifier::external_body]
fn crc8_range(v: &Vec<u8>, start: usize, end: usize) -> (r: u8)
    requires
        start <= end <= v@.len(),
    ensures
        r == crc8_of(v@.subrange(start as int, end as int)),
{
    crc::Crc::<u8>::new(&crc::CRC_8_SAE_J1850).checksum(&v[start..end])
}

/// The checksum field: byte `i` holds the base checksum plus `i`, with 8-bit
/// wraparound.
pub open spec fn spec_checksum_seq(crc: u8, count: int) -> Seq<u8> {
    Seq::new(count as nat, |i: int| w_add(crc, (i % 256) as u8))
}

/// Position of the first byte at or after `start + i` that does not hold its
/// expected checksum value, if any.
pub open spec fn spec_first_bad_checksum(c: Seq<u8>, start: int, crc: u8, i: int) -> Option<int>
    decreases c.len() - start - i,
{
    if start < 0 || i < 0 || start + i >= c.len() {
        None
    } else if c[start + i] != w_add(crc, (i % 256) as u8) {
        Some(start + i)
    } else {
        spec_first_bad_checksum(c, start, crc, i + 1)
    }
}

pub proof fn lemma_first_bad_checksum_none(c: Seq<u8>, start: int, crc: u8, i: int)
    requires
        0 <= start,
        0 <= i,
        forall|j: int| i <= j < c.len() - start ==> #[trigger] c[start + j] == w_add(crc, (j % 256) as u8),
    ensures
        spec_first_bad_checksum(c, start, crc, i) is None,
    decreases c.len() - start - i,
{
    if start + i < c.len() {
        lemma_first_bad_checksum_none(c, start, crc, i + 1);
    }
}

pub proof fn lemma_first_bad_checksum_at(c: Seq<u8>, start: int, crc: u8, i: int, j: int)
    requires
        0 <= start,
        0 <= i <= j,
        start + j < c.len(),
        c[start + j] != w_add(crc, (j % 256) as u8),
        forall|k: int| i <= k < j ==> #[trigger] c[start + k] == w_add(crc, (k % 256) as u8),
    ensures
        spec_first_bad_checksum(c, start, crc, i) == Some(start + j),
    decreases j - i,
{
    if i < j {
        lemma_first_bad_checksum_at(c, start, crc, i + 1, j);
    }
}

#[derive(Clone, Copy, PartialEq, Eq, Structural, Debug)]
pub enum PaddingValidationError {
    NotAligned { length: usize },
    BadLengthField,
    UnexpectedPaddedLength { payload_size: usize, expected: usize, actual: usize },
    InvalidChecksum { offset: usize },
}

/// The frame a payload is given: its length prefix, the payload itself, and
/// the checksum field filling the frame up to the padded size.
pub open spec fn spec_frame(p: Seq<u8>) -> Seq<u8> {
    let prefix = spec_varint(p.len());
    let count = spec_padded_size(p.len()) - p.len() - prefix.len();
    prefix + p + spec_checksum_seq(crc8_of(p), count)
}

/// What validating an untrusted buffer yields: the payload region together
/// with its offset and length, or the first failure in validation order
/// (alignment, length field, padded size, checksum).
pub open spec fn spec_parse(c: Seq<u8>) -> Result<(Seq<u8>, int, int), PaddingValidationError> {
    if c.len() % 3 != 0 {
        Err(PaddingValidationError::NotAligned { length: c.len() as usize })
    } else {
        match spec_varint_decode(c) {
            None => Err(PaddingValidationError::BadLengthField),
            Some((n, l)) => {
                let expected: usize = if n + 13 <= usize::MAX {
                    spec_padded_size(n as nat) as usize
                } else {
                    usize::MAX
                };
                if c.len() != expected || l + n >= c.len() {
                    Err(PaddingValidationError::UnexpectedPaddedLength {
                        payload_size: n,
                        expected,
                        actual: c.len() as usize,
                    })
                } else {
                    let crc = crc8_of(c.subrange(l, l + n));
                    match spec_first_bad_checksum(c, l + n, crc, 0) {
                        Some(off) => Err(PaddingValidationError::InvalidChecksum {
                            offset: off as usize,
                        }),
                        None => Ok((c.subrange(l, l + n), l, n as int)),
                    }
                }
            },
        }
    }
}

/// `Padder` is a structure that represents a padded block of data: a length
/// prefix, the payload, and a checksum field that is always consistent with
/// the payload.
pub struct Padder {
    leb128_size: usize,
    size: usize,
    content: Vec<u8>,
}

impl View for Padder {
    type V = Seq<u8>;

    /// A `Padder` abstracts to its payload bytes.
    closed spec fn view(&self) -> Seq<u8> {
        self.content@.subrange(self.leb128_size as int, self.leb128_size + self.size)
    }
}

impl Padder {
    /// The whole frame: prefix, payload and checksum field.
    pub closed spec fn frame(&self) -> Seq<u8> {
        self.content@
    }

    /// Length of the length-prefix region.
    pub closed spec fn lsize(&self) -> int {
        self.leb128_size as int
    }

    /// Length of the payload region.
    pub closed spec fn psize(&self) -> int {
        self.size as int
    }

    /// The frame is aligned, the regions fit, and the checksum field matches
    /// the payload.
    pub closed spec fn wf(&self) -> bool {
        &&& self.leb128_size + self.size < self.content@.len()
        &&& self.content@.len() % 3 == 0
        &&& self.content@.subrange(self.leb128_size + self.size, self.content@.len() as int)
            == spec_checksum_seq(
            crc8_of(self@),
            self.content@.len() - self.size - self.leb128_size,
        )
    }

    /// Returns the offset of the payload in the frame.
    pub fn payload_offset(&self) -> (r: usize)
        ensures
            r as int == self.lsize(),
    {
        self.leb128_size
    }

    /// Returns the length of the payload.
    pub fn payload_length(&self) -> (r: usize)
        ensures
            r as int == self.psize(),
    {
        self.size
    }

    /// Returns a slice of the payload of the `Padder`.
    pub fn as_slice(&self) -> (r: &[u8])
        requires
            self.wf(),
        ensures
            r@ == self@,
    {
        let len = self.content.len();
        assert(self.leb128_size + self.size < len);
        vstd::slice::slice_subrange(
            self.content.as_slice(),
            self.leb128_size,
            self.leb128_size + self.size,
        )
    }

    /// Consumes the `Padder` and returns the entire frame.
    pub fn into_content(self) -> (r: Vec<u8>)
        ensures
            r@ == self.frame(),
    {
        self.content
    }
}

/// Writes the base-128 encoding of `value` at the front of `v`, leaving the
/// rest of the buffer as it was. Returns how many bytes were written.
fn write_varint(v: &mut Vec<u8>, value: usize) -> (w: usize)
    requires
        spec_varint(value as nat).len() <= old(v)@.len(),
    ensures
        final(v)@.len() == old(v)@.len(),
        w as nat == spec_varint(value as nat).len(),
        forall|j: int| 0 <= j < w ==> final(v)@[j] == spec_varint(value as nat)[j],
        forall|j: int| w <= j < final(v)@.len() ==> final(v)@[j] == old(v)@[j],
{
    let ghost orig = old(v)@;
    let ghost target = spec_varint(value as nat);
    let vlen = v.len();
    let mut val: usize = value;
    let mut k: usize = 0;
    proof {
        assert(target.subrange(0, 0) =~= Seq::<u8>::empty());
        assert(target =~= Seq::<u8>::empty() + spec_varint(val as nat));
    }
    while val >= 128
        invariant
            v@.len() == orig.len(),
            vlen == orig.len(),
            k + spec_varint(val as nat).len() == target.len(),
            target.len() <= vlen,
            forall|j: int| 0 <= j < k ==> v@[j] == target[j],
            target == target.subrange(0, k as int) + spec_varint(val as nat),
            forall|j: int| k <= j < orig.len() ==> v@[j] == orig[j],
        decreases val,
    {
        let low = ((val % 128) + 128) as u8;
        proof {
            lemma_varint_len(val as nat);
            assert(spec_varint(val as nat)[0] == low);
            assert(target[k as int] == (target.subrange(0, k as int) + spec_varint(
                val as nat,
            ))[k as int]);
        }
        v.set(k, low);
        proof {
            assert(spec_varint((val / 128) as nat) =~= spec_varint(val as nat).subrange(
                1,
                spec_varint(val as nat).len() as int,
            ));
            assert(target =~= target.subrange(0, k + 1) + spec_varint((val / 128) as nat));
        }
        k = k + 1;
        val = val / 128;
    }
    proof {
        assert(spec_varint(val as nat) == seq![val as u8]);
        assert(target[k as int] == (target.subrange(0, k as int) + spec_varint(
            val as nat,
        ))[k as int]);
        assert(target[k as int] == val as u8);
    }
    v.set(k, val as u8);
    k + 1
}

/// Fills everything after the payload region with the checksum field derived
/// from the payload's current contents.
fn write_checksum(v: &mut Vec<u8>, l: usize, n: usize)
    requires
        l + n < old(v)@.len(),
    ensures
        final(v)@.len() == old(v)@.len(),
        forall|j: int| 0 <= j < l + n ==> final(v)@[j] == old(v)@[j],
        forall|j: int|
            l + n <= j < final(v)@.len() ==> final(v)@[j] == w_add(
                crc8_of(old(v)@.subrange(l as int, (l + n) as int)),
                ((j - l - n) % 256) as u8,
            ),
{
    let ghost orig = old(v)@;
    let len = v.len();
    assert(l + n < len);
    let crc = crc8_range(v, l, l + n);
    let count = len - (l + n);
    let mut i: usize = 0;
    while i < count
        invariant
            count == len - (l + n),
            l + n < len,
            len == v@.len(),
            len == orig.len(),
            0 <= i <= count,
            crc == crc8_of(orig.subrange(l as int, (l + n) as int)),
            forall|j: int| 0 <= j < l + n ==> v@[j] == orig[j],
            forall|j: int| 0 <= j < i ==> #[trigger] v@[l + n + j] == w_add(crc, (j % 256) as u8),
        decreases count - i,
    {
        let b = wadd(crc, (i % 256) as u8);
        v.set(l + n + i, b);
        i = i + 1;
    }
    assert forall|j: int| l + n <= j < v@.len() implies v@[j] == w_add(
        crc,
        ((j - l - n) % 256) as u8,
    ) by {
        assert(v@[l + n + (j - l - n)] == w_add(crc, (((j - l - n)) % 256) as u8));
    }
}

/// `PadderMutGuard` grants mutable access to the payload region of a frame.
///
/// While the guard is held the checksum field may be stale; the only way to
/// turn the guard back into a `Padder` is `finish`, which recomputes the
/// checksum from the payload's current contents, so the frame invariant is
/// restored on every path back to a `Padder`.
pub struct PadderMutGuard {
    leb128_size: usize,
    size: usize,
    content: Vec<u8>,
}

impl View for PadderMutGuard {
    type V = Seq<u8>;

    /// A guard abstracts to the payload bytes it exposes.
    closed spec fn view(&self) -> Seq<u8> {
        self.content@.subrange(self.leb128_size as int, self.leb128_size + self.size)
    }
}

impl PadderMutGuard {
    /// The whole underlying frame, checksum field possibly stale.
    pub closed spec fn frame(&self) -> Seq<u8> {
        self.content@
    }

    pub closed spec fn lsize(&self) -> int {
        self.leb128_size as int
    }

    pub closed spec fn psize(&self) -> int {
        self.size as int
    }

    pub closed spec fn wf(&self) -> bool {
        &&& self.leb128_size + self.size < self.content@.len()
        &&& self.content@.len() % 3 == 0
    }

    /// Returns the length of the payload region.
    pub fn len(&self) -> (r: usize)
        ensures
            r as int == self.psize(),
    {
        self.size
    }

    /// Overwrites one payload byte.
    pub fn set(&mut self, i: usize, b: u8)
        requires
            old(self).wf(),
            i < old(self).psize(),
        ensures
            final(self).wf(),
            final(self)@ == old(self)@.update(i as int, b),
            final(self).frame().len() == old(self).frame().len(),
            final(self).lsize() == old(self).lsize(),
            final(self).psize() == old(self).psize(),
            forall|j: int|
                0 <= j < old(self).frame().len() && j != old(self).lsize() + i
                    ==> final(self).frame()[j] == old(self).frame()[j],
    {
        let len = self.content.len();
        assert(self.leb128_size + self.size < len);
        self.content.set(self.leb128_size + i, b);
        proof {
            assert(self@ =~= old(self)@.update(i as int, b));
        }
    }

    /// Overwrites the whole payload region with `src`.
    pub fn copy_from_slice(&mut self, src: &[u8])
        requires
            old(self).wf(),
            src@.len() == old(self).psize(),
        ensures
            final(self).wf(),
            final(self)@ == src@,
            final(self).frame().len() == old(self).frame().len(),
            final(self).lsize() == old(self).lsize(),
            final(self).psize() == old(self).psize(),
            forall|j: int|
                0 <= j < old(self).lsize() ==> final(self).frame()[j] == old(self).frame()[j],
    {
        let ghost orig = *self;
        let n = self.size;
        assert(n as int == orig.psize());
        let mut i: usize = 0;
        while i < n
            invariant
                n as int == self.psize(),
                0 <= i <= n,
                self.wf(),
                src@.len() == n,
                self.frame().len() == orig.frame().len(),
                self.lsize() == orig.lsize(),
                self.psize() == orig.psize(),
                forall|j: int| 0 <= j < orig.lsize() ==> self.frame()[j] == orig.frame()[j],
                forall|j: int| 0 <= j < i ==> self@[j] == src@[j],
            decreases n - i,
        {
            let b = *vstd::slice::slice_index_get(src, i);
            self.set(i, b);
            i = i + 1;
        }
        proof {
            assert(self@ =~= src@);
        }
    }

    /// Recomputes the checksum field from the payload's current contents and
    /// returns the frame as a consistent `Padder`.
    pub fn finish(self) -> (p: Padder)
        requires
            self.wf(),
        ensures
            p.wf(),
            p@ == self@,
            p.lsize() == self.lsize(),
            p.psize() == self.psize(),
            p.frame().len() == self.frame().len(),
            forall|j: int|
                0 <= j < self.lsize() + self.psize() ==> p.frame()[j] == self.frame()[j],
            forall|j: int|
                self.lsize() + self.psize() <= j < p.frame().len() ==> p.frame()[j] == w_add(
                    crc8_of(self@),
                    ((j - self.lsize() - self.psize()) % 256) as u8,
                ),
    {
        let PadderMutGuard { leb128_size, size, content } = self;
        let mut content = content;
        write_checksum(&mut content, leb128_size, size);
        let p = Padder { leb128_size, size, content };
        proof {
            assert(p@ =~= self@);
            assert(p.content@.subrange(
                leb128_size + size,
                p.content@.len() as int,
            ) =~= spec_checksum_seq(crc8_of(p@), p.content@.len() - size - leb128_size));
        }
        p
    }
}

impl Padder {
    /// Returns a guard through which the payload may be mutated; turning the
    /// guard back into a `Padder` recomputes the checksum.
    pub fn as_mut(self) -> (g: PadderMutGuard)
        requires
            self.wf(),
        ensures
            g.wf(),
            g@ == self@,
            g.frame() == self.frame(),
            g.lsize() == self.lsize(),
            g.psize() == self.psize(),
    {
        let Padder { leb128_size, size, content } = self;
        PadderMutGuard { leb128_size, size, content }
    }

    /// Creates a new `Padder` with a payload of `size` zero bytes.
    pub fn new_zeroed(size: usize) -> (r: Padder)
        requires
            size + 13 <= usize::MAX,
        ensures
            r.wf(),
            r@ == Seq::new(size as nat, |i: int| 0u8),
            r.frame() == spec_frame(Seq::new(size as nat, |i: int| 0u8)),
            r.lsize() == spec_varint(size as nat).len(),
            r.psize() == size as int,
    {
        let ghost zeros = Seq::new(size as nat, |i: int| 0u8);
        proof {
            lemma_padded_size_props(size as nat);
            lemma_varint_len(size as nat);
            lemma_leb128_size_bound(size as nat);
        }
        let padded = Self::padded_size(size);
        let mut content: Vec<u8> = Vec::new();
        while content.len() < padded
            invariant
                content@.len() <= padded,
                forall|j: int| 0 <= j < content@.len() ==> content@[j] == 0u8,
            decreases padded - content@.len(),
        {
            content.push(0u8);
        }
        let l = write_varint(&mut content, size);
        let ghost mid = content@;
        write_checksum(&mut content, l, size);
        let p = Padder { leb128_size: l, size, content };
        proof {
            assert(mid.subrange(l as int, l + size as int) =~= zeros);
            assert(p@ =~= zeros);
            assert(crc8_of(mid.subrange(l as int, l + size as int)) == crc8_of(p@));
            assert(p.content@.subrange(l + size as int, p.content@.len() as int)
                =~= spec_checksum_seq(crc8_of(p@), p.content@.len() - size - l));
            assert(p.frame() =~= spec_frame(zeros));
        }
        p
    }

    /// Creates a new `Padder` holding a copy of `input` as its payload.
    pub fn new(input: &[u8]) -> (r: Padder)
        requires
            input@.len() + 13 <= usize::MAX,
        ensures
            r.wf(),
            r@ == input@,
            r.frame() == spec_frame(input@),
            r.lsize() == spec_varint(input@.len()).len(),
            r.psize() == input@.len(),
    {
        let n = input.len();
        let z = Self::new_zeroed(n);
        let mut g = z.as_mut();
        g.copy_from_slice(input);
        let p = g.finish();
        proof {
            lemma_padded_size_props(n as nat);
            lemma_varint_len(n as nat);
            assert(p.frame() =~= spec_frame(input@));
        }
        p
    }
}

impl Padder {
    /// Checks whether `raw` is a correctly padded data block and takes
    /// ownership of it as a `Padder`, or reports the first validation
    /// failure: alignment, length field, padded size, then checksum.
    #[verifier::loop_isolation(false)]
    pub fn try_from_raw(raw: Vec<u8>) -> (r: Result<Padder, PaddingValidationError>)
        ensures
            match spec_parse(raw@) {
                Ok((pl, l, n)) => r matches Ok(p) && p.wf() && p@ == pl && p.lsize() == l
                    && p.psize() == n && p.frame() == raw@,
                Err(e) => r matches Err(e2) && e2 == e,
            },
    {
        let len = raw.len();
        if len % 3 != 0 {
            return Err(PaddingValidationError::NotAligned { length: len });
        }
        let (n, l) = match read_varint(&raw) {
            None => {
                return Err(PaddingValidationError::BadLengthField);
            },
            Some(p) => p,
        };
        proof {
            lemma_varint_decode_bounds(raw@, 0, 0, 0);
            if n <= usize::MAX - 13 {
                lemma_padded_size_props(n as nat);
                lemma_leb128_size_bound(n as nat);
            }
        }
        let expected = if n <= usize::MAX - 13 {
            Self::padded_size(n)
        } else {
            usize::MAX
        };
        if expected != len || n >= len || l >= len - n {
            return Err(PaddingValidationError::UnexpectedPaddedLength {
                payload_size: n,
                expected,
                actual: len,
            });
        }
        let crc = crc8_range(&raw, l, l + n);
        let count = len - (l + n);
        let mut i: usize = 0;
        while i < count
            invariant
                count == len - (l + n),
                l + n < len,
                len == raw@.len(),
                0 <= i <= count,
                crc == crc8_of(raw@.subrange(l as int, (l + n) as int)),
                spec_first_bad_checksum(raw@, (l + n) as int, crc, 0)
                    == spec_first_bad_checksum(raw@, (l + n) as int, crc, i as int),
                forall|j: int|
                    0 <= j < i ==> #[trigger] raw@[l + n + j] == w_add(crc, (j % 256) as u8),
            decreases count - i,
        {
            let expect = wadd(crc, (i % 256) as u8);
            if raw[l + n + i] != expect {
                proof {
                    assert(spec_first_bad_checksum(raw@, (l + n) as int, crc, i as int) == Some(
                        l + n + i as int,
                    ));
                }
                return Err(PaddingValidationError::InvalidChecksum { offset: l + n + i });
            }
            i = i + 1;
        }
        let p = Padder { leb128_size: l, size: n, content: raw };
        proof {
            assert(p.content@ == raw@);
            assert(p@ =~= raw@.subrange(l as int, (l + n) as int));
            assert(crc8_of(p@) == crc);
            let cs = spec_checksum_seq(crc8_of(p@), p.content@.len() - n - l);
            let sub = p.content@.subrange(l + n as int, p.content@.len() as int);
            assert(cs.len() == sub.len());
            assert forall|k: int| 0 <= k < sub.len() implies sub[k] == cs[k] by {
                assert(sub[k] == p.content@[l + n + k]);
                assert(raw@[l + n + k] == w_add(crc, (k % 256) as u8));
                assert(cs[k] == w_add(crc8_of(p@), (k % 256) as u8));
            }
            assert(sub =~= cs);
        }
        Ok(p)
    }
}

/// A frame built from a payload validates back to exactly that payload, with
/// the length prefix and payload sizes the construction used.
pub proof fn lemma_parse_frame(p: Seq<u8>)
    requires
        p.len() + 13 <= usize::MAX,
    ensures
        spec_parse(spec_frame(p)) == Ok::<(Seq<u8>, int, int), PaddingValidationError>(
            (p, spec_varint(p.len()).len() as int, p.len() as int),
        ),
{
    let f = spec_frame(p);
    let n = p.len();
    let prefix = spec_varint(n);
    let l = prefix.len() as int;
    let count = spec_padded_size(n) - n - l;
    lemma_padded_size_props(n);
    lemma_varint_len(n);
    lemma_leb128_size_bound(n);
    assert(count >= 1);
    assert(f.len() == spec_padded_size(n));
    assert(f.subrange(0, l) =~= prefix);
    let m = n as usize;
    lemma_usize_ones(m);
    assert(0usize < usize::BITS as usize && (0usize | (m << 0usize)) == m) by (bit_vector);
    assert(m <= usize_ones() >> 0usize);
    lemma_varint_decode_prefix(f, m, 0, 0, 0);
    assert(spec_varint_decode(f) == Some((m, l)));
    assert(spec_padded_size(n) as usize == f.len());
    assert(f.subrange(l, l + n as int) =~= p);
    let crc = crc8_of(p);
    assert forall|j: int| 0 <= j < f.len() - (l + n) implies #[trigger] f[l + n + j] == w_add(
        crc,
        (j % 256) as u8,
    ) by {
        assert(f[l + n + j] == spec_checksum_seq(crc, count)[j]);
    }
    lemma_first_bad_checksum_none(f, l + n as int, crc, 0);
}

/// Changing any byte of a built frame's checksum field makes validation fail
/// with `InvalidChecksum` at exactly that byte.
pub proof fn lemma_checksum_byte_flip(p: Seq<u8>, j: int, b: u8)
    requires
        p.len() + 13 <= usize::MAX,
        spec_varint(p.len()).len() + p.len() <= j < spec_frame(p).len(),
        b != spec_frame(p)[j],
    ensures
        spec_parse(spec_frame(p).update(j, b)) == Err::<(Seq<u8>, int, int),
            PaddingValidationError,
        >(PaddingValidationError::InvalidChecksum { offset: j as usize }),
{
    let f = spec_frame(p);
    let g = f.update(j, b);
    let n = p.len();
    let prefix = spec_varint(n);
    let l = prefix.len() as int;
    let count = spec_padded_size(n) - n - l;
    lemma_padded_size_props(n);
    lemma_varint_len(n);
    lemma_leb128_size_bound(n);
    assert(g.len() == spec_padded_size(n));
    assert(g.subrange(0, l) =~= prefix);
    let m = n as usize;
    lemma_usize_ones(m);
    assert(0usize < usize::BITS as usize && (0usize | (m << 0usize)) == m) by (bit_vector);
    lemma_varint_decode_prefix(g, m, 0, 0, 0);
    assert(g.subrange(l, l + n as int) =~= p);
    let crc = crc8_of(p);
    let k = j - (l + n);
    assert(f[j] == spec_checksum_seq(crc, count)[k]);
    assert(g[l + n + k] != w_add(crc, (k % 256) as u8));
    assert forall|t: int| 0 <= t < k implies #[trigger] g[l + n + t] == w_add(
        crc,
        (t % 256) as u8,
    ) by {
        assert(g[l + n + t] == f[l + n + t]);
        assert(f[l + n + t] == spec_checksum_seq(crc, count)[t]);
    }
    lemma_first_bad_checksum_at(g, l + n as int, crc, 0, k);
}

/// Changing a payload byte of a built frame in a way that changes the
/// payload's checksum makes validation fail with `InvalidChecksum` at the
/// first checksum byte. (Whether a given byte change moves the checksum is a
/// property of the checksum algorithm, which this library does not model.)
pub proof fn lemma_payload_byte_flip(p: Seq<u8>, j: int, b: u8)
    requires
        p.len() + 13 <= usize::MAX,
        spec_varint(p.len()).len() <= j < spec_varint(p.len()).len() + p.len(),
        crc8_of(p.update(j - spec_varint(p.len()).len(), b)) != crc8_of(p),
    ensures
        spec_parse(spec_frame(p).update(j, b)) == Err::<(Seq<u8>, int, int),
            PaddingValidationError,
        >(PaddingValidationError::InvalidChecksum {
            offset: (spec_varint(p.len()).len() + p.len()) as usize,
        }),
{
    let f = spec_frame(p);
    let g = f.update(j, b);
    let n = p.len();
    let prefix = spec_varint(n);
    let l = prefix.len() as int;
    let count = spec_padded_size(n) - n - l;
    lemma_padded_size_props(n);
    lemma_varint_len(n);
    lemma_leb128_size_bound(n);
    assert(g.len() == spec_padded_size(n));
    assert(g.subrange(0, l) =~= prefix);
    let m = n as usize;
    lemma_usize_ones(m);
    assert(0usize < usize::BITS as usize && (0usize | (m << 0usize)) == m) by (bit_vector);
    lemma_varint_decode_prefix(g, m, 0, 0, 0);
    let q = p.update(j - l, b);
    assert(g.subrange(l, l + n as int) =~= q);
    let crc2 = crc8_of(q);
    assert(f[l + n + 0] == spec_checksum_seq(crc8_of(p), count)[0]);
    assert(w_add(crc8_of(p), 0u8) == crc8_of(p));
    assert(w_add(crc2, 0u8) == crc2);
    assert(g[l + n + 0] == crc8_of(p));
    assert(g[l + n + 0] != w_add(crc2, (0int % 256) as u8));
    lemma_first_bad_checksum_at(g, l + n as int, crc2, 0, 0);
}

impl Padder {
    /// A consistent frame is aligned and has room for at least one checksum
    /// byte after the payload.
    pub proof fn lemma_frame_shape(&self)
        requires
            self.wf(),
        ensures
            self.frame().len() % 3 == 0,
            0 <= self.lsize(),
            0 <= self.psize(),
            self.lsize() + self.psize() < self.frame().len(),
            self@ == self.frame().subrange(self.lsize(), self.lsize() + self.psize()),
    {
    }
}

} // verus!
