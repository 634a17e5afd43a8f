//! A reversible, self-describing byte-transformation codec.
//!
//! A payload is framed (length-prefixed, checksummed, padded to a 3-byte
//! alignment) and then diffused by a self-inverse bit-mixing transform.
//! Applying the transform again and validating the frame recovers the
//! original payload and detects corruption.
use vstd::prelude::*;

use base64::Engine;

pub mod bytes;
pub mod mixer;
pub mod padder;

use crate::mixer::{lemma_mix_involution, lemma_mix_spec_len, mix_spec, Mixer};
use crate::padder::{
    lemma_padded_size_props, lemma_parse_frame, lemma_varint_len, spec_frame, spec_parse, Padder,
    PaddingValidationError,
};

verus! {

/// What `encode` produces: nothing for an empty payload, otherwise the
/// payload's frame after one application of the diffusion transform.
pub open spec fn spec_encode(p: Seq<u8>) -> Seq<u8> {
    if p.len() == 0 {
        Seq::empty()
    } else {
        mix_spec(spec_frame(p))
    }
}

/// What `decode` yields: alignment is checked before anything else, the
/// empty buffer is the empty payload, and any other buffer is un-mixed and
/// validated as a frame.
pub open spec fn spec_decode(b: Seq<u8>) -> Result<Seq<u8>, PaddingValidationError> {
    if b.len() % 3 != 0 {
        Err(PaddingValidationError::NotAligned { length: b.len() as usize })
    } else if b.len() == 0 {
        Ok(Seq::empty())
    } else {
        match spec_parse(mix_spec(b)) {
            Ok((pl, l, n)) => Ok(pl),
            Err(e) => Err(e),
        }
    }
}

fn do_encode(input: &[u8]) -> (r: Option<Mixer>)
    requires
        input@.len() + 13 <= usize::MAX,
    ensures
        input@.len() == 0 ==> r is None,
        input@.len() > 0 ==> (r matches Some(m) && m.wf() && m@ == mix_spec(spec_frame(input@))),
{
    if input.len() == 0 {
        return None;
    }
    let p = Padder::new(input);
    let mut m = Mixer::new_from_padder(p);
    m.mix();
    Some(m)
}

/// Encodes a payload: builds its frame and applies the diffusion transform.
/// An empty payload encodes to an empty blob; no frame is built for it.
pub fn encode(input: &[u8]) -> (r: Vec<u8>)
    requires
        input@.len() + 13 <= usize::MAX,
    ensures
        r@ == spec_encode(input@),
{
    match do_encode(input) {
        None => Vec::new(),
        Some(m) => m.into_content(),
    }
}

fn do_decode(input: Vec<u8>) -> (r: Result<Padder, PaddingValidationError>)
    ensures
        input@.len() % 3 != 0 ==> (r matches Err(e) && e == (PaddingValidationError::NotAligned {
            length: input@.len() as usize,
        })),
        input@.len() % 3 == 0 ==> (match spec_parse(mix_spec(input@)) {
            Ok((pl, l, n)) => r matches Ok(p) && p.wf() && p@ == pl && p.lsize() == l && p.psize()
                == n && p.frame() == mix_spec(input@),
            Err(e) => r matches Err(e2) && e2 == e,
        }),
{
    let len = input.len();
    let mut m = match Mixer::new(input) {
        None => {
            return Err(PaddingValidationError::NotAligned { length: len });
        },
        Some(m) => m,
    };
    m.mix();
    Padder::try_from_raw(m.into_content())
}

/// Decodes a blob: applies the diffusion transform once more and validates
/// the recovered frame. An unaligned buffer is rejected before any other
/// processing; the empty blob is the empty payload.
pub fn decode(input: Vec<u8>) -> (r: Result<Vec<u8>, PaddingValidationError>)
    ensures
        match spec_decode(input@) {
            Ok(p) => r matches Ok(v) && v@ == p,
            Err(e) => r matches Err(e2) && e2 == e,
        },
{
    if input.len() % 3 != 0 {
        let len = input.len();
        return Err(PaddingValidationError::NotAligned { length: len });
    }
    if input.len() == 0 {
        return Ok(Vec::new());
    }
    match do_decode(input) {
        Ok(p) => Ok(vstd::slice::slice_to_vec(p.as_slice())),
        Err(e) => Err(e),
    }
}

/// The still-framed buffer a zero-copy decode yields, together with the
/// offset and length of the payload region inside it.
pub struct InPlaceDecodeResult {
    pub content: Vec<u8>,
    pub offset: usize,
    pub length: usize,
}

/// Decodes a blob without copying the payload out: on success the caller
/// gets the validated, un-mixed frame and the payload's position inside it.
pub fn decode_in_place(input: Vec<u8>) -> (r: Result<
    InPlaceDecodeResult,
    PaddingValidationError,
>)
    ensures
        input@.len() % 3 != 0 ==> (r matches Err(e) && e == (PaddingValidationError::NotAligned {
            length: input@.len() as usize,
        })),
        input@.len() % 3 == 0 ==> (match spec_parse(mix_spec(input@)) {
            Ok((pl, l, n)) => r matches Ok(d) && d.content@ == mix_spec(input@) && d.offset == l
                && d.length == n && d.content@.subrange(l, l + n) == pl,
            Err(e) => r matches Err(e2) && e2 == e,
        }),
{
    match do_decode(input) {
        Ok(p) => {
            proof {
                p.lemma_frame_shape();
            }
            let offset = p.payload_offset();
            let length = p.payload_length();
            let content = p.into_content();
            Ok(InPlaceDecodeResult { content, offset, length })
        },
        Err(e) => Err(e),
    }
}

/// A failure of the textual transport decoding, mirroring what the transport
/// alphabet rejects: a byte outside the alphabet, a text whose length no
/// encoding produces, a final symbol with leftover bits, or misplaced
/// padding.
#[derive(Clone, Copy, PartialEq, Eq, Structural, Debug)]
pub enum TextDecodeError {
    InvalidByte { offset: usize, byte: u8 },
    InvalidLength { length: usize },
    InvalidLastSymbol { offset: usize, byte: u8 },
    InvalidPadding,
}

/// The URL-safe textual form the transport encoding gives a byte sequence.
pub uninterp spec fn b64_of(data: Seq<u8>) -> Seq<char>;

/// What the transport decoding yields for a text: the bytes it encodes, or
/// nothing when the text is not a valid encoding.
pub uninterp spec fn b64_decode_of(text: Seq<char>) -> Option<Seq<u8>>;

/// Relies on base64's `BASE64_URL_SAFE` engine: `encode` is a function of
/// the input bytes alone, and `decode` restores exactly what `encode`
/// produced.
#[verifier::external_body]
fn b64_encode(data: &[u8]) -> (r: String)
    ensures
        r@ == b64_of(data@),
        b64_decode_of(r@) == Some(data@),
{
    base64::prelude::BASE64_URL_SAFE.encode(data)
}

/// Relies on base64's `BASE64_URL_SAFE` engine: which texts decode, and to
/// what, is a function of the text alone, and the empty text decodes to the
/// empty byte sequence.
#[verifier::external_body]
fn b64_decode(text: &str) -> (r: Result<Vec<u8>, TextDecodeError>)
    ensures
        match b64_decode_of(text@) {
            Some(b) => r matches Ok(v) && v@ == b && (text@.len() == 0 ==> b.len() == 0),
            None => r is Err && text@.len() != 0,
        },
{
    match base64::prelude::BASE64_URL_SAFE.decode(text) {
        Ok(v) => Ok(v),
        Err(base64::DecodeError::InvalidByte(o, b)) => Err(
            TextDecodeError::InvalidByte { offset: o, byte: b },
        ),
        Err(base64::DecodeError::InvalidLength(l)) => Err(
            TextDecodeError::InvalidLength { length: l },
        ),
        Err(base64::DecodeError::InvalidLastSymbol(o, b)) => Err(
            TextDecodeError::InvalidLastSymbol { offset: o, byte: b },
        ),
        Err(base64::DecodeError::InvalidPadding) => Err(TextDecodeError::InvalidPadding),
    }
}

/// Encodes a payload and wraps the blob in the textual transport encoding.
/// The empty payload encodes to the empty text; otherwise the text is the
/// transport form of the encoded blob, and decoding the text gives that
/// blob back.
pub fn encode_to_base64(input: &[u8]) -> (r: String)
    requires
        input@.len() + 13 <= usize::MAX,
    ensures
        input@.len() == 0 ==> r@ == Seq::<char>::empty(),
        input@.len() > 0 ==> r@ == b64_of(spec_encode(input@)) && b64_decode_of(r@) == Some(
            spec_encode(input@),
        ),
{
    match do_encode(input) {
        None => {
            let r = "".to_owned();
            proof {
                reveal_strlit("");
                assert(r@ =~= Seq::<char>::empty());
            }
            r
        },
        Some(m) => b64_encode(m.as_slice()),
    }
}

/// Unwraps the textual transport encoding and decodes the blob. The outer
/// result reports transport-level failures, the inner one frame validation.
pub fn decode_from_base64(input: &str) -> (r: Result<
    Result<Vec<u8>, PaddingValidationError>,
    TextDecodeError,
>)
    ensures
        match b64_decode_of(input@) {
            Some(b) => r matches Ok(inner) && (match spec_decode(b) {
                Ok(p) => inner matches Ok(v) && v@ == p,
                Err(e) => inner matches Err(e2) && e2 == e,
            }),
            None => r is Err,
        },
{
    let bin = match b64_decode(input) {
        Ok(v) => v,
        Err(e) => {
            return Err(e);
        },
    };
    Ok(decode(bin))
}

/// Round trip: decoding an encoded payload yields exactly that payload, for
/// every payload, the empty one included.
pub proof fn lemma_round_trip(p: Seq<u8>)
    requires
        p.len() + 13 <= usize::MAX,
    ensures
        spec_decode(spec_encode(p)) == Ok::<Seq<u8>, PaddingValidationError>(p),
{
    if p.len() == 0 {
        assert(p =~= Seq::<u8>::empty());
    } else {
        let f = spec_frame(p);
        lemma_padded_size_props(p.len());
        lemma_varint_len(p.len());
        lemma_mix_spec_len(f);
        lemma_mix_involution(f);
        lemma_parse_frame(p);
    }
}

} // verus!
