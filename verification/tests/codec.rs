use gesist::{decode, decode_from_base64, decode_in_place, encode, encode_to_base64};
use gesist::padder::PaddingValidationError;

#[test]
fn basic_base64_encode() {
    assert_eq!("PaEU", encode_to_base64(b"a"));
    assert_eq!("pJxd", encode_to_base64(b"b"));
}

#[test]
fn single_byte_textual_round_trip() {
    assert_eq!(
        decode_from_base64("PaEU").unwrap().unwrap(),
        vec![0x61u8]
    );
    assert_eq!(
        decode_from_base64("pJxd").unwrap().unwrap(),
        vec![0x62u8]
    );
}

#[test]
fn empty_payload() {
    assert_eq!(encode(b""), Vec::<u8>::new());
    assert_eq!(decode(Vec::new()).unwrap(), Vec::<u8>::new());
    assert_eq!(encode_to_base64(b""), "");
    assert_eq!(decode_from_base64("").unwrap().unwrap(), Vec::<u8>::new());
}

#[test]
fn round_trip_various_payloads() {
    let cases: Vec<Vec<u8>> = vec![
        vec![],
        vec![0x61],
        vec![0x61, 0x62],
        vec![0x61, 0x62, 0x63],
        b"hello world".to_vec(),
        vec![0u8; 64],
        vec![0xff; 7],
        (0u16..300).map(|i| (i % 256) as u8).collect(),
    ];
    for p in cases {
        assert_eq!(decode(encode(&p)).unwrap(), p);
    }
}

#[test]
fn textual_round_trip_various_payloads() {
    let cases: Vec<Vec<u8>> = vec![
        vec![],
        vec![0x61],
        b"The quick brown fox jumps over the lazy dog".to_vec(),
        (0u16..256).map(|i| i as u8).collect(),
    ];
    for p in cases {
        let text = encode_to_base64(&p);
        assert_eq!(decode_from_base64(&text).unwrap().unwrap(), p);
    }
}

#[test]
fn encoding_differs_from_payload() {
    let p = b"abcdef";
    let blob = encode(p);
    assert_ne!(&blob[..], &p[..]);
    let text = encode_to_base64(p);
    assert_ne!(text.as_bytes(), &p[..]);
}

#[test]
fn alignment_rejection() {
    for len in [1usize, 2, 4, 5, 7, 100] {
        let buf = vec![0u8; len];
        match decode(buf) {
            Err(PaddingValidationError::NotAligned { length }) => assert_eq!(length, len),
            Err(e) => panic!("wrong error for length {}: {:?}", len, e),
            Ok(_) => panic!("unaligned buffer of length {} decoded", len),
        }
    }
}

#[test]
fn max_checksum_width_round_trip() {
    // A two-byte payload needs a three-byte checksum field: 1 + 2 + 3 = 6.
    let p = b"hi";
    assert_eq!(gesist::padder::Padder::padded_size(2), 6);
    let blob = encode(p);
    assert_eq!(blob.len(), 6);
    assert_eq!(decode(blob).unwrap(), p.to_vec());
}

#[test]
fn max_checksum_width_sensitivity() {
    let p = b"hi";
    let padder = gesist::padder::Padder::new(p);
    let off = padder.payload_offset();
    let frame = padder.into_content();
    for i in off..frame.len() {
        for bit in 0..8u8 {
            let mut c = frame.clone();
            c[i] ^= 1 << bit;
            match gesist::padder::Padder::try_from_raw(c) {
                Err(PaddingValidationError::InvalidChecksum { .. }) => {}
                Err(PaddingValidationError::UnexpectedPaddedLength { .. }) => {}
                Err(e) => panic!("wrong error at byte {} bit {}: {:?}", i, bit, e),
                Ok(_) => panic!("corrupted frame accepted at byte {} bit {}", i, bit),
            }
        }
    }
}

#[test]
fn in_place_decode_exposes_payload_region() {
    let p = b"payload";
    let blob = encode(p);
    match decode_in_place(blob) {
        Ok(r) => {
            assert_eq!(&r.content[r.offset..r.offset + r.length], &p[..]);
            assert_eq!(r.offset, 1);
            assert_eq!(r.length, p.len());
        }
        Err(e) => panic!("in-place decode failed: {:?}", e),
    }
}

#[test]
fn text_decode_error_on_bad_symbols() {
    assert!(decode_from_base64("!!!!").is_err());
    assert!(decode_from_base64("PaE").is_err() || decode_from_base64("PaE").unwrap().is_err());
}

#[test]
fn decoded_text_of_wrong_alignment_is_not_aligned() {
    // "AAAAAAA=" is valid transport text but decodes to five bytes, which is
    // not a multiple of the alignment.
    match decode_from_base64("AAAAAAA=").unwrap() {
        Err(PaddingValidationError::NotAligned { length }) => assert_eq!(length, 5),
        Ok(_) => panic!("five-byte blob decoded"),
        Err(e) => panic!("expected NotAligned, got {:?}", e),
    }
}

#[test]
fn in_place_decode_of_empty_blob_has_no_frame() {
    // Unlike `decode`, the zero-copy variant always parses a frame, and the
    // empty buffer holds none.
    match decode_in_place(Vec::new()) {
        Err(PaddingValidationError::BadLengthField) => {}
        Err(e) => panic!("expected BadLengthField, got {:?}", e),
        Ok(_) => panic!("empty buffer decoded in place"),
    }
}

#[test]
fn blob_bit_flip_never_decodes_to_wrong_payload() {
    // Flipping one bit anywhere in a blob either still decodes to the same
    // payload (it cannot: the transform is a bijection and the frame is
    // checksummed) or fails validation; it must never yield other bytes.
    let p = b"sensitive";
    let blob = encode(p);
    for i in 0..blob.len() {
        for bit in 0..8u8 {
            let mut c = blob.clone();
            c[i] ^= 1 << bit;
            match decode(c) {
                Ok(other) => panic!(
                    "corrupted blob decoded to {:?} at byte {} bit {}",
                    other, i, bit
                ),
                Err(_) => {}
            }
        }
    }
}
