use gesist::padder::{leb128_size, Padder, PaddingValidationError};
use gesist::mixer::Mixer;

#[test]
fn leb128_size_values() {
    assert_eq!(leb128_size(0), 0);
    assert_eq!(leb128_size(1), 1);
    assert_eq!(leb128_size(127), 1);
    assert_eq!(leb128_size(128), 2);
    assert_eq!(leb128_size(300), 2);
    assert_eq!(leb128_size(16383), 2);
    assert_eq!(leb128_size(16384), 3);
    assert_eq!(leb128_size(65536), 3);
}

#[test]
fn padded_size_values() {
    assert_eq!(Padder::padded_size(300), 303);
    assert_eq!(Padder::padded_size(200), 204);
    assert_eq!(Padder::padded_size(0), 3);
    assert_eq!(Padder::padded_size(1), 3);
    assert_eq!(Padder::padded_size(2), 6);
    for n in 0usize..500 {
        let s = Padder::padded_size(n);
        assert_eq!(s % 3, 0);
        assert!(s >= n + 2);
    }
}

#[test]
fn frame_layout_single_byte() {
    let p = Padder::new(b"abc");
    assert_eq!(p.payload_offset(), 1);
    assert_eq!(p.payload_length(), 3);
    assert_eq!(p.as_slice(), b"abc");
    let frame = p.into_content();
    assert_eq!(frame.len(), 6);
    assert_eq!(frame[0], 3); // length prefix
    assert_eq!(&frame[1..4], b"abc");
    // checksum field: base value, then base plus one
    assert_eq!(frame[5], frame[4].wrapping_add(1));
}

#[test]
fn frame_round_trips_through_validation() {
    for p in [&b""[..], b"a", b"hi", b"abc", b"some longer payload bytes"] {
        let frame = Padder::new(p).into_content();
        let back = Padder::try_from_raw(frame).map_err(|e| panic!("{:?}", e)).unwrap();
        assert_eq!(back.as_slice(), p);
    }
}

#[test]
fn zeroed_frame_for_empty_payload() {
    // The length prefix of zero is a single zero byte; the two remaining
    // bytes hold the checksum of the empty payload (zero) plus the index.
    let frame = Padder::new_zeroed(0).into_content();
    assert_eq!(frame, vec![0x00, 0x00, 0x01]);
}

#[test]
fn payload_mutation_recomputes_checksum() {
    let mut g = Padder::new(b"aaa").as_mut();
    assert_eq!(g.len(), 3);
    g.copy_from_slice(b"bbb");
    let p = g.finish();
    assert_eq!(p.as_slice(), b"bbb");
    assert_eq!(p.into_content(), Padder::new(b"bbb").into_content());
}

#[test]
fn payload_mutation_single_byte() {
    let mut g = Padder::new(b"xyz").as_mut();
    g.set(1, b'a');
    let p = g.finish();
    assert_eq!(p.as_slice(), b"xaz");
    assert_eq!(p.into_content(), Padder::new(b"xaz").into_content());
}

#[test]
fn validation_not_aligned() {
    match Padder::try_from_raw(vec![0u8; 4]) {
        Err(PaddingValidationError::NotAligned { length }) => assert_eq!(length, 4),
        _ => panic!("expected NotAligned"),
    }
}

#[test]
fn validation_bad_length_field() {
    // Every byte keeps the continuation bit set: the field never terminates.
    match Padder::try_from_raw(vec![0x80, 0x80, 0x80]) {
        Err(PaddingValidationError::BadLengthField) => {}
        _ => panic!("expected BadLengthField"),
    }
}

#[test]
fn validation_unexpected_padded_length() {
    // A buffer of three bytes claiming a five-byte payload.
    match Padder::try_from_raw(vec![0x05, 0x00, 0x00]) {
        Err(PaddingValidationError::UnexpectedPaddedLength { payload_size, expected, actual }) => {
            assert_eq!(payload_size, 5);
            assert_eq!(expected, 9);
            assert_eq!(actual, 3);
        }
        _ => panic!("expected UnexpectedPaddedLength"),
    }
}

#[test]
fn validation_invalid_checksum_offset() {
    let mut frame = Padder::new(b"a").into_content();
    frame[2] = frame[2].wrapping_add(1);
    match Padder::try_from_raw(frame) {
        Err(PaddingValidationError::InvalidChecksum { offset }) => assert_eq!(offset, 2),
        _ => panic!("expected InvalidChecksum"),
    }
}

#[test]
fn validation_accepts_redundant_length_encoding() {
    // A length field of zero written in two bytes still parses: the frame
    // has one checksum byte, the checksum of the empty payload.
    let back = Padder::try_from_raw(vec![0x80, 0x00, 0x00]).map_err(|e| panic!("{:?}", e)).unwrap();
    assert_eq!(back.as_slice(), b"");
    assert_eq!(back.payload_offset(), 2);
}

#[test]
fn mix_is_an_involution() {
    let buf: Vec<u8> = (0u8..27).collect();
    let mut m = Mixer::new(buf.clone()).unwrap();
    m.mix();
    let once = m.as_slice().to_vec();
    assert_ne!(once, buf);
    let mut m2 = Mixer::new_with_copy(&once).unwrap();
    m2.mix();
    assert_eq!(m2.into_content(), buf);
}

#[test]
fn mix_involution_short_buffers() {
    for len in [0usize, 3, 6, 9] {
        let buf: Vec<u8> = (0..len).map(|i| (7 * i + 1) as u8).collect();
        let mut m = Mixer::new(buf.clone()).unwrap();
        m.mix();
        m.mix();
        assert_eq!(m.into_content(), buf);
    }
}

#[test]
fn mixer_rejects_unaligned() {
    assert!(Mixer::new(vec![1, 2]).is_none());
    assert!(Mixer::new_with_copy(&[1, 2, 3, 4]).is_none());
    assert!(Mixer::new(Vec::new()).is_some());
}

#[test]
fn mixer_from_padder_mixes_frame() {
    let padder = Padder::new(b"abc");
    let frame = Padder::new(b"abc").into_content();
    let mut m = Mixer::new_from_padder(padder);
    assert_eq!(m.as_slice(), &frame[..]);
    m.mix();
    assert_ne!(m.as_slice(), &frame[..]);
}
