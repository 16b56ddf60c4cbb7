//! Round-trip and chunk-invariance behaviour of the conversion operations.

use mbconv::{
    bytes_to_c16, bytes_to_c32, c16_to_bytes, c32_to_bytes, MBState, Status,
};

fn is_scalar(c: u32) -> bool {
    c <= 0x10FFFF && !(0xD800..=0xDFFF).contains(&c)
}

#[test]
fn round_trip_every_scalar() {
    let mut st = MBState::new();
    let mut c: u32 = 0;
    while c <= 0x10FFFF {
        if is_scalar(c) {
            let (enc_status, bytes) = c32_to_bytes(c, &mut st);
            let expected_len = match c {
                0..=0x7F => 1,
                0x80..=0x7FF => 2,
                0x800..=0xFFFF => 3,
                _ => 4,
            };
            assert_eq!(enc_status, Status::Units(expected_len));
            assert_eq!(bytes.len(), expected_len);
            let (dec_status, scalar) = bytes_to_c32(&bytes, &mut st);
            if c == 0 {
                assert_eq!(dec_status, Status::Terminator);
            } else {
                assert_eq!(dec_status, Status::Units(expected_len));
            }
            assert_eq!(scalar, c);
            assert!(st.is_initial());
        }
        c += 1;
    }
}

#[test]
fn round_trip_boundary_scalars() {
    let mut st = MBState::new();
    for &c in &[0x7Fu32, 0x80, 0x7FF, 0x800, 0xD7FF, 0xE000, 0xFFFF, 0x10000, 0x10FFFF] {
        let (_, bytes) = c32_to_bytes(c, &mut st);
        let (status, scalar) = bytes_to_c32(&bytes, &mut st);
        assert_eq!(status, Status::Units(bytes.len()));
        assert_eq!(scalar, c);
    }
}

#[test]
fn chunk_invariance_three_byte_scalar() {
    // 0xE2 0x82 0xAC decodes to U+20AC in one call of three bytes.
    let whole = [0xE2u8, 0x82, 0xAC];
    let mut st = MBState::new();
    let (status, scalar) = bytes_to_c32(&whole, &mut st);
    assert_eq!(status, Status::Units(3));
    assert_eq!(scalar, 0x20AC);

    // Split at every position: same scalar, consumed counts adding up to 3.
    for split in 1..3 {
        let mut st = MBState::new();
        let (first, _) = bytes_to_c32(&whole[..split], &mut st);
        assert_eq!(first, Status::Incomplete);
        let (second, scalar) = bytes_to_c32(&whole[split..], &mut st);
        assert_eq!(second, Status::Units(3 - split));
        assert_eq!(scalar, 0x20AC);
        assert!(st.is_initial());
    }
}

#[test]
fn chunk_invariance_byte_at_a_time() {
    // A four-byte scalar fed one byte per call.
    let mut st = MBState::new();
    let (_, bytes) = c32_to_bytes(0x1F600, &mut st);
    assert_eq!(bytes.len(), 4);
    for i in 0..3 {
        let (status, _) = bytes_to_c32(&bytes[i..i + 1], &mut st);
        assert_eq!(status, Status::Incomplete);
        assert!(!st.is_initial());
    }
    let (status, scalar) = bytes_to_c32(&bytes[3..4], &mut st);
    assert_eq!(status, Status::Units(1));
    assert_eq!(scalar, 0x1F600);
    assert!(st.is_initial());
}

#[test]
fn surrogate_pairing_round_trip() {
    for &c in &[0x10000u32, 0x1F600, 0x10FFFF] {
        // Encode the scalar to bytes, then decode the bytes as 16-bit units:
        // the high surrogate comes first, the low surrogate is replayed.
        let mut st = MBState::new();
        let (_, bytes) = c32_to_bytes(c, &mut st);
        let (s1, hi) = bytes_to_c16(&bytes, &mut st);
        assert_eq!(s1, Status::Units(4));
        assert!((0xD800..=0xDBFF).contains(&hi));
        assert!(!st.is_initial());
        let (s2, lo) = bytes_to_c16(&[], &mut st);
        assert_eq!(s2, Status::Replayed);
        assert!((0xDC00..=0xDFFF).contains(&lo));
        assert!(st.is_initial());

        // Feeding the two units back in order recovers the scalar's bytes.
        let (s3, none) = c16_to_bytes(hi, &mut st);
        assert_eq!(s3, Status::Incomplete);
        assert!(none.is_empty());
        let (s4, encoded) = c16_to_bytes(lo, &mut st);
        assert_eq!(s4, Status::Units(4));
        assert_eq!(encoded, bytes);
        let (_, scalar) = bytes_to_c32(&encoded, &mut st);
        assert_eq!(scalar, c);

        // The surrogate values follow the documented formulas.
        let off = c - 0x10000;
        assert_eq!(hi as u32, 0xD800 + (off >> 10));
        assert_eq!(lo as u32, 0xDC00 + (off & 0x3FF));
    }
}

#[test]
fn bmp_unit_through_c16() {
    let mut st = MBState::new();
    let (status, bytes) = c16_to_bytes(0x41, &mut st);
    assert_eq!(status, Status::Units(1));
    assert_eq!(bytes, vec![0x41]);
    let (status, bytes) = c16_to_bytes(0x20AC, &mut st);
    assert_eq!(status, Status::Units(3));
    assert_eq!(bytes, vec![0xE2, 0x82, 0xAC]);

    // And back: a three-byte scalar decodes to one 16-bit unit.
    let (status, unit) = bytes_to_c16(&bytes, &mut st);
    assert_eq!(status, Status::Units(3));
    assert_eq!(unit, 0x20AC);
    assert!(st.is_initial());
}
