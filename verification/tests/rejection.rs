//! Rejection of malformed input: overlong forms, surrogates in UTF-8,
//! out-of-range scalars, and misordered surrogate units.

use mbconv::{
    bytes_to_c16, bytes_to_c32, bytes_to_c8, c16_to_bytes, c32_to_bytes, c8_to_bytes, MBState,
    Status,
};

#[test]
fn overlong_two_byte_zero_rejected() {
    // 0xC0 0x80 would encode 0 with two bytes: illegal, though 0x00 is valid.
    let mut st = MBState::new();
    let (status, _) = bytes_to_c32(&[0xC0, 0x80], &mut st);
    assert_eq!(status, Status::Illegal);
    assert!(st.is_initial());

    let (status, scalar) = bytes_to_c32(&[0x00], &mut st);
    assert_eq!(status, Status::Terminator);
    assert_eq!(scalar, 0);
}

#[test]
fn overlong_rejected_byte_at_a_time() {
    let mut st = MBState::new();
    let (status, bytes) = c8_to_bytes(0xC0, &mut st);
    assert_eq!(status, Status::Incomplete);
    assert!(bytes.is_empty());
    assert!(!st.is_initial());
    let (status, bytes) = c8_to_bytes(0x80, &mut st);
    assert_eq!(status, Status::Illegal);
    assert!(bytes.is_empty());
    assert!(st.is_initial());
}

#[test]
fn surrogate_in_utf8_rejected() {
    // 0xED 0xA0 0x80 would decode to 0xD800.
    let mut st = MBState::new();
    let (status, _) = bytes_to_c32(&[0xED, 0xA0, 0x80], &mut st);
    assert_eq!(status, Status::Illegal);
    assert!(st.is_initial());
}

#[test]
fn out_of_range_scalar_rejected() {
    // 0xF4 0x90 0x80 0x80 would decode to 0x110000.
    let mut st = MBState::new();
    let (status, _) = bytes_to_c32(&[0xF4, 0x90, 0x80, 0x80], &mut st);
    assert_eq!(status, Status::Illegal);
    assert!(st.is_initial());
}

#[test]
fn bad_lead_bytes_rejected() {
    let mut st = MBState::new();
    // A lone continuation byte cannot start a sequence.
    let (status, _) = bytes_to_c32(&[0x80], &mut st);
    assert_eq!(status, Status::Illegal);
    // 0xFE and 0xFF match no lead pattern.
    let (status, _) = bytes_to_c32(&[0xFE], &mut st);
    assert_eq!(status, Status::Illegal);
    let (status, _) = bytes_to_c32(&[0xFF], &mut st);
    assert_eq!(status, Status::Illegal);
}

#[test]
fn bad_continuation_rejected() {
    let mut st = MBState::new();
    // The lead byte expects a continuation; an ASCII byte is not one.
    let (status, _) = bytes_to_c32(&[0xE2, 0x41], &mut st);
    assert_eq!(status, Status::Illegal);
    assert!(st.is_initial());
}

#[test]
fn invalid_scalar_to_encoder_rejected() {
    let mut st = MBState::new();
    let (status, bytes) = c32_to_bytes(0xD800, &mut st);
    assert_eq!(status, Status::Illegal);
    assert!(bytes.is_empty());
    assert!(st.is_initial());
    let (status, _) = c32_to_bytes(0xDFFF, &mut st);
    assert_eq!(status, Status::Illegal);
    let (status, _) = c32_to_bytes(0x110000, &mut st);
    assert_eq!(status, Status::Illegal);
    // The boundary values on either side are accepted.
    let (status, _) = c32_to_bytes(0xD7FF, &mut st);
    assert_eq!(status, Status::Units(3));
    let (status, _) = c32_to_bytes(0xE000, &mut st);
    assert_eq!(status, Status::Units(3));
}

#[test]
fn lone_low_surrogate_rejected() {
    let mut st = MBState::new();
    let (status, bytes) = c16_to_bytes(0xDC00, &mut st);
    assert_eq!(status, Status::Illegal);
    assert!(bytes.is_empty());
    assert!(st.is_initial());
}

#[test]
fn misordered_surrogates_rejected() {
    // A high surrogate followed by anything but a low surrogate is fatal.
    let mut st = MBState::new();
    let (status, _) = c16_to_bytes(0xD800, &mut st);
    assert_eq!(status, Status::Incomplete);
    let (status, _) = c16_to_bytes(0xD801, &mut st);
    assert_eq!(status, Status::Illegal);
    assert!(st.is_initial());

    let (status, _) = c16_to_bytes(0xDBFF, &mut st);
    assert_eq!(status, Status::Incomplete);
    let (status, _) = c16_to_bytes(0x41, &mut st);
    assert_eq!(status, Status::Illegal);
    assert!(st.is_initial());
}

#[test]
fn error_resets_partial_sequence() {
    // A fatal error discards the partial sequence: the next call starts anew.
    let mut st = MBState::new();
    let (status, _) = bytes_to_c8(&[0xE2], &mut st);
    assert_eq!(status, Status::Incomplete);
    let (status, _) = bytes_to_c8(&[0xFF], &mut st);
    assert_eq!(status, Status::Illegal);
    assert!(st.is_initial());
    let (status, byte) = bytes_to_c8(&[0x41], &mut st);
    assert_eq!(status, Status::Units(1));
    assert_eq!(byte, 0x41);
}
