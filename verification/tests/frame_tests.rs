use lens_driver::{checksum, decode, decode_variable, encode, LensError};

fn terminated_frame(payload: &[u8]) -> Vec<u8> {
    let mut raw = encode(payload);
    raw.push(b'\r');
    raw.push(b'\n');
    raw
}

#[test]
fn decode_round_trips_encode_without_terminator() {
    let payload = [0x10u8, 0x20, 0x30, 0x40, 0x50];
    let raw = encode(&payload);
    assert_eq!(decode(&raw, payload.len(), false), Ok(payload.to_vec()));
}

#[test]
fn decode_round_trips_encode_with_terminator() {
    let payload = [0xDEu8, 0xAD, 0xBE, 0xEF];
    let raw = terminated_frame(&payload);
    assert_eq!(decode(&raw, payload.len(), true), Ok(payload.to_vec()));
}

#[test]
fn decode_round_trips_empty_payload() {
    let raw = terminated_frame(&[]);
    assert_eq!(decode(&raw, 0, true), Ok(Vec::new()));
}

#[test]
fn decode_rejects_short_response() {
    let payload = [1u8, 2, 3];
    let raw = encode(&payload);
    // Three payload bytes, checksum, but no terminator where one is required.
    assert_eq!(decode(&raw, payload.len(), true), Err(LensError::ShortResponse));
    assert_eq!(decode(&[], 1, false), Err(LensError::ShortResponse));
}

#[test]
fn decode_rejects_corrupted_checksum() {
    let payload = [9u8, 8, 7];
    let mut raw = terminated_frame(&payload);
    raw[3] ^= 0x01;
    assert_eq!(decode(&raw, payload.len(), true), Err(LensError::CrcError));
}

#[test]
fn decode_rejects_corrupted_payload() {
    let payload = [9u8, 8, 7];
    let mut raw = terminated_frame(&payload);
    raw[0] ^= 0x80;
    assert_eq!(decode(&raw, payload.len(), true), Err(LensError::CrcError));
}

#[test]
fn decode_rejects_bad_terminator() {
    let payload = [5u8, 6];
    let mut raw = terminated_frame(&payload);
    let n = raw.len();
    raw[n - 1] = b'X';
    assert_eq!(decode(&raw, payload.len(), true), Err(LensError::UnexpectedResponse));
}

#[test]
fn decode_ignores_tail_bytes_when_no_terminator_is_required() {
    let payload = [5u8, 6];
    let mut raw = encode(&payload);
    raw.push(0xAA);
    raw.push(0xBB);
    assert_eq!(decode(&raw, payload.len(), false), Ok(payload.to_vec()));
}

#[test]
fn decode_variable_style_framing_by_trailing_length() {
    // The read-until-timeout variant: whatever arrived, the last four bytes
    // are the checksum and two sentinel bytes.
    let payload = [0x11u8, 0x22, 0x33, 0x44, 0x55, 0x66, 0x77];
    let mut raw = encode(&payload);
    raw.push(0x00);
    raw.push(0x00);
    assert_eq!(decode(&raw, raw.len() - 4, false), Ok(payload.to_vec()));
}

#[test]
fn decode_variable_accepts_a_frame_with_trailing_sentinel_bytes() {
    let payload = [0xAAu8, 0xBB, 0xCC];
    let mut raw = encode(&payload);
    raw.push(0x00);
    raw.push(0x00);
    assert_eq!(decode_variable(&raw), Ok(payload.to_vec()));
}

#[test]
fn decode_variable_rejects_fewer_than_four_bytes() {
    assert_eq!(decode_variable(&[]), Err(LensError::ShortResponse));
    assert_eq!(decode_variable(&[1, 2, 3]), Err(LensError::ShortResponse));
}

#[test]
fn decode_variable_rejects_a_corrupted_checksum() {
    let payload = [0xAAu8, 0xBB, 0xCC];
    let mut raw = encode(&payload);
    raw[3] ^= 0x01;
    raw.push(0x00);
    raw.push(0x00);
    assert_eq!(decode_variable(&raw), Err(LensError::CrcError));
}

#[test]
fn checksum_covers_payload_alone_never_the_terminator() {
    let payload = [0xA5u8, 0x5A];
    let raw = terminated_frame(&payload);
    let crc = checksum(&payload);
    assert_eq!(raw[2], (crc % 256) as u8);
    assert_eq!(raw[3], (crc / 256) as u8);
    // Recomputing over payload plus terminator would disagree.
    assert_ne!(checksum(&raw[..raw.len() - 2]), crc);
}
