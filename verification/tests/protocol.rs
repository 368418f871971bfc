use keyence_suite::protocol::{
    check_protocol_version, frame_length, read_frame, read_protocol_version, write_frame,
    write_protocol_version, ErrorKind, FrameError, MAX_FRAME_SIZE, PROTOCOL_VERSION,
};

#[test]
fn round_trips_a_frame() {
    let mut encoded = Vec::new();
    write_frame(&mut encoded, b"hello").unwrap();
    assert_eq!(read_frame(&mut encoded.as_slice()).unwrap(), b"hello");
}

#[test]
fn supports_multiple_frames() {
    let mut encoded = Vec::new();
    write_frame(&mut encoded, b"bmp").unwrap();
    write_frame(&mut encoded, b"name").unwrap();
    let mut reader = encoded.as_slice();
    assert_eq!(read_frame(&mut reader).unwrap(), b"bmp");
    assert_eq!(read_frame(&mut reader).unwrap(), b"name");
}

#[test]
fn rejects_oversized_frame_header() {
    let header = (MAX_FRAME_SIZE + 1).to_be_bytes();
    let mut reader = header.as_slice();
    let error = read_frame(&mut reader).unwrap_err();
    assert_eq!(error.kind(), ErrorKind::InvalidData);
}

#[test]
fn round_trips_protocol_version() {
    let mut encoded = Vec::new();
    write_protocol_version(&mut encoded).unwrap();
    read_protocol_version(&mut encoded.as_slice()).unwrap();
}

#[test]
fn frame_header_is_big_endian_length() {
    let mut encoded = Vec::new();
    write_frame(&mut encoded, b"abc").unwrap();
    assert_eq!(encoded, vec![0, 0, 0, 0, 0, 0, 0, 3, b'a', b'b', b'c']);
}

#[test]
fn empty_frame_round_trips() {
    let mut encoded = Vec::new();
    write_frame(&mut encoded, b"").unwrap();
    assert_eq!(encoded, vec![0u8; 8]);
    let mut reader = encoded.as_slice();
    assert_eq!(read_frame(&mut reader).unwrap(), Vec::<u8>::new());
    assert!(reader.is_empty());
}

#[test]
fn frame_of_exactly_the_limit_is_written() {
    let data = vec![7u8; MAX_FRAME_SIZE as usize];
    let mut encoded = Vec::new();
    write_frame(&mut encoded, &data).unwrap();
    assert_eq!(encoded.len(), 8 + data.len());
    assert_eq!(&encoded[..8], &MAX_FRAME_SIZE.to_be_bytes());
    let mut reader = encoded.as_slice();
    assert_eq!(read_frame(&mut reader).unwrap(), data);
}

#[test]
fn oversized_payload_is_refused_and_nothing_written() {
    let data = vec![0u8; MAX_FRAME_SIZE as usize + 1];
    let mut encoded = vec![1u8, 2];
    let error = write_frame(&mut encoded, &data).unwrap_err();
    assert_eq!(error, FrameError::PayloadTooLarge);
    assert_eq!(error.kind(), ErrorKind::InvalidInput);
    assert_eq!(encoded, vec![1u8, 2]);
}

#[test]
fn oversized_header_consumes_only_the_header() {
    let mut input = (MAX_FRAME_SIZE + 1).to_be_bytes().to_vec();
    input.extend_from_slice(b"rest");
    let mut reader = input.as_slice();
    assert_eq!(read_frame(&mut reader).unwrap_err(), FrameError::LengthExceedsLimit);
    assert_eq!(reader, b"rest");
}

#[test]
fn truncated_header_is_unexpected_eof() {
    let mut reader: &[u8] = &[0, 0, 0];
    let error = read_frame(&mut reader).unwrap_err();
    assert_eq!(error, FrameError::UnexpectedEof);
    assert_eq!(error.kind(), ErrorKind::UnexpectedEof);
    assert!(reader.is_empty());
}

#[test]
fn truncated_payload_is_unexpected_eof() {
    let mut reader: &[u8] = &[0, 0, 0, 0, 0, 0, 0, 5, 1, 2];
    assert_eq!(read_frame(&mut reader).unwrap_err(), FrameError::UnexpectedEof);
    assert!(reader.is_empty());
}

#[test]
fn frame_leaves_following_bytes_unread() {
    let mut encoded = Vec::new();
    write_frame(&mut encoded, b"xy").unwrap();
    encoded.extend_from_slice(b"tail");
    let mut reader = encoded.as_slice();
    assert_eq!(read_frame(&mut reader).unwrap(), b"xy");
    assert_eq!(reader, b"tail");
}

#[test]
fn version_frame_holds_big_endian_version() {
    let mut encoded = Vec::new();
    write_protocol_version(&mut encoded).unwrap();
    assert_eq!(encoded, vec![0, 0, 0, 0, 0, 0, 0, 2, 0, 1]);
    assert_eq!(PROTOCOL_VERSION, 1);
}

#[test]
fn other_version_is_refused() {
    let mut encoded = Vec::new();
    write_frame(&mut encoded, &[0, 2]).unwrap();
    let error = read_protocol_version(&mut encoded.as_slice()).unwrap_err();
    assert_eq!(error, FrameError::UnsupportedVersion(2));
    assert_eq!(error.kind(), ErrorKind::InvalidData);
}

#[test]
fn version_frame_of_wrong_size_is_refused() {
    let mut encoded = Vec::new();
    write_frame(&mut encoded, &[0, 0, 1]).unwrap();
    let error = read_protocol_version(&mut encoded.as_slice()).unwrap_err();
    assert_eq!(error, FrameError::InvalidVersionFrame);
    assert_eq!(error.kind(), ErrorKind::InvalidData);
    assert_eq!(check_protocol_version(&[0, 1]), Ok(()));
}

#[test]
fn frame_length_checks_the_limit() {
    assert_eq!(frame_length(&42u64.to_be_bytes()), Ok(42));
    assert_eq!(
        frame_length(&(MAX_FRAME_SIZE + 1).to_be_bytes()),
        Err(FrameError::LengthExceedsLimit)
    );
}
