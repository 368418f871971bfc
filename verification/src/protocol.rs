//! The collector-to-processor parent protocol: length-prefixed frames.
//!
//! A frame is an 8-byte big-endian payload length followed by the payload.
//! The first frame of a connection carries the protocol version as a
//! big-endian `u16`.
use vstd::prelude::*;
use crate::bytes::{lemma_be16_roundtrip, lemma_be64_roundtrip, be16_bytes, be16_value, be64_bytes, be64_value, push_be16, push_be64, read_be16, read_be64};

verus! {

/// Version of the collector-to-processor parent protocol.
pub const PROTOCOL_VERSION: u16 = 1;

/// Upper bound for one length-prefixed payload.
pub const MAX_FRAME_SIZE: u64 = 64 * 1024 * 1024;

/// How a protocol failure is classified, in the terms of `std::io::ErrorKind`.
#[derive(Debug, Clone, Copy, PartialEq, Eq, Structural)]
pub enum ErrorKind {
    /// The caller handed over something the protocol cannot carry.
    InvalidInput,
    /// The peer sent something the protocol does not allow.
    InvalidData,
    /// The input ended in the middle of a frame.
    UnexpectedEof,
}

/// Why a frame could not be written or read.
#[derive(Debug, Clone, Copy, PartialEq, Eq, Structural)]
pub enum FrameError {
    /// A payload to be written is longer than `MAX_FRAME_SIZE`.
    PayloadTooLarge,
    /// A frame header announces a payload longer than `MAX_FRAME_SIZE`.
    LengthExceedsLimit,
    /// The input ended before the header or the payload was complete.
    UnexpectedEof,
    /// The version frame does not hold exactly two bytes.
    InvalidVersionFrame,
    /// The version frame holds a version other than `PROTOCOL_VERSION`.
    UnsupportedVersion(u16),
}

impl FrameError {
    /// The classification of each error.
    pub open spec fn spec_kind(self) -> ErrorKind {
        match self {
            FrameError::PayloadTooLarge => ErrorKind::InvalidInput,
            FrameError::UnexpectedEof => ErrorKind::UnexpectedEof,
            _ => ErrorKind::InvalidData,
        }
    }

    /// The classification of this error.
    pub fn kind(&self) -> (kind: ErrorKind)
        ensures
            kind == self.spec_kind(),
    {
        match self {
            FrameError::PayloadTooLarge => ErrorKind::InvalidInput,
            FrameError::UnexpectedEof => ErrorKind::UnexpectedEof,
            _ => ErrorKind::InvalidData,
        }
    }
}

/// The bytes of one frame that carries `payload`.
pub open spec fn frame_bytes(payload: Seq<u8>) -> Seq<u8> {
    be64_bytes(payload.len() as u64) + payload
}

/// What reading one frame from `input` gives: the payload or the error,
/// and the input that is left afterwards.
pub open spec fn frame_read(input: Seq<u8>) -> (Result<Seq<u8>, FrameError>, Seq<u8>) {
    if input.len() < 8 {
        (Err(FrameError::UnexpectedEof), Seq::empty())
    } else {
        let length = be64_value(input);
        if length > MAX_FRAME_SIZE {
            (Err(FrameError::LengthExceedsLimit), input.skip(8))
        } else if input.len() - 8 < length {
            (Err(FrameError::UnexpectedEof), Seq::empty())
        } else {
            (Ok(input.subrange(8, 8 + length)), input.skip(8 + length))
        }
    }
}

/// What checking a version payload gives.
pub open spec fn version_check(payload: Seq<u8>) -> Result<(), FrameError> {
    if payload.len() != 2 {
        Err(FrameError::InvalidVersionFrame)
    } else if be16_value(payload) != PROTOCOL_VERSION {
        Err(FrameError::UnsupportedVersion(be16_value(payload)))
    } else {
        Ok(())
    }
}

/// What reading the version frame from `input` gives, and the input left.
pub open spec fn version_read(input: Seq<u8>) -> (Result<(), FrameError>, Seq<u8>) {
    let (frame, rest) = frame_read(input);
    match frame {
        Ok(payload) => (version_check(payload), rest),
        Err(e) => (Err(e), rest),
    }
}

/// Writes one frame: an 8-byte big-endian length followed by its payload.
/// A payload longer than `MAX_FRAME_SIZE` is refused and nothing is written.
pub fn write_frame(writer: &mut Vec<u8>, data: &[u8]) -> (res: Result<(), FrameError>)
    ensures
        data@.len() > MAX_FRAME_SIZE ==> res == Err::<(), FrameError>(FrameError::PayloadTooLarge)
            && final(writer)@ == old(writer)@,
        data@.len() <= MAX_FRAME_SIZE ==> res == Ok::<(), FrameError>(()) && final(writer)@
            == old(writer)@ + frame_bytes(data@),
{
    let length = data.len() as u64;
    if length > MAX_FRAME_SIZE {
        return Err(FrameError::PayloadTooLarge);
    }
    push_be64(writer, length);
    let ghost mid = writer@;
    writer.extend_from_slice(data);
    assert(writer@ =~= mid + data@);
    Ok(())
}

/// Reads one frame and rejects payloads larger than `MAX_FRAME_SIZE`.
/// The reader is advanced past what was consumed.
pub fn read_frame(reader: &mut &[u8]) -> (res: Result<Vec<u8>, FrameError>)
    ensures
        final(reader)@ == frame_read(old(reader)@).1,
        match res {
            Ok(payload) => frame_read(old(reader)@).0 == Ok::<Seq<u8>, FrameError>(payload@),
            Err(e) => frame_read(old(reader)@).0 == Err::<Seq<u8>, FrameError>(e),
        },
{
    let input: &[u8] = *reader;
    let total = input.len();
    if total < 8 {
        *reader = vstd::slice::slice_subrange(input, total, total);
        assert(reader@ =~= Seq::<u8>::empty());
        return Err(FrameError::UnexpectedEof);
    }
    let length = read_be64(input);
    if length > MAX_FRAME_SIZE {
        *reader = vstd::slice::slice_subrange(input, 8, total);
        assert(reader@ =~= input@.skip(8));
        return Err(FrameError::LengthExceedsLimit);
    }
    let n = length as usize;
    if total - 8 < n {
        *reader = vstd::slice::slice_subrange(input, total, total);
        assert(reader@ =~= Seq::<u8>::empty());
        return Err(FrameError::UnexpectedEof);
    }
    let payload = vstd::slice::slice_to_vec(vstd::slice::slice_subrange(input, 8, 8 + n));
    *reader = vstd::slice::slice_subrange(input, 8 + n, total);
    assert(reader@ =~= input@.skip(8 + n as int));
    Ok(payload)
}

/// Checks that a version payload holds `PROTOCOL_VERSION` as a big-endian `u16`.
pub fn check_protocol_version(payload: &[u8]) -> (res: Result<(), FrameError>)
    ensures
        res == version_check(payload@),
{
    if payload.len() != 2 {
        return Err(FrameError::InvalidVersionFrame);
    }
    let version = read_be16(payload);
    if version != PROTOCOL_VERSION {
        return Err(FrameError::UnsupportedVersion(version));
    }
    Ok(())
}

/// Writes the protocol version as the first length-prefixed frame.
pub fn write_protocol_version(writer: &mut Vec<u8>) -> (res: Result<(), FrameError>)
    ensures
        res == Ok::<(), FrameError>(()),
        final(writer)@ == old(writer)@ + frame_bytes(be16_bytes(PROTOCOL_VERSION)),
{
    let mut payload: Vec<u8> = Vec::new();
    push_be16(&mut payload, PROTOCOL_VERSION);
    assert(payload@ =~= be16_bytes(PROTOCOL_VERSION));
    write_frame(writer, payload.as_slice())
}

/// Reads and validates the first protocol-version frame.
pub fn read_protocol_version(reader: &mut &[u8]) -> (res: Result<(), FrameError>)
    ensures
        res == version_read(old(reader)@).0,
        final(reader)@ == version_read(old(reader)@).1,
{
    let payload = read_frame(reader)?;
    check_protocol_version(payload.as_slice())
}

/// Checks the 8-byte header of a frame and gives the announced payload length.
pub fn frame_length(header: &[u8]) -> (res: Result<usize, FrameError>)
    requires
        header@.len() >= 8,
    ensures
        be64_value(header@) > MAX_FRAME_SIZE ==> res == Err::<usize, FrameError>(
            FrameError::LengthExceedsLimit,
        ),
        be64_value(header@) <= MAX_FRAME_SIZE ==> res == Ok::<usize, FrameError>(
            be64_value(header@) as usize,
        ),
{
    let length = read_be64(header);
    if length > MAX_FRAME_SIZE {
        return Err(FrameError::LengthExceedsLimit);
    }
    Ok(length as usize)
}


/// The message that hands a processed image to the viewer: the image as one
/// frame and its metadata as a second one, with no size limit applied.
pub fn viewer_message(image: &[u8], metadata: &[u8]) -> (message: Vec<u8>)
    ensures
        message@ == frame_bytes(image@) + frame_bytes(metadata@),
{
    let mut message: Vec<u8> = Vec::new();
    push_be64(&mut message, image.len() as u64);
    message.extend_from_slice(image);
    push_be64(&mut message, metadata.len() as u64);
    message.extend_from_slice(metadata);
    assert(message@ =~= frame_bytes(image@) + frame_bytes(metadata@));
    message
}

/// A frame written for a payload within the limit reads back as that payload,
/// and whatever followed the frame is left unread.
pub proof fn law_frame_roundtrip(payload: Seq<u8>, rest: Seq<u8>)
    requires
        payload.len() <= MAX_FRAME_SIZE,
    ensures
        frame_read(frame_bytes(payload) + rest) == (Ok::<Seq<u8>, FrameError>(payload), rest),
{
    let n = payload.len() as u64;
    lemma_be64_roundtrip(n);
    let input = frame_bytes(payload) + rest;
    assert(input.subrange(0, 8) =~= be64_bytes(n));
    assert(be64_value(input) == be64_value(be64_bytes(n)));
    assert(input.subrange(8, 8 + n) =~= payload);
    assert(input.skip(8 + n) =~= rest);
}

/// Frames written one after another read back one after another, in order.
pub proof fn law_frames_in_sequence(first: Seq<u8>, second: Seq<u8>, rest: Seq<u8>)
    requires
        first.len() <= MAX_FRAME_SIZE,
        second.len() <= MAX_FRAME_SIZE,
    ensures
        frame_read(frame_bytes(first) + frame_bytes(second) + rest) == (Ok::<Seq<u8>, FrameError>(
            first,
        ), frame_bytes(second) + rest),
        frame_read(frame_bytes(second) + rest) == (Ok::<Seq<u8>, FrameError>(second), rest),
{
    assert(frame_bytes(first) + frame_bytes(second) + rest =~= frame_bytes(first) + (frame_bytes(
        second,
    ) + rest));
    law_frame_roundtrip(first, frame_bytes(second) + rest);
    law_frame_roundtrip(second, rest);
}

/// The version frame that the writer produces is accepted by the reader,
/// and whatever followed it is left unread.
pub proof fn law_version_roundtrip(rest: Seq<u8>)
    ensures
        version_read(frame_bytes(be16_bytes(PROTOCOL_VERSION)) + rest) == (Ok::<(), FrameError>(()), rest),
{
    lemma_be16_roundtrip(PROTOCOL_VERSION);
    law_frame_roundtrip(be16_bytes(PROTOCOL_VERSION), rest);
}

/// A header that announces more than `MAX_FRAME_SIZE` bytes is refused as
/// invalid data, whatever follows it.
pub proof fn law_oversized_header_refused(length: u64, rest: Seq<u8>)
    requires
        length > MAX_FRAME_SIZE,
    ensures
        frame_read(be64_bytes(length) + rest).0 == Err::<Seq<u8>, FrameError>(
            FrameError::LengthExceedsLimit,
        ),
        FrameError::LengthExceedsLimit.spec_kind() == ErrorKind::InvalidData,
{
    lemma_be64_roundtrip(length);
    let input = be64_bytes(length) + rest;
    assert(be64_value(input) == be64_value(be64_bytes(length)));
}

/// A version frame that carries any other version is refused as invalid
/// data, naming that version.
pub proof fn law_other_versions_refused(version: u16, rest: Seq<u8>)
    requires
        version != PROTOCOL_VERSION,
    ensures
        version_read(frame_bytes(be16_bytes(version)) + rest).0 == Err::<(), FrameError>(
            FrameError::UnsupportedVersion(version),
        ),
        FrameError::UnsupportedVersion(version).spec_kind() == ErrorKind::InvalidData,
{
    lemma_be16_roundtrip(version);
    law_frame_roundtrip(be16_bytes(version), rest);
}

} // verus!
