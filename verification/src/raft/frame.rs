//! Checksummed frames, the unit of the write-ahead log.

use vstd::prelude::*;

use crate::bytes::{copy_range, le_bytes, le_round_trip, le_round_trip_bytes, le_value, pow256_widths, push_le_u32,
    read_le_u32};

verus! {

/// The CRC32 (IEEE) of `data`.
pub uninterp spec fn crc32_of(data: Seq<u8>) -> u32;

/// Calls `crc32fast::hash`. The claim is that the result is a function of the bytes
/// alone, here named [`crc32_of`].
#[verifier::external_body]
pub(crate) fn crc32(data: &[u8]) -> (sum: u32)
    ensures
        sum == crc32_of(data@),
{
    crc32fast::hash(data)
}

/// Why a frame was refused.
#[derive(Debug, Clone, Copy, PartialEq, Eq, Structural)]
pub enum FrameError {
    /// Fewer bytes than a checksum takes.
    TooSmall,
    /// The stored checksum is not that of the payload.
    ChecksumMismatch,
}

impl FrameError {
    /// The text of this error.
    pub open spec fn message_text(self) -> Seq<char> {
        match self {
            FrameError::TooSmall => "frame too small"@,
            FrameError::ChecksumMismatch => "checksum mismatch"@,
        }
    }

    /// The text of this error.
    pub fn message(&self) -> (text: String)
        ensures
            text@ == self.message_text(),
    {
        match self {
            FrameError::TooSmall => String::from_str("frame too small"),
            FrameError::ChecksumMismatch => String::from_str("checksum mismatch"),
        }
    }
}

/// A frame: the checksum in four little-endian bytes, then the payload.
pub open spec fn frame(payload: Seq<u8>, sum: u32) -> Seq<u8> {
    le_bytes(sum as nat, 4) + payload
}

/// What a frame holds, where `sum` is the checksum of what follows its first four bytes.
pub open spec fn frame_payload(data: Seq<u8>, sum: u32) -> Result<Seq<u8>, FrameError> {
    if data.len() < 4 {
        Err(FrameError::TooSmall)
    } else if le_value(data.take(4)) != sum {
        Err(FrameError::ChecksumMismatch)
    } else {
        Ok(data.skip(4))
    }
}

/// The frame that carries `payload`.
pub open spec fn encoded_frame(payload: Seq<u8>) -> Seq<u8> {
    frame(payload, crc32_of(payload))
}

/// What the frame `data` carries.
pub open spec fn decoded_frame(data: Seq<u8>) -> Result<Seq<u8>, FrameError> {
    frame_payload(data, crc32_of(data.skip(4)))
}

/// A result over bytes, seen as a result over byte sequences.
pub open spec fn bytes_result<E>(r: Result<Vec<u8>, E>) -> Result<Seq<u8>, E> {
    match r {
        Ok(v) => Ok(v@),
        Err(e) => Err(e),
    }
}

/// Puts `sum` in front of `payload`.
pub fn seal_frame(payload: &[u8], sum: u32) -> (out: Vec<u8>)
    ensures
        out@ == frame(payload@, sum),
{
    let mut out: Vec<u8> = Vec::new();
    push_le_u32(&mut out, sum);
    crate::bytes::append_range(&mut out, payload, 0, payload.len());
    assert(payload@.subrange(0, payload@.len() as int) =~= payload@);
    assert(out@ =~= frame(payload@, sum));
    out
}

/// Takes a frame apart, where `sum` is the checksum of what follows its first four bytes.
pub fn unseal_frame(data: &[u8], sum: u32) -> (r: Result<Vec<u8>, FrameError>)
    ensures
        bytes_result(r) == frame_payload(data@, sum),
{
    if data.len() < 4 {
        return Err(FrameError::TooSmall);
    }
    let stored: u32 = read_le_u32(data, 0);
    assert(data@.subrange(0, 4) =~= data@.take(4));
    if stored != sum {
        return Err(FrameError::ChecksumMismatch);
    }
    let payload = copy_range(data, 4, data.len());
    assert(payload@ =~= data@.skip(4));
    Ok(payload)
}

/// Wraps an encoded record in a frame.
pub fn encode_frame(payload: &[u8]) -> (out: Vec<u8>)
    ensures
        out@ == encoded_frame(payload@),
{
    let sum: u32 = crc32(payload);
    seal_frame(payload, sum)
}

/// Gives back the encoded record of a frame, or says why the frame is refused.
pub fn decode_frame(data: &[u8]) -> (r: Result<Vec<u8>, FrameError>)
    ensures
        bytes_result(r) == decoded_frame(data@),
{
    if data.len() < 4 {
        return Err(FrameError::TooSmall);
    }
    let payload = copy_range(data, 4, data.len());
    assert(payload@ =~= data@.skip(4));
    let sum: u32 = crc32(payload.as_slice());
    unseal_frame(data, sum)
}

/// Decoding a frame gives back the payload that was encoded.
pub proof fn frame_round_trip(payload: Seq<u8>)
    ensures
        decoded_frame(encoded_frame(payload)) == Ok::<Seq<u8>, FrameError>(payload),
{
    pow256_widths();
    le_round_trip(crc32_of(payload) as nat, 4);
    let f = encoded_frame(payload);
    assert(f.take(4) =~= le_bytes(crc32_of(payload) as nat, 4));
    assert(f.skip(4) =~= payload);
}

/// A frame that decodes is exactly the encoding of what it decodes to: no other bytes
/// are accepted for that payload.
pub proof fn frame_decodes_only_its_encoding(data: Seq<u8>, payload: Seq<u8>)
    requires
        decoded_frame(data) == Ok::<Seq<u8>, FrameError>(payload),
    ensures
        data == encoded_frame(payload),
{
    le_round_trip_bytes(data.take(4));
    assert(data =~= data.take(4) + data.skip(4));
}

/// Every strict prefix of a frame shorter than its checksum field is refused.
pub proof fn short_frame_is_refused(data: Seq<u8>)
    requires
        data.len() < 4,
    ensures
        decoded_frame(data) == Err::<Seq<u8>, FrameError>(FrameError::TooSmall),
{
}

/// A frame is the checksum of the payload, its lowest byte first, and then the payload.
pub proof fn frame_has_its_layout(payload: &[u8], out: Vec<u8>)
    requires
        call_ensures(encode_frame, (payload,), out),
    ensures
        out@.len() == payload@.len() + 4,
        le_value(out@.take(4)) == crc32_of(payload@),
        out@.skip(4) == payload@,
{
    pow256_widths();
    le_round_trip(crc32_of(payload@) as nat, 4);
    assert(out@.take(4) =~= le_bytes(crc32_of(payload@) as nat, 4));
    assert(out@.skip(4) =~= payload@);
}

/// A frame is read exactly where it is long enough for a checksum and the checksum is that of what
/// follows; what is read is what follows.
pub proof fn only_sound_frames_are_read(data: &[u8], r: Result<Vec<u8>, FrameError>)
    requires
        call_ensures(decode_frame, (data,), r),
    ensures
        r is Ok <==> data@.len() >= 4 && le_value(data@.take(4)) == crc32_of(data@.skip(4)),
        r matches Ok(payload) ==> payload@ == data@.skip(4),
        r matches Err(e) ==> (e is TooSmall <==> data@.len() < 4),
{
}

} // verus!
