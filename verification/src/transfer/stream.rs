//! The frame of a chunk on its stream.
//!
//! A frame is a magic byte, the sixteen bytes of the transfer's identifier, the chunk's
//! number and the length of what follows, four little-endian bytes each, and the chunk's
//! bytes. Eight little-endian bytes of checksum may stand behind them.

use vstd::prelude::*;

use crate::bytes::{
    append_range, be_bytes, be_round_trip, be_value, copy_range, le_bytes, le_round_trip, le_value,
    pow256_widths, push_be_u128, push_le_u32, push_le_u64, read_be_u128, read_le_u32, read_le_u64,
};
use crate::text::{decimal, push_decimal};
use crate::transfer::error::{ErrorView, FileTransferError, IoKind, TransferSessionId};
use crate::transfer::options::MAX_CHUNK_SIZE;

verus! {

/// The first byte of a frame.
pub const CHUNK_STREAM_MAGIC: u8 = 0x46;

/// The greatest length of a chunk's bytes in a frame: compression may make them longer.
pub const MAX_WIRE_CHUNK_SIZE: usize = MAX_CHUNK_SIZE + 128 * 1024;

/// The bytes between the magic byte and the chunk's bytes.
pub const HEADER_BYTES: usize = 24;

/// What stands ahead of a chunk's bytes.
#[derive(Debug, Clone, Copy, PartialEq, Eq, Structural)]
pub struct ChunkStreamHeader {
    pub session_id: TransferSessionId,
    pub chunk_index: u32,
    pub data_len: usize,
}

/// The bytes between the magic byte and the chunk's bytes.
pub open spec fn header_bytes(session_id: TransferSessionId, chunk_index: u32, data_len: nat) -> Seq<u8> {
    be_bytes(session_id.id as nat, 16) + le_bytes(chunk_index as nat, 4) + le_bytes(data_len, 4)
}

/// The frame of a chunk.
pub open spec fn chunk_frame(session_id: TransferSessionId, chunk_index: u32, data: Seq<u8>) -> Seq<u8> {
    seq![CHUNK_STREAM_MAGIC] + header_bytes(session_id, chunk_index, data.len()) + data
}

/// What a header says, where it is one.
pub open spec fn header_of(bytes: Seq<u8>) -> ChunkStreamHeader {
    ChunkStreamHeader {
        session_id: TransferSessionId { id: be_value(bytes.subrange(0, 16)) as u128 },
        chunk_index: le_value(bytes.subrange(16, 20)) as u32,
        data_len: le_value(bytes.subrange(20, 24)) as usize,
    }
}

/// How long the chunk's bytes are, as a header has it.
pub open spec fn announced_len(bytes: Seq<u8>) -> nat {
    le_value(bytes.subrange(20, 24))
}

fn too_long(kind: IoKind) -> (error: FileTransferError)
    ensures
        error@ == ErrorView::Io(kind, "encoded chunk data exceeds maximum size"@),
{
    FileTransferError::Io(kind, String::from_str("encoded chunk data exceeds maximum size"))
}

/// A stream that ended `n` bytes into what was to be read.
pub open spec fn early_end(n: nat) -> ErrorView {
    ErrorView::Io(
        IoKind::UnexpectedEof,
        "stream finished early after "@ + decimal(n) + " bytes"@,
    )
}

/// How far into a field of the header a stream of `n` bytes ends.
pub open spec fn header_shortfall(n: nat) -> nat {
    if n < 16 {
        n
    } else if n < 20 {
        (n - 16) as nat
    } else {
        (n - 20) as nat
    }
}

fn ended_early(n: usize) -> (error: FileTransferError)
    ensures
        error@ == early_end(n as nat),
{
    let mut text = String::from_str("stream finished early after ");
    push_decimal(&mut text, n as u64);
    text.append(" bytes");
    FileTransferError::Io(IoKind::UnexpectedEof, text)
}

proof fn le_len(x: nat, n: nat)
    ensures
        le_bytes(x, n).len() == n,
    decreases n,
{
    if n > 0 {
        le_len(x / 256, (n - 1) as nat);
    }
}

/// The codec of chunk frames.
pub struct ChunkStreamCodec;

impl ChunkStreamCodec {
    /// The frame of a chunk.
    pub fn encode(session_id: TransferSessionId, chunk_index: u32, data: &[u8]) -> (r: Result<
        Vec<u8>,
        FileTransferError,
    >)
        ensures
            match r {
                Ok(frame) => data@.len() <= MAX_WIRE_CHUNK_SIZE && frame@ == chunk_frame(
                    session_id,
                    chunk_index,
                    data@,
                ),
                Err(error) => data@.len() > MAX_WIRE_CHUNK_SIZE && error@ == ErrorView::Io(
                    IoKind::InvalidInput,
                    "encoded chunk data exceeds maximum size"@,
                ),
            },
    {
        let n: usize = data.len();
        if n > MAX_WIRE_CHUNK_SIZE {
            return Err(too_long(IoKind::InvalidInput));
        }
        let mut frame: Vec<u8> = Vec::new();
        frame.push(CHUNK_STREAM_MAGIC);
        push_be_u128(&mut frame, session_id.id);
        push_le_u32(&mut frame, chunk_index);
        push_le_u32(&mut frame, n as u32);
        append_range(&mut frame, data, 0, n);
        assert(data@.subrange(0, n as int) =~= data@);
        assert(frame@ =~= chunk_frame(session_id, chunk_index, data@));
        Ok(frame)
    }

    /// The frame of a chunk, with the checksum of its uncompressed bytes behind it.
    pub fn encode_with_checksum(
        session_id: TransferSessionId,
        chunk_index: u32,
        data: &[u8],
        checksum: u64,
    ) -> (r: Result<Vec<u8>, FileTransferError>)
        ensures
            match r {
                Ok(frame) => data@.len() <= MAX_WIRE_CHUNK_SIZE && frame@ == chunk_frame(
                    session_id,
                    chunk_index,
                    data@,
                ) + le_bytes(checksum as nat, 8),
                Err(error) => data@.len() > MAX_WIRE_CHUNK_SIZE && error@ == ErrorView::Io(
                    IoKind::InvalidInput,
                    "encoded chunk data exceeds maximum size"@,
                ),
            },
    {
        match Self::encode(session_id, chunk_index, data) {
            Ok(frame) => {
                let mut frame = frame;
                push_le_u64(&mut frame, checksum);
                Ok(frame)
            },
            Err(error) => Err(error),
        }
    }

    /// Reads a header. The magic byte has been read before.
    pub fn decode_header(bytes: &[u8]) -> (r: Result<ChunkStreamHeader, FileTransferError>)
        ensures
            match r {
                Ok(header) => {
                    &&& bytes@.len() >= HEADER_BYTES
                    &&& announced_len(bytes@) <= MAX_WIRE_CHUNK_SIZE
                    &&& header == header_of(bytes@)
                    &&& header.data_len == announced_len(bytes@)
                },
                Err(error) => if bytes@.len() < HEADER_BYTES {
                    error@ == early_end(header_shortfall(bytes@.len()))
                } else {
                    &&& announced_len(bytes@) > MAX_WIRE_CHUNK_SIZE
                    &&& error@ == ErrorView::Io(
                        IoKind::InvalidData,
                        "encoded chunk data exceeds maximum size"@,
                    )
                },
            },
    {
        let n: usize = bytes.len();
        if n < 16 {
            return Err(ended_early(n));
        }
        if n < 20 {
            return Err(ended_early(n - 16));
        }
        if n < HEADER_BYTES {
            return Err(ended_early(n - 20));
        }
        let id: u128 = read_be_u128(bytes, 0);
        let chunk_index: u32 = read_le_u32(bytes, 16);
        let data_len: u32 = read_le_u32(bytes, 20);
        if data_len as usize > MAX_WIRE_CHUNK_SIZE {
            return Err(too_long(IoKind::InvalidData));
        }
        Ok(
            ChunkStreamHeader {
                session_id: TransferSessionId { id },
                chunk_index,
                data_len: data_len as usize,
            },
        )
    }

    /// Reads the chunk's bytes at `at`.
    pub fn decode_payload(bytes: &[u8], at: usize, data_len: usize) -> (r: Result<
        Vec<u8>,
        FileTransferError,
    >)
        requires
            at <= bytes@.len(),
        ensures
            match r {
                Ok(data) => {
                    &&& data_len <= MAX_WIRE_CHUNK_SIZE
                    &&& at + data_len <= bytes@.len()
                    &&& data@ == bytes@.subrange(at as int, at + data_len)
                },
                Err(error) => if data_len > MAX_WIRE_CHUNK_SIZE {
                    error@ == ErrorView::Io(
                        IoKind::InvalidData,
                        "encoded chunk data exceeds maximum size"@,
                    )
                } else {
                    &&& at + data_len > bytes@.len()
                    &&& error@ == early_end((bytes@.len() - at) as nat)
                },
            },
    {
        if data_len > MAX_WIRE_CHUNK_SIZE {
            return Err(too_long(IoKind::InvalidData));
        }
        let n: usize = bytes.len();
        if data_len > n - at {
            return Err(ended_early(n - at));
        }
        Ok(copy_range(bytes, at, at + data_len))
    }

    /// Reads the checksum at `at`.
    pub fn decode_checksum(bytes: &[u8], at: usize) -> (r: Result<u64, FileTransferError>)
        requires
            at <= bytes@.len(),
        ensures
            match r {
                Ok(checksum) => {
                    &&& at + 8 <= bytes@.len()
                    &&& checksum as nat == le_value(bytes@.subrange(at as int, at + 8))
                },
                Err(error) => at + 8 > bytes@.len() && error@ == early_end(
                    (bytes@.len() - at) as nat,
                ),
            },
    {
        let n: usize = bytes.len();
        if n - at < 8 {
            return Err(ended_early(n - at));
        }
        Ok(read_le_u64(bytes, at))
    }

    /// Reads a frame. The magic byte has been read before.
    pub fn decode(bytes: &[u8]) -> (r: Result<(TransferSessionId, u32, Vec<u8>), FileTransferError>)
        ensures
            match r {
                Ok((session_id, chunk_index, data)) => {
                    &&& bytes@.len() >= HEADER_BYTES + announced_len(bytes@)
                    &&& announced_len(bytes@) <= MAX_WIRE_CHUNK_SIZE
                    &&& session_id == header_of(bytes@).session_id
                    &&& chunk_index == header_of(bytes@).chunk_index
                    &&& data@ == bytes@.subrange(
                        HEADER_BYTES as int,
                        HEADER_BYTES + announced_len(bytes@),
                    )
                },
                Err(error) => if bytes@.len() < HEADER_BYTES {
                    error@ == early_end(header_shortfall(bytes@.len()))
                } else if announced_len(bytes@) > MAX_WIRE_CHUNK_SIZE {
                    error@ == ErrorView::Io(
                        IoKind::InvalidData,
                        "encoded chunk data exceeds maximum size"@,
                    )
                } else {
                    &&& bytes@.len() < HEADER_BYTES + announced_len(bytes@)
                    &&& error@ == early_end((bytes@.len() - HEADER_BYTES) as nat)
                },
            },
    {
        let header = match Self::decode_header(bytes) {
            Ok(header) => header,
            Err(error) => {
                return Err(error);
            },
        };
        match Self::decode_payload(bytes, HEADER_BYTES, header.data_len) {
            Ok(data) => Ok((header.session_id, header.chunk_index, data)),
            Err(error) => Err(error),
        }
    }
}

/// A frame reads back as what was written, whatever stands behind it, and the checksum
/// behind it reads back too.
pub proof fn frame_reads_back(
    session_id: TransferSessionId,
    chunk_index: u32,
    data: Seq<u8>,
    checksum: u64,
)
    requires
        data.len() <= MAX_WIRE_CHUNK_SIZE,
    ensures
        ({
            let bytes = (chunk_frame(session_id, chunk_index, data) + le_bytes(
                checksum as nat,
                8,
            )).skip(1);
            &&& bytes.len() == HEADER_BYTES + data.len() + 8
            &&& header_of(bytes) == (ChunkStreamHeader {
                session_id,
                chunk_index,
                data_len: data.len() as usize,
            })
            &&& announced_len(bytes) == data.len()
            &&& bytes.subrange(HEADER_BYTES as int, HEADER_BYTES + data.len()) == data
            &&& le_value(
                bytes.subrange(HEADER_BYTES + data.len(), HEADER_BYTES + data.len() + 8),
            ) == checksum
        }),
{
    pow256_widths();
    be_round_trip(session_id.id as nat, 16);
    le_round_trip(chunk_index as nat, 4);
    le_round_trip(data.len(), 4);
    le_round_trip(checksum as nat, 8);
    let bytes = (chunk_frame(session_id, chunk_index, data) + le_bytes(checksum as nat, 8)).skip(1);
    assert(bytes.subrange(0, 16) =~= be_bytes(session_id.id as nat, 16));
    assert(bytes.subrange(16, 20) =~= le_bytes(chunk_index as nat, 4));
    assert(bytes.subrange(20, 24) =~= le_bytes(data.len(), 4));
    let n = data.len() as int;
    assert(bytes.subrange(24, 24 + n) =~= data);
    assert(bytes.subrange(24 + n, 24 + n + 8) =~= le_bytes(checksum as nat, 8));
}

/// The first byte of every frame is the magic byte.
pub proof fn frame_begins_with_its_magic(session_id: TransferSessionId, chunk_index: u32, data: Seq<u8>)
    ensures
        chunk_frame(session_id, chunk_index, data)[0] == CHUNK_STREAM_MAGIC,
        chunk_frame(session_id, chunk_index, data).len() == 1 + HEADER_BYTES + data.len(),
{
    pow256_widths();
    be_round_trip(session_id.id as nat, 16);
    le_round_trip(chunk_index as nat, 4);
    le_len(data.len(), 4);
}

/// A frame is a magic byte, the identifier of the transfer with its highest byte first, the number
/// of the chunk and its length with their lowest bytes first, and then the bytes of the chunk.
pub proof fn frame_has_its_layout(
    session_id: TransferSessionId,
    chunk_index: u32,
    data: &[u8],
    frame: Vec<u8>,
)
    requires
        call_ensures(ChunkStreamCodec::encode, (session_id, chunk_index, data), Ok(frame)),
    ensures
        frame@.len() == 25 + data@.len(),
        frame@[0] == 0x46,
        be_value(frame@.subrange(1, 17)) == session_id.id,
        le_value(frame@.subrange(17, 21)) == chunk_index,
        le_value(frame@.subrange(21, 25)) == data@.len(),
        frame@.subrange(25, frame@.len() as int) == data@,
{
    pow256_widths();
    be_round_trip(session_id.id as nat, 16);
    le_round_trip(chunk_index as nat, 4);
    le_round_trip(data@.len(), 4);
    assert(frame@.subrange(1, 17) =~= be_bytes(session_id.id as nat, 16));
    assert(frame@.subrange(17, 21) =~= le_bytes(chunk_index as nat, 4));
    assert(frame@.subrange(21, 25) =~= le_bytes(data@.len(), 4));
    assert(frame@.subrange(25, frame@.len() as int) =~= data@);
}

/// A chunk is too long for a frame exactly above sixteen mebibytes and an eighth, on both sides.
pub proof fn frames_are_bounded(
    session_id: TransferSessionId,
    chunk_index: u32,
    data: &[u8],
    r: Result<Vec<u8>, FileTransferError>,
    bytes: &[u8],
    header: Result<ChunkStreamHeader, FileTransferError>,
)
    requires
        call_ensures(ChunkStreamCodec::encode, (session_id, chunk_index, data), r),
        call_ensures(ChunkStreamCodec::decode_header, (bytes,), header),
    ensures
        r is Ok <==> data@.len() <= 16 * 1024 * 1024 + 128 * 1024,
        header is Ok <==> bytes@.len() >= 24 && le_value(bytes@.subrange(20, 24)) <= 16 * 1024 * 1024
            + 128 * 1024,
        header matches Ok(h) ==> h.data_len == le_value(bytes@.subrange(20, 24))
            && h.chunk_index as nat == le_value(bytes@.subrange(16, 20)) && h.session_id.id as nat
            == be_value(bytes@.subrange(0, 16)),
{
    pow256_widths();
    if bytes@.len() >= 24 {
        crate::bytes::le_round_trip_bytes(bytes@.subrange(16, 20));
        crate::bytes::be_round_trip_bytes(bytes@.subrange(0, 16));
    }
}

/// A header that ends early is told of with how much there was of the part in which it ended: of
/// the identifier, of the number or of the length.
pub proof fn early_end_tells_how_much_there_was(n: nat)
    requires
        n < 24,
    ensures
        n < 16 ==> header_shortfall(n) == n,
        16 <= n < 20 ==> 16 + header_shortfall(n) == n,
        20 <= n ==> 20 + header_shortfall(n) == n,
        header_shortfall(n) < 16,
{
}

/// A frame is read exactly where all of it is there and it is not too long; what is read lies where
/// the frame says.
pub proof fn whole_frames_are_read(
    bytes: &[u8],
    r: Result<(TransferSessionId, u32, Vec<u8>), FileTransferError>,
    at: usize,
    checksum: Result<u64, FileTransferError>,
)
    requires
        call_ensures(ChunkStreamCodec::decode, (bytes,), r),
        at <= bytes@.len(),
        call_ensures(ChunkStreamCodec::decode_checksum, (bytes, at), checksum),
    ensures
        r is Ok <==> bytes@.len() >= 24 && le_value(bytes@.subrange(20, 24)) <= 16 * 1024 * 1024
            + 128 * 1024 && 24 + le_value(bytes@.subrange(20, 24)) <= bytes@.len(),
        r matches Ok(read) ==> {
            &&& read.0.id as nat == be_value(bytes@.subrange(0, 16))
            &&& read.1 as nat == le_value(bytes@.subrange(16, 20))
            &&& read.2@ == bytes@.subrange(24, 24 + le_value(bytes@.subrange(20, 24)) as int)
        },
        checksum is Ok <==> at + 8 <= bytes@.len(),
        checksum matches Ok(sum) ==> sum as nat == le_value(bytes@.subrange(at as int, at + 8)),
{
    pow256_widths();
    if bytes@.len() >= 24 {
        crate::bytes::le_round_trip_bytes(bytes@.subrange(16, 20));
        crate::bytes::be_round_trip_bytes(bytes@.subrange(0, 16));
    }
}

} // verus!
