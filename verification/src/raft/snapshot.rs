//! The snapshot file format.
//!
//! A file is the magic `SNAP`, the format version in four little-endian bytes, one or
//! more chunks, and twelve zero bytes. A chunk is the length of its metadata part, the
//! length of its data part and the CRC32 of both parts, each in four little-endian
//! bytes, and then the two parts. Only the first chunk has a metadata part.

use vstd::prelude::*;

use crate::bytes::{append_range, copy_range, le_bytes, le_round_trip, le_value, pow256_widths, push_le_u32,
    read_le_u32};
use crate::raft::frame::{crc32, crc32_of};

verus! {

/// The version that this library writes and reads.
pub const SNAP_VERSION: u32 = 1;

/// Why a snapshot file was refused.
#[derive(Debug, Clone, Copy, PartialEq, Eq, Structural)]
pub enum SnapshotError {
    /// Too short for a header and a terminator, or without the magic.
    InvalidHeader,
    /// Written in another version of the format.
    VersionMismatch(u32),
    /// The file ends inside a chunk.
    Truncated,
    /// The terminator carries a checksum.
    InvalidTerminator,
    /// A chunk's checksum is not that of its parts.
    ChecksumMismatch,
    /// No chunk has a metadata part.
    MetaMissing,
}

impl SnapshotError {
    /// The text of this error.
    pub open spec fn message_text(self) -> Seq<char> {
        match self {
            SnapshotError::InvalidHeader => "invalid snapshot header"@,
            SnapshotError::VersionMismatch(found) => "snapshot version mismatch: expected 1, got "@
                + crate::text::decimal(found as nat),
            SnapshotError::Truncated => "snapshot truncated"@,
            SnapshotError::InvalidTerminator => "invalid terminator checksum"@,
            SnapshotError::ChecksumMismatch => "snapshot checksum mismatch"@,
            SnapshotError::MetaMissing => "snapshot meta missing"@,
        }
    }

    /// The text of this error.
    pub fn message(&self) -> (text: String)
        ensures
            text@ == self.message_text(),
    {
        match self {
            SnapshotError::InvalidHeader => String::from_str("invalid snapshot header"),
            SnapshotError::VersionMismatch(found) => {
                let mut text = String::from_str("snapshot version mismatch: expected 1, got ");
                crate::text::push_decimal(&mut text, *found as u64);
                text
            },
            SnapshotError::Truncated => String::from_str("snapshot truncated"),
            SnapshotError::InvalidTerminator => String::from_str("invalid terminator checksum"),
            SnapshotError::ChecksumMismatch => String::from_str("snapshot checksum mismatch"),
            SnapshotError::MetaMissing => String::from_str("snapshot meta missing"),
        }
    }
}

/// The metadata and the data that a snapshot file holds.
#[derive(Debug)]
pub struct SnapshotContents {
    pub meta: Vec<u8>,
    pub data: Vec<u8>,
}

/// The magic bytes `SNAP`.
pub open spec fn snap_magic() -> Seq<u8> {
    seq![83u8, 78u8, 65u8, 80u8]
}

/// The twelve bytes in front of a chunk's parts.
pub open spec fn chunk_header(meta_len: nat, data_len: nat, sum: u32) -> Seq<u8> {
    le_bytes(meta_len, 4) + le_bytes(data_len, 4) + le_bytes(sum as nat, 4)
}

/// A chunk with its header.
pub open spec fn chunk(meta: Seq<u8>, data: Seq<u8>) -> Seq<u8> {
    chunk_header(meta.len(), data.len(), crc32_of(meta + data)) + (meta + data)
}

/// The chunks that carry `meta` and `data`, with at most `size` bytes of data in each.
pub open spec fn chunks(meta: Seq<u8>, data: Seq<u8>, size: nat) -> Seq<u8>
    decreases data.len(),
{
    if data.len() <= size || size == 0 {
        chunk(meta, data)
    } else {
        chunk(meta, data.take(size as int)) + chunks(Seq::empty(), data.skip(size as int), size)
    }
}

/// The data size of a chunk for a configured size, which is never less than one byte.
pub open spec fn effective_chunk_size(configured: nat) -> nat {
    if configured == 0 {
        1
    } else {
        configured
    }
}

/// The eight bytes that start a snapshot file.
pub open spec fn file_header(version: u32) -> Seq<u8> {
    snap_magic() + le_bytes(version as nat, 4)
}

/// A whole snapshot file.
pub open spec fn snapshot_file(meta: Seq<u8>, data: Seq<u8>, configured: nat) -> Seq<u8> {
    file_header(SNAP_VERSION) + chunks(meta, data, effective_chunk_size(configured)) + chunk_header(
        0,
        0,
        0,
    )
}

/// The twelve bytes in front of a chunk's parts, read back.
#[derive(Debug, Clone, Copy, PartialEq, Eq, Structural)]
pub struct ChunkHeader {
    pub meta_len: u32,
    pub data_len: u32,
    pub sum: u32,
}

/// The header at `at`.
pub open spec fn header_at(file: Seq<u8>, at: int) -> ChunkHeader {
    ChunkHeader {
        meta_len: le_value(file.subrange(at, at + 4)) as u32,
        data_len: le_value(file.subrange(at + 4, at + 8)) as u32,
        sum: le_value(file.subrange(at + 8, at + 12)) as u32,
    }
}

/// What stands at `at`: the header of a chunk that is whole, or nothing where the
/// terminator stands.
pub open spec fn next_chunk(file: Seq<u8>, at: int) -> Result<Option<ChunkHeader>, SnapshotError> {
    let header = header_at(file, at);
    if at + 12 > file.len() {
        Err(SnapshotError::Truncated)
    } else if header.meta_len == 0 && header.data_len == 0 {
        if header.sum != 0 {
            Err(SnapshotError::InvalidTerminator)
        } else {
            Ok(None)
        }
    } else if at + 12 + header.meta_len + header.data_len > file.len() {
        Err(SnapshotError::Truncated)
    } else {
        Ok(Some(header))
    }
}

/// What the chunks from `at` on add to the metadata and data gathered so far. A later
/// metadata part replaces an earlier one.
pub open spec fn gathered(
    file: Seq<u8>,
    at: int,
    meta: Option<Seq<u8>>,
    data: Seq<u8>,
) -> Result<(Option<Seq<u8>>, Seq<u8>), SnapshotError>
    decreases file.len() - at,
{
    match next_chunk(file, at) {
        Err(e) => Err(e),
        Ok(None) => Ok((meta, data)),
        Ok(Some(header)) => {
            let body = at + 12;
            let end = body + header.meta_len + header.data_len;
            let parts = file.subrange(body, end);
            if crc32_of(parts) != header.sum {
                Err(SnapshotError::ChecksumMismatch)
            } else {
                gathered(
                    file,
                    end,
                    if header.meta_len > 0 {
                        Some(parts.take(header.meta_len as int))
                    } else {
                        meta
                    },
                    data + parts.skip(header.meta_len as int),
                )
            }
        },
    }
}

/// The metadata and data of a snapshot file.
pub open spec fn snapshot_contents(file: Seq<u8>) -> Result<(Seq<u8>, Seq<u8>), SnapshotError> {
    if file.len() < 20 || file.take(4) != snap_magic() {
        Err(SnapshotError::InvalidHeader)
    } else if le_value(file.subrange(4, 8)) != SNAP_VERSION {
        Err(SnapshotError::VersionMismatch(le_value(file.subrange(4, 8)) as u32))
    } else {
        match gathered(file, 8, None, Seq::empty()) {
            Err(e) => Err(e),
            Ok((None, _)) => Err(SnapshotError::MetaMissing),
            Ok((Some(meta), data)) => Ok((meta, data)),
        }
    }
}

/// A decoding result, seen as sequences.
pub open spec fn contents_view(r: Result<SnapshotContents, SnapshotError>) -> Result<
    (Seq<u8>, Seq<u8>),
    SnapshotError,
> {
    match r {
        Ok(c) => Ok((c.meta@, c.data@)),
        Err(e) => Err(e),
    }
}

/// Appends one chunk whose parts have the checksum `sum`.
pub fn push_chunk(out: &mut Vec<u8>, meta: &[u8], data: &[u8], sum: u32)
    requires
        meta@.len() <= u32::MAX,
        data@.len() <= u32::MAX,
    ensures
        final(out)@ == old(out)@ + (chunk_header(meta@.len(), data@.len(), sum) + (meta@ + data@)),
{
    let ghost before = out@;
    push_le_u32(out, meta.len() as u32);
    push_le_u32(out, data.len() as u32);
    push_le_u32(out, sum);
    append_range(out, meta, 0, meta.len());
    append_range(out, data, 0, data.len());
    assert(meta@.subrange(0, meta@.len() as int) =~= meta@);
    assert(data@.subrange(0, data@.len() as int) =~= data@);
    assert(out@ =~= before + (chunk_header(meta@.len(), data@.len(), sum) + (meta@ + data@)));
}

/// Lays out a snapshot file.
pub fn encode_snapshot(meta: &[u8], data: &[u8], chunk_size: usize) -> (out: Vec<u8>)
    requires
        meta@.len() <= u32::MAX,
        chunk_size <= u32::MAX || data@.len() <= u32::MAX,
    ensures
        out@ == snapshot_file(meta@, data@, chunk_size as nat),
{
    let size: usize = if chunk_size == 0 {
        1
    } else {
        chunk_size
    };
    let mut out: Vec<u8> = Vec::new();
    out.push(83);
    out.push(78);
    out.push(65);
    out.push(80);
    assert(out@ =~= snap_magic());
    push_le_u32(&mut out, SNAP_VERSION);
    let total: usize = data.len();
    let empty: Vec<u8> = Vec::new();
    let mut offset: usize = 0;
    let mut first: bool = true;
    let ghost whole = file_header(SNAP_VERSION) + chunks(meta@, data@, size as nat);
    assert(data@.skip(0) =~= data@);
    loop
        invariant_except_break
            out@ + chunks(
                if first {
                    meta@
                } else {
                    Seq::empty()
                },
                data@.skip(offset as int),
                size as nat,
            ) == whole,
            !first ==> offset < total,
        invariant
            size == effective_chunk_size(chunk_size as nat),
            size <= u32::MAX || data@.len() <= u32::MAX,
            meta@.len() <= u32::MAX,
            total == data@.len(),
            offset <= total,
            empty@.len() == 0,
            whole == file_header(SNAP_VERSION) + chunks(meta@, data@, size as nat),
        ensures
            out@ == whole,
        decreases total - offset,
    {
        let take: usize = if total - offset < size {
            total - offset
        } else {
            size
        };
        let part = copy_range(data, offset, offset + take);
        let mut parts: Vec<u8> = Vec::new();
        if first {
            append_range(&mut parts, meta, 0, meta.len());
        }
        let ghost head = if first {
            meta@
        } else {
            Seq::empty()
        };
        assert(parts@ =~= head) by {
            assert(meta@.subrange(0, meta@.len() as int) =~= meta@);
        }
        append_range(&mut parts, data, offset, offset + take);
        assert(parts@ =~= head + part@);
        let sum: u32 = crc32(parts.as_slice());
        let ghost before = out@;
        if first {
            push_chunk(&mut out, meta, part.as_slice(), sum);
        } else {
            assert(empty@ =~= Seq::<u8>::empty());
            push_chunk(&mut out, empty.as_slice(), part.as_slice(), sum);
        }
        assert(out@ == before + chunk(head, part@));
        let ghost rest = data@.skip(offset as int);
        offset = offset + take;
        first = false;
        if offset >= total {
            assert(part@ =~= rest);
            break;
        }
        proof {
            assert(part@ =~= rest.take(size as int));
            assert(data@.skip(offset as int) =~= rest.skip(size as int));
            assert(out@ + chunks(Seq::empty(), rest.skip(size as int), size as nat) =~= before + (
            chunk(head, part@) + chunks(Seq::empty(), rest.skip(size as int), size as nat)));
        }
    }
    push_le_u32(&mut out, 0);
    push_le_u32(&mut out, 0);
    push_le_u32(&mut out, 0);
    assert(out@ =~= snapshot_file(meta@, data@, chunk_size as nat));
    out
}

/// Reads what stands at `at`.
pub fn read_chunk_header(file: &[u8], at: usize) -> (r: Result<Option<ChunkHeader>, SnapshotError>)
    requires
        at <= file@.len(),
    ensures
        r == next_chunk(file@, at as int),
{
    let total: usize = file.len();
    if total - at < 12 {
        return Err(SnapshotError::Truncated);
    }
    let meta_len: u32 = read_le_u32(file, at);
    let data_len: u32 = read_le_u32(file, at + 4);
    let sum: u32 = read_le_u32(file, at + 8);
    if meta_len == 0 && data_len == 0 {
        if sum != 0 {
            return Err(SnapshotError::InvalidTerminator);
        }
        return Ok(None);
    }
    let room: u64 = (total - at - 12) as u64;
    if meta_len as u64 + data_len as u64 > room {
        return Err(SnapshotError::Truncated);
    }
    Ok(Some(ChunkHeader { meta_len, data_len, sum }))
}

/// Holds a chunk's stored checksum against that of its parts.
pub fn check_chunk(stored: u32, actual: u32) -> (r: Result<(), SnapshotError>)
    ensures
        r == (if stored == actual {
            Ok::<(), SnapshotError>(())
        } else {
            Err::<(), SnapshotError>(SnapshotError::ChecksumMismatch)
        }),
{
    if stored == actual {
        Ok(())
    } else {
        Err(SnapshotError::ChecksumMismatch)
    }
}

/// Reads a snapshot file, or says why it is refused.
pub fn decode_snapshot(file: &[u8]) -> (r: Result<SnapshotContents, SnapshotError>)
    ensures
        contents_view(r) == snapshot_contents(file@),
{
    if file.len() < 20 {
        return Err(SnapshotError::InvalidHeader);
    }
    if file[0] != 83 || file[1] != 78 || file[2] != 65 || file[3] != 80 {
        proof {
            let t = file@.take(4);
            assert(t[0] == file@[0] && t[1] == file@[1] && t[2] == file@[2] && t[3] == file@[3]);
            assert(t != snap_magic());
        }
        return Err(SnapshotError::InvalidHeader);
    }
    assert(file@.take(4) =~= snap_magic());
    let version: u32 = read_le_u32(file, 4);
    if version != SNAP_VERSION {
        return Err(SnapshotError::VersionMismatch(version));
    }
    let mut at: usize = 8;
    let mut meta: Option<Vec<u8>> = None;
    let mut data: Vec<u8> = Vec::new();
    let ghost goal = gathered(file@, 8, None, Seq::empty());
    loop
        invariant_except_break
            gathered(
                file@,
                at as int,
                match meta {
                    Some(m) => Some(m@),
                    None => None,
                },
                data@,
            ) == goal,
        invariant
            8 <= at <= file@.len(),
            file@.len() >= 20,
            file@.take(4) == snap_magic(),
            le_value(file@.subrange(4, 8)) == SNAP_VERSION,
            goal == gathered(file@, 8, None, Seq::empty()),
        ensures
            goal == Ok::<(Option<Seq<u8>>, Seq<u8>), SnapshotError>(
                (
                    match meta {
                        Some(m) => Some(m@),
                        None => None,
                    },
                    data@,
                ),
            ),
        decreases file@.len() - at,
    {
        let total: usize = file.len();
        match read_chunk_header(file, at) {
            Err(e) => {
                return Err(e);
            },
            Ok(None) => {
                break;
            },
            Ok(Some(header)) => {
                let body: usize = at + 12;
                let meta_len: usize = header.meta_len as usize;
                let end: usize = body + meta_len + header.data_len as usize;
                let parts = copy_range(file, body, end);
                let actual: u32 = crc32(parts.as_slice());
                match check_chunk(header.sum, actual) {
                    Err(e) => {
                        return Err(e);
                    },
                    Ok(()) => {},
                }
                if meta_len > 0 {
                    let found = copy_range(parts.as_slice(), 0, meta_len);
                    assert(found@ =~= parts@.take(meta_len as int));
                    meta = Some(found);
                }
                append_range(&mut data, parts.as_slice(), meta_len, parts.len());
                assert(parts@.subrange(meta_len as int, parts@.len() as int) =~= parts@.skip(
                    meta_len as int,
                ));
                at = end;
            },
        }
    }
    match meta {
        None => Err(SnapshotError::MetaMissing),
        Some(meta) => Ok(SnapshotContents { meta, data }),
    }
}

/// Reading a snapshot file gives back the metadata and the data it was made of,
/// whatever the chunk size. Metadata is never empty in a file: an empty first chunk
/// cannot be told from the terminator.
pub proof fn snapshot_round_trip(meta: Seq<u8>, data: Seq<u8>, configured: nat)
    requires
        0 < meta.len() <= u32::MAX,
        configured <= u32::MAX || data.len() <= u32::MAX,
    ensures
        snapshot_contents(snapshot_file(meta, data, configured)) == Ok::<
            (Seq<u8>, Seq<u8>),
            SnapshotError,
        >((meta, data)),
{
    let file = snapshot_file(meta, data, configured);
    let size = effective_chunk_size(configured);
    let body = chunks(meta, data, size);
    pow256_widths();
    le_round_trip(SNAP_VERSION as nat, 4);
    le_round_trip(0, 4);
    chunks_are_headed(meta, data, size);
    assert(file.take(4) =~= snap_magic());
    assert(file.subrange(4, 8) =~= le_bytes(SNAP_VERSION as nat, 4));
    assert(file =~= file_header(SNAP_VERSION) + (body + chunk_header(0, 0, 0)));
    gathered_chunks(file_header(SNAP_VERSION), meta, data, size, None, Seq::empty());
    assert(Seq::<u8>::empty() + data =~= data);
}

proof fn chunks_are_headed(meta: Seq<u8>, data: Seq<u8>, size: nat)
    ensures
        chunks(meta, data, size).len() >= 12,
    decreases data.len(),
{
    pow256_widths();
    let part = if data.len() <= size || size == 0 {
        data
    } else {
        data.take(size as int)
    };
    le_bytes_len(meta.len(), 4);
    le_bytes_len(part.len(), 4);
    le_bytes_len(crc32_of(meta + part) as nat, 4);
}

proof fn le_bytes_len(x: nat, n: nat)
    ensures
        le_bytes(x, n).len() == n,
    decreases n,
{
    if n > 0 {
        le_bytes_len(x / 256, (n - 1) as nat);
    }
}

/// One chunk at the end of `before` is read back whole.
proof fn next_chunk_of(before: Seq<u8>, meta: Seq<u8>, part: Seq<u8>, after: Seq<u8>)
    requires
        meta.len() <= u32::MAX,
        part.len() <= u32::MAX,
        meta.len() + part.len() > 0,
    ensures
        ({
            let file = before + (chunk(meta, part) + after);
            let header = ChunkHeader {
                meta_len: meta.len() as u32,
                data_len: part.len() as u32,
                sum: crc32_of(meta + part),
            };
            let body = before.len() + 12;
            &&& next_chunk(file, before.len() as int) == Ok::<Option<ChunkHeader>, SnapshotError>(
                Some(header),
            )
            &&& file.subrange(body as int, (body + meta.len() + part.len()) as int) == meta + part
            &&& chunk(meta, part).len() == 12 + meta.len() + part.len()
        }),
{
    pow256_widths();
    let sum = crc32_of(meta + part);
    le_round_trip(meta.len(), 4);
    le_round_trip(part.len(), 4);
    le_round_trip(sum as nat, 4);
    let file = before + (chunk(meta, part) + after);
    let at = before.len() as int;
    assert(file.subrange(at, at + 4) =~= le_bytes(meta.len(), 4));
    assert(file.subrange(at + 4, at + 8) =~= le_bytes(part.len(), 4));
    assert(file.subrange(at + 8, at + 12) =~= le_bytes(sum as nat, 4));
    assert(file.subrange(at + 12, at + 12 + meta.len() + part.len()) =~= meta + part);
}

/// The terminator ends the reading.
proof fn gathered_end(before: Seq<u8>, found: Option<Seq<u8>>, data: Seq<u8>)
    ensures
        gathered(before + chunk_header(0, 0, 0), before.len() as int, found, data) == Ok::<
            (Option<Seq<u8>>, Seq<u8>),
            SnapshotError,
        >((found, data)),
{
    pow256_widths();
    le_round_trip(0, 4);
    let file = before + chunk_header(0, 0, 0);
    let at = before.len() as int;
    assert(file.subrange(at, at + 4) =~= le_bytes(0, 4));
    assert(file.subrange(at + 4, at + 8) =~= le_bytes(0, 4));
    assert(file.subrange(at + 8, at + 12) =~= le_bytes(0, 4));
}

/// One chunk adds its parts to what was gathered before it.
proof fn gathered_step(
    before: Seq<u8>,
    meta: Seq<u8>,
    part: Seq<u8>,
    after: Seq<u8>,
    found: Option<Seq<u8>>,
    earlier: Seq<u8>,
)
    requires
        meta.len() <= u32::MAX,
        part.len() <= u32::MAX,
        meta.len() + part.len() > 0,
    ensures
        gathered(before + (chunk(meta, part) + after), before.len() as int, found, earlier)
            == gathered(
            (before + chunk(meta, part)) + after,
            (before + chunk(meta, part)).len() as int,
            if meta.len() > 0 {
                Some(meta)
            } else {
                found
            },
            earlier + part,
        ),
{
    next_chunk_of(before, meta, part, after);
    assert((meta + part).take(meta.len() as int) =~= meta);
    assert((meta + part).skip(meta.len() as int) =~= part);
    assert((before + chunk(meta, part)) + after =~= before + (chunk(meta, part) + after));
}

/// Reading the chunks that carry `meta` and `data` adds exactly those to what was
/// gathered before them.
proof fn gathered_chunks(
    before: Seq<u8>,
    meta: Seq<u8>,
    data: Seq<u8>,
    size: nat,
    found: Option<Seq<u8>>,
    earlier: Seq<u8>,
)
    requires
        size > 0,
        meta.len() <= u32::MAX,
        size <= u32::MAX || data.len() <= u32::MAX,
        meta.len() + data.len() > 0,
    ensures
        gathered(
            before + (chunks(meta, data, size) + chunk_header(0, 0, 0)),
            before.len() as int,
            found,
            earlier,
        ) == Ok::<(Option<Seq<u8>>, Seq<u8>), SnapshotError>(
            (
                if meta.len() > 0 {
                    Some(meta)
                } else {
                    found
                },
                earlier + data,
            ),
        ),
    decreases data.len(),
{
    let end = chunk_header(0, 0, 0);
    let now = if meta.len() > 0 {
        Some(meta)
    } else {
        found
    };
    if data.len() <= size {
        gathered_step(before, meta, data, end, found, earlier);
        gathered_end(before + chunk(meta, data), now, earlier + data);
    } else {
        let part = data.take(size as int);
        let rest = data.skip(size as int);
        let tail = chunks(Seq::empty(), rest, size);
        assert(before + (chunks(meta, data, size) + end) =~= before + (chunk(meta, part) + (tail
            + end)));
        gathered_step(before, meta, part, tail + end, found, earlier);
        gathered_chunks(before + chunk(meta, part), Seq::empty(), rest, size, now, earlier + part);
        assert((earlier + part) + rest =~= earlier + data);
    }
}

/// A snapshot file that lost bytes at its end is never returned.
pub proof fn truncated_snapshot_is_refused(meta: Seq<u8>, data: Seq<u8>, configured: nat, kept: nat)
    requires
        0 < meta.len() <= u32::MAX,
        configured <= u32::MAX || data.len() <= u32::MAX,
        kept < snapshot_file(meta, data, configured).len(),
    ensures
        snapshot_contents(snapshot_file(meta, data, configured).take(kept as int)) is Err,
{
    let file = snapshot_file(meta, data, configured);
    let cut = file.take(kept as int);
    if kept >= 20 {
        let size = effective_chunk_size(configured);
        let head = file_header(SNAP_VERSION);
        pow256_widths();
        le_round_trip(SNAP_VERSION as nat, 4);
        let whole = head + (chunks(meta, data, size) + chunk_header(0, 0, 0));
        assert(file =~= whole);
        gathered_cut(head, meta, data, size, None, Seq::empty(), kept);
    }
}

proof fn gathered_cut(
    before: Seq<u8>,
    meta: Seq<u8>,
    data: Seq<u8>,
    size: nat,
    found: Option<Seq<u8>>,
    earlier: Seq<u8>,
    kept: nat,
)
    requires
        size > 0,
        meta.len() <= u32::MAX,
        size <= u32::MAX || data.len() <= u32::MAX,
        meta.len() + data.len() > 0,
        before.len() <= kept < (before + (chunks(meta, data, size) + chunk_header(0, 0, 0))).len(),
    ensures
        gathered(
            (before + (chunks(meta, data, size) + chunk_header(0, 0, 0))).take(kept as int),
            before.len() as int,
            found,
            earlier,
        ) is Err,
    decreases data.len(),
{
    let end = chunk_header(0, 0, 0);
    le_bytes_len(0, 4);
    let part = if data.len() <= size {
        data
    } else {
        data.take(size as int)
    };
    let rest = if data.len() <= size {
        Seq::empty()
    } else {
        data.skip(size as int)
    };
    let after = if data.len() <= size {
        end
    } else {
        chunks(Seq::empty(), rest, size) + end
    };
    let whole = before + (chunks(meta, data, size) + end);
    assert(whole =~= before + (chunk(meta, part) + after));
    let cut = whole.take(kept as int);
    let next = before + chunk(meta, part);
    next_chunk_of(before, meta, part, after);
    let at = before.len() as int;
    if kept >= at + 12 {
        assert(cut.subrange(at, at + 4) =~= whole.subrange(at, at + 4));
        assert(cut.subrange(at + 4, at + 8) =~= whole.subrange(at + 4, at + 8));
        assert(cut.subrange(at + 8, at + 12) =~= whole.subrange(at + 8, at + 12));
    }
    if kept >= next.len() {
        let left = (kept - next.len()) as nat;
        assert(cut =~= before + (chunk(meta, part) + after.take(left as int)));
        let now = if meta.len() > 0 {
            Some(meta)
        } else {
            found
        };
        gathered_step(before, meta, part, after.take(left as int), found, earlier);
        assert(next + after.take(left as int) =~= (next + after).take(kept as int));
        if data.len() > size {
            gathered_cut(next, Seq::empty(), rest, size, now, earlier + part, kept);
        }
    }
}

/// How many chunks data of a length takes: at least one.
pub open spec fn chunks_for(len: nat, size: nat) -> nat {
    if len <= size {
        1
    } else {
        (len - 1) as nat / size + 1
    }
}

proof fn one_chunk_less(len: nat, size: nat)
    requires
        0 < size < len,
    ensures
        chunks_for(len, size) == 1 + chunks_for((len - size) as nat, size),
{
    let a = (len - 1) as int;
    let s = size as int;
    vstd::arithmetic::div_mod::lemma_div_plus_one(a - s, s);
    assert(a / s == (a - s) / s + 1);
    if len - size <= size {
        assert((a - s) / s == 0) by (nonlinear_arith)
            requires
                0 <= a - s < s,
        ;
    }
}

proof fn chunks_have_their_length(meta: Seq<u8>, data: Seq<u8>, size: nat)
    requires
        size > 0,
        meta.len() <= u32::MAX,
        size <= u32::MAX || data.len() <= u32::MAX,
    ensures
        chunks(meta, data, size).len() == meta.len() + data.len() + 12 * chunks_for(
            data.len(),
            size,
        ),
    decreases data.len(),
{
    crate::bytes::bytes_stand_by_weight(meta.len(), 4, 0);
    if data.len() <= size {
        crate::bytes::bytes_stand_by_weight(data.len(), 4, 0);
        crate::bytes::bytes_stand_by_weight(crc32_of(meta + data) as nat, 4, 0);
    } else {
        let first = data.take(size as int);
        let rest = data.skip(size as int);
        crate::bytes::bytes_stand_by_weight(first.len(), 4, 0);
        crate::bytes::bytes_stand_by_weight(crc32_of(meta + first) as nat, 4, 0);
        chunks_have_their_length(Seq::empty(), rest, size);
        one_chunk_less(data.len(), size);
    }
}

/// A snapshot file begins with its magic and version and ends with twelve zero bytes; between them
/// lie as many chunks as the data takes, each with a header of twelve bytes, the first of which
/// carries the metadata and as much of the data as a chunk may hold.
pub proof fn snapshot_file_has_its_layout(meta: &[u8], data: &[u8], chunk_size: usize, out: Vec<u8>)
    requires
        call_ensures(encode_snapshot, (meta, data, chunk_size), out),
        meta@.len() <= u32::MAX,
        0 < chunk_size <= u32::MAX,
    ensures
        ({
            let file = out@;
            let n = file.len() as int;
            let first: int = if data@.len() <= chunk_size {
                data@.len() as int
            } else {
                chunk_size as int
            };
            &&& n == 20 + meta@.len() + data@.len() + 12 * chunks_for(
                data@.len(),
                chunk_size as nat,
            )
            &&& file[0] == 83 && file[1] == 78 && file[2] == 65 && file[3] == 80
            &&& le_value(file.subrange(4, 8)) == 1
            &&& le_value(file.subrange(8, 12)) == meta@.len()
            &&& le_value(file.subrange(12, 16)) == first
            &&& le_value(file.subrange(16, 20)) == crc32_of(meta@ + data@.take(first))
            &&& file.subrange(20, 20 + meta@.len() as int) == meta@
            &&& file.subrange(20 + meta@.len() as int, 20 + meta@.len() + first) == data@.take(first)
            &&& forall|i: int| n - 12 <= i < n ==> #[trigger] file[i] == 0
        }),
{
    let file = out@;
    let size = chunk_size as nat;
    let n = file.len() as int;
    let first: int = if data@.len() <= chunk_size {
        data@.len() as int
    } else {
        chunk_size as int
    };
    let part = data@.take(first);
    let body = chunks(meta@, data@, size);
    let sum = crc32_of(meta@ + part);
    pow256_widths();
    chunks_have_their_length(meta@, data@, size);
    le_round_trip(1, 4);
    le_round_trip(meta@.len(), 4);
    le_round_trip(first as nat, 4);
    le_round_trip(sum as nat, 4);
    le_round_trip(0, 4);
    if data@.len() <= size {
        assert(part =~= data@);
    }
    let opening = chunk(meta@, part);
    assert(body.take(opening.len() as int) =~= opening);
    assert(file.subrange(8, 8 + opening.len() as int) =~= opening);
    assert(file.subrange(4, 8) =~= le_bytes(1, 4));
    assert(file.subrange(8, 12) =~= opening.subrange(0, 4));
    assert(file.subrange(8, 12) =~= le_bytes(meta@.len(), 4));
    assert(file.subrange(12, 16) =~= opening.subrange(4, 8));
    assert(file.subrange(12, 16) =~= le_bytes(first as nat, 4));
    assert(file.subrange(16, 20) =~= opening.subrange(8, 12));
    assert(file.subrange(16, 20) =~= le_bytes(sum as nat, 4));
    assert(file.subrange(20, 20 + meta@.len() as int) =~= opening.subrange(
        12,
        12 + meta@.len() as int,
    ));
    assert(opening.subrange(12, 12 + meta@.len() as int) =~= meta@);
    assert(file.subrange(20 + meta@.len() as int, 20 + meta@.len() + first) =~= opening.subrange(
        12 + meta@.len() as int,
        12 + meta@.len() + first,
    ));
    assert(opening.subrange(12 + meta@.len() as int, 12 + meta@.len() + first) =~= part);
    assert forall|i: int| n - 12 <= i < n implies #[trigger] file[i] == 0 by {
        crate::bytes::bytes_stand_by_weight(0, 4, 0);
        crate::bytes::bytes_stand_by_weight(0, 4, 1);
        crate::bytes::bytes_stand_by_weight(0, 4, 2);
        crate::bytes::bytes_stand_by_weight(0, 4, 3);
        zero_bytes();
        let k = i - (n - 12);
        assert(file[i] == chunk_header(0, 0, 0)[k]);
    }
}

proof fn zero_bytes()
    ensures
        forall|k: int| 0 <= k < 4 ==> #[trigger] le_bytes(0, 4)[k] == 0,
{
    assert forall|k: int| 0 <= k < 4 implies #[trigger] le_bytes(0, 4)[k] == 0 by {
        crate::bytes::bytes_stand_by_weight(0, 4, k as nat);
        crate::bytes::zero_has_no_weight(k as nat);
    }
}

/// A chunk is read only where it is all there; an empty one ends the file, and has no checksum.
pub proof fn chunks_are_read_whole(file: &[u8], at: usize, r: Result<Option<ChunkHeader>, SnapshotError>)
    requires
        at <= file@.len(),
        call_ensures(read_chunk_header, (file, at), r),
    ensures
        ({
            let meta_len = le_value(file@.subrange(at as int, at + 4));
            let data_len = le_value(file@.subrange(at + 4, at + 8));
            let sum = le_value(file@.subrange(at + 8, at + 12));
            let whole = at + 12 <= file@.len();
            &&& !whole ==> r == Err::<Option<ChunkHeader>, SnapshotError>(SnapshotError::Truncated)
            &&& whole && meta_len == 0 && data_len == 0 && sum == 0 ==> r == Ok::<
                Option<ChunkHeader>,
                SnapshotError,
            >(None)
            &&& whole && meta_len == 0 && data_len == 0 && sum != 0 ==> r == Err::<
                Option<ChunkHeader>,
                SnapshotError,
            >(SnapshotError::InvalidTerminator)
            &&& whole && (meta_len > 0 || data_len > 0) && at + 12 + meta_len + data_len
                > file@.len() ==> r == Err::<Option<ChunkHeader>, SnapshotError>(
                SnapshotError::Truncated,
            )
            &&& whole && (meta_len > 0 || data_len > 0) && at + 12 + meta_len + data_len
                <= file@.len() ==> (r matches Ok(Some(h)) && h.meta_len == meta_len && h.data_len
                == data_len && h.sum == sum)
        }),
{
    if at + 12 <= file@.len() {
        pow256_widths();
        crate::bytes::le_round_trip_bytes(file@.subrange(at as int, at + 4));
        crate::bytes::le_round_trip_bytes(file@.subrange(at + 4, at + 8));
        crate::bytes::le_round_trip_bytes(file@.subrange(at + 8, at + 12));
    }
}

/// A file that does not begin as a snapshot does is none, and one of another version is refused
/// with that version.
pub proof fn other_files_are_no_snapshots(file: &[u8], r: Result<SnapshotContents, SnapshotError>)
    requires
        call_ensures(decode_snapshot, (file,), r),
    ensures
        file@.len() < 20 || file@[0] != 83 || file@[1] != 78 || file@[2] != 65 || file@[3] != 80
            ==> (r matches Err(e) && e is InvalidHeader),
        file@.len() >= 20 && file@.take(4) == seq![83u8, 78u8, 65u8, 80u8] && le_value(
            file@.subrange(4, 8),
        ) != 1 ==> (r matches Err(SnapshotError::VersionMismatch(v)) && v == le_value(
            file@.subrange(4, 8),
        )),
        r matches Ok(c) ==> le_value(file@.subrange(4, 8)) == 1,
{
    if file@.len() >= 20 {
        pow256_widths();
        crate::bytes::le_round_trip_bytes(file@.subrange(4, 8));
    }
    if file@.len() >= 20 && file@.take(4) == snap_magic() {
        assert(file@.take(4)[0] == file@[0]);
        assert(file@.take(4)[1] == file@[1]);
        assert(file@.take(4)[2] == file@[2]);
        assert(file@.take(4)[3] == file@[3]);
    }
}

/// A chunk holds at least a byte, whatever is configured.
pub proof fn chunks_hold_at_least_a_byte(configured: nat)
    ensures
        effective_chunk_size(configured) >= 1,
        configured > 0 ==> effective_chunk_size(configured) == configured,
        configured == 0 ==> effective_chunk_size(configured) == 1,
{
}

} // verus!
