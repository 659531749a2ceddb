//! Compression of chunks.

use std::io::Read;
use vstd::prelude::*;

use crate::bytes::copy_range;
use crate::transfer::error::FileTransferError;
use crate::transfer::options::CompressionAlgorithm;

verus! {

/// The level at which Zstd compresses where none is asked for.
pub const DEFAULT_ZSTD_LEVEL: i32 = 3;

/// What Zstd makes of bytes at a level: nothing where it fails.
pub uninterp spec fn zstd_encoded(data: Seq<u8>, level: i32) -> Option<Seq<u8>>;

/// The bytes that Zstd reads out of its frames: nothing where they are not whole frames.
pub uninterp spec fn zstd_decoded(data: Seq<u8>) -> Option<Seq<u8>>;

/// `zstd::stream::encode_all`: the Zstd frame of `data` at `level`. What comes out is a
/// function of the two, and decodes to `data` again. Memory is taken to suffice. Of the
/// text of an error nothing is said.
#[verifier::external_body]
fn zstd_encode(data: &[u8], level: i32) -> (r: Result<Vec<u8>, String>)
    ensures
        match r {
            Ok(frame) => zstd_encoded(data@, level) == Some(frame@) && zstd_decoded(frame@) == Some(
                data@,
            ),
            Err(_) => zstd_encoded(data@, level) is None,
        },
{
    zstd::stream::encode_all(data, level).map_err(|e| e.to_string())
}

/// `zstd::stream::Decoder::new`, read to its end: the bytes that the frames in `data` hold,
/// an error where they are not whole frames. `capacity` is room made in advance and changes
/// nothing. Memory is taken to suffice. Of the text of an error nothing is said.
#[verifier::external_body]
fn zstd_decode(data: &[u8], capacity: usize) -> (r: Result<Vec<u8>, String>)
    requires
        capacity <= isize::MAX,
    ensures
        match r {
            Ok(bytes) => zstd_decoded(data@) == Some(bytes@),
            Err(_) => zstd_decoded(data@) is None,
        },
{
    let mut decoder = zstd::stream::Decoder::new(data).map_err(|e| e.to_string())?;
    let mut output = Vec::with_capacity(capacity);
    decoder.read_to_end(&mut output).map_err(|e| e.to_string())?;
    Ok(output)
}

/// What an algorithm makes of bytes: nothing where it fails.
pub open spec fn compressed(data: Seq<u8>, algorithm: CompressionAlgorithm) -> Option<Seq<u8>> {
    match algorithm {
        CompressionAlgorithm::Uncompressed => Some(data),
        CompressionAlgorithm::Zstd => zstd_encoded(data, DEFAULT_ZSTD_LEVEL),
        CompressionAlgorithm::ZstdLevel(level) => zstd_encoded(data, level),
    }
}

/// The bytes that an algorithm reads back: nothing where it fails.
pub open spec fn decompressed(data: Seq<u8>, algorithm: CompressionAlgorithm) -> Option<Seq<u8>> {
    match algorithm {
        CompressionAlgorithm::Uncompressed => Some(data),
        _ => zstd_decoded(data),
    }
}

/// Compresses bytes. What comes out decompresses to them again.
pub fn compress_bytes(data: &[u8], algorithm: CompressionAlgorithm) -> (r: Result<
    Vec<u8>,
    FileTransferError,
>)
    ensures
        match r {
            Ok(bytes) => compressed(data@, algorithm) == Some(bytes@) && decompressed(
                bytes@,
                algorithm,
            ) == Some(data@),
            Err(error) => compressed(data@, algorithm) is None && error@ is Compression,
        },
{
    let level: i32 = match algorithm {
        CompressionAlgorithm::Uncompressed => {
            let end: usize = data.len();
            let copy = copy_range(data, 0, end);
            assert(copy@ =~= data@);
            return Ok(copy);
        },
        CompressionAlgorithm::Zstd => DEFAULT_ZSTD_LEVEL,
        CompressionAlgorithm::ZstdLevel(level) => level,
    };
    match zstd_encode(data, level) {
        Ok(bytes) => Ok(bytes),
        Err(text) => Err(FileTransferError::Compression(text)),
    }
}

/// Compresses bytes, and hands back the bytes themselves where there is nothing to do.
pub fn compress_owned_bytes(data: Vec<u8>, algorithm: CompressionAlgorithm) -> (r: Result<
    Vec<u8>,
    FileTransferError,
>)
    ensures
        match r {
            Ok(bytes) => {
                &&& compressed(data@, algorithm) == Some(bytes@)
                &&& decompressed(bytes@, algorithm) == Some(data@)
                &&& algorithm is Uncompressed ==> bytes == data
            },
            Err(error) => compressed(data@, algorithm) is None && error@ is Compression,
        },
{
    match algorithm {
        CompressionAlgorithm::Uncompressed => Ok(data),
        _ => compress_bytes(data.as_slice(), algorithm),
    }
}

/// Decompresses bytes. `uncompressed_size` is how many bytes are expected: it changes
/// nothing but how the memory is taken.
pub fn decompress_bytes(
    data: &[u8],
    algorithm: CompressionAlgorithm,
    uncompressed_size: Option<usize>,
) -> (r: Result<Vec<u8>, FileTransferError>)
    requires
        uncompressed_size matches Some(size) ==> size <= isize::MAX,
    ensures
        match r {
            Ok(bytes) => decompressed(data@, algorithm) == Some(bytes@),
            Err(error) => decompressed(data@, algorithm) is None && error@ is Compression,
        },
{
    match algorithm {
        CompressionAlgorithm::Uncompressed => {
            let end: usize = data.len();
            let copy = copy_range(data, 0, end);
            assert(copy@ =~= data@);
            Ok(copy)
        },
        _ => {
            let capacity: usize = match uncompressed_size {
                Some(size) => size,
                None => 0,
            };
            match zstd_decode(data, capacity) {
                Ok(bytes) => Ok(bytes),
                Err(text) => Err(FileTransferError::Compression(text)),
            }
        },
    }
}

/// Decompresses bytes, and hands back the bytes themselves where there is nothing to do.
pub fn decompress_owned_bytes(
    data: Vec<u8>,
    algorithm: CompressionAlgorithm,
    uncompressed_size: Option<usize>,
) -> (r: Result<Vec<u8>, FileTransferError>)
    requires
        uncompressed_size matches Some(size) ==> size <= isize::MAX,
    ensures
        match r {
            Ok(bytes) => {
                &&& decompressed(data@, algorithm) == Some(bytes@)
                &&& algorithm is Uncompressed ==> bytes == data
            },
            Err(error) => decompressed(data@, algorithm) is None && error@ is Compression,
        },
{
    match algorithm {
        CompressionAlgorithm::Uncompressed => Ok(data),
        _ => decompress_bytes(data.as_slice(), algorithm, uncompressed_size),
    }
}

/// What is not compressed stays as it is, what is compressed at no given level is compressed at
/// the third, and a level that is given is taken.
pub proof fn level_is_as_given(data: Seq<u8>, level: i32)
    ensures
        compressed(data, CompressionAlgorithm::Uncompressed) == Some(data),
        decompressed(data, CompressionAlgorithm::Uncompressed) == Some(data),
        compressed(data, CompressionAlgorithm::Zstd) == zstd_encoded(data, 3),
        compressed(data, CompressionAlgorithm::ZstdLevel(level)) == zstd_encoded(data, level),
        decompressed(data, CompressionAlgorithm::Zstd) == zstd_decoded(data),
        decompressed(data, CompressionAlgorithm::ZstdLevel(level)) == zstd_decoded(data),
{
}

/// What was compressed is read back as it was, under the same algorithm.
pub proof fn compressed_data_reads_back(
    data: &[u8],
    packed: Vec<u8>,
    algorithm: CompressionAlgorithm,
    unpacked: Result<Vec<u8>, FileTransferError>,
)
    requires
        call_ensures(compress_bytes, (data, algorithm), Ok(packed)),
        call_ensures(decompress_owned_bytes, (packed, algorithm, None), unpacked),
    ensures
        unpacked matches Ok(again) && again@ == data@,
{
}

} // verus!
