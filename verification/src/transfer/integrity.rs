//! Checksums of chunks and hashes of files.

use vstd::prelude::*;

use crate::bytes::{be_bytes, bytes_equal, copy_range, push_be};
use crate::transfer::chunk::{
    chunks_needed, chunks_needed_cover_the_file, chunks_tile_the_file, layout, span_at, span_size,
    ChunkMeta,
};
use crate::transfer::error::{ErrorView, FileTransferError, IoKind};
use crate::transfer::options::HashAlgorithm;

verus! {

/// The XXH64 hash of bytes under a seed.
pub uninterp spec fn xxh64_of(data: Seq<u8>, seed: u64) -> u64;

/// `xxhash_rust::xxh64::xxh64`: the XXH64 hash of `data` under `seed`. It is a function of
/// the two alone.
#[verifier::external_body]
fn xxh64(data: &[u8], seed: u64) -> (hash: u64)
    ensures
        hash == xxh64_of(data@, seed),
{
    xxhash_rust::xxh64::xxh64(data, seed)
}

/// `xxhash_rust::xxh64::Xxh64`, the state of an XXH64 hash under way.
#[verifier::external_type_specification]
#[verifier::external_body]
pub struct ExXxh64(xxhash_rust::xxh64::Xxh64);

/// The bytes that an XXH64 state has been given since it was made.
pub uninterp spec fn xxh64_absorbed(state: xxhash_rust::xxh64::Xxh64) -> Seq<u8>;

/// The seed that an XXH64 state was made with.
pub uninterp spec fn xxh64_seed(state: xxhash_rust::xxh64::Xxh64) -> u64;

/// `xxhash_rust::xxh64::Xxh64::new`: a state under `seed` that has been given nothing.
#[verifier::external_body]
fn xxh64_new(seed: u64) -> (state: xxhash_rust::xxh64::Xxh64)
    ensures
        xxh64_absorbed(state) == Seq::<u8>::empty(),
        xxh64_seed(state) == seed,
{
    xxhash_rust::xxh64::Xxh64::new(seed)
}

/// `xxhash_rust::xxh64::Xxh64::update`: gives the state more bytes, behind those of before.
#[verifier::external_body]
fn xxh64_update(state: &mut xxhash_rust::xxh64::Xxh64, data: &[u8])
    ensures
        xxh64_absorbed(*final(state)) == xxh64_absorbed(*old(state)) + data@,
        xxh64_seed(*final(state)) == xxh64_seed(*old(state)),
{
    state.update(data);
}

/// `xxhash_rust::xxh64::Xxh64::digest`: the XXH64 hash of the bytes given so far.
#[verifier::external_body]
fn xxh64_digest(state: &xxhash_rust::xxh64::Xxh64) -> (hash: u64)
    ensures
        hash == xxh64_of(xxh64_absorbed(*state), xxh64_seed(*state)),
{
    state.digest()
}

/// The BLAKE3 hash of bytes.
pub uninterp spec fn blake3_of(data: Seq<u8>) -> Seq<u8>;

/// `blake3::Hasher`, the state of a BLAKE3 hash under way.
#[verifier::external_type_specification]
#[verifier::external_body]
pub struct ExBlake3Hasher(blake3::Hasher);

/// The bytes that a BLAKE3 state has been given since it was made.
pub uninterp spec fn blake3_absorbed(state: blake3::Hasher) -> Seq<u8>;

/// `blake3::Hasher::new`: a state for the unkeyed hash that has been given nothing.
#[verifier::external_body]
fn blake3_new() -> (state: blake3::Hasher)
    ensures
        blake3_absorbed(state) == Seq::<u8>::empty(),
{
    blake3::Hasher::new()
}

/// `blake3::Hasher::update`: gives the state more bytes, behind those of before.
#[verifier::external_body]
fn blake3_update(state: &mut blake3::Hasher, data: &[u8])
    ensures
        blake3_absorbed(*final(state)) == blake3_absorbed(*old(state)) + data@,
{
    state.update(data);
}

/// `blake3::Hasher::finalize`: the thirty-two bytes of the BLAKE3 hash of the bytes given
/// so far.
#[verifier::external_body]
fn blake3_finalize(state: &blake3::Hasher) -> (hash: Vec<u8>)
    ensures
        hash@ == blake3_of(blake3_absorbed(*state)),
        hash@.len() == 32,
{
    state.finalize().as_bytes().to_vec()
}

/// The SHA-256 hash of bytes.
pub uninterp spec fn sha256_of(data: Seq<u8>) -> Seq<u8>;

/// `sha2::Sha256`, the state of a SHA-256 hash under way.
#[verifier::external_type_specification]
#[verifier::external_body]
pub struct ExSha256(sha2::Sha256);

/// The bytes that a SHA-256 state has been given since it was made.
pub uninterp spec fn sha256_absorbed(state: sha2::Sha256) -> Seq<u8>;

/// `sha2::Digest::new` for `sha2::Sha256`: a state that has been given nothing.
#[verifier::external_body]
fn sha256_new() -> (state: sha2::Sha256)
    ensures
        sha256_absorbed(state) == Seq::<u8>::empty(),
{
    sha2::Digest::new()
}

/// `sha2::Digest::update` for `sha2::Sha256`: gives the state more bytes, behind those of
/// before. Their number is counted in bits, in a number of sixty-four bits: no file is taken to
/// be so long that this is not enough.
#[verifier::external_body]
fn sha256_update(state: &mut sha2::Sha256, data: &[u8])
    ensures
        sha256_absorbed(*final(state)) == sha256_absorbed(*old(state)) + data@,
{
    sha2::Digest::update(state, data);
}

/// `sha2::Digest::finalize` for `sha2::Sha256`: the thirty-two bytes of the SHA-256 hash of
/// the bytes given so far.
#[verifier::external_body]
fn sha256_finalize(state: sha2::Sha256) -> (hash: Vec<u8>)
    ensures
        hash@ == sha256_of(sha256_absorbed(state)),
        hash@.len() == 32,
{
    sha2::Digest::finalize(state).to_vec()
}

/// The checksum of a chunk with this content.
pub open spec fn chunk_checksum(data: Seq<u8>) -> u64 {
    xxh64_of(data, 0)
}

/// The hash of a file with this content. XXH64 is written with its most significant byte
/// first.
pub open spec fn hash_of(algorithm: HashAlgorithm, data: Seq<u8>) -> Seq<u8> {
    match algorithm {
        HashAlgorithm::Sha256 => sha256_of(data),
        HashAlgorithm::Blake3 => blake3_of(data),
        HashAlgorithm::XxHash64 => be_bytes(xxh64_of(data, 0) as nat, 8),
    }
}

/// A hash under way.
pub enum FileHasher {
    Sha256(sha2::Sha256),
    Blake3(blake3::Hasher),
    XxHash64(xxhash_rust::xxh64::Xxh64),
}

/// A hash under way, seen as plain values.
#[verifier::ext_equal]
pub struct HasherView {
    pub algorithm: HashAlgorithm,
    pub absorbed: Seq<u8>,
}

impl View for FileHasher {
    type V = HasherView;

    closed spec fn view(&self) -> HasherView {
        match *self {
            FileHasher::Sha256(state) => HasherView {
                algorithm: HashAlgorithm::Sha256,
                absorbed: sha256_absorbed(state),
            },
            FileHasher::Blake3(state) => HasherView {
                algorithm: HashAlgorithm::Blake3,
                absorbed: blake3_absorbed(state),
            },
            FileHasher::XxHash64(state) => HasherView {
                algorithm: HashAlgorithm::XxHash64,
                absorbed: xxh64_absorbed(state),
            },
        }
    }
}

impl FileHasher {
    /// An XXH64 hash runs under the seed zero.
    pub closed spec fn wf(&self) -> bool {
        match *self {
            FileHasher::XxHash64(state) => xxh64_seed(state) == 0,
            _ => true,
        }
    }

    /// A hash that has been given nothing.
    pub fn new(algorithm: HashAlgorithm) -> (hasher: Self)
        ensures
            hasher.wf(),
            hasher@ == (HasherView { algorithm, absorbed: Seq::empty() }),
    {
        match algorithm {
            HashAlgorithm::Sha256 => FileHasher::Sha256(sha256_new()),
            HashAlgorithm::Blake3 => FileHasher::Blake3(blake3_new()),
            HashAlgorithm::XxHash64 => FileHasher::XxHash64(xxh64_new(0)),
        }
    }

    /// Gives the hash more bytes.
    pub fn update(&mut self, data: &[u8])
        requires
            old(self).wf(),
        ensures
            final(self).wf(),
            final(self)@ == (HasherView { absorbed: old(self)@.absorbed + data@, ..old(self)@ }),
    {
        match self {
            FileHasher::Sha256(state) => sha256_update(state, data),
            FileHasher::Blake3(state) => blake3_update(state, data),
            FileHasher::XxHash64(state) => xxh64_update(state, data),
        }
    }

    /// The hash of the bytes given.
    pub fn finalize(self) -> (hash: Vec<u8>)
        requires
            self.wf(),
        ensures
            hash@ == hash_of(self@.algorithm, self@.absorbed),
    {
        match self {
            FileHasher::Sha256(state) => sha256_finalize(state),
            FileHasher::Blake3(state) => blake3_finalize(&state),
            FileHasher::XxHash64(state) => {
                let mut hash: Vec<u8> = Vec::new();
                let digest: u64 = xxh64_digest(&state);
                push_be(&mut hash, digest as u128, 8);
                assert(hash@ =~= be_bytes(digest as nat, 8));
                hash
            },
        }
    }
}

/// Checksums, hashes and layouts.
pub struct IntegrityVerifier;

/// The metadata of the chunk with a number, of a file of which at least the bytes up to
/// that chunk's end are known.
pub open spec fn meta_at(data: Seq<u8>, file_size: nat, chunk_size: nat, i: int) -> ChunkMeta {
    ChunkMeta {
        checksum: chunk_checksum(
            data.subrange(i * chunk_size, i * chunk_size + span_size(file_size, chunk_size, i)),
        ),
        ..span_at(file_size, chunk_size, i)
    }
}

/// The metadata of the chunks of a file with this content.
pub open spec fn chunk_metas(data: Seq<u8>, chunk_size: nat) -> Seq<ChunkMeta> {
    Seq::new(
        chunks_needed(data.len(), chunk_size),
        |i: int| meta_at(data, data.len(), chunk_size, i),
    )
}

impl IntegrityVerifier {
    /// The checksum of a chunk.
    pub fn compute_chunk_checksum(data: &[u8]) -> (checksum: u64)
        ensures
            checksum == chunk_checksum(data@),
    {
        xxh64(data, 0)
    }

    /// Whether a chunk has the checksum it should have.
    pub fn verify_chunk_checksum(data: &[u8], expected: u64) -> (matches: bool)
        ensures
            matches == (chunk_checksum(data@) == expected),
    {
        Self::compute_chunk_checksum(data) == expected
    }

    /// The hash of a file with this content.
    pub fn compute_file_hash(data: &[u8], algorithm: HashAlgorithm) -> (hash: Vec<u8>)
        ensures
            hash@ == hash_of(algorithm, data@),
    {
        let mut hasher = FileHasher::new(algorithm);
        hasher.update(data);
        assert(Seq::<u8>::empty() + data@ =~= data@);
        hasher.finalize()
    }

    /// Whether a file with this content has the hash it should have.
    pub fn verify_file_hash(data: &[u8], expected: &[u8], algorithm: HashAlgorithm) -> (matches: bool)
        ensures
            matches == (hash_of(algorithm, data@) == expected@),
    {
        let actual = Self::compute_file_hash(data, algorithm);
        bytes_equal(actual.as_slice(), expected)
    }

    /// The chunks that cover a file, without their checksums: nothing of the file is read.
    pub fn build_chunk_layout(file_size: u64, chunk_size: usize) -> (r: Result<
        Vec<ChunkMeta>,
        FileTransferError,
    >)
        ensures
            match r {
                Ok(chunks) => chunk_size > 0 && chunks@ == layout(
                    file_size as nat,
                    chunk_size as nat,
                ),
                Err(error) => chunk_size == 0 && error@ == ErrorView::Io(
                    IoKind::InvalidInput,
                    "chunk_size must be greater than zero"@,
                ),
            },
    {
        if chunk_size == 0 {
            return Err(zero_chunk_size());
        }
        let ghost f = file_size as nat;
        let ghost c = chunk_size as nat;
        let ghost n = chunks_needed(f, c);
        proof {
            chunks_needed_cover_the_file(f, c);
        }
        let mut chunks: Vec<ChunkMeta> = Vec::new();
        let mut offset: u64 = 0;
        let mut index: u32 = 0;
        while offset < file_size
            invariant
                c == chunk_size,
                c > 0,
                f == file_size,
                n == chunks_needed(f, c),
                chunks@.len() <= n,
                chunks@ == layout(f, c).take(chunks@.len() as int),
                offset == (if chunks@.len() < n {
                    chunks@.len() * c
                } else {
                    f
                }),
                index == (if chunks@.len() <= 0xffff_ffff {
                    chunks@.len()
                } else {
                    0xffff_ffff
                }),
            decreases file_size - offset,
        {
            let left: u64 = file_size - offset;
            let size: usize = if left < chunk_size as u64 {
                left as usize
            } else {
                chunk_size
            };
            let ghost i = chunks@.len() as int;
            proof {
                chunks_tile_the_file(f, c, i);
            }
            chunks.push(ChunkMeta { index, offset, size: size as u32, checksum: 0 });
            assert(chunks@ =~= layout(f, c).take(i + 1));
            offset = offset + size as u64;
            index = index.saturating_add(1);
        }
        proof {
            if chunks@.len() < n {
                assert(chunks@.len() * c <= (n - 1) * c) by (nonlinear_arith)
                    requires
                        chunks@.len() <= n - 1,
                ;
            }
            assert(layout(f, c).take(n as int) =~= layout(f, c));
        }
        Ok(chunks)
    }

    /// The hash of a file and the metadata of its chunks, where its content is at hand.
    pub fn compute_file_hash_and_chunk_metas(data: &[u8], algorithm: HashAlgorithm, chunk_size: usize) -> (r: Result<
        (Vec<u8>, Vec<ChunkMeta>),
        FileTransferError,
    >)
        ensures
            match r {
                Ok((hash, chunks)) => {
                    &&& chunk_size > 0
                    &&& hash@ == hash_of(algorithm, data@)
                    &&& chunks@ == chunk_metas(data@, chunk_size as nat)
                },
                Err(error) => chunk_size == 0 && error@ == ErrorView::Io(
                    IoKind::InvalidInput,
                    "chunk_size must be greater than zero"@,
                ),
            },
    {
        let size: usize = data.len();
        let mut scan = match FileScan::new(algorithm, size as u64, chunk_size) {
            Ok(scan) => scan,
            Err(error) => {
                return Err(error);
            },
        };
        let mut at: usize = 0;
        while at < size
            invariant
                size == data@.len(),
                scan.wf(),
                scan@.algorithm == algorithm,
                scan@.file_size == size,
                scan@.chunk_size == chunk_size,
                scan@.absorbed == data@.take(at as int),
                at <= size,
            decreases size - at,
        {
            let next: usize = scan.next_size();
            let part = copy_range(data, at, at + next);
            assert(data@.take(at as int) + data@.subrange(at as int, at + next) =~= data@.take(
                at + next,
            ));
            scan.absorb(part.as_slice());
            at = at + next;
        }
        assert(data@.take(size as int) =~= data@);
        Ok(scan.finish())
    }
}

fn zero_chunk_size() -> (error: FileTransferError)
    ensures
        error@ == ErrorView::Io(IoKind::InvalidInput, "chunk_size must be greater than zero"@),
{
    FileTransferError::Io(
        IoKind::InvalidInput,
        String::from_str("chunk_size must be greater than zero"),
    )
}

/// One pass over a file, chunk after chunk, that gives the file's hash and the metadata of
/// its chunks.
pub struct FileScan {
    hasher: FileHasher,
    file_size: u64,
    chunk_size: usize,
    offset: u64,
    index: u32,
    chunks: Vec<ChunkMeta>,
}

/// A pass over a file, seen as plain values.
#[verifier::ext_equal]
pub struct ScanView {
    pub algorithm: HashAlgorithm,
    pub file_size: u64,
    pub chunk_size: usize,
    pub absorbed: Seq<u8>,
}

impl View for FileScan {
    type V = ScanView;

    closed spec fn view(&self) -> ScanView {
        ScanView {
            algorithm: self.hasher@.algorithm,
            file_size: self.file_size,
            chunk_size: self.chunk_size,
            absorbed: self.hasher@.absorbed,
        }
    }
}

impl FileScan {
    /// The chunks up to here are those of the bytes up to here.
    pub closed spec fn wf(&self) -> bool {
        let f = self.file_size as nat;
        let c = self.chunk_size as nat;
        let n = chunks_needed(f, c);
        &&& self.hasher.wf()
        &&& c > 0
        &&& self.chunks@.len() <= n
        &&& self.offset == self.hasher@.absorbed.len()
        &&& self.offset == (if self.chunks@.len() < n {
            self.chunks@.len() * c
        } else {
            f
        })
        &&& self.index == (if self.chunks@.len() <= 0xffff_ffff {
            self.chunks@.len()
        } else {
            0xffff_ffff
        })
        &&& forall|i: int|
            0 <= i < self.chunks@.len() ==> #[trigger] self.chunks@[i] == meta_at(
                self.hasher@.absorbed,
                f,
                c,
                i,
            )
    }

    /// How many bytes the next chunk has: none at the end of the file.
    pub closed spec fn next(&self) -> int {
        if self.file_size - self.offset < self.chunk_size {
            self.file_size - self.offset
        } else {
            self.chunk_size as int
        }
    }

    /// A pass before its first chunk.
    pub fn new(algorithm: HashAlgorithm, file_size: u64, chunk_size: usize) -> (r: Result<
        Self,
        FileTransferError,
    >)
        ensures
            match r {
                Ok(scan) => {
                    &&& chunk_size > 0
                    &&& scan.wf()
                    &&& scan@ == (ScanView {
                        algorithm,
                        file_size,
                        chunk_size,
                        absorbed: Seq::empty(),
                    })
                },
                Err(error) => chunk_size == 0 && error@ == ErrorView::Io(
                    IoKind::InvalidInput,
                    "chunk_size must be greater than zero"@,
                ),
            },
    {
        if chunk_size == 0 {
            return Err(zero_chunk_size());
        }
        let scan = FileScan {
            hasher: FileHasher::new(algorithm),
            file_size,
            chunk_size,
            offset: 0,
            index: 0,
            chunks: Vec::new(),
        };
        Ok(scan)
    }

    /// How many bytes to read next: none at the end of the file.
    pub fn next_size(&self) -> (size: usize)
        requires
            self.wf(),
        ensures
            size == self.next(),
            size == (if self@.file_size - self@.absorbed.len() < self@.chunk_size {
                self@.file_size - self@.absorbed.len()
            } else {
                self@.chunk_size as int
            }),
            size > 0 <==> self@.absorbed.len() < self@.file_size,
            self@.absorbed.len() + size <= self@.file_size,
    {
        proof {
            let f = self.file_size as nat;
            let c = self.chunk_size as nat;
            let n = chunks_needed(f, c);
            chunks_needed_cover_the_file(f, c);
            if self.chunks@.len() < n {
                assert(self.chunks@.len() * c <= (n - 1) * c) by (nonlinear_arith)
                    requires
                        self.chunks@.len() <= n - 1,
                ;
            }
        }
        let left: u64 = self.file_size - self.offset;
        if left < self.chunk_size as u64 {
            left as usize
        } else {
            self.chunk_size
        }
    }

    /// Takes the next chunk.
    pub fn absorb(&mut self, data: &[u8])
        requires
            old(self).wf(),
            data@.len() > 0,
            data@.len() == old(self).next(),
        ensures
            final(self).wf(),
            final(self)@ == (ScanView { absorbed: old(self)@.absorbed + data@, ..old(self)@ }),
    {
        let ghost f = self.file_size as nat;
        let ghost c = self.chunk_size as nat;
        let ghost i = self.chunks@.len() as int;
        let ghost before = self.hasher@.absorbed;
        let ghost metas = self.chunks@;
        let size: usize = data.len();
        proof {
            chunks_needed_cover_the_file(f, c);
            chunks_tile_the_file(f, c, i);
        }
        self.hasher.update(data);
        let ghost after = self.hasher@.absorbed;
        proof {
            assert(after.subrange(i * c, i * c + span_size(f, c, i)) =~= data@);
            assert forall|k: int| 0 <= k < i implies #[trigger] meta_at(before, f, c, k) == meta_at(
                after,
                f,
                c,
                k,
            ) by {
                chunks_tile_the_file(f, c, k);
                assert((k + 1) * c <= i * c) by (nonlinear_arith)
                    requires
                        k + 1 <= i,
                ;
                assert(before.subrange(k * c, k * c + span_size(f, c, k)) =~= after.subrange(
                    k * c,
                    k * c + span_size(f, c, k),
                ));
            }
        }
        let checksum: u64 = IntegrityVerifier::compute_chunk_checksum(data);
        self.chunks.push(
            ChunkMeta { index: self.index, offset: self.offset, size: size as u32, checksum },
        );
        self.offset = self.offset + size as u64;
        self.index = self.index.saturating_add(1);
        assert forall|k: int| 0 <= k < self.chunks@.len() implies #[trigger] self.chunks@[k]
            == meta_at(after, f, c, k) by {
            if k < i {
                assert(self.chunks@[k] == metas[k]);
                assert(metas[k] == meta_at(before, f, c, k));
            }
        }
    }

    /// The hash of the file and the metadata of its chunks.
    pub fn finish(self) -> (r: (Vec<u8>, Vec<ChunkMeta>))
        requires
            self.wf(),
            self@.absorbed.len() == self@.file_size,
        ensures
            r.0@ == hash_of(self@.algorithm, self@.absorbed),
            r.1@ == chunk_metas(self@.absorbed, self@.chunk_size as nat),
    {
        let ghost f = self.file_size as nat;
        let ghost c = self.chunk_size as nat;
        proof {
            chunks_needed_cover_the_file(f, c);
            let n = chunks_needed(f, c);
            if self.chunks@.len() < n {
                assert(self.chunks@.len() * c <= (n - 1) * c) by (nonlinear_arith)
                    requires
                        self.chunks@.len() <= n - 1,
                ;
            }
            assert(self.chunks@ =~= chunk_metas(self@.absorbed, c));
        }
        (self.hasher.finalize(), self.chunks)
    }
}

/// Each chunk that a scan finds is in its place: its number counts up from zero, it begins where
/// the one before it ends, is as long as chunks are or ends with the file, and its checksum is
/// that of its own bytes.
pub proof fn each_chunk_is_of_its_own_bytes(
    data: &[u8],
    algorithm: HashAlgorithm,
    chunk_size: usize,
    hash: Vec<u8>,
    chunks: Vec<ChunkMeta>,
    i: int,
)
    requires
        call_ensures(
            IntegrityVerifier::compute_file_hash_and_chunk_metas,
            (data, algorithm, chunk_size),
            Ok((hash, chunks)),
        ),
        0 <= i < chunks@.len(),
        chunks@.len() <= 0xffff_ffff,
        data@.len() <= u64::MAX,
        chunk_size <= 0xffff_ffff,
    ensures
        chunks@[i].index == i,
        chunks@[i].offset == i * chunk_size,
        chunks@[i].offset + chunks@[i].size <= data@.len(),
        i < chunks@.len() - 1 ==> chunks@[i].size == chunk_size,
        i == chunks@.len() - 1 ==> chunks@[i].offset + chunks@[i].size == data@.len(),
        0 < chunks@[i].size <= chunk_size,
        chunks@[i].checksum == chunk_checksum(
            data@.subrange(
                chunks@[i].offset as int,
                chunks@[i].offset + chunks@[i].size,
            ),
        ),
        hash@ == hash_of(algorithm, data@),
{
    let n = chunks@.len() as int;
    let f = data@.len() as int;
    let c = chunk_size as int;
    chunks_needed_cover_the_file(data@.len(), chunk_size as nat);
    assert(i * c + c <= (n - 1) * c || i == n - 1) by (nonlinear_arith)
        requires
            0 <= i < n,
            c > 0,
    ;
    assert(0 <= i * c) by (nonlinear_arith)
        requires
            0 <= i,
            c > 0,
    ;
    assert((n - 1) * c == n * c - c) by (nonlinear_arith);
    assert((i + 1) * c == i * c + c) by (nonlinear_arith);
}

/// Each algorithm gives a hash of its own, and the last one the eight bytes of the number by which
/// chunks are checked.
pub proof fn hash_is_by_its_algorithm(data: Seq<u8>)
    ensures
        hash_of(HashAlgorithm::Sha256, data) == sha256_of(data),
        hash_of(HashAlgorithm::Blake3, data) == blake3_of(data),
        crate::bytes::be_value(hash_of(HashAlgorithm::XxHash64, data)) == chunk_checksum(data),
        hash_of(HashAlgorithm::XxHash64, data).len() == 8,
{
    crate::bytes::pow256_widths();
    crate::bytes::be_round_trip(xxh64_of(data, 0) as nat, 8);
}

/// A checksum and a hash match exactly where they are those of the data.
pub proof fn only_the_same_hash_matches(
    data: &[u8],
    checksum: u64,
    expected: &[u8],
    algorithm: HashAlgorithm,
    a: bool,
    b: bool,
    computed: u64,
    hash: Vec<u8>,
)
    requires
        call_ensures(IntegrityVerifier::verify_chunk_checksum, (data, checksum), a),
        call_ensures(IntegrityVerifier::verify_file_hash, (data, expected, algorithm), b),
        call_ensures(IntegrityVerifier::compute_chunk_checksum, (data,), computed),
        call_ensures(IntegrityVerifier::compute_file_hash, (data, algorithm), hash),
    ensures
        a <==> checksum == computed,
        b <==> expected@ == hash@,
{
}

/// The checksum of a chunk is its XXH64 hash without a seed.
pub proof fn checksum_has_no_seed(data: Seq<u8>)
    ensures
        chunk_checksum(data) == xxh64_of(data, 0),
{
}

} // verus!
