//! What a file consists of: sent ahead of its chunks.

use vstd::prelude::*;

use crate::text::{decimal, push_decimal};
use crate::transfer::chunk::{
    chunks_needed, chunks_needed_cover_the_file, chunks_tile_the_file, layout, span_size, ChunkMeta,
};
use crate::transfer::error::TransferSessionId;
use crate::transfer::integrity::chunk_metas;
use crate::transfer::options::{HashAlgorithm, TransferOptions};

verus! {

/// The version of the manifests that are written here, and the last that is understood.
pub const CURRENT_VERSION: u16 = 1;

/// What a path names.
#[derive(Debug, Clone, Copy, PartialEq, Eq, Structural)]
pub enum FileType {
    File,
    Directory,
    Symlink,
}

/// What is known of a file beside its content.
#[derive(Debug, Clone, Copy, PartialEq, Eq, Structural)]
pub struct FileMetadata {
    pub created_at: Option<u64>,
    pub modified_at: Option<u64>,
    pub permissions: Option<u32>,
    pub file_type: FileType,
    pub size: Option<u64>,
}

/// What a file consists of.
#[derive(Debug, PartialEq, Eq)]
pub struct TransferManifest {
    pub version: u16,
    pub session_id: TransferSessionId,
    pub source_path: String,
    pub dest_path: String,
    pub file_size: u64,
    pub file_hash: Vec<u8>,
    pub hash_algorithm: HashAlgorithm,
    pub chunk_size: u32,
    pub chunk_count: u32,
    pub chunks: Vec<ChunkMeta>,
    pub metadata: Option<FileMetadata>,
    pub options: TransferOptions,
    pub created_at: u64,
}

/// What a file consists of, seen as plain values.
#[verifier::ext_equal]
pub struct ManifestView {
    pub version: u16,
    pub session_id: TransferSessionId,
    pub source_path: Seq<char>,
    pub dest_path: Seq<char>,
    pub file_size: u64,
    pub file_hash: Seq<u8>,
    pub hash_algorithm: HashAlgorithm,
    pub chunk_size: u32,
    pub chunk_count: u32,
    pub chunks: Seq<ChunkMeta>,
    pub metadata: Option<FileMetadata>,
    pub options: TransferOptions,
    pub created_at: u64,
}

impl View for TransferManifest {
    type V = ManifestView;

    open spec fn view(&self) -> ManifestView {
        ManifestView {
            version: self.version,
            session_id: self.session_id,
            source_path: self.source_path@,
            dest_path: self.dest_path@,
            file_size: self.file_size,
            file_hash: self.file_hash@,
            hash_algorithm: self.hash_algorithm,
            chunk_size: self.chunk_size,
            chunk_count: self.chunk_count,
            chunks: self.chunks@,
            metadata: self.metadata,
            options: self.options,
            created_at: self.created_at,
        }
    }
}

/// A copy of a list of chunks.
pub fn copy_chunks(chunks: &Vec<ChunkMeta>) -> (copy: Vec<ChunkMeta>)
    ensures
        copy@ == chunks@,
{
    let mut copy: Vec<ChunkMeta> = Vec::new();
    let mut i: usize = 0;
    while i < chunks.len()
        invariant
            i <= chunks@.len(),
            copy@ == chunks@.take(i as int),
        decreases chunks@.len() - i,
    {
        copy.push(chunks[i]);
        i = i + 1;
        assert(copy@ =~= chunks@.take(i as int));
    }
    assert(copy@ =~= chunks@);
    copy
}

impl Clone for TransferManifest {
    fn clone(&self) -> (copy: Self)
        ensures
            copy@ == self@,
    {
        TransferManifest {
            version: self.version,
            session_id: self.session_id,
            source_path: self.source_path.clone(),
            dest_path: self.dest_path.clone(),
            file_size: self.file_size,
            file_hash: crate::bytes::copy_range(
                self.file_hash.as_slice(),
                0,
                self.file_hash.len(),
            ),
            hash_algorithm: self.hash_algorithm,
            chunk_size: self.chunk_size,
            chunk_count: self.chunk_count,
            chunks: copy_chunks(&self.chunks),
            metadata: self.metadata,
            options: self.options,
            created_at: self.created_at,
        }
    }
}

/// What is wrong with a manifest.
#[allow(inconsistent_fields)]
#[derive(Debug, Clone, Copy, PartialEq, Eq, Structural)]
pub enum ManifestError {
    UnsupportedVersion(u16),
    ChunkCountMismatch { expected: u32, actual: u32 },
    ChunkIndexMismatch { expected: u32, actual: u32 },
    SizeMismatch { expected: u64, actual: u64 },
}

/// The text of what is wrong with a manifest.
pub open spec fn manifest_error_text(e: ManifestError) -> Seq<char> {
    match e {
        ManifestError::UnsupportedVersion(v) => "unsupported manifest version "@ + decimal(v as nat),
        ManifestError::ChunkCountMismatch { expected, actual } => {
            "chunk count mismatch: expected "@ + decimal(expected as nat) + ", got "@ + decimal(
                actual as nat,
            )
        },
        ManifestError::ChunkIndexMismatch { expected, actual } => {
            "chunk index mismatch: expected "@ + decimal(expected as nat) + ", got "@ + decimal(
                actual as nat,
            )
        },
        ManifestError::SizeMismatch { expected, actual } => {
            "size mismatch: expected "@ + decimal(expected as nat) + ", got "@ + decimal(
                actual as nat,
            )
        },
    }
}

fn mismatch_text(prefix: &str, expected: u64, actual: u64) -> (text: String)
    ensures
        text@ == prefix@ + decimal(expected as nat) + ", got "@ + decimal(actual as nat),
{
    let mut text = String::from_str(prefix);
    push_decimal(&mut text, expected);
    text.append(", got ");
    push_decimal(&mut text, actual);
    text
}

impl ManifestError {
    /// The text of the error.
    pub fn message(&self) -> (text: String)
        ensures
            text@ == manifest_error_text(*self),
    {
        match *self {
            ManifestError::UnsupportedVersion(v) => {
                let mut text = String::from_str("unsupported manifest version ");
                push_decimal(&mut text, v as u64);
                text
            },
            ManifestError::ChunkCountMismatch { expected, actual } => mismatch_text(
                "chunk count mismatch: expected ",
                expected as u64,
                actual as u64,
            ),
            ManifestError::ChunkIndexMismatch { expected, actual } => mismatch_text(
                "chunk index mismatch: expected ",
                expected as u64,
                actual as u64,
            ),
            ManifestError::SizeMismatch { expected, actual } => mismatch_text(
                "size mismatch: expected ",
                expected,
                actual,
            ),
        }
    }
}

/// The sizes of chunks together.
pub open spec fn total_size(chunks: Seq<ChunkMeta>) -> nat
    decreases chunks.len(),
{
    if chunks.len() == 0 {
        0
    } else {
        total_size(chunks.drop_last()) + chunks.last().size as nat
    }
}

/// Whether the chunk at `i` is the first whose number is not its place.
pub open spec fn is_first_misplaced(chunks: Seq<ChunkMeta>, i: int) -> bool {
    &&& 0 <= i < chunks.len()
    &&& chunks[i].index != i
    &&& forall|j: int| 0 <= j < i ==> (#[trigger] chunks[j]).index == j
}

/// Whether every chunk's number is its place.
pub open spec fn all_in_place(chunks: Seq<ChunkMeta>) -> bool {
    forall|j: int| 0 <= j < chunks.len() ==> (#[trigger] chunks[j]).index == j
}

/// Whether a manifest is free of contradictions.
pub open spec fn manifest_is_valid(m: ManifestView) -> bool {
    &&& m.version <= CURRENT_VERSION
    &&& m.chunks.len() == m.chunk_count
    &&& all_in_place(m.chunks)
    &&& total_size(m.chunks) == m.file_size
}

/// What is found wrong with a manifest that is not free of contradictions: the version is
/// looked at first, then the number of chunks, their order and their sizes.
pub open spec fn manifest_fault(m: ManifestView, e: ManifestError) -> bool {
    if m.version > CURRENT_VERSION {
        e == ManifestError::UnsupportedVersion(m.version)
    } else if m.chunks.len() != m.chunk_count {
        e == (ManifestError::ChunkCountMismatch {
            expected: m.chunk_count,
            actual: (m.chunks.len() % 0x1_0000_0000) as u32,
        })
    } else if !all_in_place(m.chunks) {
        exists|i: int| #[trigger]
            is_first_misplaced(m.chunks, i) && e == (ManifestError::ChunkIndexMismatch {
                expected: i as u32,
                actual: m.chunks[i].index,
            })
    } else {
        total_size(m.chunks) != m.file_size && e == (ManifestError::SizeMismatch {
            expected: m.file_size,
            actual: total_size(m.chunks) as u64,
        })
    }
}

proof fn total_size_is_bounded(chunks: Seq<ChunkMeta>)
    ensures
        total_size(chunks) <= chunks.len() * 0xffff_ffff,
    decreases chunks.len(),
{
    if chunks.len() > 0 {
        total_size_is_bounded(chunks.drop_last());
    }
}

impl TransferManifest {
    /// Looks for contradictions.
    pub fn validate(&self) -> (r: Result<(), ManifestError>)
        ensures
            match r {
                Ok(()) => manifest_is_valid(self@),
                Err(error) => !manifest_is_valid(self@) && manifest_fault(self@, error),
            },
    {
        if self.version > CURRENT_VERSION {
            return Err(ManifestError::UnsupportedVersion(self.version));
        }
        let count: usize = self.chunks.len();
        if count != self.chunk_count as usize {
            let low: u64 = count as u64 % 0x1_0000_0000;
            return Err(
                ManifestError::ChunkCountMismatch { expected: self.chunk_count, actual: low as u32 },
            );
        }
        let mut total: u64 = 0;
        let mut i: usize = 0;
        while i < count
            invariant
                i <= count,
                count == self.chunks@.len(),
                count == self.chunk_count,
                self.version <= CURRENT_VERSION,
                total == total_size(self.chunks@.take(i as int)),
                forall|j: int| 0 <= j < i ==> (#[trigger] self.chunks@[j]).index == j,
            decreases count - i,
        {
            if self.chunks[i].index != i as u32 {
                assert(is_first_misplaced(self@.chunks, i as int));
                return Err(
                    ManifestError::ChunkIndexMismatch {
                        expected: i as u32,
                        actual: self.chunks[i].index,
                    },
                );
            }
            proof {
                let longer = self.chunks@.take(i + 1);
                assert(longer.drop_last() =~= self.chunks@.take(i as int));
                assert(longer.last() == self.chunks@[i as int]);
                total_size_is_bounded(longer);
            }
            total = total + self.chunks[i].size as u64;
            i = i + 1;
        }
        assert(self.chunks@.take(count as int) =~= self.chunks@);
        if total != self.file_size {
            return Err(ManifestError::SizeMismatch { expected: self.file_size, actual: total });
        }
        Ok(())
    }
}

proof fn sizes_add_up(chunks: Seq<ChunkMeta>, file_size: nat, chunk_size: nat, n: int)
    requires
        0 < chunk_size <= u32::MAX,
        file_size <= u64::MAX,
        0 <= n <= chunks_needed(file_size, chunk_size),
        chunks.len() == chunks_needed(file_size, chunk_size),
        forall|i: int|
            0 <= i < chunks.len() ==> (#[trigger] chunks[i]).size == span_size(
                file_size,
                chunk_size,
                i,
            ),
    ensures
        total_size(chunks.take(n)) == (if n < chunks_needed(file_size, chunk_size) {
            n * chunk_size
        } else {
            file_size as int
        }),
    decreases n,
{
    chunks_needed_cover_the_file(file_size, chunk_size);
    if n == 0 {
        assert(chunks.take(0) =~= Seq::<ChunkMeta>::empty());
        assert(0 * chunk_size == 0) by (nonlinear_arith);
    } else {
        let longer = chunks.take(n);
        assert(longer.drop_last() =~= chunks.take(n - 1));
        assert(longer.last() == chunks[n - 1]);
        sizes_add_up(chunks, file_size, chunk_size, n - 1);
        chunks_tile_the_file(file_size, chunk_size, n - 1);
    }
}

/// A manifest made of a scan of a file, or of its layout alone, is free of contradictions.
pub proof fn scanned_manifest_is_valid(m: ManifestView, data: Seq<u8>)
    requires
        m.version == CURRENT_VERSION,
        m.chunk_size > 0,
        m.file_size == data.len(),
        m.chunks == chunk_metas(data, m.chunk_size as nat) || m.chunks == layout(
            data.len(),
            m.chunk_size as nat,
        ),
        m.chunk_count == m.chunks.len(),
    ensures
        manifest_is_valid(m),
{
    let f = data.len();
    let c = m.chunk_size as nat;
    assert forall|i: int| 0 <= i < m.chunks.len() implies (#[trigger] m.chunks[i]).size == span_size(
        f,
        c,
        i,
    ) && m.chunks[i].index == i by {
        chunks_tile_the_file(f, c, i);
    }
    sizes_add_up(m.chunks, f, c, m.chunks.len() as int);
    assert(m.chunks.take(m.chunks.len() as int) =~= m.chunks);
}

/// A manifest that is valid announces as many chunks as it lists, each in its place, and together
/// as long as the file; a fault is found exactly in one that is not.
pub proof fn valid_manifest_fits_together(m: ManifestView, e: ManifestError)
    ensures
        manifest_is_valid(m) ==> m.chunks.len() == m.chunk_count && m.version <= 1 && total_size(
            m.chunks,
        ) == m.file_size && forall|i: int|
            0 <= i < m.chunks.len() ==> (#[trigger] m.chunks[i]).index == i,
        m.version > 1 || m.chunks.len() != m.chunk_count || total_size(m.chunks) != m.file_size
            ==> !manifest_is_valid(m),
        (exists|i: int| 0 <= i < m.chunks.len() && (#[trigger] m.chunks[i]).index != i)
            ==> !manifest_is_valid(m),
        manifest_is_valid(m) ==> !manifest_fault(m, e),
        manifest_fault(m, e) ==> {
            &&& e is UnsupportedVersion <==> m.version > 1
            &&& e matches ManifestError::UnsupportedVersion(v) ==> v == m.version
            &&& e matches ManifestError::ChunkCountMismatch { expected, actual } ==> expected
                == m.chunk_count && m.chunks.len() != m.chunk_count && (m.chunks.len()
                < 0x1_0000_0000 ==> actual == m.chunks.len())
            &&& e matches ManifestError::ChunkIndexMismatch { expected, actual } ==> m.chunks.len()
                == m.chunk_count && expected < m.chunks.len() && m.chunks[expected as int].index
                == actual && actual != expected && forall|j: int|
                0 <= j < expected ==> (#[trigger] m.chunks[j]).index == j
            &&& e matches ManifestError::SizeMismatch { expected, actual } ==> expected
                == m.file_size && total_size(m.chunks) != m.file_size && (total_size(m.chunks)
                <= u64::MAX ==> actual == total_size(m.chunks))
        },
{
    if manifest_fault(m, e) && m.version <= 1 && m.chunks.len() == m.chunk_count && !all_in_place(
        m.chunks,
    ) {
        let i = choose|i: int| #[trigger]
            is_first_misplaced(m.chunks, i) && e == (ManifestError::ChunkIndexMismatch {
                expected: i as u32,
                actual: m.chunks[i].index,
            });
        assert(0 <= i < m.chunk_count);
    }
}

/// The sizes of the chunks add up, in whatever two parts they are taken.
pub proof fn sizes_of_parts_add_up(a: Seq<ChunkMeta>, b: Seq<ChunkMeta>)
    ensures
        total_size(a + b) == total_size(a) + total_size(b),
        a.len() == 1 ==> total_size(a) == a[0].size,
    decreases b.len(),
{
    if b.len() > 0 {
        sizes_of_parts_add_up(a, b.drop_last());
        assert((a + b).drop_last() =~= a + b.drop_last());
    } else {
        assert(a + b =~= a);
    }
    if a.len() == 1 {
        assert(total_size(a.drop_last()) == 0);
    }
}

} // verus!
