//! What the two ends of a transfer tell each other.

use vstd::prelude::*;

use crate::transfer::error::{error_code, error_is_recoverable, error_text, FileTransferError};
use crate::transfer::manifest::{FileMetadata, FileType, TransferManifest};
use crate::transfer::options::{HashAlgorithm, TransferMode, TransferOptions};

verus! {

/// Asks whether a file may be sent.
#[derive(Debug, PartialEq, Eq)]
pub struct TransferRequest {
    pub source_path: String,
    pub dest_path: String,
    pub file_size: u64,
    pub chunk_count: u32,
    pub chunk_size: u32,
    pub mode: TransferMode,
    pub options: TransferOptions,
    pub metadata: Option<FileMetadata>,
}

/// Whether a file may be sent, and which of its chunks are there already.
#[derive(Debug, PartialEq, Eq)]
pub struct TransferResponse {
    pub accepted: bool,
    pub rejection_reason: Option<String>,
    pub existing_chunks: Vec<u32>,
}

/// A text that may be missing, seen as plain values.
pub open spec fn text_of(text: Option<String>) -> Option<Seq<char>> {
    match text {
        Some(t) => Some(t@),
        None => None,
    }
}

/// Whether a file may be sent, seen as plain values.
pub struct ResponseView {
    pub accepted: bool,
    pub rejection_reason: Option<Seq<char>>,
    pub existing_chunks: Seq<u32>,
}

impl View for TransferResponse {
    type V = ResponseView;

    open spec fn view(&self) -> ResponseView {
        ResponseView {
            accepted: self.accepted,
            rejection_reason: text_of(self.rejection_reason),
            existing_chunks: self.existing_chunks@,
        }
    }
}

/// Whether a manifest was accepted, and which chunks need not be sent.
#[derive(Debug, PartialEq, Eq)]
pub struct ManifestAck {
    pub accepted: bool,
    pub skip_chunks: Vec<u32>,
    pub error: Option<String>,
}

/// Whether a manifest was accepted, seen as plain values.
pub struct AckView {
    pub accepted: bool,
    pub skip_chunks: Seq<u32>,
    pub error: Option<Seq<char>>,
}

impl View for ManifestAck {
    type V = AckView;

    open spec fn view(&self) -> AckView {
        AckView {
            accepted: self.accepted,
            skip_chunks: self.skip_chunks@,
            error: text_of(self.error),
        }
    }
}

/// Whether a chunk arrived unharmed.
#[derive(Debug, PartialEq, Eq)]
pub struct ChunkAck {
    pub index: u32,
    pub verified: bool,
    pub error: Option<String>,
}

/// Whether a chunk arrived unharmed, seen as plain values.
pub struct ChunkAckView {
    pub index: u32,
    pub verified: bool,
    pub error: Option<Seq<char>>,
}

impl View for ChunkAck {
    type V = ChunkAckView;

    open spec fn view(&self) -> ChunkAckView {
        ChunkAckView { index: self.index, verified: self.verified, error: text_of(self.error) }
    }
}

/// The file is in its place.
#[derive(Debug, PartialEq, Eq)]
pub struct TransferComplete {
    pub bytes_transferred: u64,
    pub duration_ms: u64,
    pub file_hash: Vec<u8>,
    pub hash_algorithm: HashAlgorithm,
}

/// The transfer failed.
#[derive(Debug, PartialEq, Eq)]
pub struct TransferErrorMessage {
    pub code: u32,
    pub message: String,
    pub recoverable: bool,
}

impl TransferErrorMessage {
    /// Tells of an error.
    pub fn of(error: &FileTransferError) -> (message: Self)
        ensures
            message.code == error_code(error@),
            message.message@ == error_text(error@),
            message.recoverable == error_is_recoverable(error@),
    {
        TransferErrorMessage {
            code: error.code(),
            message: error.message(),
            recoverable: error.is_recoverable(),
        }
    }
}

/// One entry of a listing.
#[derive(Debug, PartialEq, Eq)]
pub struct FileInfo {
    pub path: String,
    pub size: u64,
    pub modified_at: u64,
    pub file_type: FileType,
}

/// One entry of a listing, seen as plain values.
pub struct FileInfoView {
    pub path: Seq<char>,
    pub size: u64,
    pub modified_at: u64,
    pub file_type: FileType,
}

impl View for FileInfo {
    type V = FileInfoView;

    open spec fn view(&self) -> FileInfoView {
        FileInfoView {
            path: self.path@,
            size: self.size,
            modified_at: self.modified_at,
            file_type: self.file_type,
        }
    }
}

/// Whether a path leads somewhere.
#[derive(Debug, Clone, Copy, PartialEq, Eq, Structural)]
pub struct ExistsResponse {
    pub exists: bool,
    pub is_file: bool,
    pub is_directory: bool,
}

/// Whether a path was removed.
#[derive(Debug, PartialEq, Eq)]
pub struct RemoveResponse {
    pub success: bool,
    pub error: Option<String>,
}

/// What a path leads to.
#[derive(Debug, PartialEq, Eq)]
pub struct MetadataResponse {
    pub found: bool,
    pub metadata: Option<FileMetadata>,
    pub size: Option<u64>,
    pub error: Option<String>,
}

/// What is in a directory.
#[derive(Debug, PartialEq, Eq)]
pub struct ListResponse {
    pub files: Vec<FileInfo>,
    pub error: Option<String>,
}

/// Asks for a file to be sent.
#[derive(Debug, PartialEq, Eq)]
pub struct SyncRequest {
    pub source_path: String,
    pub dest_path: String,
    pub options: TransferOptions,
}

/// What one end of a transfer tells the other.
#[derive(Debug, PartialEq, Eq)]
pub enum FileTransferMessage {
    TransferRequest(TransferRequest),
    TransferResponse(TransferResponse),
    Manifest(TransferManifest),
    ManifestAck(ManifestAck),
    ChunkAck(ChunkAck),
    FinalizeRequest(TransferComplete),
    Complete(TransferComplete),
    Error(TransferErrorMessage),
    Cancel(String),
    ExistsRequest(String),
    ExistsResponse(ExistsResponse),
    RemoveRequest(String, bool, bool),
    RemoveResponse(RemoveResponse),
    MetadataRequest(String),
    MetadataResponse(MetadataResponse),
    ListRequest(String, bool, bool),
    ListResponse(ListResponse),
    SyncRequest(SyncRequest),
}

impl FileTransferMessage {
    /// Whether the message asks for something that every node serves.
    pub open spec fn is_request(self) -> bool {
        self is TransferRequest || self is Manifest || self is FinalizeRequest || self is ExistsRequest
            || self is RemoveRequest || self is MetadataRequest || self is ListRequest
            || self is SyncRequest
    }

    /// Whether the message asks for something that every node serves.
    pub fn asks(&self) -> (asks: bool)
        ensures
            asks == self.is_request(),
    {
        match self {
            FileTransferMessage::TransferRequest(_)
            | FileTransferMessage::Manifest(_)
            | FileTransferMessage::FinalizeRequest(_)
            | FileTransferMessage::ExistsRequest(_)
            | FileTransferMessage::RemoveRequest(_, _, _)
            | FileTransferMessage::MetadataRequest(_)
            | FileTransferMessage::ListRequest(_, _, _)
            | FileTransferMessage::SyncRequest(_) => true,
            _ => false,
        }
    }

    /// Whether the message ends a transfer on the receiver's word.
    pub open spec fn is_ending(self) -> bool {
        self is Complete || self is Error || self is Cancel
    }

    /// Whether the message ends a transfer on the receiver's word.
    pub fn ends(&self) -> (ends: bool)
        ensures
            ends == self.is_ending(),
    {
        match self {
            FileTransferMessage::Complete(_)
            | FileTransferMessage::Error(_)
            | FileTransferMessage::Cancel(_) => true,
            _ => false,
        }
    }
}

/// No message both asks for something and ends a transfer, and answers do neither.
pub proof fn messages_ask_answer_or_end(m: FileTransferMessage)
    ensures
        !(m.is_request() && m.is_ending()),
        m is TransferResponse || m is ManifestAck || m is ChunkAck || m is ExistsResponse
            || m is RemoveResponse || m is MetadataResponse || m is ListResponse ==> !m.is_request()
            && !m.is_ending(),
        m is Complete || m is Error || m is Cancel ==> m.is_ending(),
        m is TransferRequest || m is Manifest || m is FinalizeRequest || m is ExistsRequest
            || m is RemoveRequest || m is MetadataRequest || m is ListRequest || m is SyncRequest
            ==> m.is_request(),
{
}

/// An error is told of with its code, its text and whether trying again can help; and a message
/// is known to ask or to end for what it is.
pub proof fn errors_are_told_of_in_full(
    error: FileTransferError,
    told: TransferErrorMessage,
    message: FileTransferMessage,
    asks: bool,
    ends: bool,
)
    requires
        call_ensures(TransferErrorMessage::of, (&error,), told),
        call_ensures(FileTransferMessage::asks, (&message,), asks),
        call_ensures(FileTransferMessage::ends, (&message,), ends),
    ensures
        told.code == error_code(error@),
        told.message@ == error_text(error@),
        told.recoverable == error_is_recoverable(error@),
        ends <==> message is Complete || message is Error || message is Cancel,
        asks ==> !ends,
        message is TransferRequest || message is Manifest ==> asks,
        asks <==> message.is_request(),
{
}

} // verus!
