//! Errors of a file transfer.

use vstd::prelude::*;

use crate::text::{decimal, hex, push_decimal, push_hex};

verus! {

/// Identifies a transfer.
#[derive(Debug, Clone, Copy, PartialEq, Eq, PartialOrd, Ord, Hash, Structural)]
pub struct TransferSessionId {
    pub id: u128,
}

/// The thirty-two hexadecimal digits of a transfer's identifier.
pub open spec fn session_text(id: TransferSessionId) -> Seq<char> {
    hex(id.id as nat, 32)
}

impl TransferSessionId {
    /// The thirty-two hexadecimal digits of the identifier.
    pub fn text(&self) -> (text: String)
        ensures
            text@ == session_text(*self),
    {
        let mut text = String::new();
        push_hex(&mut text, self.id, 32);
        assert(text@ =~= session_text(*self));
        text
    }
}

/// What an operation on files failed with.
#[derive(Debug, Clone, Copy, PartialEq, Eq, Structural)]
pub enum IoKind {
    NotFound,
    PermissionDenied,
    InvalidInput,
    InvalidData,
    UnexpectedEof,
    Other,
}

/// Errors of a file transfer.
#[derive(Debug, PartialEq, Eq)]
pub enum FileTransferError {
    SessionNotFound(TransferSessionId),
    SessionAlreadyExists(TransferSessionId),
    InvalidState { expected: String, actual: String },
    FileNotFound(String),
    FileAlreadyExists(String),
    PermissionDenied(String),
    DiskFull,
    PathTraversal(String),
    ChunkChecksumMismatch { index: u32 },
    FileHashMismatch,
    Timeout,
    Cancelled,
    MaxRetriesExceeded { index: u32 },
    SyncConflict { path: String },
    Io(IoKind, String),
    Transport(String),
    Rejected(String),
    Serialization(String),
    Compression(String),
    Internal(String),
}

/// An error of a file transfer, seen as plain values.
pub enum ErrorView {
    SessionNotFound(TransferSessionId),
    SessionAlreadyExists(TransferSessionId),
    InvalidState(Seq<char>, Seq<char>),
    FileNotFound(Seq<char>),
    FileAlreadyExists(Seq<char>),
    PermissionDenied(Seq<char>),
    DiskFull,
    PathTraversal(Seq<char>),
    ChunkChecksumMismatch(u32),
    FileHashMismatch,
    Timeout,
    Cancelled,
    MaxRetriesExceeded(u32),
    SyncConflict(Seq<char>),
    Io(IoKind, Seq<char>),
    Transport(Seq<char>),
    Rejected(Seq<char>),
    Serialization(Seq<char>),
    Compression(Seq<char>),
    Internal(Seq<char>),
}

impl View for FileTransferError {
    type V = ErrorView;

    open spec fn view(&self) -> ErrorView {
        match *self {
            FileTransferError::SessionNotFound(id) => ErrorView::SessionNotFound(id),
            FileTransferError::SessionAlreadyExists(id) => ErrorView::SessionAlreadyExists(id),
            FileTransferError::InvalidState { expected, actual } => ErrorView::InvalidState(
                expected@,
                actual@,
            ),
            FileTransferError::FileNotFound(s) => ErrorView::FileNotFound(s@),
            FileTransferError::FileAlreadyExists(s) => ErrorView::FileAlreadyExists(s@),
            FileTransferError::PermissionDenied(s) => ErrorView::PermissionDenied(s@),
            FileTransferError::DiskFull => ErrorView::DiskFull,
            FileTransferError::PathTraversal(s) => ErrorView::PathTraversal(s@),
            FileTransferError::ChunkChecksumMismatch { index } => ErrorView::ChunkChecksumMismatch(
                index,
            ),
            FileTransferError::FileHashMismatch => ErrorView::FileHashMismatch,
            FileTransferError::Timeout => ErrorView::Timeout,
            FileTransferError::Cancelled => ErrorView::Cancelled,
            FileTransferError::MaxRetriesExceeded { index } => ErrorView::MaxRetriesExceeded(index),
            FileTransferError::SyncConflict { path } => ErrorView::SyncConflict(path@),
            FileTransferError::Io(kind, s) => ErrorView::Io(kind, s@),
            FileTransferError::Transport(s) => ErrorView::Transport(s@),
            FileTransferError::Rejected(s) => ErrorView::Rejected(s@),
            FileTransferError::Serialization(s) => ErrorView::Serialization(s@),
            FileTransferError::Compression(s) => ErrorView::Compression(s@),
            FileTransferError::Internal(s) => ErrorView::Internal(s@),
        }
    }
}

/// A result, with its error seen as plain values.
pub open spec fn outcome<T>(r: Result<T, FileTransferError>) -> Result<T, ErrorView> {
    match r {
        Ok(value) => Ok(value),
        Err(error) => Err(error@),
    }
}

/// The text of an error.
pub open spec fn error_text(e: ErrorView) -> Seq<char> {
    match e {
        ErrorView::SessionNotFound(id) => "session not found: "@ + session_text(id),
        ErrorView::SessionAlreadyExists(id) => "session already exists: "@ + session_text(id),
        ErrorView::InvalidState(_, _) => "invalid session state"@,
        ErrorView::FileNotFound(s) => "file not found: "@ + s,
        ErrorView::FileAlreadyExists(s) => "file already exists: "@ + s,
        ErrorView::PermissionDenied(s) => "permission denied: "@ + s,
        ErrorView::DiskFull => "disk full"@,
        ErrorView::PathTraversal(s) => "path traversal attack detected: "@ + s,
        ErrorView::ChunkChecksumMismatch(index) => "chunk checksum mismatch at index "@ + decimal(
            index as nat,
        ),
        ErrorView::FileHashMismatch => "file hash mismatch"@,
        ErrorView::Timeout => "transfer timeout"@,
        ErrorView::Cancelled => "transfer cancelled"@,
        ErrorView::MaxRetriesExceeded(index) => "max retries exceeded for chunk "@ + decimal(
            index as nat,
        ),
        ErrorView::SyncConflict(path) => "sync conflict: "@ + path,
        ErrorView::Io(_, s) => "io error: "@ + s,
        ErrorView::Transport(s) => "transport error: "@ + s,
        ErrorView::Rejected(s) => "peer rejected: "@ + s,
        ErrorView::Serialization(s) => "serialization error: "@ + s,
        ErrorView::Compression(s) => "compression error: "@ + s,
        ErrorView::Internal(s) => "internal error: "@ + s,
    }
}

/// The number of an error: the thousands tell its family.
pub open spec fn error_code(e: ErrorView) -> u32 {
    match e {
        ErrorView::SessionNotFound(_) => 1001,
        ErrorView::SessionAlreadyExists(_) => 1002,
        ErrorView::InvalidState(_, _) => 1003,
        ErrorView::FileNotFound(_) => 2001,
        ErrorView::FileAlreadyExists(_) => 2002,
        ErrorView::PermissionDenied(_) => 2003,
        ErrorView::DiskFull => 2004,
        ErrorView::PathTraversal(_) => 2005,
        ErrorView::ChunkChecksumMismatch(_) => 3001,
        ErrorView::FileHashMismatch => 3002,
        ErrorView::Timeout => 3003,
        ErrorView::Cancelled => 3004,
        ErrorView::MaxRetriesExceeded(_) => 3005,
        ErrorView::SyncConflict(_) => 4001,
        _ => 9001,
    }
}

/// Whether trying again may help.
pub open spec fn error_is_recoverable(e: ErrorView) -> bool {
    e is ChunkChecksumMismatch || e is Timeout || e is Transport
}

fn joined(prefix: &str, rest: &str) -> (text: String)
    ensures
        text@ == prefix@ + rest@,
{
    String::from_str(prefix).concat(rest)
}

fn numbered(prefix: &str, n: u32) -> (text: String)
    ensures
        text@ == prefix@ + decimal(n as nat),
{
    let mut text = String::from_str(prefix);
    push_decimal(&mut text, n as u64);
    text
}

impl FileTransferError {
    /// The number of the error.
    pub fn code(&self) -> (code: u32)
        ensures
            code == error_code(self@),
    {
        match self {
            FileTransferError::SessionNotFound(_) => 1001,
            FileTransferError::SessionAlreadyExists(_) => 1002,
            FileTransferError::InvalidState { .. } => 1003,
            FileTransferError::FileNotFound(_) => 2001,
            FileTransferError::FileAlreadyExists(_) => 2002,
            FileTransferError::PermissionDenied(_) => 2003,
            FileTransferError::DiskFull => 2004,
            FileTransferError::PathTraversal(_) => 2005,
            FileTransferError::ChunkChecksumMismatch { .. } => 3001,
            FileTransferError::FileHashMismatch => 3002,
            FileTransferError::Timeout => 3003,
            FileTransferError::Cancelled => 3004,
            FileTransferError::MaxRetriesExceeded { .. } => 3005,
            FileTransferError::SyncConflict { .. } => 4001,
            FileTransferError::Io(_, _)
            | FileTransferError::Transport(_)
            | FileTransferError::Rejected(_)
            | FileTransferError::Serialization(_)
            | FileTransferError::Compression(_)
            | FileTransferError::Internal(_) => 9001,
        }
    }

    /// Whether trying again may help.
    pub fn is_recoverable(&self) -> (recoverable: bool)
        ensures
            recoverable == error_is_recoverable(self@),
    {
        match self {
            FileTransferError::ChunkChecksumMismatch { .. }
            | FileTransferError::Timeout
            | FileTransferError::Transport(_) => true,
            _ => false,
        }
    }

    /// The text of the error.
    pub fn message(&self) -> (text: String)
        ensures
            text@ == error_text(self@),
    {
        match self {
            FileTransferError::SessionNotFound(id) => joined(
                "session not found: ",
                id.text().as_str(),
            ),
            FileTransferError::SessionAlreadyExists(id) => joined(
                "session already exists: ",
                id.text().as_str(),
            ),
            FileTransferError::InvalidState { .. } => String::from_str("invalid session state"),
            FileTransferError::FileNotFound(s) => joined("file not found: ", s.as_str()),
            FileTransferError::FileAlreadyExists(s) => joined("file already exists: ", s.as_str()),
            FileTransferError::PermissionDenied(s) => joined("permission denied: ", s.as_str()),
            FileTransferError::DiskFull => String::from_str("disk full"),
            FileTransferError::PathTraversal(s) => joined(
                "path traversal attack detected: ",
                s.as_str(),
            ),
            FileTransferError::ChunkChecksumMismatch { index } => numbered(
                "chunk checksum mismatch at index ",
                *index,
            ),
            FileTransferError::FileHashMismatch => String::from_str("file hash mismatch"),
            FileTransferError::Timeout => String::from_str("transfer timeout"),
            FileTransferError::Cancelled => String::from_str("transfer cancelled"),
            FileTransferError::MaxRetriesExceeded { index } => numbered(
                "max retries exceeded for chunk ",
                *index,
            ),
            FileTransferError::SyncConflict { path } => joined("sync conflict: ", path.as_str()),
            FileTransferError::Io(_, s) => joined("io error: ", s.as_str()),
            FileTransferError::Transport(s) => joined("transport error: ", s.as_str()),
            FileTransferError::Rejected(s) => joined("peer rejected: ", s.as_str()),
            FileTransferError::Serialization(s) => joined("serialization error: ", s.as_str()),
            FileTransferError::Compression(s) => joined("compression error: ", s.as_str()),
            FileTransferError::Internal(s) => joined("internal error: ", s.as_str()),
        }
    }
}

/// An internal error with a fixed text.
pub fn internal(text: &str) -> (error: FileTransferError)
    ensures
        error@ == ErrorView::Internal(text@),
{
    FileTransferError::Internal(String::from_str(text))
}

/// What an operation on a path failed with, told by its kind.
pub open spec fn io_error(kind: IoKind, text: Seq<char>) -> ErrorView {
    match kind {
        IoKind::NotFound => ErrorView::FileNotFound(text),
        IoKind::PermissionDenied => ErrorView::PermissionDenied(text),
        _ => ErrorView::Io(kind, text),
    }
}

/// What an operation on a path failed with, told by its kind.
pub fn map_io_error(kind: IoKind, text: String) -> (error: FileTransferError)
    ensures
        error@ == io_error(kind, text@),
{
    match kind {
        IoKind::NotFound => FileTransferError::FileNotFound(text),
        IoKind::PermissionDenied => FileTransferError::PermissionDenied(text),
        _ => FileTransferError::Io(kind, text),
    }
}

/// The code of an error tells its family: errors of sessions, of files, of the transfer and of
/// synchronisation, each with a number of its own, and one code for all others.
pub proof fn code_tells_the_error(e: ErrorView)
    ensures
        error_code(e) == 1001 <==> e is SessionNotFound,
        error_code(e) == 1002 <==> e is SessionAlreadyExists,
        error_code(e) == 1003 <==> e is InvalidState,
        error_code(e) == 2001 <==> e is FileNotFound,
        error_code(e) == 2002 <==> e is FileAlreadyExists,
        error_code(e) == 2003 <==> e is PermissionDenied,
        error_code(e) == 2004 <==> e is DiskFull,
        error_code(e) == 2005 <==> e is PathTraversal,
        error_code(e) == 3001 <==> e is ChunkChecksumMismatch,
        error_code(e) == 3002 <==> e is FileHashMismatch,
        error_code(e) == 3003 <==> e is Timeout,
        error_code(e) == 3004 <==> e is Cancelled,
        error_code(e) == 3005 <==> e is MaxRetriesExceeded,
        error_code(e) == 4001 <==> e is SyncConflict,
        error_code(e) == 9001 <==> e is Io || e is Transport || e is Rejected || e is Serialization
            || e is Compression || e is Internal,
{
}

/// Trying again can help where a chunk came damaged, time ran out or the connection failed, and
/// nowhere else.
pub proof fn what_can_be_tried_again(e: ErrorView)
    ensures
        error_is_recoverable(e) ==> error_code(e) == 3001 || error_code(e) == 3003 || error_code(e)
            == 9001,
        e is ChunkChecksumMismatch || e is Timeout || e is Transport ==> error_is_recoverable(e),
        e is Cancelled || e is MaxRetriesExceeded || e is FileHashMismatch || e is Rejected || e is Internal
            || e is Io || e is DiskFull || e is SyncConflict || e is Serialization || e is Compression
            ==> !error_is_recoverable(e),
{
}

/// A missing file and a denied access are told apart from other failures of the disk, and the text
/// stays.
pub proof fn failure_keeps_its_text(kind: IoKind, text: Seq<char>)
    ensures
        io_error(kind, text) matches ErrorView::FileNotFound(t) ==> kind is NotFound && t == text,
        io_error(kind, text) matches ErrorView::PermissionDenied(t) ==> kind is PermissionDenied && t
            == text,
        io_error(kind, text) matches ErrorView::Io(k, t) ==> k == kind && t == text,
        io_error(kind, text) is FileNotFound <==> kind is NotFound,
        io_error(kind, text) is PermissionDenied <==> kind is PermissionDenied,
        io_error(kind, text) is Io <==> !(kind is NotFound || kind is PermissionDenied),
{
}

/// Different sessions have different texts.
pub proof fn session_texts_differ(a: TransferSessionId, b: TransferSessionId)
    requires
        session_text(a) == session_text(b),
    ensures
        a == b,
{
    crate::text::sixteen_bytes_fit(a.id);
    crate::text::sixteen_bytes_fit(b.id);
    crate::text::hex_is_injective(a.id as nat, b.id as nat, 32);
}

/// An error that is made from a text keeps it, and tells its code and whether it can be got over.
pub proof fn errors_tell_what_they_are(
    error: FileTransferError,
    code: u32,
    recoverable: bool,
    text: &str,
    made: FileTransferError,
    kind: IoKind,
    why: String,
    mapped: FileTransferError,
)
    requires
        call_ensures(FileTransferError::code, (&error,), code),
        call_ensures(FileTransferError::is_recoverable, (&error,), recoverable),
        call_ensures(internal, (text,), made),
        call_ensures(map_io_error, (kind, why), mapped),
    ensures
        code == error_code(error@),
        recoverable <==> error@ is ChunkChecksumMismatch || error@ is Timeout || error@ is Transport,
        made@ == ErrorView::Internal(text@),
        mapped@ is FileNotFound <==> kind is NotFound,
        mapped@ matches ErrorView::FileNotFound(t) ==> t == why@,
        mapped@ matches ErrorView::Io(k, t) ==> k == kind && t == why@,
{
}

} // verus!
