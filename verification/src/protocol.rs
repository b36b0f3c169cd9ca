//! The protocol model: the closed set of filesystem operations a client may
//! request, the closed set of response shapes a server may return, and the
//! error taxonomy shared by both sides.

use vstd::prelude::*;

verus! {

/// The largest frame payload either side will accept or announce. A peer
/// that declares a longer frame is refused before any allocation is made.
pub const MAX_FRAME_SIZE: u32 = 16 * 1024 * 1024;

/// The largest encoded message that still fits a frame once sealed: the
/// frame bound less the eight-byte authentication tag sealing adds.
pub const MAX_MESSAGE_SIZE: u64 = 16 * 1024 * 1024 - 8;

/// What kind of object a directory entry refers to.
#[derive(Clone, Copy, PartialEq, Eq, Structural, Debug)]
pub enum FileType {
    File,
    Directory,
    Symlink,
    Other,
}

/// An immutable metadata snapshot for one file or directory.
#[derive(Clone, Copy, PartialEq, Eq, Structural, Debug)]
pub struct FileStat {
    pub size: u64,
    pub mode: u32,
    pub modified_time: u64,
    pub access_time: u64,
    pub is_dir: bool,
}

/// One entry of a directory listing snapshot.
#[derive(Debug)]
pub struct DirEntry {
    pub name: String,
    pub file_type: FileType,
}

/// Mathematical model of a [`DirEntry`]: the name as a character sequence.
pub struct DirEntryView {
    pub name: Seq<char>,
    pub file_type: FileType,
}

impl View for DirEntry {
    type V = DirEntryView;

    open spec fn view(&self) -> DirEntryView {
        DirEntryView { name: self.name@, file_type: self.file_type }
    }
}

/// One requested filesystem action and its parameters. Paths are
/// server-relative; the backend resolves them under its export root.
#[derive(Debug)]
pub enum NfsOperation {
    Read { path: String, offset: u64, length: u64 },
    Write { path: String, offset: u64, data: Vec<u8> },
    Create { path: String, mode: u32 },
    Mkdir { path: String, mode: u32 },
    Remove { path: String },
    Stat { path: String },
    Readdir { path: String },
    Rename { from: String, to: String },
    Symlink { target: String, link: String },
    Fsync { path: String },
}

/// Mathematical model of an [`NfsOperation`], with strings and byte vectors
/// replaced by their sequence views.
pub enum OperationView {
    Read { path: Seq<char>, offset: u64, length: u64 },
    Write { path: Seq<char>, offset: u64, data: Seq<u8> },
    Create { path: Seq<char>, mode: u32 },
    Mkdir { path: Seq<char>, mode: u32 },
    Remove { path: Seq<char> },
    Stat { path: Seq<char> },
    Readdir { path: Seq<char> },
    Rename { from: Seq<char>, to: Seq<char> },
    Symlink { target: Seq<char>, link: Seq<char> },
    Fsync { path: Seq<char> },
}

impl View for NfsOperation {
    type V = OperationView;

    open spec fn view(&self) -> OperationView {
        match self {
            NfsOperation::Read { path, offset, length } => OperationView::Read {
                path: path@,
                offset: *offset,
                length: *length,
            },
            NfsOperation::Write { path, offset, data } => OperationView::Write {
                path: path@,
                offset: *offset,
                data: data@,
            },
            NfsOperation::Create { path, mode } => OperationView::Create {
                path: path@,
                mode: *mode,
            },
            NfsOperation::Mkdir { path, mode } => OperationView::Mkdir {
                path: path@,
                mode: *mode,
            },
            NfsOperation::Remove { path } => OperationView::Remove { path: path@ },
            NfsOperation::Stat { path } => OperationView::Stat { path: path@ },
            NfsOperation::Readdir { path } => OperationView::Readdir { path: path@ },
            NfsOperation::Rename { from, to } => OperationView::Rename { from: from@, to: to@ },
            NfsOperation::Symlink { target, link } => OperationView::Symlink {
                target: target@,
                link: link@,
            },
            NfsOperation::Fsync { path } => OperationView::Fsync { path: path@ },
        }
    }
}

/// The reply to one operation: a success payload whose interpretation is
/// fixed by the operation it answers, or an opaque remote error description.
#[derive(Debug)]
pub enum NfsResponse {
    Success(Vec<u8>),
    Error(String),
}

/// Mathematical model of an [`NfsResponse`].
pub enum ResponseView {
    Success(Seq<u8>),
    Error(Seq<char>),
}

impl View for NfsResponse {
    type V = ResponseView;

    open spec fn view(&self) -> ResponseView {
        match self {
            NfsResponse::Success(data) => ResponseView::Success(data@),
            NfsResponse::Error(msg) => ResponseView::Error(msg@),
        }
    }
}

/// The error taxonomy. Transport, handshake, decryption and protocol errors
/// are fatal to their connection; a remote error is an ordinary result and
/// leaves the connection usable.
#[derive(Debug)]
pub enum NfsError {
    /// An operation was attempted with no established connection.
    NotConnected,
    /// The peer closed the stream before a whole frame arrived.
    ConnectionClosed,
    /// A frame violated the wire protocol (length out of bounds).
    ProtocolError(String),
    /// Key exchange failed or the peer's key material was malformed.
    HandshakeError(String),
    /// A frame failed authentication under the session key.
    DecryptionError,
    /// A well-framed payload did not decode to the expected shape.
    DeserializationError(String),
    /// The server executed the operation and it failed; the text is the
    /// server's description, preserved verbatim.
    RemoteError(String),
    /// A local filesystem call failed (backend side).
    IoError(String),
}

} // verus!
