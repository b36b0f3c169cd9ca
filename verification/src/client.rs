//! The client side of the protocol: connection state, the handshake frames,
//! and for each filesystem call the exact wire frame it sends and the exact
//! interpretation of the one reply it awaits.
//!
//! The embedding program owns the socket: it writes the frames produced
//! here, reads one reply frame per request, and hands the bytes back. The
//! protocol is strictly one request, then its one reply, per connection.

use vstd::prelude::*;
use crate::channel::{
    KeyPair,
    SessionKey,
    session_key_of,
    seal_spec,
    open_spec,
    derive_session_key,
    seal,
    open,
    KEY_LEN,
    TAG_LEN,
};
use crate::codec::{
    be32,
    senc_operation,
    sdec_response,
    sdec_stat,
    sdec_entries,
    entry_views,
    encode_operation,
    decode_response,
    decode_stat,
    decode_entries,
    operation_wire_size,
};
use crate::frame::build_frame;
use crate::protocol::{
    NfsOperation,
    OperationView,
    NfsResponse,
    ResponseView,
    NfsError,
    FileStat,
    DirEntry,
    MAX_MESSAGE_SIZE,
};

verus! {

/// One client endpoint: where it dials, where it mounts, its identity, and
/// the session key of its one connection once the handshake has completed.
pub struct NfsClient {
    server_address: String,
    mount_point: String,
    keypair: KeyPair,
    connection: Option<SessionKey>,
}

impl NfsClient {
    pub closed spec fn spec_server_address(&self) -> Seq<char> {
        self.server_address@
    }

    pub closed spec fn spec_mount_point(&self) -> Seq<char> {
        self.mount_point@
    }

    pub closed spec fn spec_keypair(&self) -> Seq<u8> {
        self.keypair@
    }

    /// Whether a secured connection is established.
    pub closed spec fn connected(&self) -> bool {
        self.connection is Some
    }

    /// The session key of the secured connection; meaningful only when
    /// connected.
    pub closed spec fn session_view(&self) -> Seq<u8> {
        match self.connection {
            Some(k) => k@,
            None => Seq::empty(),
        }
    }

    pub open spec fn wf(&self) -> bool {
        &&& self.spec_keypair().len() == KEY_LEN
        &&& (self.connected() ==> self.session_view().len() == KEY_LEN)
    }

    pub fn new(server_address: String, mount_point: String, keypair: KeyPair) -> (r: NfsClient)
        requires
            keypair.wf(),
        ensures
            r.wf(),
            r.spec_server_address() == server_address@,
            r.spec_mount_point() == mount_point@,
            r.spec_keypair() == keypair@,
            !r.connected(),
    {
        NfsClient { server_address, mount_point, keypair, connection: None }
    }

    /// The address the embedding program dials.
    pub fn server_address(&self) -> (r: &String)
        ensures
            r@ == self.spec_server_address(),
    {
        &self.server_address
    }

    /// The local mount point the embedding program serves.
    pub fn mount_point(&self) -> (r: &String)
        ensures
            r@ == self.spec_mount_point(),
    {
        &self.mount_point
    }

    /// The plaintext handshake frame this side opens a connection with: a
    /// length header and its public contribution.
    pub fn handshake_message(&self) -> (r: Vec<u8>)
        requires
            self.wf(),
        ensures
            r@ == be32(KEY_LEN as u32) + self.spec_keypair(),
    {
        build_frame(self.keypair.public_bytes())
    }

    /// Finishes the handshake with the peer's contribution. Exactly
    /// `KEY_LEN` bytes secure the connection under the derived session key;
    /// anything else is a handshake failure and the state is unchanged.
    pub fn complete_handshake(&mut self, peer_public: &Vec<u8>) -> (r: Result<(), NfsError>)
        requires
            old(self).wf(),
        ensures
            final(self).wf(),
            final(self).spec_server_address() == old(self).spec_server_address(),
            final(self).spec_mount_point() == old(self).spec_mount_point(),
            final(self).spec_keypair() == old(self).spec_keypair(),
            match r {
                Ok(()) => peer_public@.len() == KEY_LEN && final(self).connected()
                    && final(self).session_view() == session_key_of(
                    old(self).spec_keypair(),
                    peer_public@,
                ),
                Err(e) => peer_public@.len() != KEY_LEN && e is HandshakeError
                    && final(self).connected() == old(self).connected()
                    && final(self).session_view() == old(self).session_view(),
            },
    {
        if peer_public.len() == KEY_LEN {
            let key = derive_session_key(&self.keypair, peer_public);
            self.connection = Some(key);
            Ok(())
        } else {
            Err(NfsError::HandshakeError("peer sent malformed public key material".to_owned()))
        }
    }

    /// Tears the connection down; no further requests can be built until a
    /// new handshake completes.
    pub fn disconnect(&mut self) -> (r: Result<(), NfsError>)
        ensures
            r is Ok,
            !final(self).connected(),
            final(self).spec_server_address() == old(self).spec_server_address(),
            final(self).spec_mount_point() == old(self).spec_mount_point(),
            final(self).spec_keypair() == old(self).spec_keypair(),
    {
        self.connection = None;
        Ok(())
    }

    /// What a request builder returns: on a secured connection, the exact
    /// wire frame carrying the operation sealed under the session key; with
    /// no connection, `NotConnected`; for an operation beyond the message
    /// bound, a protocol error.
    pub open spec fn request_frame_ok(
        &self,
        opv: OperationView,
        r: Result<Vec<u8>, NfsError>,
    ) -> bool {
        match r {
            Ok(f) => self.connected() && senc_operation(opv).len() <= MAX_MESSAGE_SIZE && f@
                == be32((senc_operation(opv).len() + TAG_LEN) as u32) + seal_spec(
                self.session_view(),
                senc_operation(opv),
            ),
            Err(e) => (!self.connected() && e is NotConnected) || (self.connected()
                && senc_operation(opv).len() > MAX_MESSAGE_SIZE && e is ProtocolError),
        }
    }

    /// Builds the wire frame for one operation.
    pub fn operation_frame(&self, op: &NfsOperation) -> (r: Result<Vec<u8>, NfsError>)
        requires
            self.wf(),
        ensures
            self.request_frame_ok(op@, r),
    {
        match &self.connection {
            None => Err(NfsError::NotConnected),
            Some(key) => match operation_wire_size(op) {
                None => Err(
                    NfsError::ProtocolError("operation exceeds the message bound".to_owned()),
                ),
                Some(_) => {
                    let encoded = encode_operation(op);
                    let sealed = seal(key, &encoded);
                    Ok(build_frame(&sealed))
                },
            },
        }
    }

    /// Requests `length` bytes at `offset` of the file at `path`.
    pub fn read_file(&self, path: &str, offset: u64, length: u64) -> (r: Result<Vec<u8>, NfsError>)
        requires
            self.wf(),
        ensures
            self.request_frame_ok((OperationView::Read { path: path@, offset, length }), r),
    {
        self.operation_frame(
            &(NfsOperation::Read { path: path.to_owned(), offset, length }),
        )
    }

    /// Requests that `data` be written at `offset` of the file at `path`.
    pub fn write_file(&self, path: &str, offset: u64, data: Vec<u8>) -> (r: Result<
        Vec<u8>,
        NfsError,
    >)
        requires
            self.wf(),
        ensures
            self.request_frame_ok((OperationView::Write { path: path@, offset, data: data@ }), r),
    {
        self.operation_frame(&(NfsOperation::Write { path: path.to_owned(), offset, data }))
    }

    /// Requests creation of the file at `path` with the given mode.
    pub fn create_file(&self, path: &str, mode: u32) -> (r: Result<Vec<u8>, NfsError>)
        requires
            self.wf(),
        ensures
            self.request_frame_ok((OperationView::Create { path: path@, mode }), r),
    {
        self.operation_frame(&(NfsOperation::Create { path: path.to_owned(), mode }))
    }

    /// Requests creation of the directory at `path` with the given mode.
    pub fn create_directory(&self, path: &str, mode: u32) -> (r: Result<Vec<u8>, NfsError>)
        requires
            self.wf(),
        ensures
            self.request_frame_ok((OperationView::Mkdir { path: path@, mode }), r),
    {
        self.operation_frame(&(NfsOperation::Mkdir { path: path.to_owned(), mode }))
    }

    /// Requests removal of the file or directory at `path`.
    pub fn remove(&self, path: &str) -> (r: Result<Vec<u8>, NfsError>)
        requires
            self.wf(),
        ensures
            self.request_frame_ok((OperationView::Remove { path: path@ }), r),
    {
        self.operation_frame(&(NfsOperation::Remove { path: path.to_owned() }))
    }

    /// Requests a metadata snapshot of `path`.
    pub fn stat(&self, path: &str) -> (r: Result<Vec<u8>, NfsError>)
        requires
            self.wf(),
        ensures
            self.request_frame_ok((OperationView::Stat { path: path@ }), r),
    {
        self.operation_frame(&(NfsOperation::Stat { path: path.to_owned() }))
    }

    /// Requests a directory listing of `path`.
    pub fn read_dir(&self, path: &str) -> (r: Result<Vec<u8>, NfsError>)
        requires
            self.wf(),
        ensures
            self.request_frame_ok((OperationView::Readdir { path: path@ }), r),
    {
        self.operation_frame(&(NfsOperation::Readdir { path: path.to_owned() }))
    }

    /// Requests that `from` be renamed to `to`.
    pub fn rename(&self, from: &str, to: &str) -> (r: Result<Vec<u8>, NfsError>)
        requires
            self.wf(),
        ensures
            self.request_frame_ok((OperationView::Rename { from: from@, to: to@ }), r),
    {
        self.operation_frame(
            &(NfsOperation::Rename { from: from.to_owned(), to: to.to_owned() }),
        )
    }

    /// Requests a symlink at `link` pointing to `target`.
    pub fn create_symlink(&self, target: &str, link: &str) -> (r: Result<Vec<u8>, NfsError>)
        requires
            self.wf(),
        ensures
            self.request_frame_ok((OperationView::Symlink { target: target@, link: link@ }), r),
    {
        self.operation_frame(
            &(NfsOperation::Symlink { target: target.to_owned(), link: link.to_owned() }),
        )
    }

    /// Requests that the file at `path` be flushed to stable storage.
    pub fn fsync(&self, path: &str) -> (r: Result<Vec<u8>, NfsError>)
        requires
            self.wf(),
        ensures
            self.request_frame_ok((OperationView::Fsync { path: path@ }), r),
    {
        self.operation_frame(&(NfsOperation::Fsync { path: path.to_owned() }))
    }

    /// What interpreting a reply frame yields: the success payload; the
    /// remote error text verbatim as `RemoteError`; `DecryptionError` for a
    /// frame the session key refuses; a deserialization error for a payload
    /// that is no response.
    pub open spec fn reply_ok(
        session: Seq<u8>,
        frame: Seq<u8>,
        r: Result<Vec<u8>, NfsError>,
    ) -> bool {
        match open_spec(session, frame) {
            None => r matches Err(NfsError::DecryptionError),
            Some(p) => match sdec_response(p) {
                None => r matches Err(NfsError::DeserializationError(_)),
                Some(ResponseView::Success(d)) => r matches Ok(v) && v@ == d,
                Some(ResponseView::Error(msg)) => r matches Err(NfsError::RemoteError(s)) && s@
                    == msg,
            },
        }
    }

    /// Interprets the one sealed reply frame to the request last sent.
    pub fn interpret_reply(&self, frame: &Vec<u8>) -> (r: Result<Vec<u8>, NfsError>)
        requires
            self.wf(),
        ensures
            !self.connected() ==> r matches Err(NfsError::NotConnected),
            self.connected() ==> Self::reply_ok(self.session_view(), frame@, r),
    {
        match &self.connection {
            None => Err(NfsError::NotConnected),
            Some(key) => match open(key, frame) {
                None => Err(NfsError::DecryptionError),
                Some(payload) => match decode_response(&payload) {
                    None => Err(
                        NfsError::DeserializationError(
                            "reply payload is not a response".to_owned(),
                        ),
                    ),
                    Some(resp) => match resp {
                        NfsResponse::Success(data) => Ok(data),
                        NfsResponse::Error(msg) => Err(NfsError::RemoteError(msg)),
                    },
                },
            },
        }
    }
}

/// Decodes a `stat` success payload into the metadata snapshot it carries.
pub fn decode_stat_payload(data: &Vec<u8>) -> (r: Result<FileStat, NfsError>)
    ensures
        match sdec_stat(data@) {
            Some(st) => r matches Ok(got) && got == st,
            None => r matches Err(NfsError::DeserializationError(_)),
        },
{
    match decode_stat(data) {
        Some(st) => Ok(st),
        None => Err(
            NfsError::DeserializationError("payload is not a metadata snapshot".to_owned()),
        ),
    }
}

/// Decodes a `read_dir` success payload into the listing it carries.
pub fn decode_listing_payload(data: &Vec<u8>) -> (r: Result<Vec<DirEntry>, NfsError>)
    ensures
        match sdec_entries(data@) {
            Some(es) => r matches Ok(got) && entry_views(got@) == es,
            None => r matches Err(NfsError::DeserializationError(_)),
        },
{
    match decode_entries(data) {
        Some(es) => Ok(es),
        None => Err(
            NfsError::DeserializationError("payload is not a directory listing".to_owned()),
        ),
    }
}

} // verus!
