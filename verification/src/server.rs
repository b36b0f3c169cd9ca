//! The server side of the protocol: accepting a handshake, decoding one
//! sealed operation per frame, turning a backend outcome into the one
//! response that answers it, and the per-connection session model that
//! carries the ordering and isolation guarantees.
//!
//! The embedding program owns the listener and the sockets: it accepts
//! connections, runs one independent loop per connection, performs the real
//! filesystem calls, and moves bytes. Every decision about those bytes is
//! made here.

use vstd::prelude::*;
use crate::channel::{
    KeyPair,
    SessionKey,
    session_key_of,
    seal_spec,
    open_spec,
    derive_session_key,
    seal,
    open,
    KEY_LEN,
    TAG_LEN,
};
use crate::codec::{
    be32,
    senc_stat,
    senc_entries,
    senc_response,
    sdec_operation,
    entry_views,
    entry_names_fit,
    len_fits,
    encode_stat,
    encode_entries,
    encode_response,
    decode_operation,
    entries_wire_size,
    response_wire_size,
};
use crate::frame::build_frame;
use crate::protocol::{
    NfsOperation,
    OperationView,
    NfsResponse,
    ResponseView,
    NfsError,
    FileStat,
    DirEntry,
    DirEntryView,
    MAX_MESSAGE_SIZE,
};

verus! {

/// One server endpoint: the directory it exports, the address it binds,
/// and its identity.
pub struct NfsServer {
    export_path: String,
    bind_address: String,
    keypair: KeyPair,
}

impl NfsServer {
    pub closed spec fn spec_export_path(&self) -> Seq<char> {
        self.export_path@
    }

    pub closed spec fn spec_bind_address(&self) -> Seq<char> {
        self.bind_address@
    }

    pub closed spec fn spec_keypair(&self) -> Seq<u8> {
        self.keypair@
    }

    pub open spec fn wf(&self) -> bool {
        self.spec_keypair().len() == KEY_LEN
    }

    pub fn new(export_path: String, bind_address: String, keypair: KeyPair) -> (r: NfsServer)
        requires
            keypair.wf(),
        ensures
            r.wf(),
            r.spec_export_path() == export_path@,
            r.spec_bind_address() == bind_address@,
            r.spec_keypair() == keypair@,
    {
        NfsServer { export_path, bind_address, keypair }
    }

    /// The directory tree this server exposes.
    pub fn export_path(&self) -> (r: &String)
        ensures
            r@ == self.spec_export_path(),
    {
        &self.export_path
    }

    /// The address the embedding program binds the listener to.
    pub fn bind_address(&self) -> (r: &String)
        ensures
            r@ == self.spec_bind_address(),
    {
        &self.bind_address
    }

    /// The plaintext handshake frame this side answers a new connection
    /// with: a length header and its public contribution.
    pub fn handshake_message(&self) -> (r: Vec<u8>)
        requires
            self.wf(),
        ensures
            r@ == be32(KEY_LEN as u32) + self.spec_keypair(),
    {
        build_frame(self.keypair.public_bytes())
    }

    /// Accepts one connection's handshake. Exactly `KEY_LEN` peer bytes
    /// yield the connection's session key; anything else (a truncated or
    /// padded contribution) is a handshake failure, and no operation is
    /// accepted on that connection.
    pub fn accept_handshake(&self, peer_public: &Vec<u8>) -> (r: Result<SessionKey, NfsError>)
        requires
            self.wf(),
        ensures
            match r {
                Ok(k) => peer_public@.len() == KEY_LEN && k.wf() && k@ == session_key_of(
                    self.spec_keypair(),
                    peer_public@,
                ),
                Err(e) => peer_public@.len() != KEY_LEN && e is HandshakeError,
            },
    {
        if peer_public.len() == KEY_LEN {
            Ok(derive_session_key(&self.keypair, peer_public))
        } else {
            Err(NfsError::HandshakeError("peer sent malformed public key material".to_owned()))
        }
    }
}

/// What decoding one received frame yields: the operation it carries, or
/// `DecryptionError` for a frame the session key refuses, or a
/// deserialization error for an authenticated payload that is no operation.
pub open spec fn request_ok(
    session: Seq<u8>,
    frame: Seq<u8>,
    r: Result<NfsOperation, NfsError>,
) -> bool {
    match open_spec(session, frame) {
        None => r matches Err(NfsError::DecryptionError),
        Some(p) => match sdec_operation(p) {
            None => r matches Err(NfsError::DeserializationError(_)),
            Some(opv) => r matches Ok(op) && op@ == opv,
        },
    }
}

/// Decodes one sealed request frame into the operation it carries.
pub fn decode_request(session: &SessionKey, frame: &Vec<u8>) -> (r: Result<NfsOperation, NfsError>)
    requires
        session.wf(),
    ensures
        request_ok(session@, frame@, r),
{
    match open(session, frame) {
        None => Err(NfsError::DecryptionError),
        Some(payload) => match decode_operation(&payload) {
            None => Err(
                NfsError::DeserializationError("request payload is not an operation".to_owned()),
            ),
            Some(op) => Ok(op),
        },
    }
}

/// What the filesystem backend hands back for one executed operation:
/// bytes for a read, a snapshot for a stat, a listing for a readdir,
/// plain completion for the mutations, or the failure's description.
pub enum BackendResult {
    Data(Vec<u8>),
    Stat(FileStat),
    Listing(Vec<DirEntry>),
    Done,
    Failed(String),
}

/// Mathematical model of a [`BackendResult`].
pub enum BackendResultView {
    Data(Seq<u8>),
    Stat(FileStat),
    Listing(Seq<DirEntryView>),
    Done,
    Failed(Seq<char>),
}

impl View for BackendResult {
    type V = BackendResultView;

    open spec fn view(&self) -> BackendResultView {
        match self {
            BackendResult::Data(d) => BackendResultView::Data(d@),
            BackendResult::Stat(st) => BackendResultView::Stat(*st),
            BackendResult::Listing(es) => BackendResultView::Listing(entry_views(es@)),
            BackendResult::Done => BackendResultView::Done,
            BackendResult::Failed(msg) => BackendResultView::Failed(msg@),
        }
    }
}

/// The one response that answers one backend outcome: a success payload in
/// the encoding the operation's caller expects, or the failure's
/// description verbatim. A listing too large for a frame is itself a
/// failure description, never a truncated listing.
pub open spec fn sresponse_for(rv: BackendResultView) -> ResponseView {
    match rv {
        BackendResultView::Data(d) => ResponseView::Success(d),
        BackendResultView::Stat(st) => ResponseView::Success(senc_stat(st)),
        BackendResultView::Listing(es) => if senc_entries(es).len() <= MAX_MESSAGE_SIZE && len_fits(
            es.len(),
        ) && entry_names_fit(es) {
            ResponseView::Success(senc_entries(es))
        } else {
            ResponseView::Error("directory listing exceeds the message bound"@)
        },
        BackendResultView::Done => ResponseView::Success(Seq::empty()),
        BackendResultView::Failed(msg) => ResponseView::Error(msg),
    }
}

/// Builds the response answering one backend outcome.
pub fn make_response(result: BackendResult) -> (r: NfsResponse)
    ensures
        r@ == sresponse_for(result@),
{
    match result {
        BackendResult::Data(d) => NfsResponse::Success(d),
        BackendResult::Stat(st) => NfsResponse::Success(encode_stat(&st)),
        BackendResult::Listing(es) => match entries_wire_size(&es) {
            Some(_) => NfsResponse::Success(encode_entries(&es)),
            None => NfsResponse::Error(
                "directory listing exceeds the message bound".to_owned(),
            ),
        },
        BackendResult::Done => {
            let empty: Vec<u8> = Vec::new();
            NfsResponse::Success(empty)
        },
        BackendResult::Failed(msg) => NfsResponse::Error(msg),
    }
}

/// Seals one response into the wire frame that answers the request.
pub fn seal_response(session: &SessionKey, resp: &NfsResponse) -> (r: Result<Vec<u8>, NfsError>)
    requires
        session.wf(),
    ensures
        match r {
            Ok(f) => senc_response(resp@).len() <= MAX_MESSAGE_SIZE && f@ == be32(
                (senc_response(resp@).len() + TAG_LEN) as u32,
            ) + seal_spec(session@, senc_response(resp@)),
            Err(e) => senc_response(resp@).len() > MAX_MESSAGE_SIZE && e is ProtocolError,
        },
{
    match response_wire_size(resp) {
        None => Err(NfsError::ProtocolError("response exceeds the message bound".to_owned())),
        Some(_) => {
            let encoded = encode_response(resp);
            let sealed = seal(session, &encoded);
            Ok(build_frame(&sealed))
        },
    }
}

// ---------------------------------------------------------------------------
// The session model: ordering within one connection, isolation between
// connections.
// ---------------------------------------------------------------------------

/// The responses a connection produces for a run of operations it received
/// in order, given the backend outcome of each: one response per operation,
/// in the operations' order. The wire carries no request identifier, so
/// this pairing-by-position is the protocol's ordering contract.
pub open spec fn session_responses(
    ops: Seq<OperationView>,
    outcomes: Seq<BackendResultView>,
) -> Seq<ResponseView>
    recommends
        outcomes.len() == ops.len(),
{
    Seq::new(ops.len(), |i: int| sresponse_for(outcomes[i]))
}

/// Request/response pairing: two operations issued in order on one
/// connection are answered by their two responses in the same order, never
/// interleaved or swapped.
pub proof fn lemma_request_response_pairing(
    a: OperationView,
    b: OperationView,
    out_a: BackendResultView,
    out_b: BackendResultView,
)
    ensures
        session_responses(seq![a, b], seq![out_a, out_b]) == seq![
            sresponse_for(out_a),
            sresponse_for(out_b),
        ],
{
    assert(session_responses(seq![a, b], seq![out_a, out_b]) =~= seq![
        sresponse_for(out_a),
        sresponse_for(out_b),
    ]);
}

/// Idempotent reads: a `stat` or `read_dir` answered from the same backend
/// snapshot twice yields byte-identical responses, and byte-identical
/// sealed frames under the connection's key. The snapshot equality is the
/// premise: whether the filesystem changed between the two calls is the
/// backend's affair, outside this model.
pub proof fn lemma_reads_idempotent(
    key: Seq<u8>,
    first: BackendResultView,
    second: BackendResultView,
)
    requires
        first == second,
    ensures
        sresponse_for(first) == sresponse_for(second),
        seal_spec(key, senc_response(sresponse_for(first))) == seal_spec(
            key,
            senc_response(sresponse_for(second)),
        ),
{
}

/// A request crosses the channel intact: sealing an encodable operation
/// under a session key, opening the frame under the same key and decoding
/// the payload yields exactly the operation that was sent.
pub proof fn lemma_request_transits_intact(key: Seq<u8>, opv: OperationView)
    requires
        key.len() > 0,
        crate::codec::op_encodable(opv),
    ensures
        open_spec(key, seal_spec(key, crate::codec::senc_operation(opv))) == Some(
            crate::codec::senc_operation(opv),
        ),
        sdec_operation(crate::codec::senc_operation(opv)) == Some(opv),
{
    crate::channel::lemma_open_seal_round_trip(key, crate::codec::senc_operation(opv));
    crate::codec::lemma_operation_round_trip(opv);
}

/// A response crosses the channel intact in the same way.
pub proof fn lemma_response_transits_intact(key: Seq<u8>, rv: ResponseView)
    requires
        key.len() > 0,
        crate::codec::resp_encodable(rv),
    ensures
        open_spec(key, seal_spec(key, senc_response(rv))) == Some(senc_response(rv)),
        crate::codec::sdec_response(senc_response(rv)) == Some(rv),
{
    crate::channel::lemma_open_seal_round_trip(key, senc_response(rv));
    crate::codec::lemma_response_round_trip(rv);
}

/// One connection's protocol phase, as the dispatch loop sees it: raw
/// until its handshake succeeds, then secured until it closes. Once
/// closed, nothing more is sent or received on it.
pub enum SessionPhase {
    Handshaking,
    Secured,
    Closed,
}

/// One connection's step: its own phase and the success of its own event
/// decide its next phase; a handshake failure, a frame its key refuses or
/// a decode failure closes that connection, and nothing else.
pub open spec fn conn_step(phase: SessionPhase, ok: bool) -> SessionPhase {
    match phase {
        SessionPhase::Handshaking => if ok {
            SessionPhase::Secured
        } else {
            SessionPhase::Closed
        },
        SessionPhase::Secured => if ok {
            SessionPhase::Secured
        } else {
            SessionPhase::Closed
        },
        SessionPhase::Closed => SessionPhase::Closed,
    }
}

/// The server's view of all its connections: each drives independently.
pub open spec fn table_step(conns: Map<u64, SessionPhase>, id: u64, ok: bool) -> Map<
    u64,
    SessionPhase,
> {
    conns.insert(id, conn_step(conns[id], ok))
}

/// Isolation: an event on connection `x` — a failed handshake, a frame
/// its key refuses, a decode or backend failure — changes no other
/// connection's phase; a connection live before the event is live after.
pub proof fn lemma_connection_isolation(
    conns: Map<u64, SessionPhase>,
    x: u64,
    y: u64,
    ok: bool,
)
    requires
        conns.dom().contains(y),
        x != y,
    ensures
        table_step(conns, x, ok)[y] == conns[y],
        table_step(conns, x, ok).dom().contains(y),
{
}

} // verus!
