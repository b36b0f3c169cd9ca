use secure_nfs::channel::KeyPair;
use secure_nfs::channel::SessionKey;
use secure_nfs::client::{decode_listing_payload, decode_stat_payload, NfsClient};
use secure_nfs::codec::{
    decode_entries, decode_operation, decode_response, decode_stat, encode_entries,
    encode_operation, encode_response, encode_stat, entries_wire_size, operation_wire_size,
};
use secure_nfs::frame::parse_frame_header;
use secure_nfs::protocol::{
    DirEntry, FileStat, FileType, NfsError, NfsOperation, NfsResponse, MAX_FRAME_SIZE,
};
use secure_nfs::server::{decode_request, make_response, seal_response, BackendResult, NfsServer};

fn keypair(byte: u8) -> KeyPair {
    KeyPair::from_bytes(vec![byte; 32]).expect("32 bytes make a keypair")
}

fn handshake_pair() -> (NfsClient, SessionKey) {
    let server = NfsServer::new("export".to_string(), "127.0.0.1:2049".to_string(), keypair(7));
    let mut client = NfsClient::new("127.0.0.1:2049".to_string(), "/mnt".to_string(), keypair(9));
    let client_hello = client.handshake_message();
    let server_session = server
        .accept_handshake(&client_hello[4..].to_vec())
        .expect("well-formed client key");
    let server_hello = server.handshake_message();
    client
        .complete_handshake(&server_hello[4..].to_vec())
        .expect("well-formed server key");
    (client, server_session)
}

/// Drives one whole request/response exchange through the pure pipeline:
/// the client's frame is decoded by the server, answered from the given
/// backend outcome, and the sealed reply is interpreted by the client.
fn exchange(
    client: &NfsClient,
    server_session: &SessionKey,
    request_frame: Vec<u8>,
    outcome: BackendResult,
) -> Result<Vec<u8>, NfsError> {
    let payload = request_frame[4..].to_vec();
    decode_request(server_session, &payload).expect("client frames decode");
    let resp = make_response(outcome);
    let reply = seal_response(server_session, &resp).expect("response fits");
    client.interpret_reply(&reply[4..].to_vec())
}

// --- codec round trips, one per operation variant ---

fn round_trip_op(op: NfsOperation) -> NfsOperation {
    let encoded = encode_operation(&op);
    decode_operation(&encoded).expect("encoded operation decodes")
}

#[test]
fn round_trip_read() {
    let got = round_trip_op(NfsOperation::Read { path: "a.txt".to_string(), offset: 3, length: 9 });
    match got {
        NfsOperation::Read { path, offset, length } => {
            assert_eq!(path, "a.txt");
            assert_eq!(offset, 3);
            assert_eq!(length, 9);
        }
        _ => panic!("wrong variant"),
    }
}

#[test]
fn round_trip_write() {
    let got = round_trip_op(NfsOperation::Write {
        path: "dir/b".to_string(),
        offset: 0,
        data: vec![1, 2, 3, 255],
    });
    match got {
        NfsOperation::Write { path, offset, data } => {
            assert_eq!(path, "dir/b");
            assert_eq!(offset, 0);
            assert_eq!(data, vec![1, 2, 3, 255]);
        }
        _ => panic!("wrong variant"),
    }
}

#[test]
fn round_trip_create() {
    let got = round_trip_op(NfsOperation::Create { path: "c".to_string(), mode: 0o644 });
    match got {
        NfsOperation::Create { path, mode } => {
            assert_eq!(path, "c");
            assert_eq!(mode, 0o644);
        }
        _ => panic!("wrong variant"),
    }
}

#[test]
fn round_trip_mkdir() {
    let got = round_trip_op(NfsOperation::Mkdir { path: "d".to_string(), mode: 0o755 });
    match got {
        NfsOperation::Mkdir { path, mode } => {
            assert_eq!(path, "d");
            assert_eq!(mode, 0o755);
        }
        _ => panic!("wrong variant"),
    }
}

#[test]
fn round_trip_remove_stat_readdir_fsync() {
    for (op, want_tag) in [
        (NfsOperation::Remove { path: "x".to_string() }, 4u8),
        (NfsOperation::Stat { path: "y".to_string() }, 5u8),
        (NfsOperation::Readdir { path: ".".to_string() }, 6u8),
        (NfsOperation::Fsync { path: "z".to_string() }, 9u8),
    ] {
        let encoded = encode_operation(&op);
        assert_eq!(encoded[0], want_tag);
        let got = decode_operation(&encoded).expect("decodes");
        let got_encoded = encode_operation(&got);
        assert_eq!(got_encoded, encoded);
    }
}

#[test]
fn round_trip_rename() {
    let got = round_trip_op(NfsOperation::Rename { from: "old".to_string(), to: "new".to_string() });
    match got {
        NfsOperation::Rename { from, to } => {
            assert_eq!(from, "old");
            assert_eq!(to, "new");
        }
        _ => panic!("wrong variant"),
    }
}

#[test]
fn round_trip_symlink() {
    let got = round_trip_op(NfsOperation::Symlink {
        target: "t".to_string(),
        link: "l".to_string(),
    });
    match got {
        NfsOperation::Symlink { target, link } => {
            assert_eq!(target, "t");
            assert_eq!(link, "l");
        }
        _ => panic!("wrong variant"),
    }
}

#[test]
fn round_trip_unicode_path() {
    let got = round_trip_op(NfsOperation::Stat { path: "Grüße-日本語.txt".to_string() });
    match got {
        NfsOperation::Stat { path } => assert_eq!(path, "Grüße-日本語.txt"),
        _ => panic!("wrong variant"),
    }
}

#[test]
fn round_trip_responses() {
    let encoded = encode_response(&NfsResponse::Success(vec![9, 8, 7]));
    match decode_response(&encoded).expect("decodes") {
        NfsResponse::Success(data) => assert_eq!(data, vec![9, 8, 7]),
        _ => panic!("wrong variant"),
    }
    let encoded = encode_response(&NfsResponse::Error("not found".to_string()));
    match decode_response(&encoded).expect("decodes") {
        NfsResponse::Error(msg) => assert_eq!(msg, "not found"),
        _ => panic!("wrong variant"),
    }
}

#[test]
fn round_trip_stat_exact_bytes() {
    let st = FileStat { size: 3, mode: 0o100644, modified_time: 1700000000, access_time: 1, is_dir: false };
    let encoded = encode_stat(&st);
    assert_eq!(encoded.len(), 29);
    assert_eq!(&encoded[0..8], &[0, 0, 0, 0, 0, 0, 0, 3]);
    assert_eq!(encoded[28], 0);
    assert_eq!(decode_stat(&encoded), Some(st));
}

#[test]
fn round_trip_entries() {
    let es = vec![
        DirEntry { name: "d".to_string(), file_type: FileType::Directory },
        DirEntry { name: "a.txt".to_string(), file_type: FileType::File },
        DirEntry { name: "ln".to_string(), file_type: FileType::Symlink },
    ];
    assert!(entries_wire_size(&es).is_some());
    let encoded = encode_entries(&es);
    let got = decode_entries(&encoded).expect("decodes");
    assert_eq!(got.len(), 3);
    assert_eq!(got[0].name, "d");
    assert_eq!(got[0].file_type, FileType::Directory);
    assert_eq!(got[2].file_type, FileType::Symlink);
}

// --- defensive decoding ---

#[test]
fn decode_rejects_bad_tag() {
    assert!(decode_operation(&vec![42u8, 0, 0, 0, 0]).is_none());
    assert!(decode_response(&vec![9u8]).is_none());
}

#[test]
fn decode_rejects_truncation_and_garbage() {
    let mut encoded = encode_operation(&NfsOperation::Stat { path: "y".to_string() });
    let mut truncated = encoded.clone();
    truncated.pop();
    assert!(decode_operation(&truncated).is_none());
    encoded.push(0);
    assert!(decode_operation(&encoded).is_none());
    assert!(decode_operation(&Vec::new()).is_none());
}

#[test]
fn decode_rejects_lying_length_prefix() {
    // A Stat frame whose embedded string length reaches past the buffer.
    let lying = vec![5u8, 0xff, 0xff, 0xff, 0xff, b'y'];
    assert!(decode_operation(&lying).is_none());
}

#[test]
fn operation_wire_size_matches_encoding() {
    let op = NfsOperation::Read { path: "a.txt".to_string(), offset: 0, length: 5 };
    let n = operation_wire_size(&op).expect("fits");
    assert_eq!(n as usize, encode_operation(&op).len());
}

// --- framing ---

#[test]
fn frame_header_rejects_oversize_before_allocation() {
    let too_big = MAX_FRAME_SIZE + 1;
    let hdr = too_big.to_be_bytes().to_vec();
    match parse_frame_header(&hdr) {
        Err(NfsError::ProtocolError(_)) => {}
        other => panic!("expected a protocol error, got {:?}", other),
    }
    let fine = MAX_FRAME_SIZE.to_be_bytes().to_vec();
    assert_eq!(parse_frame_header(&fine).expect("within bound"), MAX_FRAME_SIZE);
}

// --- handshake ---

#[test]
fn handshake_derives_one_shared_key() {
    let (client, server_session) = handshake_pair();
    // A frame sealed by the server opens on the client: the two sides hold
    // the same session key.
    let resp = make_response(BackendResult::Data(vec![1, 2, 3]));
    let reply = seal_response(&server_session, &resp).expect("fits");
    assert_eq!(client.interpret_reply(&reply[4..].to_vec()).expect("opens"), vec![1, 2, 3]);
}

#[test]
fn truncated_public_key_fails_handshake() {
    let server = NfsServer::new("e".to_string(), "a".to_string(), keypair(1));
    match server.accept_handshake(&vec![0u8; 31]) {
        Err(NfsError::HandshakeError(_)) => {}
        Err(other) => panic!("expected a handshake error, got {:?}", other),
        Ok(_) => panic!("expected a handshake error, got a session"),
    }
    let mut client = NfsClient::new("a".to_string(), "m".to_string(), keypair(2));
    match client.complete_handshake(&vec![0u8; 31]) {
        Err(NfsError::HandshakeError(_)) => {}
        other => panic!("expected a handshake error, got {:?}", other),
    }
    // No operation is accepted on that connection.
    match client.stat("x") {
        Err(NfsError::NotConnected) => {}
        other => panic!("expected not-connected, got {:?}", other),
    }
}

// --- the channel ---

#[test]
fn open_rejects_tampering() {
    let (client, server_session) = handshake_pair();
    let resp = make_response(BackendResult::Data(vec![1, 2, 3]));
    let reply = seal_response(&server_session, &resp).expect("fits");
    let mut tampered = reply[4..].to_vec();
    let last = tampered.len() - 1;
    tampered[last] ^= 0x01;
    match client.interpret_reply(&tampered) {
        Err(NfsError::DecryptionError) => {}
        other => panic!("expected a decryption error, got {:?}", other),
    }
}

#[test]
fn open_rejects_other_key() {
    // A session keyed between peers 7 and 9, and another between 7 and 10:
    // a frame sealed under the first fails authentication under the second.
    let server = NfsServer::new("e".to_string(), "a".to_string(), keypair(7));
    let s1 = server.accept_handshake(&vec![9u8; 32]).expect("ok");
    let s2 = server.accept_handshake(&vec![10u8; 32]).expect("ok");
    let resp = make_response(BackendResult::Data(vec![4, 5, 6]));
    let sealed_under_s1 = seal_response(&s1, &resp).expect("fits");
    let payload = sealed_under_s1[4..].to_vec();
    match decode_request(&s2, &payload) {
        Err(NfsError::DecryptionError) => {}
        other => panic!("expected a decryption error, got {:?}", other),
    }
}

// --- whole exchanges ---

#[test]
fn short_file_read_returns_existing_bytes() {
    // A read of five bytes against a three-byte file: the span covers the
    // three bytes that exist, and the reply carries exactly those.
    let (client, server_session) = handshake_pair();
    let fs = secure_nfs::filesystem::PlatformFileSystem::new();
    let (start, count) = fs.read_span(0, 5, 3);
    assert_eq!((start, count), (0, 3));
    let file_bytes = vec![b'a', b'b', b'c'];
    let frame = client.read_file("a.txt", 0, 5).expect("connected");
    let got = exchange(&client, &server_session, frame, BackendResult::Data(file_bytes.clone()))
        .expect("success");
    assert_eq!(got, file_bytes);
}

#[test]
fn stat_missing_file_surfaces_remote_error() {
    let (client, server_session) = handshake_pair();
    let frame = client.stat("missing").expect("connected");
    let got = exchange(
        &client,
        &server_session,
        frame,
        BackendResult::Failed("not found".to_string()),
    );
    match got {
        Err(NfsError::RemoteError(msg)) => assert!(msg.contains("not found")),
        other => panic!("expected the remote error verbatim, got {:?}", other),
    }
}

#[test]
fn mkdir_then_readdir_lists_new_directory() {
    let (client, server_session) = handshake_pair();
    let frame = client.create_directory("d", 0o755).expect("connected");
    let got = exchange(&client, &server_session, frame, BackendResult::Done).expect("success");
    assert!(got.is_empty());
    let frame = client.read_dir(".").expect("connected");
    let listing = vec![DirEntry { name: "d".to_string(), file_type: FileType::Directory }];
    let payload = exchange(&client, &server_session, frame, BackendResult::Listing(listing))
        .expect("success");
    let entries = decode_listing_payload(&payload).expect("a listing");
    assert!(entries
        .iter()
        .any(|e| e.name == "d" && e.file_type == FileType::Directory));
}

#[test]
fn stat_reply_decodes_snapshot() {
    let (client, server_session) = handshake_pair();
    let st = FileStat { size: 10, mode: 0o755, modified_time: 5, access_time: 6, is_dir: true };
    let frame = client.stat("d").expect("connected");
    let payload = exchange(&client, &server_session, frame, BackendResult::Stat(st))
        .expect("success");
    assert_eq!(decode_stat_payload(&payload).expect("a snapshot"), st);
}

#[test]
fn sequential_requests_pair_in_order() {
    // Operations issued in order on one connection are answered by their
    // responses in the same order.
    let (client, server_session) = handshake_pair();
    let frame_a = client.read_file("a", 0, 1).expect("connected");
    let frame_b = client.read_file("b", 0, 1).expect("connected");
    let got_a = exchange(&client, &server_session, frame_a, BackendResult::Data(vec![b'A']))
        .expect("success");
    let got_b = exchange(&client, &server_session, frame_b, BackendResult::Data(vec![b'B']))
        .expect("success");
    assert_eq!(got_a, vec![b'A']);
    assert_eq!(got_b, vec![b'B']);
}

#[test]
fn repeated_stat_of_unchanged_file_is_identical() {
    // Two stats answered from the same backend snapshot produce
    // byte-identical reply frames and equal decoded results.
    let (client, server_session) = handshake_pair();
    let st = FileStat { size: 1, mode: 0o644, modified_time: 2, access_time: 3, is_dir: false };
    let first = make_response(BackendResult::Stat(st));
    let second = make_response(BackendResult::Stat(st));
    let reply_one = seal_response(&server_session, &first).expect("fits");
    let reply_two = seal_response(&server_session, &second).expect("fits");
    assert_eq!(reply_one, reply_two);
    let payload = client.interpret_reply(&reply_one[4..].to_vec()).expect("success");
    assert_eq!(decode_stat_payload(&payload).expect("a snapshot"), st);
}

#[test]
fn garbage_request_payload_is_a_deserialization_error() {
    let server = NfsServer::new("e".to_string(), "a".to_string(), keypair(3));
    let session = server.accept_handshake(&vec![4u8; 32]).expect("ok");
    // Seal bytes that are no operation: authentication passes, decoding fails.
    let resp = make_response(BackendResult::Data(vec![42u8, 0, 0]));
    let sealed = seal_response(&session, &resp).expect("fits");
    match decode_request(&session, &sealed[4..].to_vec()) {
        Err(NfsError::DeserializationError(_)) => {}
        other => panic!("expected a deserialization error, got {:?}", other),
    }
}

#[test]
fn disconnect_refuses_further_requests() {
    let (mut client, _server_session) = handshake_pair();
    assert!(client.read_file("a", 0, 1).is_ok());
    client.disconnect().expect("disconnect is clean");
    match client.read_file("a", 0, 1) {
        Err(NfsError::NotConnected) => {}
        other => panic!("expected not-connected, got {:?}", other),
    }
}

#[test]
fn oversized_operation_is_a_protocol_error() {
    let (client, _server_session) = handshake_pair();
    let huge = vec![0u8; (secure_nfs::protocol::MAX_MESSAGE_SIZE as usize) + 1];
    match client.write_file("f", 0, huge) {
        Err(NfsError::ProtocolError(_)) => {}
        other => panic!("expected a protocol error, got {:?}", other),
    }
}

// --- backend decision logic ---

#[test]
fn read_span_clamps_to_file_end() {
    let fs = secure_nfs::filesystem::PlatformFileSystem::new();
    assert_eq!(fs.read_span(0, 5, 3), (0, 3));
    assert_eq!(fs.read_span(3, 5, 3), (3, 0));
    assert_eq!(fs.read_span(7, 5, 3), (7, 0));
    assert_eq!(fs.read_span(1, 1, 3), (1, 1));
    assert_eq!(fs.read_span(0, 0, 3), (0, 0));
}

#[test]
fn classify_file_type_prefers_directory() {
    let fs = secure_nfs::filesystem::PlatformFileSystem::new();
    assert_eq!(fs.classify_file_type(true, false, false), FileType::Directory);
    assert_eq!(fs.classify_file_type(false, true, false), FileType::File);
    assert_eq!(fs.classify_file_type(false, false, true), FileType::Symlink);
    assert_eq!(fs.classify_file_type(false, false, false), FileType::Other);
}

#[test]
fn stat_operation_has_exact_wire_form() {
    // Tag 5, a four-byte big-endian length, then the UTF-8 bytes.
    let encoded = encode_operation(&NfsOperation::Stat { path: "y".to_string() });
    assert_eq!(encoded, vec![5u8, 0, 0, 0, 1, b'y']);
}

#[test]
fn sealed_frame_has_header_tag_and_ciphertext() {
    let (client, server_session) = handshake_pair();
    let frame = client.stat("y").expect("connected");
    // Four header bytes, an eight-byte tag, then one ciphertext byte per
    // byte of the six-byte encoded operation.
    assert_eq!(frame.len(), 4 + 8 + 6);
    assert_eq!(&frame[0..4], &[0u8, 0, 0, 14]);
    let _ = server_session;
}
