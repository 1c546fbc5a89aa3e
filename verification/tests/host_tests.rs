use mydia_p2p::address::decode_address;
use mydia_p2p::address::encode_address;
use mydia_p2p::address::resolve_target;
use mydia_p2p::address::EndpointAddress;
use mydia_p2p::bridge::event_stream_message;
use mydia_p2p::bridge::FlutterConnectionType;
use mydia_p2p::bridge::FlutterNetworkStats;
use mydia_p2p::codec::decode_response;
use mydia_p2p::codec::encode_request;
use mydia_p2p::codec::encode_response;
use mydia_p2p::engine::interpret_hls_header;
use mydia_p2p::engine::interpret_reply;
use mydia_p2p::engine::Action;
use mydia_p2p::engine::HostState;
use mydia_p2p::framing::ChunkQueue;
use mydia_p2p::framing::Deframer;
use mydia_p2p::identity::settle_identity;
use mydia_p2p::monitor::monitor_step;
use mydia_p2p::protocol::Event;
use mydia_p2p::protocol::HlsRequest;
use mydia_p2p::protocol::HlsResponseHeader;
use mydia_p2p::protocol::MydiaRequest;
use mydia_p2p::protocol::MydiaResponse;
use mydia_p2p::protocol::NetworkStats;
use mydia_p2p::protocol::PairingRequest;
use mydia_p2p::protocol::PairingResponse;
use mydia_p2p::protocol::PathInfo;
use mydia_p2p::protocol::PeerConnectionType;
use mydia_p2p::registry::HandleTable;
use mydia_p2p::ticket::build_blob_ticket;
use mydia_p2p::ticket::next_download_range;
use mydia_p2p::ticket::parse_blob_ticket;
use mydia_p2p::ticket::progress_completed;
use mydia_p2p::ticket::progress_failed;
use mydia_p2p::ticket::progress_started;
use mydia_p2p::ticket::progress_update;

fn direct_path() -> PathInfo {
    PathInfo { is_ip: true, is_relay: false }
}

fn relay_path() -> PathInfo {
    PathInfo { is_ip: false, is_relay: true }
}

// ---------------------------------------------------------------------------
// Connection classification.
// ---------------------------------------------------------------------------
#[test]
fn connection_type_classification() {
    assert_eq!(PeerConnectionType::from_paths(&vec![]), PeerConnectionType::NoPaths);
    assert_eq!(PeerConnectionType::from_paths(&vec![direct_path()]), PeerConnectionType::Direct);
    assert_eq!(PeerConnectionType::from_paths(&vec![relay_path()]), PeerConnectionType::Relay);
    assert_eq!(
        PeerConnectionType::from_paths(&vec![relay_path(), direct_path()]),
        PeerConnectionType::Mixed
    );
    assert_eq!(PeerConnectionType::Direct.as_str(), "direct");
    assert_eq!(PeerConnectionType::Relay.as_str(), "relay");
    assert_eq!(PeerConnectionType::Mixed.as_str(), "mixed");
    assert_eq!(PeerConnectionType::NoPaths.as_str(), "none");
}

// ---------------------------------------------------------------------------
// Registry uniqueness.
// ---------------------------------------------------------------------------
#[test]
fn registry_replaces_duplicate_peer() {
    let mut t = HandleTable::new();
    assert_eq!(t.insert("peer-a".to_string(), 1), None);
    assert_eq!(t.insert("peer-b".to_string(), 2), None);
    assert_eq!(t.len(), 2);
    // re-dialing the same peer replaces the entry and yields the displaced
    // connection, so the table never holds two entries per peer
    assert_eq!(t.insert("peer-a".to_string(), 3), Some(1));
    assert_eq!(t.len(), 2);
    assert_eq!(t.get(&"peer-a".to_string()), Some(3));
    assert_eq!(t.remove(&"peer-a".to_string()), Some(3));
    assert_eq!(t.get(&"peer-a".to_string()), None);
    assert_eq!(t.remove(&"peer-a".to_string()), None);
    assert_eq!(t.len(), 1);
}

// ---------------------------------------------------------------------------
// Address blob round trip and target resolution.
// ---------------------------------------------------------------------------
#[test]
fn address_round_trip() {
    let a = EndpointAddress {
        node_id: "9f".repeat(32),
        direct_addresses: vec!["192.168.1.4:4433".to_string(), "[::1]:9999".to_string()],
        relay_urls: vec!["https://relay.example/".to_string()],
    };
    let blob = encode_address(&a);
    assert!(blob.starts_with('{'));
    assert_eq!(decode_address(&blob), Some(a));
}

#[test]
fn address_round_trip_empty_lists_and_escapes() {
    let a = EndpointAddress {
        node_id: "we\"ird\\id".to_string(),
        direct_addresses: vec![],
        relay_urls: vec![],
    };
    let blob = encode_address(&a);
    assert_eq!(decode_address(&blob), Some(a));
    assert_eq!(decode_address("not a blob"), None);
    assert_eq!(decode_address("{\"id\":\"x\""), None);
}

#[test]
fn resolve_target_accepts_both_shapes() {
    let a = EndpointAddress {
        node_id: "abc123".to_string(),
        direct_addresses: vec!["10.0.0.1:1".to_string()],
        relay_urls: vec![],
    };
    let blob = encode_address(&a);
    // full blob: projected to the node identifier
    assert_eq!(resolve_target(&blob), "abc123");
    // bare identifier: taken as is
    assert_eq!(resolve_target(&"abc123".to_string()), "abc123");
    // malformed blob: taken as is
    assert_eq!(resolve_target(&"{broken".to_string()), "{broken");
}

// ---------------------------------------------------------------------------
// Ping is answered inline.
// ---------------------------------------------------------------------------
#[test]
fn ping_answered_inline_with_pong() {
    let mut host = HostState::new("node-1".to_string());
    let frame = encode_request(&MydiaRequest::Ping);
    let actions = host.on_inbound_frame(&"peer-1".to_string(), 7, &frame);
    assert_eq!(actions.len(), 1);
    match &actions[0] {
        Action::WriteAndFinish { stream, bytes } => {
            assert_eq!(*stream, 7);
            assert_eq!(decode_response(bytes), Some(MydiaResponse::Pong));
            assert_eq!(*bytes, encode_response(&MydiaResponse::Pong));
        }
        other => panic!("unexpected action: {:?}", action_name(other)),
    }
}

fn action_name(a: &Action) -> &'static str {
    match a {
        Action::Emit(_) => "Emit",
        Action::Write { .. } => "Write",
        Action::WriteAndFinish { .. } => "WriteAndFinish",
        Action::FinishStream { .. } => "FinishStream",
        Action::CloseConnection { .. } => "CloseConnection",
        Action::StartResponseTimer { .. } => "StartResponseTimer",
    }
}

// ---------------------------------------------------------------------------
// Pairing: request correlation and the exact response.
// ---------------------------------------------------------------------------
#[test]
fn pairing_request_correlates_response_to_same_stream() {
    let mut host = HostState::new("server".to_string());
    let request = MydiaRequest::Pairing(PairingRequest {
        claim_code: "ABC123".to_string(),
        device_name: "phone".to_string(),
        device_type: "mobile".to_string(),
        device_os: Some("Android".to_string()),
    });
    let frame = encode_request(&request);
    // two interleaved inbound requests on different streams
    let actions1 = host.on_inbound_frame(&"h2".to_string(), 41, &frame);
    let actions2 = host.on_inbound_frame(&"h2".to_string(), 42, &frame);
    let id1 = request_id_of(&actions1);
    let id2 = request_id_of(&actions2);
    assert_eq!(id1.len(), 36);
    assert_ne!(id1, id2);

    let response = MydiaResponse::Pairing(PairingResponse {
        success: true,
        media_token: Some("t".to_string()),
        access_token: Some("a".to_string()),
        device_token: Some("d".to_string()),
        error: None,
        direct_urls: vec![],
    });
    // answering the second request writes to the second stream, exactly
    match host.on_send_response(&id2, &response) {
        Some(Action::WriteAndFinish { stream, bytes }) => {
            assert_eq!(stream, 42);
            assert_eq!(interpret_reply(&bytes), Ok(response.clone()));
        }
        _ => panic!("expected a write"),
    }
    // a second answer for the same id is a silent no-op
    assert!(host.on_send_response(&id2, &response).is_none());
    // the first request is still pending and can still be answered
    match host.on_send_response(&id1, &response) {
        Some(Action::WriteAndFinish { stream, .. }) => assert_eq!(stream, 41),
        _ => panic!("expected a write"),
    }
}

fn request_id_of(actions: &Vec<Action>) -> String {
    assert_eq!(actions.len(), 2);
    match &actions[0] {
        Action::Emit(Event::RequestReceived { request_id, .. }) => request_id.clone(),
        _ => panic!("expected a RequestReceived event"),
    }
}

// ---------------------------------------------------------------------------
// Timeout fidelity: the synthetic error, exactly once.
// ---------------------------------------------------------------------------
#[test]
fn unanswered_request_times_out_exactly_once() {
    let mut host = HostState::new("server".to_string());
    let frame = encode_request(&MydiaRequest::Pairing(PairingRequest {
        claim_code: "XYZ".to_string(),
        device_name: "p".to_string(),
        device_type: "m".to_string(),
        device_os: None,
    }));
    let actions = host.on_inbound_frame(&"h2".to_string(), 9, &frame);
    let id = request_id_of(&actions);
    match host.on_response_timeout(&id) {
        Some(Action::WriteAndFinish { stream, bytes }) => {
            assert_eq!(stream, 9);
            assert_eq!(
                decode_response(&bytes),
                Some(MydiaResponse::Error("Request timeout".to_string()))
            );
        }
        _ => panic!("expected the timeout write"),
    }
    // the slot is gone: the timer firing again, or a late answer, does nothing
    assert!(host.on_response_timeout(&id).is_none());
    assert!(host.on_send_response(&id, &MydiaResponse::Pong).is_none());
}

// ---------------------------------------------------------------------------
// The server-push stream: exact bytes under arbitrary chunking.
// ---------------------------------------------------------------------------
#[test]
fn hls_stream_delivers_exact_bytes() {
    let mut host = HostState::new("server".to_string());
    let request = MydiaRequest::HlsStream(HlsRequest {
        session_id: "s".to_string(),
        path: "index.m3u8".to_string(),
        range_start: None,
        range_end: None,
        auth_token: None,
    });
    let frame = encode_request(&request);
    let actions = host.on_inbound_frame(&"h2".to_string(), 5, &frame);
    assert_eq!(actions.len(), 1);
    let stream_id = match &actions[0] {
        Action::Emit(Event::HlsStreamRequest { stream_id, request: r, peer }) => {
            assert_eq!(peer, "h2");
            assert_eq!(r.path, "index.m3u8");
            stream_id.clone()
        }
        _ => panic!("expected an HlsStreamRequest event"),
    };

    let header = HlsResponseHeader {
        status: 200,
        content_type: "video/mp2t".to_string(),
        content_length: 10,
        content_range: None,
        cache_control: None,
    };
    let mut wire: Vec<u8> = Vec::new();
    match host.on_send_hls_header(&stream_id, &header) {
        Ok(Action::Write { stream, mut bytes }) => {
            assert_eq!(stream, 5);
            wire.append(&mut bytes);
        }
        _ => panic!("expected the header write"),
    }
    for chunk in [&b"abc"[..], &b"defg"[..], &b"hij"[..]] {
        match host.on_send_hls_chunk(&stream_id, &chunk.to_vec()) {
            Ok(Action::Write { mut bytes, .. }) => wire.append(&mut bytes),
            _ => panic!("expected a chunk write"),
        }
    }
    match host.on_finish_hls_stream(&stream_id) {
        Ok(actions) => {
            assert_eq!(actions.len(), 2);
            match &actions[0] {
                Action::Write { bytes, .. } => {
                    wire.extend_from_slice(bytes);
                }
                _ => panic!("expected the terminator write"),
            }
        }
        Err(e) => panic!("finish failed: {}", e),
    }
    // finishing again is an error: the stream has left the table
    match host.on_finish_hls_stream(&stream_id) {
        Err(e) => assert_eq!(e, format!("HLS stream not found: {}", stream_id)),
        Ok(_) => panic!("finish should have failed"),
    }

    // the receiver reassembles the same sequence no matter how the
    // transport splits the bytes: feed one byte at a time
    let mut deframer = Deframer::new();
    let mut frames: Vec<Vec<u8>> = Vec::new();
    for b in &wire {
        let mut out = deframer.feed(&vec![*b]);
        frames.append(&mut out);
    }
    assert!(deframer.finished());
    assert_eq!(frames.len(), 4);
    assert_eq!(interpret_hls_header(&frames[0]).unwrap().status, 200);
    let mut collected: Vec<u8> = Vec::new();
    for c in &frames[1..] {
        collected.extend_from_slice(c);
    }
    assert_eq!(collected, b"abcdefghij".to_vec());

    // and in a different split: all at once
    let mut deframer = Deframer::new();
    let frames2 = deframer.feed(&wire);
    assert!(deframer.finished());
    assert_eq!(frames2, frames);
}

#[test]
fn hls_errors_and_empty_chunk_are_refused() {
    let mut host = HostState::new("server".to_string());
    let header = HlsResponseHeader {
        status: 200,
        content_type: "t".to_string(),
        content_length: 0,
        content_range: None,
        cache_control: None,
    };
    match host.on_send_hls_header(&"nope".to_string(), &header) {
        Err(e) => assert_eq!(e, "HLS stream not found: nope"),
        Ok(_) => panic!("header write should have failed"),
    }
    match host.on_send_hls_chunk(&"nope".to_string(), &vec![1u8]) {
        Err(e) => assert_eq!(e, "HLS stream not found: nope"),
        Ok(_) => panic!("chunk write should have failed"),
    }
    // register a stream, then try the reserved empty chunk
    let frame = encode_request(&MydiaRequest::HlsStream(HlsRequest {
        session_id: "s".to_string(),
        path: "p".to_string(),
        range_start: None,
        range_end: None,
        auth_token: None,
    }));
    let actions = host.on_inbound_frame(&"h2".to_string(), 3, &frame);
    let stream_id = match &actions[0] {
        Action::Emit(Event::HlsStreamRequest { stream_id, .. }) => stream_id.clone(),
        _ => panic!("expected an HlsStreamRequest event"),
    };
    match host.on_send_hls_chunk(&stream_id, &vec![]) {
        Err(e) => assert_eq!(e, "empty HLS chunk"),
        Ok(_) => panic!("an empty chunk must be refused"),
    }
}

// ---------------------------------------------------------------------------
// Backpressure: the chunk queue is bounded at sixteen.
// ---------------------------------------------------------------------------
#[test]
fn chunk_queue_bounds_at_capacity() {
    let mut q = ChunkQueue::new();
    for i in 0..16u8 {
        assert!(q.try_push(vec![i]).is_none());
    }
    assert_eq!(q.len(), 16);
    // the seventeenth chunk is refused and handed back: the reader must
    // wait, which is what holds the sender back
    assert_eq!(q.try_push(vec![99]), Some(vec![99]));
    // draining one entry lets the next push complete
    assert_eq!(q.pop_front(), Some(vec![0]));
    assert!(q.try_push(vec![99]).is_none());
    assert_eq!(q.len(), 16);
}

// ---------------------------------------------------------------------------
// The outbound path.
// ---------------------------------------------------------------------------
#[test]
fn send_request_requires_a_connection() {
    let mut host = HostState::new("client".to_string());
    let ping = MydiaRequest::Ping;
    assert_eq!(
        host.on_send_request(&"peer-x".to_string(), &ping),
        Err("Not connected to peer: peer-x".to_string())
    );
    let (_, ev) = host.on_connection_established("peer-x".to_string(), 11, &vec![relay_path()]);
    match ev {
        Event::Connected { peer_id, connection_type } => {
            assert_eq!(peer_id, "peer-x");
            assert_eq!(connection_type, PeerConnectionType::Relay);
        }
        _ => panic!("expected a Connected event"),
    }
    match host.on_send_request(&"peer-x".to_string(), &ping) {
        Ok((conn, bytes)) => {
            assert_eq!(conn, 11);
            assert_eq!(bytes, encode_request(&ping));
        }
        Err(e) => panic!("send failed: {}", e),
    }
    // the reply comes back on the same stream and is decoded exactly
    let reply = encode_response(&MydiaResponse::Pong);
    assert_eq!(interpret_reply(&reply), Ok(MydiaResponse::Pong));
    assert_eq!(
        interpret_reply(&vec![0u8, 1, 2]),
        Err("Failed to decode response".to_string())
    );
    // disconnect removes the peer
    let (removed, _) = host.on_connection_closed("peer-x".to_string());
    assert_eq!(removed, Some(11));
    assert_eq!(
        host.on_send_request(&"peer-x".to_string(), &ping),
        Err("Not connected to peer: peer-x".to_string())
    );
}

#[test]
fn hls_header_interpretation() {
    let header = HlsResponseHeader {
        status: 206,
        content_type: "video/mp2t".to_string(),
        content_length: 4,
        content_range: Some("bytes 0-3/10".to_string()),
        cache_control: None,
    };
    let ok = encode_response(&MydiaResponse::HlsHeader(header.clone()));
    assert_eq!(interpret_hls_header(&ok), Ok(header));
    let err = encode_response(&MydiaResponse::Error("no such session".to_string()));
    assert_eq!(
        interpret_hls_header(&err),
        Err("Server error: no such session".to_string())
    );
    let wrong = encode_response(&MydiaResponse::Pong);
    assert_eq!(
        interpret_hls_header(&wrong),
        Err("Unexpected response type".to_string())
    );
    assert_eq!(
        interpret_hls_header(&vec![9u8]),
        Err("Failed to decode header".to_string())
    );
}

// ---------------------------------------------------------------------------
// Readiness: the address before and after Ready.
// ---------------------------------------------------------------------------
#[test]
fn node_addr_empty_until_ready_then_parseable() {
    let mut host = HostState::new("node".to_string());
    assert_eq!(host.node_addr_snapshot(), "");
    let addr = EndpointAddress {
        node_id: "node".to_string(),
        direct_addresses: vec!["1.2.3.4:5".to_string()],
        relay_urls: vec!["https://r/".to_string()],
    };
    let blob = encode_address(&addr);
    let ev = host.on_endpoint_ready(blob.clone());
    match ev {
        Event::Ready { node_addr } => assert_eq!(node_addr, blob),
        _ => panic!("expected a Ready event"),
    }
    let snapshot = host.node_addr_snapshot();
    assert!(!snapshot.is_empty());
    // a second host can parse what the first shares
    assert_eq!(decode_address(&snapshot), Some(addr));
}

#[test]
fn network_stats_snapshot_composition() {
    let mut host = HostState::new("node".to_string());
    let stats: NetworkStats = host.network_stats_snapshot(&None);
    assert_eq!(stats.connected_peers, 0);
    assert!(!stats.relay_connected);
    assert_eq!(stats.peer_connection_type, PeerConnectionType::NoPaths);
    host.on_relay_connected();
    host.on_connection_established("p".to_string(), 1, &vec![relay_path()]);
    let stats = host.network_stats_snapshot(&Some(vec![relay_path(), direct_path()]));
    assert_eq!(stats.connected_peers, 1);
    assert!(stats.relay_connected);
    assert_eq!(stats.peer_connection_type, PeerConnectionType::Mixed);
    let f = FlutterNetworkStats::from_core(stats);
    assert_eq!(f.connected_peers, 1);
    assert_eq!(f.peer_connection_type, FlutterConnectionType::Mixed);
}

// ---------------------------------------------------------------------------
// The path monitor: one upgrade report, then it ceases.
// ---------------------------------------------------------------------------
#[test]
fn path_upgrade_reported_once_then_monitoring_stops() {
    // a relay-only connection is observed a few times, then a direct path
    // appears
    let mut current = PeerConnectionType::Relay;
    let mut reported = Vec::new();
    let observations =
        vec![vec![relay_path()], vec![relay_path()], vec![relay_path(), direct_path()], vec![
            direct_path(),
        ]];
    for obs in &observations {
        let step = monitor_step(current, obs);
        if let Some(t) = step.changed {
            reported.push(t);
        }
        current = step.next;
        if step.stop {
            break;
        }
    }
    assert_eq!(reported, vec![PeerConnectionType::Mixed, PeerConnectionType::Direct]);

    // a jump straight to direct is reported exactly once and monitoring
    // ceases at once
    let step = monitor_step(PeerConnectionType::Relay, &vec![direct_path()]);
    assert_eq!(step.changed, Some(PeerConnectionType::Direct));
    assert!(step.stop);
    let step = monitor_step(PeerConnectionType::Relay, &vec![relay_path()]);
    assert_eq!(step.changed, None);
    assert!(!step.stop);
}

// ---------------------------------------------------------------------------
// Stable identity.
// ---------------------------------------------------------------------------
#[test]
fn identity_stable_for_same_key_file() {
    let file: Vec<u8> = (0u8..32).collect();
    let fresh1 = [7u8; 32];
    let fresh2 = [9u8; 32];
    let (secret1, id1, generated1) = settle_identity(Some(file.clone()), fresh1);
    let (secret2, id2, generated2) = settle_identity(Some(file.clone()), fresh2);
    assert_eq!(secret1, secret2);
    assert_eq!(id1, id2);
    assert!(!generated1 && !generated2);
    assert_eq!(id1.len(), 64);
    assert!(id1.chars().all(|c| c.is_ascii_hexdigit()));
    // a wrong-length file falls back to the fresh key
    let (secret3, id3, generated3) = settle_identity(Some(vec![1, 2, 3]), fresh1);
    assert_eq!(secret3, fresh1);
    assert!(generated3);
    assert_ne!(id3, id1);
    // and the identifier is a real function of the secret, not an echo
    let (_, id4, _) = settle_identity(None, fresh1);
    assert_eq!(id3, id4);
}

// ---------------------------------------------------------------------------
// Blob tickets and the download plan.
// ---------------------------------------------------------------------------
#[test]
fn blob_ticket_round_trip() {
    let ticket = build_blob_ticket(
        &"deadbeef".to_string(),
        104857600,
        &"movie.mp4".to_string(),
        &"/srv/media/movie.mp4".to_string(),
    );
    assert_eq!(
        ticket,
        "{\"file_path\":\"/srv/media/movie.mp4\",\"file_size\":104857600,\
         \"filename\":\"movie.mp4\",\"hash\":\"deadbeef\"}"
    );
    let parsed = parse_blob_ticket(&ticket).unwrap();
    assert_eq!(parsed.hash, "deadbeef");
    assert_eq!(parsed.file_size, 104857600);
    assert_eq!(parsed.filename, "movie.mp4");
    assert_eq!(parsed.file_path, "/srv/media/movie.mp4");
    assert_eq!(parse_blob_ticket("{\"file_path\":\"x\"}"), None);
}

#[test]
fn download_plan_ranges() {
    // a short file: one range to the end
    assert_eq!(next_download_range(0, 10), (0, 9));
    // a long file: full chunks, then the tail
    assert_eq!(next_download_range(0, 3_000_000), (0, 1_048_575));
    assert_eq!(next_download_range(1_048_576, 3_000_000), (1_048_576, 2_097_151));
    assert_eq!(next_download_range(2_097_152, 3_000_000), (2_097_152, 2_999_999));
}

#[test]
fn progress_records_exact() {
    assert_eq!(progress_started(10), "{\"type\":\"started\",\"total_size\":10}");
    assert_eq!(
        progress_update(3, 10),
        "{\"type\":\"progress\",\"downloaded\":3,\"total\":10}"
    );
    assert_eq!(
        progress_completed(&"/tmp/out.bin".to_string()),
        "{\"type\":\"completed\",\"file_path\":\"/tmp/out.bin\"}"
    );
    assert_eq!(
        progress_failed(&"disk \"full\"".to_string()),
        "{\"type\":\"failed\",\"error\":\"disk \\\"full\\\"\"}"
    );
}

// ---------------------------------------------------------------------------
// The bridge's event stream.
// ---------------------------------------------------------------------------
#[test]
fn event_stream_lines() {
    let ev = Event::Connected {
        peer_id: "abc".to_string(),
        connection_type: PeerConnectionType::Relay,
    };
    assert_eq!(event_stream_message(&ev), Some("connected:abc".to_string()));
    assert_eq!(
        event_stream_message(&Event::Disconnected("abc".to_string())),
        Some("disconnected:abc".to_string())
    );
    assert_eq!(
        event_stream_message(&Event::RelayConnected),
        Some("relay_connected".to_string())
    );
    assert_eq!(
        event_stream_message(&Event::Ready { node_addr: "{}".to_string() }),
        Some("ready:{}".to_string())
    );
    let ev = Event::RequestReceived {
        peer: "p".to_string(),
        request: MydiaRequest::Ping,
        request_id: "r".to_string(),
    };
    assert_eq!(event_stream_message(&ev), None);
}
