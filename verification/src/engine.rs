//! The event loop's decision core.  The unverified shell owns the sockets
//! and timers; every decision — what a received frame means, which stream a
//! response goes to, what a command returns, which events the embedder
//! sees — is taken here, over plain values, and returned as actions for the
//! shell to perform.  Streams and connections appear as opaque numeric
//! handles that the shell maps to live transport objects.
use vstd::prelude::*;

use crate::address::resolve_target;
use crate::address::spec_resolve_target;
use crate::cbor::pow256;
use crate::codec::decode_request;
use crate::codec::decode_response;
use crate::codec::encode_hls_header_response;
use crate::codec::encode_request;
use crate::codec::encode_response;
use crate::codec::req_dec;
use crate::codec::req_enc;
use crate::codec::resp_dec;
use crate::codec::resp_enc;
use crate::framing::frame_enc;
use crate::framing::push_frame;
use crate::framing::push_terminator;
use crate::framing::terminator;
use crate::protocol::Event;
use crate::protocol::HlsResponseHeader;
use crate::protocol::MydiaRequest;
use crate::protocol::MydiaRequestV;
use crate::protocol::MydiaResponse;
use crate::protocol::MydiaResponseV;
use crate::protocol::NetworkStats;
use crate::protocol::PathInfo;
use crate::protocol::PeerConnectionType;
use crate::protocol::spec_connection_type;
use crate::registry::HandleTable;
use vstd::string::StringExecFns;

verus! {

/// What the shell must do after a decision: emit an event to the embedder,
/// move bytes on a stream, finish or close transport objects, open an
/// outbound stream, or start the inbound response timer.
pub enum Action {
    Emit(Event),
    Write { stream: u64, bytes: Vec<u8> },
    WriteAndFinish { stream: u64, bytes: Vec<u8> },
    FinishStream { stream: u64 },
    CloseConnection { conn: u64 },
    StartResponseTimer { request_id: String },
}

/// The state the event loop owns: identity, readiness, the connection
/// registry, and the two pending-work tables.
pub struct HostState {
    /// The public node identifier, fixed at creation.
    pub node_id: String,
    /// True once the endpoint has obtained an address.
    pub ready: bool,
    /// The address blob, empty until ready.
    pub node_addr: String,
    /// True once a relay has accepted the endpoint.
    pub relay_connected: bool,
    /// The relay URL in use, if an explicit one was configured.
    pub relay_url: Option<String>,
    /// Live connections: peer identifier to connection handle.
    pub connections: HandleTable,
    /// Inbound requests awaiting an embedder response: request identifier
    /// to the send half of the stream.
    pub pending_responses: HandleTable,
    /// Open server-push streams: stream identifier to the send half.
    pub hls_streams: HandleTable,
}

impl HostState {
    /// All tables well-formed, and no address before readiness.
    pub open spec fn wf(self) -> bool {
        &&& self.connections.wf()
        &&& self.pending_responses.wf()
        &&& self.hls_streams.wf()
        &&& !self.ready ==> self.node_addr@ == Seq::<char>::empty()
    }

    /// A fresh host state: not ready, nothing connected, nothing pending.
    pub fn new(node_id: String) -> (r: HostState)
        ensures
            r.wf(),
            r.node_id == node_id,
            !r.ready,
            !r.relay_connected,
            r.relay_url is None,
            r.connections.spec_len() == 0,
            r.pending_responses.spec_len() == 0,
            r.hls_streams.spec_len() == 0,
    {
        HostState {
            node_id,
            ready: false,
            node_addr: String::new(),
            relay_connected: false,
            relay_url: None,
            connections: HandleTable::new(),
            pending_responses: HandleTable::new(),
            hls_streams: HandleTable::new(),
        }
    }

    /// The endpoint has bound and knows its address: become ready and tell
    /// the embedder.
    pub fn on_endpoint_ready(&mut self, addr: String) -> (ev: Event)
        requires
            old(self).wf(),
        ensures
            final(self).wf(),
            final(self).ready,
            final(self).node_addr == addr,
            final(self).connections == old(self).connections,
            final(self).pending_responses == old(self).pending_responses,
            final(self).hls_streams == old(self).hls_streams,
            final(self).relay_connected == old(self).relay_connected,
            (ev matches Event::Ready { node_addr } && node_addr@ == addr@),
    {
        self.ready = true;
        self.node_addr = addr.clone();
        Event::Ready { node_addr: addr }
    }

    /// A relay has accepted the endpoint.
    pub fn on_relay_connected(&mut self) -> (ev: Event)
        requires
            old(self).wf(),
        ensures
            final(self).wf(),
            final(self).relay_connected,
            final(self).ready == old(self).ready,
            final(self).node_addr == old(self).node_addr,
            final(self).connections == old(self).connections,
            final(self).pending_responses == old(self).pending_responses,
            final(self).hls_streams == old(self).hls_streams,
            ev is RelayConnected,
    {
        self.relay_connected = true;
        Event::RelayConnected
    }

    /// A connection to `peer_id` was accepted or dialed.  The registry
    /// keeps at most one entry per peer: a displaced connection comes back
    /// as a close action, and the embedder learns of the connection and its
    /// path classification.
    pub fn on_connection_established(
        &mut self,
        peer_id: String,
        conn: u64,
        paths: &Vec<PathInfo>,
    ) -> (r: (Option<u64>, Event))
        requires
            old(self).wf(),
        ensures
            final(self).wf(),
            final(self).connections.contains_key(peer_id@),
            final(self).connections.value_of(peer_id@) == conn,
            forall|k: Seq<char>|
                k != peer_id@ ==> #[trigger] final(self).connections.contains_key(k) == old(self).connections.contains_key(k),
            final(self).pending_responses == old(self).pending_responses,
            final(self).hls_streams == old(self).hls_streams,
            match r.0 {
                Some(displaced) => old(self).connections.contains_key(peer_id@) && displaced == old(self).connections.value_of(peer_id@),
                None => !old(self).connections.contains_key(peer_id@),
            },
            (r.1 matches Event::Connected { peer_id: p, connection_type: t } && p@ == peer_id@ && t
                == spec_connection_type(paths@)),
    {
        let connection_type = PeerConnectionType::from_paths(paths);
        let displaced = self.connections.insert(peer_id.clone(), conn);
        (displaced, Event::Connected { peer_id, connection_type })
    }

    /// The connection task for `peer_id` saw the connection close: drop the
    /// registry entry and tell the embedder.
    pub fn on_connection_closed(&mut self, peer_id: String) -> (r: (Option<u64>, Event))
        requires
            old(self).wf(),
        ensures
            final(self).wf(),
            !final(self).connections.contains_key(peer_id@),
            forall|k: Seq<char>|
                k != peer_id@ ==> #[trigger] final(self).connections.contains_key(k) == old(self).connections.contains_key(k),
            final(self).pending_responses == old(self).pending_responses,
            final(self).hls_streams == old(self).hls_streams,
            match r.0 {
                Some(conn) => old(self).connections.contains_key(peer_id@) && conn == old(self).connections.value_of(peer_id@),
                None => !old(self).connections.contains_key(peer_id@),
            },
            (r.1 matches Event::Disconnected(p) && p@ == peer_id@),
    {
        let removed = self.connections.remove(&peer_id);
        (removed, Event::Disconnected(peer_id))
    }
}

/// Relies on uuid's `Uuid::new_v4` and its hyphenated `Display` form: a
/// fresh random identifier, always 36 characters long.  Nothing more is
/// assumed: in particular not that two calls differ.
#[verifier::external_body]
fn fresh_request_id() -> (r: String)
    ensures
        r@.len() == 36,
{
    uuid::Uuid::new_v4().to_string()
}

impl HostState {
    /// A whole request frame arrived on a fresh inbound stream.  Decides
    /// inline replies (ping), server-push registration, or the pending
    /// request path with its timeout, and drops undecodable frames.
    pub fn on_inbound_frame(&mut self, peer_id: &String, stream: u64, data: &Vec<u8>) -> (r: Vec<
        Action,
    >)
        requires
            old(self).wf(),
        ensures
            final(self).wf(),
            final(self).connections == old(self).connections,
            final(self).node_addr == old(self).node_addr,
            final(self).ready == old(self).ready,
            ({
                let d = req_dec(data@);
                match d {
                    // an undecodable frame is dropped; the connection stays
                    None => r@.len() == 0 && final(self).pending_responses == old(self).pending_responses && final(self).hls_streams == old(self).hls_streams,
                    Some(v) => {
                        if v is Ping {
                            // answered inline, nothing registered
                            &&& r@.len() == 1
                            &&& (r@[0] matches Action::WriteAndFinish { stream: s, bytes } && s
                                == stream && bytes@ == resp_enc(MydiaResponseV::Pong))
                            &&& final(self).pending_responses == old(self).pending_responses
                            &&& final(self).hls_streams == old(self).hls_streams
                        } else if v is HlsStream {
                            // the send half goes into the stream table under a
                            // fresh identifier and the embedder drives it
                            &&& r@.len() == 1
                            &&& (r@[0] matches Action::Emit(
                                Event::HlsStreamRequest { peer, request, stream_id },
                            ) && peer@ == peer_id@ && (v matches MydiaRequestV::HlsStream(h)
                                && request@ == h) && final(self).hls_streams.contains_key(
                                stream_id@,
                            ) && final(self).hls_streams.value_of(stream_id@) == stream && (forall|
                                k: Seq<char>,
                            |
                                k != stream_id@ ==> #[trigger] final(self).hls_streams.contains_key(k) == old(self).hls_streams.contains_key(
                                    k,
                                )))
                            &&& final(self).pending_responses == old(self).pending_responses
                        } else {
                            // a reply slot is opened under a fresh identifier,
                            // the embedder is told, and the timeout starts
                            &&& r@.len() == 2
                            &&& (r@[0] matches Action::Emit(
                                Event::RequestReceived { peer, request, request_id },
                            ) && peer@ == peer_id@ && request@ == v && final(self).pending_responses.contains_key(request_id@) && final(self).pending_responses.value_of(request_id@) == stream && (forall|
                                k: Seq<char>,
                            |
                                k != request_id@ ==> #[trigger] final(self).pending_responses.contains_key(k) == old(self).pending_responses.contains_key(k)) && (r@[1] matches
                                Action::StartResponseTimer { request_id: t } && t@ == request_id@))
                            &&& final(self).hls_streams == old(self).hls_streams
                        }
                    },
                }
            }),
    {
        let mut out: Vec<Action> = Vec::new();
        let request = match decode_request(data) {
            Some(v) => v,
            None => {
                return out;
            },
        };
        match request {
            MydiaRequest::Ping => {
                let pong = MydiaResponse::Pong;
                let bytes = encode_response(&pong);
                out.push(Action::WriteAndFinish { stream, bytes });
                out
            },
            MydiaRequest::HlsStream(h) => {
                let stream_id = fresh_request_id();
                self.hls_streams.insert(stream_id.clone(), stream);
                out.push(
                    Action::Emit(
                        Event::HlsStreamRequest {
                            peer: peer_id.clone(),
                            request: h,
                            stream_id,
                        },
                    ),
                );
                out
            },
            other => {
                let request_id = fresh_request_id();
                self.pending_responses.insert(request_id.clone(), stream);
                out.push(
                    Action::Emit(
                        Event::RequestReceived {
                            peer: peer_id.clone(),
                            request: other,
                            request_id: request_id.clone(),
                        },
                    ),
                );
                out.push(Action::StartResponseTimer { request_id });
                out
            },
        }
    }

    /// The embedder answered an inbound request: the reply goes out on the
    /// stream registered under the same identifier, exactly once; an
    /// unknown identifier (already answered or timed out) is a silent
    /// no-op.
    pub fn on_send_response(&mut self, request_id: &String, response: &MydiaResponse) -> (r:
        Option<Action>)
        requires
            old(self).wf(),
        ensures
            final(self).wf(),
            final(self).connections == old(self).connections,
            final(self).hls_streams == old(self).hls_streams,
            !final(self).pending_responses.contains_key(request_id@),
            forall|k: Seq<char>|
                k != request_id@ ==> #[trigger] final(self).pending_responses.contains_key(k)
                    == old(self).pending_responses.contains_key(k),
            match r {
                Some(a) => old(self).pending_responses.contains_key(request_id@) && (a matches
                    Action::WriteAndFinish { stream, bytes } && stream == old(self).pending_responses.value_of(request_id@) && bytes@ == resp_enc(response@)),
                None => !old(self).pending_responses.contains_key(request_id@),
            },
    {
        match self.pending_responses.remove(request_id) {
            Some(stream) => {
                let bytes = encode_response(response);
                Some(Action::WriteAndFinish { stream, bytes })
            },
            None => None,
        }
    }

    /// The thirty-second timer for an inbound request fired.  If the
    /// request is still unanswered, the peer gets a synthetic timeout
    /// error, exactly once; an identifier already answered is a no-op.
    pub fn on_response_timeout(&mut self, request_id: &String) -> (r: Option<Action>)
        requires
            old(self).wf(),
        ensures
            final(self).wf(),
            final(self).connections == old(self).connections,
            final(self).hls_streams == old(self).hls_streams,
            !final(self).pending_responses.contains_key(request_id@),
            forall|k: Seq<char>|
                k != request_id@ ==> #[trigger] final(self).pending_responses.contains_key(k)
                    == old(self).pending_responses.contains_key(k),
            match r {
                Some(a) => old(self).pending_responses.contains_key(request_id@) && (a matches
                    Action::WriteAndFinish { stream, bytes } && stream == old(self).pending_responses.value_of(request_id@) && bytes@ == resp_enc(
                    MydiaResponseV::Error("Request timeout"@),
                )),
                None => !old(self).pending_responses.contains_key(request_id@),
            },
    {
        match self.pending_responses.remove(request_id) {
            Some(stream) => {
                let msg: String = String::from_str("Request timeout");
                let resp = MydiaResponse::Error(msg);
                let bytes = encode_response(&resp);
                proof {
                    reveal_strlit("Request timeout");
                }
                Some(Action::WriteAndFinish { stream, bytes })
            },
            None => None,
        }
    }

    /// The node address for sharing: empty until the endpoint is ready,
    /// then the blob.
    pub fn node_addr_snapshot(&self) -> (r: String)
        requires
            self.wf(),
        ensures
            r@ == self.node_addr@,
            !self.ready ==> r@ == Seq::<char>::empty(),
    {
        self.node_addr.clone()
    }

    /// The statistics snapshot: connection count, relay state, and the
    /// path classification of whichever connection the shell sampled.
    pub fn network_stats_snapshot(&self, sampled_paths: &Option<Vec<PathInfo>>) -> (r:
        NetworkStats)
        requires
            self.wf(),
        ensures
            r.connected_peers == self.connections.spec_len(),
            r.relay_connected == self.relay_connected,
            r.relay_url == self.relay_url,
            r.peer_connection_type == (match *sampled_paths {
                Some(p) => spec_connection_type(p@),
                None => PeerConnectionType::NoPaths,
            }),
    {
        let peer_connection_type = match sampled_paths {
            Some(p) => PeerConnectionType::from_paths(p),
            None => PeerConnectionType::NoPaths,
        };
        NetworkStats {
            connected_peers: self.connections.len(),
            relay_connected: self.relay_connected,
            relay_url: self.relay_url.clone(),
            peer_connection_type,
        }
    }
}

/// The message given when a stream identifier is unknown.
pub open spec fn spec_stream_not_found(stream_id: Seq<char>) -> Seq<char> {
    "HLS stream not found: "@ + stream_id
}

fn stream_not_found(stream_id: &String) -> (r: String)
    ensures
        r@ == spec_stream_not_found(stream_id@),
{
    let mut msg: String = String::from_str("HLS stream not found: ");
    msg.append(stream_id.as_str());
    msg
}

impl HostState {
    /// Send the header of a server-push stream: one length-prefixed header
    /// frame on the stream registered under the identifier.
    pub fn on_send_hls_header(&self, stream_id: &String, header: &HlsResponseHeader) -> (r: Result<
        Action,
        String,
    >)
        requires
            self.wf(),
        ensures
            ({
                let fits = resp_enc(MydiaResponseV::HlsHeader(header@)).len() < pow256(4);
                match r {
                    Ok(a) => self.hls_streams.contains_key(stream_id@) && fits && (a matches
                        Action::Write { stream, bytes } && stream == self.hls_streams.value_of(
                        stream_id@,
                    ) && bytes@ == frame_enc(resp_enc(MydiaResponseV::HlsHeader(header@)))),
                    Err(e) => (!self.hls_streams.contains_key(stream_id@) && e@
                        == spec_stream_not_found(stream_id@)) || (self.hls_streams.contains_key(
                        stream_id@,
                    ) && !fits && e@ == "header too large"@),
                }
            }),
    {
        match self.hls_streams.get(stream_id) {
            Some(stream) => {
                let payload = encode_hls_header_response(header);
                if payload.len() as u64 >= 0x100000000u64 {
                    proof {
                        reveal_strlit("header too large");
                        crate::cbor::lemma_pow256_8();
                    }
                    return Err(String::from_str("header too large"));
                }
                proof {
                    crate::cbor::lemma_pow256_8();
                }
                let mut bytes: Vec<u8> = Vec::new();
                push_frame(&mut bytes, &payload);
                proof {
                    assert(Seq::<u8>::empty() + frame_enc(payload@) =~= frame_enc(payload@));
                }
                Ok(Action::Write { stream, bytes })
            },
            None => Err(stream_not_found(stream_id)),
        }
    }

    /// Send one chunk of a server-push stream, length-prefixed.  An empty
    /// chunk is refused: a zero length is the stream terminator and never
    /// appears mid-stream.
    pub fn on_send_hls_chunk(&self, stream_id: &String, data: &Vec<u8>) -> (r: Result<
        Action,
        String,
    >)
        requires
            self.wf(),
            data@.len() < pow256(4),
        ensures
            match r {
                Ok(a) => self.hls_streams.contains_key(stream_id@) && data@.len() > 0 && (a
                    matches Action::Write { stream, bytes } && stream
                    == self.hls_streams.value_of(stream_id@) && bytes@ == frame_enc(data@)),
                Err(e) => (!self.hls_streams.contains_key(stream_id@) && e@
                    == spec_stream_not_found(stream_id@)) || (self.hls_streams.contains_key(
                    stream_id@,
                ) && data@.len() == 0 && e@ == "empty HLS chunk"@),
            },
    {
        match self.hls_streams.get(stream_id) {
            Some(stream) => {
                if data.len() == 0 {
                    proof {
                        reveal_strlit("empty HLS chunk");
                    }
                    return Err(String::from_str("empty HLS chunk"));
                }
                let mut bytes: Vec<u8> = Vec::new();
                push_frame(&mut bytes, data);
                proof {
                    assert(Seq::<u8>::empty() + frame_enc(data@) =~= frame_enc(data@));
                }
                Ok(Action::Write { stream, bytes })
            },
            None => Err(stream_not_found(stream_id)),
        }
    }

    /// Finish a server-push stream: the zero terminator, then the transport
    /// finish; the stream leaves the table, so finishing is once only.
    pub fn on_finish_hls_stream(&mut self, stream_id: &String) -> (r: Result<Vec<Action>, String>)
        requires
            old(self).wf(),
        ensures
            final(self).wf(),
            final(self).connections == old(self).connections,
            final(self).pending_responses == old(self).pending_responses,
            !final(self).hls_streams.contains_key(stream_id@),
            forall|k: Seq<char>|
                k != stream_id@ ==> #[trigger] final(self).hls_streams.contains_key(k) == old(self).hls_streams.contains_key(k),
            match r {
                Ok(actions) => old(self).hls_streams.contains_key(stream_id@) && actions@.len()
                    == 2 && (actions@[0] matches Action::Write { stream, bytes } && stream == old(self).hls_streams.value_of(stream_id@) && bytes@ == terminator()) && (actions@[1]
                    matches Action::FinishStream { stream } && stream == old(self).hls_streams.value_of(stream_id@)),
                Err(e) => !old(self).hls_streams.contains_key(stream_id@) && e@
                    == spec_stream_not_found(stream_id@),
            },
    {
        match self.hls_streams.remove(stream_id) {
            Some(stream) => {
                let mut bytes: Vec<u8> = Vec::new();
                push_terminator(&mut bytes);
                proof {
                    assert(Seq::<u8>::empty() + terminator() =~= terminator());
                }
                let mut actions: Vec<Action> = Vec::new();
                actions.push(Action::Write { stream, bytes });
                actions.push(Action::FinishStream { stream });
                Ok(actions)
            },
            None => Err(stream_not_found(stream_id)),
        }
    }
}

/// The message given when the target of a send is not connected.
pub open spec fn spec_not_connected(peer: Seq<char>) -> Seq<char> {
    "Not connected to peer: "@ + peer
}

impl HostState {
    /// Start an outbound request: resolve the target (a bare identifier or
    /// an address blob), look up the connection, and hand back the encoded
    /// request to write on a fresh stream of it.  The reply comes back by
    /// the same stream, so no correlation state is needed.
    pub fn on_send_request(&self, target: &String, request: &MydiaRequest) -> (r: Result<
        (u64, Vec<u8>),
        String,
    >)
        requires
            self.wf(),
        ensures
            ({
                let peer = spec_resolve_target(target@);
                match r {
                    Ok((conn, bytes)) => self.connections.contains_key(peer) && conn
                        == self.connections.value_of(peer) && bytes@ == req_enc(request@),
                    Err(e) => !self.connections.contains_key(peer) && e@ == spec_not_connected(
                        peer,
                    ),
                }
            }),
    {
        let peer = resolve_target(target);
        match self.connections.get(&peer) {
            Some(conn) => {
                let bytes = encode_request(request);
                Ok((conn, bytes))
            },
            None => {
                let mut msg: String = String::from_str("Not connected to peer: ");
                msg.append(peer.as_str());
                Err(msg)
            },
        }
    }
}

/// Interpret the reply frame of an outbound request.
pub fn interpret_reply(data: &Vec<u8>) -> (r: Result<MydiaResponse, String>)
    ensures
        match r {
            Ok(resp) => resp_dec(data@) == Some(resp@),
            Err(e) => resp_dec(data@) is None && e@ == "Failed to decode response"@,
        },
{
    match decode_response(data) {
        Some(resp) => Ok(resp),
        None => {
            proof {
                reveal_strlit("Failed to decode response");
            }
            Err(String::from_str("Failed to decode response"))
        },
    }
}

/// Interpret the first frame of a server-push stream on the client side: a
/// header begins the stream, a protocol error ends the call, anything else
/// is a protocol violation.
pub fn interpret_hls_header(data: &Vec<u8>) -> (r: Result<HlsResponseHeader, String>)
    ensures
        ({
            let d = resp_dec(data@);
            match r {
                Ok(h) => d == Some(MydiaResponseV::HlsHeader(h@)),
                Err(e) => match d {
                    Some(v) => !(v is HlsHeader) && (match v {
                        MydiaResponseV::Error(msg) => e@ == "Server error: "@ + msg,
                        _ => e@ == "Unexpected response type"@,
                    }),
                    None => e@ == "Failed to decode header"@,
                },
            }
        }),
{
    match decode_response(data) {
        Some(MydiaResponse::HlsHeader(h)) => Ok(h),
        Some(MydiaResponse::Error(msg)) => {
            let mut e: String = String::from_str("Server error: ");
            e.append(msg.as_str());
            Err(e)
        },
        Some(_) => {
            proof {
                reveal_strlit("Unexpected response type");
            }
            Err(String::from_str("Unexpected response type"))
        },
        None => {
            proof {
                reveal_strlit("Failed to decode header");
            }
            Err(String::from_str("Failed to decode header"))
        },
    }
}

} // verus!
