//! The embedder-facing mirror types of the mobile bridge, and the verified
//! conversions between them and the core message types.  The bridge runtime
//! itself lives outside; here stand the data shapes it exchanges and the
//! event-to-text mapping of its event stream.
use vstd::prelude::*;

use crate::protocol::BlobDownloadRequest;
use crate::protocol::BlobDownloadResponse;
use crate::protocol::Event;
use crate::protocol::GraphQLRequest;
use crate::protocol::GraphQLResponse;
use crate::protocol::HlsRequest;
use crate::protocol::HlsResponseHeader;
use crate::protocol::NetworkStats;
use crate::protocol::PairingRequest;
use crate::protocol::PairingResponse;
use crate::protocol::PeerConnectionType;
use vstd::std_specs::convert::FromSpec;
use vstd::string::StringExecFns;

verus! {

pub struct FlutterPairingRequest {
    pub claim_code: String,
    pub device_name: String,
    pub device_type: String,
    pub device_os: Option<String>,
}

pub struct FlutterPairingResponse {
    pub success: bool,
    pub media_token: Option<String>,
    pub access_token: Option<String>,
    pub device_token: Option<String>,
    pub error: Option<String>,
    pub direct_urls: Vec<String>,
}

/// Connection type for a peer, as shown in the embedder's interface.
#[derive(Debug, Clone, Copy, PartialEq, Eq, Structural)]
pub enum FlutterConnectionType {
    Direct,
    Relay,
    Mixed,
    NoPaths,
}

impl From<PeerConnectionType> for FlutterConnectionType {
    fn from(ct: PeerConnectionType) -> (r: Self) {
        match ct {
            PeerConnectionType::Direct => FlutterConnectionType::Direct,
            PeerConnectionType::Relay => FlutterConnectionType::Relay,
            PeerConnectionType::Mixed => FlutterConnectionType::Mixed,
            PeerConnectionType::NoPaths => FlutterConnectionType::NoPaths,
        }
    }
}

impl vstd::std_specs::convert::FromSpecImpl<PeerConnectionType> for FlutterConnectionType {
    open spec fn obeys_from_spec() -> bool {
        true
    }

    open spec fn from_spec(ct: PeerConnectionType) -> Self {
        match ct {
            PeerConnectionType::Direct => FlutterConnectionType::Direct,
            PeerConnectionType::Relay => FlutterConnectionType::Relay,
            PeerConnectionType::Mixed => FlutterConnectionType::Mixed,
            PeerConnectionType::NoPaths => FlutterConnectionType::NoPaths,
        }
    }
}

/// Network statistics for the embedder's interface.
pub struct FlutterNetworkStats {
    pub connected_peers: usize,
    pub relay_connected: bool,
    pub relay_url: Option<String>,
    pub peer_connection_type: FlutterConnectionType,
}

pub struct FlutterGraphQLRequest {
    pub query: String,
    pub variables: Option<String>,
    pub operation_name: Option<String>,
    pub auth_token: Option<String>,
}

pub struct FlutterGraphQLResponse {
    pub data: Option<String>,
    pub errors: Option<String>,
}

pub struct FlutterHlsRequest {
    pub session_id: String,
    pub path: String,
    pub range_start: Option<u64>,
    pub range_end: Option<u64>,
    pub auth_token: Option<String>,
}

pub struct FlutterHlsResponseHeader {
    pub status: u16,
    pub content_type: String,
    pub content_length: u64,
    pub content_range: Option<String>,
    pub cache_control: Option<String>,
}

/// One step of a streamed server-push response.
pub enum FlutterHlsStreamEvent {
    Header(FlutterHlsResponseHeader),
    Chunk(Vec<u8>),
    End,
    Error(String),
}

/// A complete, collected server-push response.
pub struct FlutterHlsResponse {
    pub header: FlutterHlsResponseHeader,
    pub data: Vec<u8>,
}

pub struct FlutterBlobDownloadRequest {
    pub job_id: String,
    pub auth_token: Option<String>,
}

pub struct FlutterBlobDownloadResponse {
    pub success: bool,
    pub ticket: Option<String>,
    pub filename: Option<String>,
    pub file_size: Option<u64>,
    pub error: Option<String>,
}

/// Progress of a blob download, as streamed to the embedder.
pub enum FlutterBlobDownloadProgress {
    Started { total_size: u64 },
    Progress { downloaded: u64, total: u64 },
    Completed { file_path: String },
    Failed { error: String },
}

/// A parsed blob ticket, as handed to the embedder.
pub struct BlobTicket {
    pub hash: String,
    pub file_size: u64,
    pub filename: String,
    pub file_path: String,
}

// ---------------------------------------------------------------------------
// Conversions between bridge and core shapes.
// ---------------------------------------------------------------------------
impl FlutterPairingRequest {
    /// The core request with the same fields.
    pub fn into_core(self) -> (r: PairingRequest)
        ensures
            r.claim_code == self.claim_code,
            r.device_name == self.device_name,
            r.device_type == self.device_type,
            r.device_os == self.device_os,
    {
        PairingRequest {
            claim_code: self.claim_code,
            device_name: self.device_name,
            device_type: self.device_type,
            device_os: self.device_os,
        }
    }
}

impl FlutterPairingResponse {
    /// The bridge response with the same fields.
    pub fn from_core(r: PairingResponse) -> (f: FlutterPairingResponse)
        ensures
            f.success == r.success,
            f.media_token == r.media_token,
            f.access_token == r.access_token,
            f.device_token == r.device_token,
            f.error == r.error,
            f.direct_urls == r.direct_urls,
    {
        FlutterPairingResponse {
            success: r.success,
            media_token: r.media_token,
            access_token: r.access_token,
            device_token: r.device_token,
            error: r.error,
            direct_urls: r.direct_urls,
        }
    }
}

impl FlutterGraphQLRequest {
    pub fn into_core(self) -> (r: GraphQLRequest)
        ensures
            r.query == self.query,
            r.variables == self.variables,
            r.operation_name == self.operation_name,
            r.auth_token == self.auth_token,
    {
        GraphQLRequest {
            query: self.query,
            variables: self.variables,
            operation_name: self.operation_name,
            auth_token: self.auth_token,
        }
    }
}

impl FlutterGraphQLResponse {
    pub fn from_core(r: GraphQLResponse) -> (f: FlutterGraphQLResponse)
        ensures
            f.data == r.data,
            f.errors == r.errors,
    {
        FlutterGraphQLResponse { data: r.data, errors: r.errors }
    }
}

impl FlutterHlsRequest {
    pub fn into_core(self) -> (r: HlsRequest)
        ensures
            r.session_id == self.session_id,
            r.path == self.path,
            r.range_start == self.range_start,
            r.range_end == self.range_end,
            r.auth_token == self.auth_token,
    {
        HlsRequest {
            session_id: self.session_id,
            path: self.path,
            range_start: self.range_start,
            range_end: self.range_end,
            auth_token: self.auth_token,
        }
    }
}

impl FlutterHlsResponseHeader {
    pub fn from_core(h: HlsResponseHeader) -> (f: FlutterHlsResponseHeader)
        ensures
            f.status == h.status,
            f.content_type == h.content_type,
            f.content_length == h.content_length,
            f.content_range == h.content_range,
            f.cache_control == h.cache_control,
    {
        FlutterHlsResponseHeader {
            status: h.status,
            content_type: h.content_type,
            content_length: h.content_length,
            content_range: h.content_range,
            cache_control: h.cache_control,
        }
    }
}

impl FlutterBlobDownloadRequest {
    pub fn into_core(self) -> (r: BlobDownloadRequest)
        ensures
            r.job_id == self.job_id,
            r.auth_token == self.auth_token,
    {
        BlobDownloadRequest { job_id: self.job_id, auth_token: self.auth_token }
    }
}

impl FlutterBlobDownloadResponse {
    pub fn from_core(r: BlobDownloadResponse) -> (f: FlutterBlobDownloadResponse)
        ensures
            f.success == r.success,
            f.ticket == r.ticket,
            f.filename == r.filename,
            f.file_size == r.file_size,
            f.error == r.error,
    {
        FlutterBlobDownloadResponse {
            success: r.success,
            ticket: r.ticket,
            filename: r.filename,
            file_size: r.file_size,
            error: r.error,
        }
    }
}

impl FlutterNetworkStats {
    pub fn from_core(s: NetworkStats) -> (f: FlutterNetworkStats)
        ensures
            f.connected_peers == s.connected_peers,
            f.relay_connected == s.relay_connected,
            f.relay_url == s.relay_url,
            f.peer_connection_type
                == FlutterConnectionType::from_spec(s.peer_connection_type),
    {
        let peer_connection_type = FlutterConnectionType::from(s.peer_connection_type);
        FlutterNetworkStats {
            connected_peers: s.connected_peers,
            relay_connected: s.relay_connected,
            relay_url: s.relay_url,
            peer_connection_type,
        }
    }
}

// ---------------------------------------------------------------------------
// The bridge's event stream.
// ---------------------------------------------------------------------------
/// The line the bridge's event stream carries for an event; request-side
/// and diagnostic events are not the client's to handle and yield nothing.
pub open spec fn spec_event_message(e: Event) -> Option<Seq<char>> {
    match e {
        Event::Connected { peer_id, .. } => Some("connected:"@ + peer_id@),
        Event::Disconnected(peer_id) => Some("disconnected:"@ + peer_id@),
        Event::RelayConnected => Some("relay_connected"@),
        Event::Ready { node_addr } => Some("ready:"@ + node_addr@),
        _ => None,
    }
}

/// Render an event for the bridge's event stream.
pub fn event_stream_message(e: &Event) -> (r: Option<String>)
    ensures
        match r {
            Some(s) => spec_event_message(*e) == Some(s@),
            None => spec_event_message(*e) is None,
        },
{
    match e {
        Event::Connected { peer_id, .. } => {
            let mut s: String = String::from_str("connected:");
            s.append(peer_id.as_str());
            Some(s)
        },
        Event::Disconnected(peer_id) => {
            let mut s: String = String::from_str("disconnected:");
            s.append(peer_id.as_str());
            Some(s)
        },
        Event::RelayConnected => Some(String::from_str("relay_connected")),
        Event::Ready { node_addr } => {
            let mut s: String = String::from_str("ready:");
            s.append(node_addr.as_str());
            Some(s)
        },
        _ => None,
    }
}

} // verus!
