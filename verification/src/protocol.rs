//! Message types of the request/response protocol, the event surface, and
//! the classification of a connection's path mix.
use vstd::prelude::*;

verus! {

/// A request sent from one peer to another.
#[derive(Debug, Clone, PartialEq)]
pub enum MydiaRequest {
    Ping,
    Pairing(PairingRequest),
    ReadMedia(ReadMediaRequest),
    GraphQL(GraphQLRequest),
    HlsStream(HlsRequest),
    BlobDownload(BlobDownloadRequest),
    Custom(Vec<u8>),
}

#[derive(Debug, Clone, PartialEq)]
pub struct PairingRequest {
    pub claim_code: String,
    pub device_name: String,
    pub device_type: String,
    pub device_os: Option<String>,
}

#[derive(Debug, Clone, PartialEq)]
pub struct ReadMediaRequest {
    pub file_path: String,
    pub offset: u64,
    pub length: u32,
}

#[derive(Debug, Clone, PartialEq)]
pub struct GraphQLRequest {
    pub query: String,
    pub variables: Option<String>,
    pub operation_name: Option<String>,
    pub auth_token: Option<String>,
}

/// Request for streaming manifests and segments over the server-push stream.
#[derive(Debug, Clone, PartialEq)]
pub struct HlsRequest {
    pub session_id: String,
    pub path: String,
    pub range_start: Option<u64>,
    pub range_end: Option<u64>,
    pub auth_token: Option<String>,
}

/// Header of a server-push stream, sent before the chunk sequence.
#[derive(Debug, Clone, PartialEq)]
pub struct HlsResponseHeader {
    pub status: u16,
    pub content_type: String,
    pub content_length: u64,
    pub content_range: Option<String>,
    pub cache_control: Option<String>,
}

/// Request for a downloadable-blob ticket.
#[derive(Debug, Clone, PartialEq)]
pub struct BlobDownloadRequest {
    pub job_id: String,
    pub auth_token: Option<String>,
}

/// Reply carrying a blob ticket, or an error.
#[derive(Debug, Clone, PartialEq)]
pub struct BlobDownloadResponse {
    pub success: bool,
    pub ticket: Option<String>,
    pub filename: Option<String>,
    pub file_size: Option<u64>,
    pub error: Option<String>,
}

/// Progress of a blob download, as reported to the embedder.
#[derive(Debug, Clone)]
pub enum BlobDownloadProgress {
    Started { total_size: u64 },
    Progress { downloaded: u64, total: u64 },
    Completed { file_path: String },
    Failed { error: String },
}

#[derive(Debug, Clone, PartialEq)]
pub struct GraphQLResponse {
    pub data: Option<String>,
    pub errors: Option<String>,
}

/// A response returned for a request.
#[derive(Debug, Clone, PartialEq)]
pub enum MydiaResponse {
    Pong,
    Pairing(PairingResponse),
    MediaChunk(Vec<u8>),
    GraphQL(GraphQLResponse),
    HlsHeader(HlsResponseHeader),
    BlobDownload(BlobDownloadResponse),
    Custom(Vec<u8>),
    Error(String),
}

#[derive(Debug, Clone, PartialEq)]
pub struct PairingResponse {
    pub success: bool,
    pub media_token: Option<String>,
    pub access_token: Option<String>,
    pub device_token: Option<String>,
    pub error: Option<String>,
    pub direct_urls: Vec<String>,
}

// ---------------------------------------------------------------------------
// Mathematical views of the message types.  A view mirrors a message with
// `Seq<char>` in place of `String` and `Seq<u8>` in place of `Vec<u8>`, so
// that contracts and the wire-format specification can speak of message
// values in full.
// ---------------------------------------------------------------------------
/// The character-sequence view of an optional string.
pub open spec fn view_opt_str(o: Option<String>) -> Option<Seq<char>> {
    match o {
        Some(s) => Some(s@),
        None => None,
    }
}

pub struct PairingRequestV {
    pub claim_code: Seq<char>,
    pub device_name: Seq<char>,
    pub device_type: Seq<char>,
    pub device_os: Option<Seq<char>>,
}

impl View for PairingRequest {
    type V = PairingRequestV;

    open spec fn view(&self) -> PairingRequestV {
        PairingRequestV {
            claim_code: self.claim_code@,
            device_name: self.device_name@,
            device_type: self.device_type@,
            device_os: view_opt_str(self.device_os),
        }
    }
}

pub struct ReadMediaRequestV {
    pub file_path: Seq<char>,
    pub offset: u64,
    pub length: u32,
}

impl View for ReadMediaRequest {
    type V = ReadMediaRequestV;

    open spec fn view(&self) -> ReadMediaRequestV {
        ReadMediaRequestV {
            file_path: self.file_path@,
            offset: self.offset,
            length: self.length,
        }
    }
}

pub struct GraphQLRequestV {
    pub query: Seq<char>,
    pub variables: Option<Seq<char>>,
    pub operation_name: Option<Seq<char>>,
    pub auth_token: Option<Seq<char>>,
}

impl View for GraphQLRequest {
    type V = GraphQLRequestV;

    open spec fn view(&self) -> GraphQLRequestV {
        GraphQLRequestV {
            query: self.query@,
            variables: view_opt_str(self.variables),
            operation_name: view_opt_str(self.operation_name),
            auth_token: view_opt_str(self.auth_token),
        }
    }
}

pub struct HlsRequestV {
    pub session_id: Seq<char>,
    pub path: Seq<char>,
    pub range_start: Option<u64>,
    pub range_end: Option<u64>,
    pub auth_token: Option<Seq<char>>,
}

impl View for HlsRequest {
    type V = HlsRequestV;

    open spec fn view(&self) -> HlsRequestV {
        HlsRequestV {
            session_id: self.session_id@,
            path: self.path@,
            range_start: self.range_start,
            range_end: self.range_end,
            auth_token: view_opt_str(self.auth_token),
        }
    }
}

pub struct HlsResponseHeaderV {
    pub status: u16,
    pub content_type: Seq<char>,
    pub content_length: u64,
    pub content_range: Option<Seq<char>>,
    pub cache_control: Option<Seq<char>>,
}

impl View for HlsResponseHeader {
    type V = HlsResponseHeaderV;

    open spec fn view(&self) -> HlsResponseHeaderV {
        HlsResponseHeaderV {
            status: self.status,
            content_type: self.content_type@,
            content_length: self.content_length,
            content_range: view_opt_str(self.content_range),
            cache_control: view_opt_str(self.cache_control),
        }
    }
}

pub struct BlobDownloadRequestV {
    pub job_id: Seq<char>,
    pub auth_token: Option<Seq<char>>,
}

impl View for BlobDownloadRequest {
    type V = BlobDownloadRequestV;

    open spec fn view(&self) -> BlobDownloadRequestV {
        BlobDownloadRequestV {
            job_id: self.job_id@,
            auth_token: view_opt_str(self.auth_token),
        }
    }
}

pub struct BlobDownloadResponseV {
    pub success: bool,
    pub ticket: Option<Seq<char>>,
    pub filename: Option<Seq<char>>,
    pub file_size: Option<u64>,
    pub error: Option<Seq<char>>,
}

impl View for BlobDownloadResponse {
    type V = BlobDownloadResponseV;

    open spec fn view(&self) -> BlobDownloadResponseV {
        BlobDownloadResponseV {
            success: self.success,
            ticket: view_opt_str(self.ticket),
            filename: view_opt_str(self.filename),
            file_size: self.file_size,
            error: view_opt_str(self.error),
        }
    }
}

pub struct GraphQLResponseV {
    pub data: Option<Seq<char>>,
    pub errors: Option<Seq<char>>,
}

impl View for GraphQLResponse {
    type V = GraphQLResponseV;

    open spec fn view(&self) -> GraphQLResponseV {
        GraphQLResponseV {
            data: view_opt_str(self.data),
            errors: view_opt_str(self.errors),
        }
    }
}

pub struct PairingResponseV {
    pub success: bool,
    pub media_token: Option<Seq<char>>,
    pub access_token: Option<Seq<char>>,
    pub device_token: Option<Seq<char>>,
    pub error: Option<Seq<char>>,
    pub direct_urls: Seq<Seq<char>>,
}

impl View for PairingResponse {
    type V = PairingResponseV;

    open spec fn view(&self) -> PairingResponseV {
        PairingResponseV {
            success: self.success,
            media_token: view_opt_str(self.media_token),
            access_token: view_opt_str(self.access_token),
            device_token: view_opt_str(self.device_token),
            error: view_opt_str(self.error),
            direct_urls: self.direct_urls@.map_values(|s: String| s@),
        }
    }
}

pub enum MydiaRequestV {
    Ping,
    Pairing(PairingRequestV),
    ReadMedia(ReadMediaRequestV),
    GraphQL(GraphQLRequestV),
    HlsStream(HlsRequestV),
    BlobDownload(BlobDownloadRequestV),
    Custom(Seq<u8>),
}

impl View for MydiaRequest {
    type V = MydiaRequestV;

    open spec fn view(&self) -> MydiaRequestV {
        match self {
            MydiaRequest::Ping => MydiaRequestV::Ping,
            MydiaRequest::Pairing(p) => MydiaRequestV::Pairing(p@),
            MydiaRequest::ReadMedia(m) => MydiaRequestV::ReadMedia(m@),
            MydiaRequest::GraphQL(g) => MydiaRequestV::GraphQL(g@),
            MydiaRequest::HlsStream(h) => MydiaRequestV::HlsStream(h@),
            MydiaRequest::BlobDownload(b) => MydiaRequestV::BlobDownload(b@),
            MydiaRequest::Custom(bytes) => MydiaRequestV::Custom(bytes@),
        }
    }
}

pub enum MydiaResponseV {
    Pong,
    Pairing(PairingResponseV),
    MediaChunk(Seq<u8>),
    GraphQL(GraphQLResponseV),
    HlsHeader(HlsResponseHeaderV),
    BlobDownload(BlobDownloadResponseV),
    Custom(Seq<u8>),
    Error(Seq<char>),
}

impl View for MydiaResponse {
    type V = MydiaResponseV;

    open spec fn view(&self) -> MydiaResponseV {
        match self {
            MydiaResponse::Pong => MydiaResponseV::Pong,
            MydiaResponse::Pairing(p) => MydiaResponseV::Pairing(p@),
            MydiaResponse::MediaChunk(bytes) => MydiaResponseV::MediaChunk(bytes@),
            MydiaResponse::GraphQL(g) => MydiaResponseV::GraphQL(g@),
            MydiaResponse::HlsHeader(h) => MydiaResponseV::HlsHeader(h@),
            MydiaResponse::BlobDownload(b) => MydiaResponseV::BlobDownload(b@),
            MydiaResponse::Custom(bytes) => MydiaResponseV::Custom(bytes@),
            MydiaResponse::Error(e) => MydiaResponseV::Error(e@),
        }
    }
}

/// Events emitted by the host to the embedder.
#[derive(Debug, Clone)]
pub enum Event {
    Connected { peer_id: String, connection_type: PeerConnectionType },
    Disconnected(String),
    RequestReceived { peer: String, request: MydiaRequest, request_id: String },
    HlsStreamRequest { peer: String, request: HlsRequest, stream_id: String },
    ConnectionTypeChanged { peer_id: String, connection_type: PeerConnectionType },
    RelayConnected,
    Ready { node_addr: String },
    Log { level: LogLevel, target: String, message: String },
}

/// Severity of a forwarded diagnostic record.
#[derive(Debug, Clone, Copy, PartialEq, Eq, Structural)]
pub enum LogLevel {
    Trace,
    Debug,
    Info,
    Warn,
    Error,
}

/// One path of a connection, reduced to the two facts the host reads.
#[derive(Debug, Clone, Copy, PartialEq, Eq, Structural)]
pub struct PathInfo {
    pub is_ip: bool,
    pub is_relay: bool,
}

/// Kind of connectivity a peer connection currently has.
#[derive(Debug, Clone, Copy, PartialEq, Eq, Structural)]
pub enum PeerConnectionType {
    /// Direct peer-to-peer connection.
    Direct,
    /// Connection via a relay server.
    Relay,
    /// Both relay and direct paths are live.
    Mixed,
    /// No active path.
    NoPaths,
}

/// True when some path of `paths` is a direct (IP-addressed) path.
pub open spec fn spec_has_direct(paths: Seq<PathInfo>) -> bool {
    exists|i: int| 0 <= i < paths.len() && paths[i].is_ip
}

/// True when some path of `paths` goes through a relay.
pub open spec fn spec_has_relay(paths: Seq<PathInfo>) -> bool {
    exists|i: int| 0 <= i < paths.len() && paths[i].is_relay
}

/// The connection type that a given path list classifies to.
pub open spec fn spec_connection_type(paths: Seq<PathInfo>) -> PeerConnectionType {
    if paths.len() == 0 {
        PeerConnectionType::NoPaths
    } else if spec_has_direct(paths) && spec_has_relay(paths) {
        PeerConnectionType::Mixed
    } else if spec_has_direct(paths) {
        PeerConnectionType::Direct
    } else if spec_has_relay(paths) {
        PeerConnectionType::Relay
    } else {
        PeerConnectionType::NoPaths
    }
}

impl PeerConnectionType {
    /// Classify a connection from its list of live paths: `Direct` when only
    /// direct paths exist, `Relay` when only relay paths, `Mixed` for both,
    /// `NoPaths` for an empty or unclassifiable list.
    pub fn from_paths(paths: &Vec<PathInfo>) -> (r: PeerConnectionType)
        ensures
            r == spec_connection_type(paths@),
    {
        if paths.len() == 0 {
            return PeerConnectionType::NoPaths;
        }
        let mut has_relay = false;
        let mut has_direct = false;
        let mut i: usize = 0;
        while i < paths.len()
            invariant
                0 <= i <= paths@.len(),
                has_direct == spec_has_direct(paths@.subrange(0, i as int)),
                has_relay == spec_has_relay(paths@.subrange(0, i as int)),
            decreases paths@.len() - i,
        {
            let p = paths[i];
            proof {
                assert(paths@.subrange(0, i + 1 as int).drop_last() =~= paths@.subrange(
                    0,
                    i as int,
                ));
                assert(paths@.subrange(0, i + 1 as int).last() == paths@[i as int]);
            }
            if p.is_relay {
                has_relay = true;
            }
            if p.is_ip {
                has_direct = true;
            }
            proof {
                let pre = paths@.subrange(0, i as int);
                let cur = paths@.subrange(0, i + 1 as int);
                assert forall|j: int| 0 <= j < cur.len() implies cur[j] == if j < i {
                    pre[j]
                } else {
                    paths@[i as int]
                } by {}
                if has_direct {
                    if p.is_ip {
                        assert(cur[i as int].is_ip);
                    }
                }
                if has_relay {
                    if p.is_relay {
                        assert(cur[i as int].is_relay);
                    }
                }
            }
            i = i + 1;
        }
        proof {
            assert(paths@.subrange(0, paths@.len() as int) =~= paths@);
        }
        match (has_direct, has_relay) {
            (true, true) => PeerConnectionType::Mixed,
            (true, false) => PeerConnectionType::Direct,
            (false, true) => PeerConnectionType::Relay,
            (false, false) => PeerConnectionType::NoPaths,
        }
    }

    /// The lower-case name of the connection type.
    pub fn as_str(&self) -> (r: &'static str)
        ensures
            r@ == self.spec_name(),
    {
        proof {
            reveal_strlit("direct");
            reveal_strlit("relay");
            reveal_strlit("mixed");
            reveal_strlit("none");
        }
        match self {
            PeerConnectionType::Direct => "direct",
            PeerConnectionType::Relay => "relay",
            PeerConnectionType::Mixed => "mixed",
            PeerConnectionType::NoPaths => "none",
        }
    }

    /// The name that `as_str` returns for each variant.
    pub open spec fn spec_name(self) -> Seq<char> {
        match self {
            PeerConnectionType::Direct => "direct"@,
            PeerConnectionType::Relay => "relay"@,
            PeerConnectionType::Mixed => "mixed"@,
            PeerConnectionType::NoPaths => "none"@,
        }
    }
}

impl Default for PeerConnectionType {
    /// A fresh value classifies as `None`.
    fn default() -> (r: Self)
        ensures
            r == PeerConnectionType::NoPaths,
    {
        PeerConnectionType::NoPaths
    }
}

/// Point-in-time snapshot of the host's network state.
#[derive(Debug, Clone)]
pub struct NetworkStats {
    pub connected_peers: usize,
    pub relay_connected: bool,
    pub relay_url: Option<String>,
    pub peer_connection_type: PeerConnectionType,
}

impl Default for NetworkStats {
    /// The snapshot of a host with no connections and no relay.
    fn default() -> (r: Self)
        ensures
            r.connected_peers == 0,
            r.relay_connected == false,
            r.relay_url is None,
            r.peer_connection_type == PeerConnectionType::NoPaths,
    {
        NetworkStats {
            connected_peers: 0,
            relay_connected: false,
            relay_url: None,
            peer_connection_type: PeerConnectionType::NoPaths,
        }
    }
}

/// Configuration accepted when a host is created.
#[derive(Debug, Clone)]
pub struct HostConfig {
    /// Custom relay URL; when absent the transport's default relays are used.
    pub relay_url: Option<String>,
    /// UDP port for direct connections; absent or 0 means a random port.
    pub bind_port: Option<u16>,
    /// Path of the stored keypair; absent means an ephemeral identity.
    pub keypair_path: Option<String>,
}

impl Default for HostConfig {
    /// The all-default configuration: default relays, random port,
    /// ephemeral identity.
    fn default() -> (r: Self)
        ensures
            r.relay_url is None,
            r.bind_port is None,
            r.keypair_path is None,
    {
        HostConfig { relay_url: None, bind_port: None, keypair_path: None }
    }
}

} // verus!
