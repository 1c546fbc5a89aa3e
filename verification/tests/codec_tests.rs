use mydia_p2p::codec::decode_request;
use mydia_p2p::codec::decode_response;
use mydia_p2p::codec::encode_request;
use mydia_p2p::codec::encode_response;
use mydia_p2p::protocol::BlobDownloadRequest;
use mydia_p2p::protocol::BlobDownloadResponse;
use mydia_p2p::protocol::GraphQLRequest;
use mydia_p2p::protocol::GraphQLResponse;
use mydia_p2p::protocol::HlsRequest;
use mydia_p2p::protocol::HlsResponseHeader;
use mydia_p2p::protocol::MydiaRequest;
use mydia_p2p::protocol::MydiaResponse;
use mydia_p2p::protocol::PairingRequest;
use mydia_p2p::protocol::PairingResponse;

#[test]
fn test_request_serialization() {
    let request = MydiaRequest::Ping;
    let data = encode_request(&request);
    let decoded: MydiaRequest = decode_request(&data).unwrap();
    assert_eq!(request, decoded);
}

#[test]
fn test_pairing_request_serialization() {
    let request = MydiaRequest::Pairing(PairingRequest {
        claim_code: "ABC123".to_string(),
        device_name: "Test Device".to_string(),
        device_type: "mobile".to_string(),
        device_os: Some("Android".to_string()),
    });
    let data = encode_request(&request);
    let decoded: MydiaRequest = decode_request(&data).unwrap();
    assert_eq!(request, decoded);
}

#[test]
fn test_response_serialization() {
    let response = MydiaResponse::Pairing(PairingResponse {
        success: true,
        media_token: Some("token123".to_string()),
        access_token: Some("access456".to_string()),
        device_token: Some("device789".to_string()),
        error: None,
        direct_urls: vec![],
    });
    let data = encode_response(&response);
    let decoded: MydiaResponse = decode_response(&data).unwrap();
    assert_eq!(response, decoded);
}

#[test]
fn test_graphql_request_serialization() {
    let request = MydiaRequest::GraphQL(GraphQLRequest {
        query: "query { movies { id title } }".to_string(),
        variables: Some(r#"{"limit": 10}"#.to_string()),
        operation_name: Some("GetMovies".to_string()),
        auth_token: Some("test_token_123".to_string()),
    });
    let data = encode_request(&request);
    let decoded: MydiaRequest = decode_request(&data).unwrap();
    assert_eq!(request, decoded);
}

#[test]
fn test_graphql_response_serialization() {
    let response = MydiaResponse::GraphQL(GraphQLResponse {
        data: Some(r#"{"movies": [{"id": "1", "title": "Test"}]}"#.to_string()),
        errors: None,
    });
    let data = encode_response(&response);
    let decoded: MydiaResponse = decode_response(&data).unwrap();
    assert_eq!(response, decoded);
}

#[test]
fn test_graphql_response_with_errors() {
    let response = MydiaResponse::GraphQL(GraphQLResponse {
        data: None,
        errors: Some(r#"[{"message": "Not found"}]"#.to_string()),
    });
    let data = encode_response(&response);
    let decoded: MydiaResponse = decode_response(&data).unwrap();
    assert_eq!(response, decoded);
}

#[test]
fn test_hls_request_serialization() {
    let request = MydiaRequest::HlsStream(HlsRequest {
        session_id: "session_123".to_string(),
        path: "index.m3u8".to_string(),
        range_start: None,
        range_end: None,
        auth_token: Some("token_abc".to_string()),
    });
    let data = encode_request(&request);
    let decoded: MydiaRequest = decode_request(&data).unwrap();
    assert_eq!(request, decoded);
}

#[test]
fn test_hls_request_with_range() {
    let request = MydiaRequest::HlsStream(HlsRequest {
        session_id: "session_456".to_string(),
        path: "segment_001.ts".to_string(),
        range_start: Some(0),
        range_end: Some(1023),
        auth_token: None,
    });
    let data = encode_request(&request);
    let decoded: MydiaRequest = decode_request(&data).unwrap();
    assert_eq!(request, decoded);
}

#[test]
fn test_hls_response_header_serialization() {
    let response = MydiaResponse::HlsHeader(HlsResponseHeader {
        status: 200,
        content_type: "application/vnd.apple.mpegurl".to_string(),
        content_length: 1024,
        content_range: None,
        cache_control: Some("max-age=3600".to_string()),
    });
    let data = encode_response(&response);
    let decoded: MydiaResponse = decode_response(&data).unwrap();
    assert_eq!(response, decoded);
}

#[test]
fn test_hls_response_header_with_range() {
    let response = MydiaResponse::HlsHeader(HlsResponseHeader {
        status: 206,
        content_type: "video/mp2t".to_string(),
        content_length: 1024,
        content_range: Some("bytes 0-1023/4096".to_string()),
        cache_control: None,
    });
    let data = encode_response(&response);
    let decoded: MydiaResponse = decode_response(&data).unwrap();
    assert_eq!(response, decoded);
}

#[test]
fn test_blob_download_request_serialization() {
    let request = MydiaRequest::BlobDownload(BlobDownloadRequest {
        job_id: "job_123".to_string(),
        auth_token: Some("token_abc".to_string()),
    });
    let data = encode_request(&request);
    let decoded: MydiaRequest = decode_request(&data).unwrap();
    assert_eq!(request, decoded);
}

#[test]
fn test_blob_download_response_serialization() {
    let response = MydiaResponse::BlobDownload(BlobDownloadResponse {
        success: true,
        ticket: Some("blob_ticket_xyz".to_string()),
        filename: Some("movie.mp4".to_string()),
        file_size: Some(1024 * 1024 * 100),
        error: None,
    });
    let data = encode_response(&response);
    let decoded: MydiaResponse = decode_response(&data).unwrap();
    assert_eq!(response, decoded);
}

#[test]
fn test_blob_download_response_error_serialization() {
    let response = MydiaResponse::BlobDownload(BlobDownloadResponse {
        success: false,
        ticket: None,
        filename: None,
        file_size: None,
        error: Some("Job not found".to_string()),
    });
    let data = encode_response(&response);
    let decoded: MydiaResponse = decode_response(&data).unwrap();
    assert_eq!(response, decoded);
}

#[test]
fn test_media_chunk_and_custom_round_trip() {
    let response = MydiaResponse::MediaChunk(vec![0u8, 1, 2, 255, 128]);
    let data = encode_response(&response);
    assert_eq!(decode_response(&data), Some(response));

    let response = MydiaResponse::Custom(vec![9u8; 300]);
    let data = encode_response(&response);
    assert_eq!(decode_response(&data), Some(response));

    let request = MydiaRequest::Custom(vec![1u8, 2, 3]);
    let data = encode_request(&request);
    assert_eq!(decode_request(&data), Some(request));

    let request = MydiaRequest::ReadMedia(mydia_p2p::protocol::ReadMediaRequest {
        file_path: "/media/movie.mkv".to_string(),
        offset: 123_456_789_012,
        length: 65536,
    });
    let data = encode_request(&request);
    assert_eq!(decode_request(&data), Some(request));
}

#[test]
fn test_error_response_round_trip() {
    let response = MydiaResponse::Error("Request timeout".to_string());
    let data = encode_response(&response);
    assert_eq!(decode_response(&data), Some(response));

    let response = MydiaResponse::Pong;
    let data = encode_response(&response);
    assert_eq!(decode_response(&data), Some(response));
}

#[test]
fn test_pairing_response_with_direct_urls() {
    let response = MydiaResponse::Pairing(PairingResponse {
        success: true,
        media_token: None,
        access_token: None,
        device_token: None,
        error: None,
        direct_urls: vec![
            "https://10.0.0.2:8096".to_string(),
            "https://[fe80::1]:8096".to_string(),
        ],
    });
    let data = encode_response(&response);
    assert_eq!(decode_response(&data), Some(response));
}

#[test]
fn test_decode_rejects_garbage_and_trailing_bytes() {
    // not a frame at all
    assert_eq!(decode_request(&vec![0xffu8, 0x00]), None);
    assert_eq!(decode_response(&vec![]), None);
    // a valid frame with a trailing byte is refused: frames are exact
    let mut data = encode_request(&MydiaRequest::Ping);
    data.push(0);
    assert_eq!(decode_request(&data), None);
    // a request frame is not a response frame with the same tag meaning
    let data = encode_request(&MydiaRequest::Ping);
    assert_eq!(decode_response(&data), Some(MydiaResponse::Pong));
}

#[test]
fn test_encoding_is_self_delimiting_and_tagged() {
    // sanity of the concrete wire shape: array header, then the tag
    let data = encode_request(&MydiaRequest::Ping);
    assert_eq!(data, vec![0x81u8, 0x00]);
    let data = encode_response(&MydiaResponse::Pong);
    assert_eq!(data, vec![0x81u8, 0x00]);
}
