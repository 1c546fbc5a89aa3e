//! The message codec: every request and response variant is encoded as a
//! tagged array of items.  The encoders have total spec-level mirrors over
//! the message views, the decoders are pinned to spec-level parsers that
//! demand exact consumption, and round-trip lemmas show that decoding
//! inverts encoding for every variant.
use vstd::prelude::*;

use crate::cbor::arr_dec;
use crate::cbor::arr_enc;
use crate::cbor::bool_dec;
use crate::cbor::bool_enc;
use crate::cbor::lemma_bool_round_trip;
use crate::cbor::lemma_cat_assoc;
use crate::cbor::lemma_peel_bool;
use crate::cbor::lemma_peel_opt_text;
use crate::cbor::lemma_peel_text;
use crate::cbor::lemma_peel_text_list;
use crate::cbor::lemma_peel_uint;
use crate::cbor::lemma_head_round_trip;
use crate::cbor::lemma_opt_text_round_trip;
use crate::cbor::lemma_opt_uint_round_trip;
use crate::cbor::lemma_raw_round_trip;
use crate::cbor::lemma_text_round_trip;
use crate::cbor::lemma_uint_round_trip;
use crate::cbor::opt_text_dec;
use crate::cbor::opt_text_enc;
use crate::cbor::opt_u64_view;
use crate::cbor::opt_uint_dec;
use crate::cbor::opt_uint_enc;
use crate::cbor::pow256;
use crate::cbor::push_bool;
use crate::cbor::push_head;
use crate::cbor::push_opt_text;
use crate::cbor::push_opt_u64;
use crate::cbor::push_raw;
use crate::cbor::push_text;
use crate::cbor::push_text_list;
use crate::cbor::push_uint;
use crate::cbor::raw_dec;
use crate::cbor::raw_enc;
use crate::cbor::read_bool;
use crate::cbor::read_head;
use crate::cbor::read_opt_text;
use crate::cbor::read_opt_u64;
use crate::cbor::read_raw;
use crate::cbor::read_text;
use crate::cbor::read_text_list;
use crate::cbor::read_uint;
use crate::cbor::text_dec;
use crate::cbor::text_enc;
use crate::cbor::text_fits;
use crate::cbor::text_list_dec;
use crate::cbor::text_list_enc;
use crate::cbor::uint_dec;
use crate::cbor::uint_enc;
use crate::protocol::BlobDownloadRequest;
use crate::protocol::BlobDownloadRequestV;
use crate::protocol::GraphQLRequest;
use crate::protocol::GraphQLRequestV;
use crate::protocol::HlsRequest;
use crate::protocol::HlsRequestV;
use crate::protocol::MydiaRequest;
use crate::protocol::MydiaRequestV;
use crate::protocol::PairingRequest;
use crate::protocol::PairingRequestV;
use crate::protocol::ReadMediaRequest;
use crate::protocol::BlobDownloadResponse;
use crate::protocol::BlobDownloadResponseV;
use crate::protocol::GraphQLResponse;
use crate::protocol::GraphQLResponseV;
use crate::protocol::HlsResponseHeader;
use crate::protocol::HlsResponseHeaderV;
use crate::protocol::MydiaResponse;
use crate::protocol::MydiaResponseV;
use crate::protocol::PairingResponse;
use crate::protocol::PairingResponseV;
use crate::protocol::ReadMediaRequestV;

verus! {

/// True when an optional text value fits the wire format's length header.
pub open spec fn opt_text_fits(o: Option<Seq<char>>) -> bool {
    o matches Some(t) ==> text_fits(t)
}

/// Shifting a suffix: taking a suffix of a suffix is taking the later
/// suffix of the whole.
pub proof fn lemma_tail_shift(d: Seq<u8>, p1: int, p2: int)
    requires
        0 <= p1 <= p2 <= d.len(),
    ensures
        d.subrange(p1, d.len() as int).subrange(p2 - p1, d.len() - p1) =~= d.subrange(
            p2,
            d.len() as int,
        ),
{
}

// ---------------------------------------------------------------------------
// Request encoding.
// ---------------------------------------------------------------------------
/// The wire encoding of a request: an array header, a numeric variant tag,
/// then the variant's fields in order.
pub open spec fn req_enc(r: MydiaRequestV) -> Seq<u8> {
    match r {
        MydiaRequestV::Ping => arr_enc(1) + uint_enc(0),
        MydiaRequestV::Pairing(p) => arr_enc(5) + uint_enc(1) + text_enc(p.claim_code) + text_enc(
            p.device_name,
        ) + text_enc(p.device_type) + opt_text_enc(p.device_os),
        MydiaRequestV::ReadMedia(m) => arr_enc(4) + uint_enc(2) + text_enc(m.file_path) + uint_enc(
            m.offset as nat,
        ) + uint_enc(m.length as nat),
        MydiaRequestV::GraphQL(g) => arr_enc(5) + uint_enc(3) + text_enc(g.query) + opt_text_enc(
            g.variables,
        ) + opt_text_enc(g.operation_name) + opt_text_enc(g.auth_token),
        MydiaRequestV::HlsStream(h) => arr_enc(6) + uint_enc(4) + text_enc(h.session_id)
            + text_enc(h.path) + opt_uint_enc(opt_u64_view(h.range_start)) + opt_uint_enc(
            opt_u64_view(h.range_end),
        ) + opt_text_enc(h.auth_token),
        MydiaRequestV::BlobDownload(b) => arr_enc(3) + uint_enc(5) + text_enc(b.job_id)
            + opt_text_enc(b.auth_token),
        MydiaRequestV::Custom(bytes) => arr_enc(2) + uint_enc(6) + raw_enc(bytes),
    }
}

/// True when every field of the request fits the wire format's length
/// headers; any value built from in-memory strings and buffers does.
pub open spec fn req_fits(r: MydiaRequestV) -> bool {
    match r {
        MydiaRequestV::Ping => true,
        MydiaRequestV::Pairing(p) => text_fits(p.claim_code) && text_fits(p.device_name)
            && text_fits(p.device_type) && opt_text_fits(p.device_os),
        MydiaRequestV::ReadMedia(m) => text_fits(m.file_path),
        MydiaRequestV::GraphQL(g) => text_fits(g.query) && opt_text_fits(g.variables)
            && opt_text_fits(g.operation_name) && opt_text_fits(g.auth_token),
        MydiaRequestV::HlsStream(h) => text_fits(h.session_id) && text_fits(h.path)
            && opt_text_fits(h.auth_token),
        MydiaRequestV::BlobDownload(b) => text_fits(b.job_id) && opt_text_fits(b.auth_token),
        MydiaRequestV::Custom(bytes) => bytes.len() < pow256(8),
    }
}

// ---------------------------------------------------------------------------
// Request decoding: one parser per variant body, each demanding that the
// fields consume the whole remaining suffix, and a top-level parser that
// checks the array size and dispatches on the tag.
// ---------------------------------------------------------------------------
#[verifier::opaque]
pub open spec fn pairing_req_dec(s: Seq<u8>) -> Option<PairingRequestV> {
    match text_dec(s) {
        None => None,
        Some((claim_code, u1)) => {
            let s1 = s.subrange(u1, s.len() as int);
            match text_dec(s1) {
                None => None,
                Some((device_name, u2)) => {
                    let s2 = s1.subrange(u2, s1.len() as int);
                    match text_dec(s2) {
                        None => None,
                        Some((device_type, u3)) => {
                            let s3 = s2.subrange(u3, s2.len() as int);
                            match opt_text_dec(s3) {
                                None => None,
                                Some((device_os, u4)) => if u4 == s3.len() {
                                    Some(
                                        (PairingRequestV {
                                            claim_code,
                                            device_name,
                                            device_type,
                                            device_os,
                                        }),
                                    )
                                } else {
                                    None
                                },
                            }
                        },
                    }
                },
            }
        },
    }
}

#[verifier::opaque]
pub open spec fn read_media_req_dec(s: Seq<u8>) -> Option<ReadMediaRequestV> {
    match text_dec(s) {
        None => None,
        Some((file_path, u1)) => {
            let s1 = s.subrange(u1, s.len() as int);
            match uint_dec(s1) {
                None => None,
                Some((offset, u2)) => {
                    let s2 = s1.subrange(u2, s1.len() as int);
                    match uint_dec(s2) {
                        None => None,
                        Some((length, u3)) => if u3 == s2.len() && offset < pow256(8) && length
                            < 0x100000000 {
                            Some(
                                (ReadMediaRequestV {
                                    file_path,
                                    offset: offset as u64,
                                    length: length as u32,
                                }),
                            )
                        } else {
                            None
                        },
                    }
                },
            }
        },
    }
}

#[verifier::opaque]
pub open spec fn graphql_req_dec(s: Seq<u8>) -> Option<GraphQLRequestV> {
    match text_dec(s) {
        None => None,
        Some((query, u1)) => {
            let s1 = s.subrange(u1, s.len() as int);
            match opt_text_dec(s1) {
                None => None,
                Some((variables, u2)) => {
                    let s2 = s1.subrange(u2, s1.len() as int);
                    match opt_text_dec(s2) {
                        None => None,
                        Some((operation_name, u3)) => {
                            let s3 = s2.subrange(u3, s2.len() as int);
                            match opt_text_dec(s3) {
                                None => None,
                                Some((auth_token, u4)) => if u4 == s3.len() {
                                    Some(
                                        (GraphQLRequestV {
                                            query,
                                            variables,
                                            operation_name,
                                            auth_token,
                                        }),
                                    )
                                } else {
                                    None
                                },
                            }
                        },
                    }
                },
            }
        },
    }
}

#[verifier::opaque]
pub open spec fn hls_req_dec(s: Seq<u8>) -> Option<HlsRequestV> {
    match text_dec(s) {
        None => None,
        Some((session_id, u1)) => {
            let s1 = s.subrange(u1, s.len() as int);
            match text_dec(s1) {
                None => None,
                Some((path, u2)) => {
                    let s2 = s1.subrange(u2, s1.len() as int);
                    match opt_uint_dec(s2) {
                        None => None,
                        Some((range_start, u3)) => {
                            let s3 = s2.subrange(u3, s2.len() as int);
                            match opt_uint_dec(s3) {
                                None => None,
                                Some((range_end, u4)) => {
                                    let s4 = s3.subrange(u4, s3.len() as int);
                                    match opt_text_dec(s4) {
                                        None => None,
                                        Some((auth_token, u5)) => if u5 == s4.len() && (range_start
                                            matches Some(v) ==> v < pow256(8)) && (range_end
                                            matches Some(v) ==> v < pow256(8)) {
                                            Some(
                                                (HlsRequestV {
                                                    session_id,
                                                    path,
                                                    range_start: match range_start {
                                                        Some(v) => Some(v as u64),
                                                        None => None,
                                                    },
                                                    range_end: match range_end {
                                                        Some(v) => Some(v as u64),
                                                        None => None,
                                                    },
                                                    auth_token,
                                                }),
                                            )
                                        } else {
                                            None
                                        },
                                    }
                                },
                            }
                        },
                    }
                },
            }
        },
    }
}

#[verifier::opaque]
pub open spec fn blob_req_dec(s: Seq<u8>) -> Option<BlobDownloadRequestV> {
    match text_dec(s) {
        None => None,
        Some((job_id, u1)) => {
            let s1 = s.subrange(u1, s.len() as int);
            match opt_text_dec(s1) {
                None => None,
                Some((auth_token, u2)) => if u2 == s1.len() {
                    Some((BlobDownloadRequestV { job_id, auth_token }))
                } else {
                    None
                },
            }
        },
    }
}

/// Parse a whole request frame; the frame must be consumed exactly.
pub open spec fn req_dec(s: Seq<u8>) -> Option<MydiaRequestV> {
    match arr_dec(s) {
        None => None,
        Some((k, u0)) => {
            let s1 = s.subrange(u0, s.len() as int);
            match uint_dec(s1) {
                None => None,
                Some((tag, u1)) => {
                    let s2 = s1.subrange(u1, s1.len() as int);
                    if tag == 0 && k == 1 {
                        if s2.len() == 0 {
                            Some(MydiaRequestV::Ping)
                        } else {
                            None
                        }
                    } else if tag == 1 && k == 5 {
                        match pairing_req_dec(s2) {
                            Some(p) => Some(MydiaRequestV::Pairing(p)),
                            None => None,
                        }
                    } else if tag == 2 && k == 4 {
                        match read_media_req_dec(s2) {
                            Some(m) => Some(MydiaRequestV::ReadMedia(m)),
                            None => None,
                        }
                    } else if tag == 3 && k == 5 {
                        match graphql_req_dec(s2) {
                            Some(g) => Some(MydiaRequestV::GraphQL(g)),
                            None => None,
                        }
                    } else if tag == 4 && k == 6 {
                        match hls_req_dec(s2) {
                            Some(h) => Some(MydiaRequestV::HlsStream(h)),
                            None => None,
                        }
                    } else if tag == 5 && k == 3 {
                        match blob_req_dec(s2) {
                            Some(b) => Some(MydiaRequestV::BlobDownload(b)),
                            None => None,
                        }
                    } else if tag == 6 && k == 2 {
                        match raw_dec(s2) {
                            Some((bytes, u2)) => if u2 == s2.len() {
                                Some(MydiaRequestV::Custom(bytes))
                            } else {
                                None
                            },
                            None => None,
                        }
                    } else {
                        None
                    }
                },
            }
        },
    }
}

// ---------------------------------------------------------------------------
// Request round trip.
// ---------------------------------------------------------------------------
#[verifier::rlimit(100)]
proof fn lemma_pairing_req_body(p: PairingRequestV)
    requires
        text_fits(p.claim_code),
        text_fits(p.device_name),
        text_fits(p.device_type),
        opt_text_fits(p.device_os),
    ensures
        pairing_req_dec(
            text_enc(p.claim_code) + (text_enc(p.device_name) + (text_enc(p.device_type)
                + opt_text_enc(p.device_os))),
        ) == Some(p),
{
    reveal(pairing_req_dec);
    let a = text_enc(p.claim_code);
    let b = text_enc(p.device_name);
    let c = text_enc(p.device_type);
    let d = opt_text_enc(p.device_os);
    let s = a + (b + (c + d));
    lemma_text_round_trip(p.claim_code, b + (c + d));
    assert(s.subrange(a.len() as int, s.len() as int) =~= b + (c + d));
    lemma_text_round_trip(p.device_name, c + d);
    assert((b + (c + d)).subrange(b.len() as int, (b + (c + d)).len() as int) =~= c + d);
    lemma_text_round_trip(p.device_type, d);
    assert((c + d).subrange(c.len() as int, (c + d).len() as int) =~= d);
    lemma_opt_text_round_trip(p.device_os, Seq::empty());
    assert(d + Seq::<u8>::empty() =~= d);
}

#[verifier::rlimit(100)]
proof fn lemma_read_media_req_body(m: ReadMediaRequestV)
    requires
        text_fits(m.file_path),
    ensures
        read_media_req_dec(
            text_enc(m.file_path) + (uint_enc(m.offset as nat) + uint_enc(m.length as nat)),
        ) == Some(m),
{
    reveal(read_media_req_dec);
    crate::cbor::lemma_pow256_8();
    let a = text_enc(m.file_path);
    let b = uint_enc(m.offset as nat);
    let c = uint_enc(m.length as nat);
    let s = a + (b + c);
    lemma_text_round_trip(m.file_path, b + c);
    assert(s.subrange(a.len() as int, s.len() as int) =~= b + c);
    lemma_uint_round_trip(m.offset as nat, c);
    assert((b + c).subrange(b.len() as int, (b + c).len() as int) =~= c);
    lemma_uint_round_trip(m.length as nat, Seq::empty());
    assert(c + Seq::<u8>::empty() =~= c);
}

#[verifier::rlimit(100)]
proof fn lemma_graphql_req_body(g: GraphQLRequestV)
    requires
        text_fits(g.query),
        opt_text_fits(g.variables),
        opt_text_fits(g.operation_name),
        opt_text_fits(g.auth_token),
    ensures
        graphql_req_dec(
            text_enc(g.query) + (opt_text_enc(g.variables) + (opt_text_enc(g.operation_name)
                + opt_text_enc(g.auth_token))),
        ) == Some(g),
{
    reveal(graphql_req_dec);
    let a = text_enc(g.query);
    let b = opt_text_enc(g.variables);
    let c = opt_text_enc(g.operation_name);
    let d = opt_text_enc(g.auth_token);
    let s = a + (b + (c + d));
    lemma_text_round_trip(g.query, b + (c + d));
    assert(s.subrange(a.len() as int, s.len() as int) =~= b + (c + d));
    lemma_opt_text_round_trip(g.variables, c + d);
    assert((b + (c + d)).subrange(b.len() as int, (b + (c + d)).len() as int) =~= c + d);
    lemma_opt_text_round_trip(g.operation_name, d);
    assert((c + d).subrange(c.len() as int, (c + d).len() as int) =~= d);
    lemma_opt_text_round_trip(g.auth_token, Seq::empty());
    assert(d + Seq::<u8>::empty() =~= d);
}

#[verifier::rlimit(100)]
proof fn lemma_hls_req_body(h: HlsRequestV)
    requires
        text_fits(h.session_id),
        text_fits(h.path),
        opt_text_fits(h.auth_token),
    ensures
        hls_req_dec(
            text_enc(h.session_id) + (text_enc(h.path) + (opt_uint_enc(opt_u64_view(h.range_start))
                + (opt_uint_enc(opt_u64_view(h.range_end)) + opt_text_enc(h.auth_token)))),
        ) == Some(h),
{
    reveal(hls_req_dec);
    crate::cbor::lemma_pow256_8();
    let a = text_enc(h.session_id);
    let b = text_enc(h.path);
    let c = opt_uint_enc(opt_u64_view(h.range_start));
    let d = opt_uint_enc(opt_u64_view(h.range_end));
    let e = opt_text_enc(h.auth_token);
    let s = a + (b + (c + (d + e)));
    lemma_text_round_trip(h.session_id, b + (c + (d + e)));
    assert(s.subrange(a.len() as int, s.len() as int) =~= b + (c + (d + e)));
    lemma_text_round_trip(h.path, c + (d + e));
    assert((b + (c + (d + e))).subrange(b.len() as int, (b + (c + (d + e))).len() as int) =~= c + (
    d + e));
    lemma_opt_uint_round_trip(opt_u64_view(h.range_start), d + e);
    assert((c + (d + e)).subrange(c.len() as int, (c + (d + e)).len() as int) =~= d + e);
    lemma_opt_uint_round_trip(opt_u64_view(h.range_end), e);
    assert((d + e).subrange(d.len() as int, (d + e).len() as int) =~= e);
    lemma_opt_text_round_trip(h.auth_token, Seq::empty());
    assert(e + Seq::<u8>::empty() =~= e);
}

#[verifier::rlimit(100)]
proof fn lemma_blob_req_body(b: BlobDownloadRequestV)
    requires
        text_fits(b.job_id),
        opt_text_fits(b.auth_token),
    ensures
        blob_req_dec(text_enc(b.job_id) + opt_text_enc(b.auth_token)) == Some(b),
{
    reveal(blob_req_dec);
    let a = text_enc(b.job_id);
    let c = opt_text_enc(b.auth_token);
    let s = a + c;
    lemma_text_round_trip(b.job_id, c);
    assert(s.subrange(a.len() as int, s.len() as int) =~= c);
    lemma_opt_text_round_trip(b.auth_token, Seq::empty());
    assert(c + Seq::<u8>::empty() =~= c);
}

/// Peeling the common frame prefix: the array header yields the element
/// count, the first item yields the tag, and the rest of the frame is the
/// variant body.
proof fn lemma_req_rt_frame(k: nat, tag: nat, body: Seq<u8>)
    requires
        k < 24,
        tag < 24,
    ensures
        ({
            let s = arr_enc(k) + (uint_enc(tag) + body);
            &&& arr_dec(s) == Some((k, arr_enc(k).len() as int))
            &&& s.subrange(arr_enc(k).len() as int, s.len() as int) == uint_enc(tag) + body
            &&& uint_dec(uint_enc(tag) + body) == Some((tag, uint_enc(tag).len() as int))
            &&& (uint_enc(tag) + body).subrange(
                uint_enc(tag).len() as int,
                (uint_enc(tag) + body).len() as int,
            ) == body
        }),
{
    crate::cbor::lemma_pow256_8();
    let ea = arr_enc(k);
    let et = uint_enc(tag);
    let s = ea + (et + body);
    lemma_head_round_trip(4, k, et + body);
    assert(s.subrange(ea.len() as int, s.len() as int) =~= et + body);
    lemma_uint_round_trip(tag, body);
    assert((et + body).subrange(et.len() as int, (et + body).len() as int) =~= body);
}

proof fn lemma_req_rt_ping()
    ensures
        req_dec(req_enc(MydiaRequestV::Ping)) == Some(MydiaRequestV::Ping),
{
    let s = req_enc(MydiaRequestV::Ping);
    assert(s =~= arr_enc(1) + (uint_enc(0) + Seq::<u8>::empty()));
    lemma_req_rt_frame(1, 0, Seq::empty());
    assert(uint_enc(0) + Seq::<u8>::empty() =~= uint_enc(0));
}

#[verifier::rlimit(100)]
proof fn lemma_req_rt_pairing(p: PairingRequestV)
    requires
        req_fits(MydiaRequestV::Pairing(p)),
    ensures
        req_dec(req_enc(MydiaRequestV::Pairing(p))) == Some(MydiaRequestV::Pairing(p)),
{
    let body = text_enc(p.claim_code) + (text_enc(p.device_name) + (text_enc(p.device_type)
        + opt_text_enc(p.device_os)));
    let s = req_enc(MydiaRequestV::Pairing(p));
    assert(s =~= arr_enc(5) + (uint_enc(1) + body));
    lemma_req_rt_frame(5, 1, body);
    lemma_pairing_req_body(p);
}

#[verifier::rlimit(100)]
proof fn lemma_req_rt_read_media(m: ReadMediaRequestV)
    requires
        req_fits(MydiaRequestV::ReadMedia(m)),
    ensures
        req_dec(req_enc(MydiaRequestV::ReadMedia(m))) == Some(MydiaRequestV::ReadMedia(m)),
{
    let body = text_enc(m.file_path) + (uint_enc(m.offset as nat) + uint_enc(m.length as nat));
    let s = req_enc(MydiaRequestV::ReadMedia(m));
    assert(s =~= arr_enc(4) + (uint_enc(2) + body));
    lemma_req_rt_frame(4, 2, body);
    lemma_read_media_req_body(m);
}

#[verifier::rlimit(100)]
proof fn lemma_req_rt_graphql(g: GraphQLRequestV)
    requires
        req_fits(MydiaRequestV::GraphQL(g)),
    ensures
        req_dec(req_enc(MydiaRequestV::GraphQL(g))) == Some(MydiaRequestV::GraphQL(g)),
{
    let body = text_enc(g.query) + (opt_text_enc(g.variables) + (opt_text_enc(g.operation_name)
        + opt_text_enc(g.auth_token)));
    let s = req_enc(MydiaRequestV::GraphQL(g));
    assert(s =~= arr_enc(5) + (uint_enc(3) + body));
    lemma_req_rt_frame(5, 3, body);
    lemma_graphql_req_body(g);
}

#[verifier::rlimit(100)]
proof fn lemma_req_rt_hls(h: HlsRequestV)
    requires
        req_fits(MydiaRequestV::HlsStream(h)),
    ensures
        req_dec(req_enc(MydiaRequestV::HlsStream(h))) == Some(MydiaRequestV::HlsStream(h)),
{
    let body = text_enc(h.session_id) + (text_enc(h.path) + (opt_uint_enc(
        opt_u64_view(h.range_start),
    ) + (opt_uint_enc(opt_u64_view(h.range_end)) + opt_text_enc(h.auth_token))));
    let s = req_enc(MydiaRequestV::HlsStream(h));
    assert(s =~= arr_enc(6) + (uint_enc(4) + body));
    lemma_req_rt_frame(6, 4, body);
    lemma_hls_req_body(h);
}

#[verifier::rlimit(100)]
proof fn lemma_req_rt_blob(b: BlobDownloadRequestV)
    requires
        req_fits(MydiaRequestV::BlobDownload(b)),
    ensures
        req_dec(req_enc(MydiaRequestV::BlobDownload(b))) == Some(MydiaRequestV::BlobDownload(b)),
{
    let body = text_enc(b.job_id) + opt_text_enc(b.auth_token);
    let s = req_enc(MydiaRequestV::BlobDownload(b));
    assert(s =~= arr_enc(3) + (uint_enc(5) + body));
    lemma_req_rt_frame(3, 5, body);
    lemma_blob_req_body(b);
}

#[verifier::rlimit(100)]
proof fn lemma_req_rt_custom(bytes: Seq<u8>)
    requires
        req_fits(MydiaRequestV::Custom(bytes)),
    ensures
        req_dec(req_enc(MydiaRequestV::Custom(bytes))) == Some(MydiaRequestV::Custom(bytes)),
{
    let body = raw_enc(bytes);
    let s = req_enc(MydiaRequestV::Custom(bytes));
    assert(s =~= arr_enc(2) + (uint_enc(6) + body));
    lemma_req_rt_frame(2, 6, body);
    lemma_raw_round_trip(bytes, Seq::empty());
    assert(body + Seq::<u8>::empty() =~= body);
}

/// Decoding inverts encoding, for every request variant.
pub proof fn lemma_req_round_trip(r: MydiaRequestV)
    requires
        req_fits(r),
    ensures
        req_dec(req_enc(r)) == Some(r),
{
    match r {
        MydiaRequestV::Ping => lemma_req_rt_ping(),
        MydiaRequestV::Pairing(p) => lemma_req_rt_pairing(p),
        MydiaRequestV::ReadMedia(m) => lemma_req_rt_read_media(m),
        MydiaRequestV::GraphQL(g) => lemma_req_rt_graphql(g),
        MydiaRequestV::HlsStream(h) => lemma_req_rt_hls(h),
        MydiaRequestV::BlobDownload(b) => lemma_req_rt_blob(b),
        MydiaRequestV::Custom(bytes) => lemma_req_rt_custom(bytes),
    }
}

// ---------------------------------------------------------------------------
// Executable request codec.
// ---------------------------------------------------------------------------
/// Encode a request for the wire.
pub fn encode_request(r: &MydiaRequest) -> (out: Vec<u8>)
    ensures
        out@ == req_enc(r@),
{
    let mut out: Vec<u8> = Vec::new();
    match r {
        MydiaRequest::Ping => {
            push_head(&mut out, 4, 1);
            push_uint(&mut out, 0);
        },
        MydiaRequest::Pairing(p) => {
            push_head(&mut out, 4, 5);
            push_uint(&mut out, 1);
            push_text(&mut out, p.claim_code.as_str());
            push_text(&mut out, p.device_name.as_str());
            push_text(&mut out, p.device_type.as_str());
            push_opt_text(&mut out, &p.device_os);
        },
        MydiaRequest::ReadMedia(m) => {
            push_head(&mut out, 4, 4);
            push_uint(&mut out, 2);
            push_text(&mut out, m.file_path.as_str());
            push_uint(&mut out, m.offset);
            push_uint(&mut out, m.length as u64);
        },
        MydiaRequest::GraphQL(g) => {
            push_head(&mut out, 4, 5);
            push_uint(&mut out, 3);
            push_text(&mut out, g.query.as_str());
            push_opt_text(&mut out, &g.variables);
            push_opt_text(&mut out, &g.operation_name);
            push_opt_text(&mut out, &g.auth_token);
        },
        MydiaRequest::HlsStream(h) => {
            push_head(&mut out, 4, 6);
            push_uint(&mut out, 4);
            push_text(&mut out, h.session_id.as_str());
            push_text(&mut out, h.path.as_str());
            push_opt_u64(&mut out, &h.range_start);
            push_opt_u64(&mut out, &h.range_end);
            push_opt_text(&mut out, &h.auth_token);
        },
        MydiaRequest::BlobDownload(b) => {
            push_head(&mut out, 4, 3);
            push_uint(&mut out, 5);
            push_text(&mut out, b.job_id.as_str());
            push_opt_text(&mut out, &b.auth_token);
        },
        MydiaRequest::Custom(bytes) => {
            push_head(&mut out, 4, 2);
            push_uint(&mut out, 6);
            push_raw(&mut out, bytes);
        },
    }
    proof {
        assert(out@ =~= req_enc(r@));
    }
    out
}

fn decode_pairing_req(data: &Vec<u8>, pos: usize) -> (r: Option<PairingRequest>)
    requires
        pos <= data@.len(),
    ensures
        ({
            let tail = data@.subrange(pos as int, data@.len() as int);
            match r {
                Some(p) => pairing_req_dec(tail) == Some(p@),
                None => pairing_req_dec(tail) is None,
            }
        }),
{
    proof {
        reveal(pairing_req_dec);
    }
    let len = data.len();
    let (claim_code, q1) = match read_text(data, pos) {
        Some(x) => x,
        None => {
            return None;
        },
    };
    proof {
        lemma_tail_shift(data@, pos as int, q1 as int);
    }
    let (device_name, q2) = match read_text(data, q1) {
        Some(x) => x,
        None => {
            return None;
        },
    };
    proof {
        lemma_tail_shift(data@, q1 as int, q2 as int);
    }
    let (device_type, q3) = match read_text(data, q2) {
        Some(x) => x,
        None => {
            return None;
        },
    };
    proof {
        lemma_tail_shift(data@, q2 as int, q3 as int);
    }
    let (device_os, q4) = match read_opt_text(data, q3) {
        Some(x) => x,
        None => {
            return None;
        },
    };
    if q4 == len {
        Some(PairingRequest { claim_code, device_name, device_type, device_os })
    } else {
        None
    }
}

fn decode_read_media_req(data: &Vec<u8>, pos: usize) -> (r: Option<ReadMediaRequest>)
    requires
        pos <= data@.len(),
    ensures
        ({
            let tail = data@.subrange(pos as int, data@.len() as int);
            match r {
                Some(m) => read_media_req_dec(tail) == Some(m@),
                None => read_media_req_dec(tail) is None,
            }
        }),
{
    proof {
        reveal(read_media_req_dec);
    }
    let len = data.len();
    let (file_path, q1) = match read_text(data, pos) {
        Some(x) => x,
        None => {
            return None;
        },
    };
    proof {
        lemma_tail_shift(data@, pos as int, q1 as int);
        crate::cbor::lemma_pow256_8();
    }
    let (offset, q2) = match read_uint(data, q1) {
        Some(x) => x,
        None => {
            return None;
        },
    };
    proof {
        lemma_tail_shift(data@, q1 as int, q2 as int);
    }
    let (length, q3) = match read_uint(data, q2) {
        Some(x) => x,
        None => {
            return None;
        },
    };
    if q3 == len && length < 0x100000000 {
        Some(ReadMediaRequest { file_path, offset, length: length as u32 })
    } else {
        None
    }
}

fn decode_graphql_req(data: &Vec<u8>, pos: usize) -> (r: Option<GraphQLRequest>)
    requires
        pos <= data@.len(),
    ensures
        ({
            let tail = data@.subrange(pos as int, data@.len() as int);
            match r {
                Some(g) => graphql_req_dec(tail) == Some(g@),
                None => graphql_req_dec(tail) is None,
            }
        }),
{
    proof {
        reveal(graphql_req_dec);
    }
    let len = data.len();
    let (query, q1) = match read_text(data, pos) {
        Some(x) => x,
        None => {
            return None;
        },
    };
    proof {
        lemma_tail_shift(data@, pos as int, q1 as int);
    }
    let (variables, q2) = match read_opt_text(data, q1) {
        Some(x) => x,
        None => {
            return None;
        },
    };
    proof {
        lemma_tail_shift(data@, q1 as int, q2 as int);
    }
    let (operation_name, q3) = match read_opt_text(data, q2) {
        Some(x) => x,
        None => {
            return None;
        },
    };
    proof {
        lemma_tail_shift(data@, q2 as int, q3 as int);
    }
    let (auth_token, q4) = match read_opt_text(data, q3) {
        Some(x) => x,
        None => {
            return None;
        },
    };
    if q4 == len {
        Some(GraphQLRequest { query, variables, operation_name, auth_token })
    } else {
        None
    }
}

fn decode_hls_req(data: &Vec<u8>, pos: usize) -> (r: Option<HlsRequest>)
    requires
        pos <= data@.len(),
    ensures
        ({
            let tail = data@.subrange(pos as int, data@.len() as int);
            match r {
                Some(h) => hls_req_dec(tail) == Some(h@),
                None => hls_req_dec(tail) is None,
            }
        }),
{
    proof {
        reveal(hls_req_dec);
    }
    let len = data.len();
    let (session_id, q1) = match read_text(data, pos) {
        Some(x) => x,
        None => {
            return None;
        },
    };
    proof {
        lemma_tail_shift(data@, pos as int, q1 as int);
    }
    let (path, q2) = match read_text(data, q1) {
        Some(x) => x,
        None => {
            return None;
        },
    };
    proof {
        lemma_tail_shift(data@, q1 as int, q2 as int);
        crate::cbor::lemma_pow256_8();
    }
    let (range_start, q3) = match read_opt_u64(data, q2) {
        Some(x) => x,
        None => {
            return None;
        },
    };
    proof {
        lemma_tail_shift(data@, q2 as int, q3 as int);
    }
    let (range_end, q4) = match read_opt_u64(data, q3) {
        Some(x) => x,
        None => {
            return None;
        },
    };
    proof {
        lemma_tail_shift(data@, q3 as int, q4 as int);
    }
    let (auth_token, q5) = match read_opt_text(data, q4) {
        Some(x) => x,
        None => {
            return None;
        },
    };
    if q5 == len {
        Some(HlsRequest { session_id, path, range_start, range_end, auth_token })
    } else {
        None
    }
}

fn decode_blob_req(data: &Vec<u8>, pos: usize) -> (r: Option<BlobDownloadRequest>)
    requires
        pos <= data@.len(),
    ensures
        ({
            let tail = data@.subrange(pos as int, data@.len() as int);
            match r {
                Some(b) => blob_req_dec(tail) == Some(b@),
                None => blob_req_dec(tail) is None,
            }
        }),
{
    proof {
        reveal(blob_req_dec);
    }
    let len = data.len();
    let (job_id, q1) = match read_text(data, pos) {
        Some(x) => x,
        None => {
            return None;
        },
    };
    proof {
        lemma_tail_shift(data@, pos as int, q1 as int);
    }
    let (auth_token, q2) = match read_opt_text(data, q1) {
        Some(x) => x,
        None => {
            return None;
        },
    };
    if q2 == len {
        Some(BlobDownloadRequest { job_id, auth_token })
    } else {
        None
    }
}

/// Decode a request frame; the frame must be consumed exactly.
#[verifier::rlimit(100)]
#[verifier::spinoff_prover]
pub fn decode_request(data: &Vec<u8>) -> (r: Option<MydiaRequest>)
    ensures
        (r matches Some(v) ==> req_dec(data@) == Some(v@)),
        (r is None ==> req_dec(data@) is None),
{
    proof {
        assert(data@.subrange(0, data@.len() as int) =~= data@);
    }
    let (k, p0) = match read_head(data, 0) {
        Some((major, arg, p)) => {
            if major != 4 {
                return None;
            }
            (arg, p)
        },
        None => {
            return None;
        },
    };
    let (tag, p1) = match read_uint(data, p0) {
        Some(x) => x,
        None => {
            return None;
        },
    };
    proof {
        lemma_tail_shift(data@, p0 as int, p1 as int);
    }
    let len = data.len();
    if tag == 0 && k == 1 {
        if p1 == len {
            Some(MydiaRequest::Ping)
        } else {
            None
        }
    } else if tag == 1 && k == 5 {
        match decode_pairing_req(data, p1) {
            Some(p) => Some(MydiaRequest::Pairing(p)),
            None => None,
        }
    } else if tag == 2 && k == 4 {
        match decode_read_media_req(data, p1) {
            Some(m) => Some(MydiaRequest::ReadMedia(m)),
            None => None,
        }
    } else if tag == 3 && k == 5 {
        match decode_graphql_req(data, p1) {
            Some(g) => Some(MydiaRequest::GraphQL(g)),
            None => None,
        }
    } else if tag == 4 && k == 6 {
        match decode_hls_req(data, p1) {
            Some(h) => Some(MydiaRequest::HlsStream(h)),
            None => None,
        }
    } else if tag == 5 && k == 3 {
        match decode_blob_req(data, p1) {
            Some(b) => Some(MydiaRequest::BlobDownload(b)),
            None => None,
        }
    } else if tag == 6 && k == 2 {
        let (bytes, q1) = match read_raw(data, p1) {
            Some(x) => x,
            None => {
                return None;
            },
        };
        if q1 == len {
            Some(MydiaRequest::Custom(bytes))
        } else {
            None
        }
    } else {
        None
    }
}


// ---------------------------------------------------------------------------
// Response encoding.
// ---------------------------------------------------------------------------
/// The wire encoding of a response: an array header, a numeric variant tag,
/// then the variant's fields in order.
pub open spec fn resp_enc(r: MydiaResponseV) -> Seq<u8> {
    match r {
        MydiaResponseV::Pong => arr_enc(1) + uint_enc(0),
        MydiaResponseV::Pairing(p) => arr_enc(7) + uint_enc(1) + bool_enc(p.success)
            + opt_text_enc(p.media_token) + opt_text_enc(p.access_token) + opt_text_enc(
            p.device_token,
        ) + opt_text_enc(p.error) + text_list_enc(p.direct_urls),
        MydiaResponseV::MediaChunk(bytes) => arr_enc(2) + uint_enc(2) + raw_enc(bytes),
        MydiaResponseV::GraphQL(g) => arr_enc(3) + uint_enc(3) + opt_text_enc(g.data)
            + opt_text_enc(g.errors),
        MydiaResponseV::HlsHeader(h) => arr_enc(6) + uint_enc(4) + uint_enc(h.status as nat)
            + text_enc(h.content_type) + uint_enc(h.content_length as nat) + opt_text_enc(
            h.content_range,
        ) + opt_text_enc(h.cache_control),
        MydiaResponseV::BlobDownload(b) => arr_enc(6) + uint_enc(5) + bool_enc(b.success)
            + opt_text_enc(b.ticket) + opt_text_enc(b.filename) + opt_uint_enc(
            opt_u64_view(b.file_size),
        ) + opt_text_enc(b.error),
        MydiaResponseV::Custom(bytes) => arr_enc(2) + uint_enc(6) + raw_enc(bytes),
        MydiaResponseV::Error(e) => arr_enc(2) + uint_enc(7) + text_enc(e),
    }
}

/// True when every field of the response fits the wire format's length
/// headers; any value built from in-memory strings and buffers does.
pub open spec fn resp_fits(r: MydiaResponseV) -> bool {
    match r {
        MydiaResponseV::Pong => true,
        MydiaResponseV::Pairing(p) => opt_text_fits(p.media_token) && opt_text_fits(p.access_token)
            && opt_text_fits(p.device_token) && opt_text_fits(p.error) && p.direct_urls.len()
            < pow256(8) && (forall|i: int|
            0 <= i < p.direct_urls.len() ==> text_fits(#[trigger] p.direct_urls[i])),
        MydiaResponseV::MediaChunk(bytes) => bytes.len() < pow256(8),
        MydiaResponseV::GraphQL(g) => opt_text_fits(g.data) && opt_text_fits(g.errors),
        MydiaResponseV::HlsHeader(h) => text_fits(h.content_type) && opt_text_fits(h.content_range)
            && opt_text_fits(h.cache_control),
        MydiaResponseV::BlobDownload(b) => opt_text_fits(b.ticket) && opt_text_fits(b.filename)
            && opt_text_fits(b.error),
        MydiaResponseV::Custom(bytes) => bytes.len() < pow256(8),
        MydiaResponseV::Error(e) => text_fits(e),
    }
}

// ---------------------------------------------------------------------------
// Response decoding.
// ---------------------------------------------------------------------------
#[verifier::opaque]
pub open spec fn pairing_resp_dec(s: Seq<u8>) -> Option<PairingResponseV> {
    match bool_dec(s) {
        None => None,
        Some((success, u1)) => {
            let s1 = s.subrange(u1, s.len() as int);
            match opt_text_dec(s1) {
                None => None,
                Some((media_token, u2)) => {
                    let s2 = s1.subrange(u2, s1.len() as int);
                    match opt_text_dec(s2) {
                        None => None,
                        Some((access_token, u3)) => {
                            let s3 = s2.subrange(u3, s2.len() as int);
                            match opt_text_dec(s3) {
                                None => None,
                                Some((device_token, u4)) => {
                                    let s4 = s3.subrange(u4, s3.len() as int);
                                    match opt_text_dec(s4) {
                                        None => None,
                                        Some((error, u5)) => {
                                            let s5 = s4.subrange(u5, s4.len() as int);
                                            match text_list_dec(s5) {
                                                None => None,
                                                Some((direct_urls, u6)) => if u6 == s5.len() {
                                                    Some(
                                                        (PairingResponseV {
                                                            success,
                                                            media_token,
                                                            access_token,
                                                            device_token,
                                                            error,
                                                            direct_urls,
                                                        }),
                                                    )
                                                } else {
                                                    None
                                                },
                                            }
                                        },
                                    }
                                },
                            }
                        },
                    }
                },
            }
        },
    }
}

#[verifier::opaque]
pub open spec fn graphql_resp_dec(s: Seq<u8>) -> Option<GraphQLResponseV> {
    match opt_text_dec(s) {
        None => None,
        Some((data, u1)) => {
            let s1 = s.subrange(u1, s.len() as int);
            match opt_text_dec(s1) {
                None => None,
                Some((errors, u2)) => if u2 == s1.len() {
                    Some((GraphQLResponseV { data, errors }))
                } else {
                    None
                },
            }
        },
    }
}

#[verifier::opaque]
pub open spec fn hls_header_dec(s: Seq<u8>) -> Option<HlsResponseHeaderV> {
    match uint_dec(s) {
        None => None,
        Some((status, u1)) => {
            let s1 = s.subrange(u1, s.len() as int);
            match text_dec(s1) {
                None => None,
                Some((content_type, u2)) => {
                    let s2 = s1.subrange(u2, s1.len() as int);
                    match uint_dec(s2) {
                        None => None,
                        Some((content_length, u3)) => {
                            let s3 = s2.subrange(u3, s2.len() as int);
                            match opt_text_dec(s3) {
                                None => None,
                                Some((content_range, u4)) => {
                                    let s4 = s3.subrange(u4, s3.len() as int);
                                    match opt_text_dec(s4) {
                                        None => None,
                                        Some((cache_control, u5)) => if u5 == s4.len() && status
                                            < 0x10000 && content_length < pow256(8) {
                                            Some(
                                                (HlsResponseHeaderV {
                                                    status: status as u16,
                                                    content_type,
                                                    content_length: content_length as u64,
                                                    content_range,
                                                    cache_control,
                                                }),
                                            )
                                        } else {
                                            None
                                        },
                                    }
                                },
                            }
                        },
                    }
                },
            }
        },
    }
}

#[verifier::opaque]
pub open spec fn blob_resp_dec(s: Seq<u8>) -> Option<BlobDownloadResponseV> {
    match bool_dec(s) {
        None => None,
        Some((success, u1)) => {
            let s1 = s.subrange(u1, s.len() as int);
            match opt_text_dec(s1) {
                None => None,
                Some((ticket, u2)) => {
                    let s2 = s1.subrange(u2, s1.len() as int);
                    match opt_text_dec(s2) {
                        None => None,
                        Some((filename, u3)) => {
                            let s3 = s2.subrange(u3, s2.len() as int);
                            match opt_uint_dec(s3) {
                                None => None,
                                Some((file_size, u4)) => {
                                    let s4 = s3.subrange(u4, s3.len() as int);
                                    match opt_text_dec(s4) {
                                        None => None,
                                        Some((error, u5)) => if u5 == s4.len() && (file_size
                                            matches Some(v) ==> v < pow256(8)) {
                                            Some(
                                                (BlobDownloadResponseV {
                                                    success,
                                                    ticket,
                                                    filename,
                                                    file_size: match file_size {
                                                        Some(v) => Some(v as u64),
                                                        None => None,
                                                    },
                                                    error,
                                                }),
                                            )
                                        } else {
                                            None
                                        },
                                    }
                                },
                            }
                        },
                    }
                },
            }
        },
    }
}

/// Parse a whole response frame; the frame must be consumed exactly.
pub open spec fn resp_dec(s: Seq<u8>) -> Option<MydiaResponseV> {
    match arr_dec(s) {
        None => None,
        Some((k, u0)) => {
            let s1 = s.subrange(u0, s.len() as int);
            match uint_dec(s1) {
                None => None,
                Some((tag, u1)) => {
                    let s2 = s1.subrange(u1, s1.len() as int);
                    if tag == 0 && k == 1 {
                        if s2.len() == 0 {
                            Some(MydiaResponseV::Pong)
                        } else {
                            None
                        }
                    } else if tag == 1 && k == 7 {
                        match pairing_resp_dec(s2) {
                            Some(p) => Some(MydiaResponseV::Pairing(p)),
                            None => None,
                        }
                    } else if tag == 2 && k == 2 {
                        match raw_dec(s2) {
                            Some((bytes, u2)) => if u2 == s2.len() {
                                Some(MydiaResponseV::MediaChunk(bytes))
                            } else {
                                None
                            },
                            None => None,
                        }
                    } else if tag == 3 && k == 3 {
                        match graphql_resp_dec(s2) {
                            Some(g) => Some(MydiaResponseV::GraphQL(g)),
                            None => None,
                        }
                    } else if tag == 4 && k == 6 {
                        match hls_header_dec(s2) {
                            Some(h) => Some(MydiaResponseV::HlsHeader(h)),
                            None => None,
                        }
                    } else if tag == 5 && k == 6 {
                        match blob_resp_dec(s2) {
                            Some(b) => Some(MydiaResponseV::BlobDownload(b)),
                            None => None,
                        }
                    } else if tag == 6 && k == 2 {
                        match raw_dec(s2) {
                            Some((bytes, u2)) => if u2 == s2.len() {
                                Some(MydiaResponseV::Custom(bytes))
                            } else {
                                None
                            },
                            None => None,
                        }
                    } else if tag == 7 && k == 2 {
                        match text_dec(s2) {
                            Some((e, u2)) => if u2 == s2.len() {
                                Some(MydiaResponseV::Error(e))
                            } else {
                                None
                            },
                            None => None,
                        }
                    } else {
                        None
                    }
                },
            }
        },
    }
}

// ---------------------------------------------------------------------------
// Response round trip.
// ---------------------------------------------------------------------------
#[verifier::rlimit(100)]
proof fn lemma_pairing_resp_body(p: PairingResponseV)
    requires
        resp_fits(MydiaResponseV::Pairing(p)),
    ensures
        pairing_resp_dec(
            bool_enc(p.success) + (opt_text_enc(p.media_token) + (opt_text_enc(p.access_token) + (
            opt_text_enc(p.device_token) + (opt_text_enc(p.error) + text_list_enc(p.direct_urls))))),
        ) == Some(p),
{
    reveal(pairing_resp_dec);
    let a = bool_enc(p.success);
    let b = opt_text_enc(p.media_token);
    let c = opt_text_enc(p.access_token);
    let d = opt_text_enc(p.device_token);
    let e = opt_text_enc(p.error);
    let f = text_list_enc(p.direct_urls);
    let r4 = e + f;
    let r3 = d + r4;
    let r2 = c + r3;
    let r1 = b + r2;
    let s = a + r1;
    lemma_peel_bool(p.success, r1);
    lemma_peel_opt_text(p.media_token, r2);
    lemma_peel_opt_text(p.access_token, r3);
    lemma_peel_opt_text(p.device_token, r4);
    lemma_peel_opt_text(p.error, f);
    lemma_peel_text_list(p.direct_urls, Seq::empty());
    assert(f + Seq::<u8>::empty() =~= f);
}

#[verifier::rlimit(100)]
proof fn lemma_graphql_resp_body(g: GraphQLResponseV)
    requires
        resp_fits(MydiaResponseV::GraphQL(g)),
    ensures
        graphql_resp_dec(opt_text_enc(g.data) + opt_text_enc(g.errors)) == Some(g),
{
    reveal(graphql_resp_dec);
    let a = opt_text_enc(g.data);
    let b = opt_text_enc(g.errors);
    let s = a + b;
    lemma_opt_text_round_trip(g.data, b);
    assert(s.subrange(a.len() as int, s.len() as int) =~= b);
    lemma_opt_text_round_trip(g.errors, Seq::empty());
    assert(b + Seq::<u8>::empty() =~= b);
}

#[verifier::rlimit(100)]
proof fn lemma_hls_header_body(h: HlsResponseHeaderV)
    requires
        resp_fits(MydiaResponseV::HlsHeader(h)),
    ensures
        hls_header_dec(
            uint_enc(h.status as nat) + (text_enc(h.content_type) + (uint_enc(
                h.content_length as nat,
            ) + (opt_text_enc(h.content_range) + opt_text_enc(h.cache_control)))),
        ) == Some(h),
{
    reveal(hls_header_dec);
    crate::cbor::lemma_pow256_8();
    let a = uint_enc(h.status as nat);
    let b = text_enc(h.content_type);
    let c = uint_enc(h.content_length as nat);
    let d = opt_text_enc(h.content_range);
    let e = opt_text_enc(h.cache_control);
    let r3 = d + e;
    let r2 = c + r3;
    let r1 = b + r2;
    let s = a + r1;
    lemma_peel_uint(h.status as nat, r1);
    lemma_peel_text(h.content_type, r2);
    lemma_peel_uint(h.content_length as nat, r3);
    lemma_peel_opt_text(h.content_range, e);
    lemma_peel_opt_text(h.cache_control, Seq::empty());
    assert(e + Seq::<u8>::empty() =~= e);
}

#[verifier::rlimit(100)]
proof fn lemma_blob_resp_body(b: BlobDownloadResponseV)
    requires
        resp_fits(MydiaResponseV::BlobDownload(b)),
    ensures
        blob_resp_dec(
            bool_enc(b.success) + (opt_text_enc(b.ticket) + (opt_text_enc(b.filename) + (
            opt_uint_enc(opt_u64_view(b.file_size)) + opt_text_enc(b.error)))),
        ) == Some(b),
{
    reveal(blob_resp_dec);
    crate::cbor::lemma_pow256_8();
    let a = bool_enc(b.success);
    let c = opt_text_enc(b.ticket);
    let d = opt_text_enc(b.filename);
    let e = opt_uint_enc(opt_u64_view(b.file_size));
    let f = opt_text_enc(b.error);
    let s = a + (c + (d + (e + f)));
    lemma_bool_round_trip(b.success, c + (d + (e + f)));
    assert(s.subrange(1, s.len() as int) =~= c + (d + (e + f)));
    lemma_opt_text_round_trip(b.ticket, d + (e + f));
    assert((c + (d + (e + f))).subrange(c.len() as int, (c + (d + (e + f))).len() as int) =~= d + (e
        + f));
    lemma_opt_text_round_trip(b.filename, e + f);
    assert((d + (e + f)).subrange(d.len() as int, (d + (e + f)).len() as int) =~= e + f);
    lemma_opt_uint_round_trip(opt_u64_view(b.file_size), f);
    assert((e + f).subrange(e.len() as int, (e + f).len() as int) =~= f);
    lemma_opt_text_round_trip(b.error, Seq::empty());
    assert(f + Seq::<u8>::empty() =~= f);
}

proof fn lemma_resp_rt_pong()
    ensures
        resp_dec(resp_enc(MydiaResponseV::Pong)) == Some(MydiaResponseV::Pong),
{
    let s = resp_enc(MydiaResponseV::Pong);
    assert(s =~= arr_enc(1) + (uint_enc(0) + Seq::<u8>::empty()));
    lemma_req_rt_frame(1, 0, Seq::empty());
    assert(uint_enc(0) + Seq::<u8>::empty() =~= uint_enc(0));
}

#[verifier::rlimit(100)]
proof fn lemma_resp_rt_pairing(p: PairingResponseV)
    requires
        resp_fits(MydiaResponseV::Pairing(p)),
    ensures
        resp_dec(resp_enc(MydiaResponseV::Pairing(p))) == Some(MydiaResponseV::Pairing(p)),
{
    let ea = arr_enc(7);
    let et = uint_enc(1);
    let a = bool_enc(p.success);
    let b = opt_text_enc(p.media_token);
    let c = opt_text_enc(p.access_token);
    let d = opt_text_enc(p.device_token);
    let e = opt_text_enc(p.error);
    let f = text_list_enc(p.direct_urls);
    let r4 = e + f;
    let r3 = d + r4;
    let r2 = c + r3;
    let r1 = b + r2;
    let body = a + r1;
    let s = resp_enc(MydiaResponseV::Pairing(p));
    assert(s == ((((((ea + et) + a) + b) + c) + d) + e) + f);
    lemma_cat_assoc((((((ea + et) + a) + b) + c) + d), e, f);
    lemma_cat_assoc(((((ea + et) + a) + b) + c), d, r4);
    lemma_cat_assoc((((ea + et) + a) + b), c, r3);
    lemma_cat_assoc(((ea + et) + a), b, r2);
    lemma_cat_assoc((ea + et), a, r1);
    lemma_cat_assoc(ea, et, body);
    assert(s == ea + (et + body));
    lemma_req_rt_frame(7, 1, body);
    lemma_pairing_resp_body(p);
}

#[verifier::rlimit(100)]
proof fn lemma_resp_rt_media_chunk(bytes: Seq<u8>)
    requires
        resp_fits(MydiaResponseV::MediaChunk(bytes)),
    ensures
        resp_dec(resp_enc(MydiaResponseV::MediaChunk(bytes))) == Some(
            MydiaResponseV::MediaChunk(bytes),
        ),
{
    let body = raw_enc(bytes);
    let s = resp_enc(MydiaResponseV::MediaChunk(bytes));
    assert(s =~= arr_enc(2) + (uint_enc(2) + body));
    lemma_req_rt_frame(2, 2, body);
    lemma_raw_round_trip(bytes, Seq::empty());
    assert(body + Seq::<u8>::empty() =~= body);
}

#[verifier::rlimit(100)]
proof fn lemma_resp_rt_graphql(g: GraphQLResponseV)
    requires
        resp_fits(MydiaResponseV::GraphQL(g)),
    ensures
        resp_dec(resp_enc(MydiaResponseV::GraphQL(g))) == Some(MydiaResponseV::GraphQL(g)),
{
    let body = opt_text_enc(g.data) + opt_text_enc(g.errors);
    let s = resp_enc(MydiaResponseV::GraphQL(g));
    assert(s =~= arr_enc(3) + (uint_enc(3) + body));
    lemma_req_rt_frame(3, 3, body);
    lemma_graphql_resp_body(g);
}

#[verifier::rlimit(100)]
proof fn lemma_resp_rt_hls_header(h: HlsResponseHeaderV)
    requires
        resp_fits(MydiaResponseV::HlsHeader(h)),
    ensures
        resp_dec(resp_enc(MydiaResponseV::HlsHeader(h))) == Some(MydiaResponseV::HlsHeader(h)),
{
    let body = uint_enc(h.status as nat) + (text_enc(h.content_type) + (uint_enc(
        h.content_length as nat,
    ) + (opt_text_enc(h.content_range) + opt_text_enc(h.cache_control))));
    let s = resp_enc(MydiaResponseV::HlsHeader(h));
    assert(s =~= arr_enc(6) + (uint_enc(4) + body));
    lemma_req_rt_frame(6, 4, body);
    lemma_hls_header_body(h);
}

#[verifier::rlimit(100)]
proof fn lemma_resp_rt_blob(b: BlobDownloadResponseV)
    requires
        resp_fits(MydiaResponseV::BlobDownload(b)),
    ensures
        resp_dec(resp_enc(MydiaResponseV::BlobDownload(b))) == Some(
            MydiaResponseV::BlobDownload(b),
        ),
{
    let body = bool_enc(b.success) + (opt_text_enc(b.ticket) + (opt_text_enc(b.filename) + (
    opt_uint_enc(opt_u64_view(b.file_size)) + opt_text_enc(b.error))));
    let s = resp_enc(MydiaResponseV::BlobDownload(b));
    assert(s =~= arr_enc(6) + (uint_enc(5) + body));
    lemma_req_rt_frame(6, 5, body);
    lemma_blob_resp_body(b);
}

#[verifier::rlimit(100)]
proof fn lemma_resp_rt_custom(bytes: Seq<u8>)
    requires
        resp_fits(MydiaResponseV::Custom(bytes)),
    ensures
        resp_dec(resp_enc(MydiaResponseV::Custom(bytes))) == Some(MydiaResponseV::Custom(bytes)),
{
    let body = raw_enc(bytes);
    let s = resp_enc(MydiaResponseV::Custom(bytes));
    assert(s =~= arr_enc(2) + (uint_enc(6) + body));
    lemma_req_rt_frame(2, 6, body);
    lemma_raw_round_trip(bytes, Seq::empty());
    assert(body + Seq::<u8>::empty() =~= body);
}

#[verifier::rlimit(100)]
proof fn lemma_resp_rt_error(e: Seq<char>)
    requires
        resp_fits(MydiaResponseV::Error(e)),
    ensures
        resp_dec(resp_enc(MydiaResponseV::Error(e))) == Some(MydiaResponseV::Error(e)),
{
    let body = text_enc(e);
    let s = resp_enc(MydiaResponseV::Error(e));
    assert(s =~= arr_enc(2) + (uint_enc(7) + body));
    lemma_req_rt_frame(2, 7, body);
    lemma_text_round_trip(e, Seq::empty());
    assert(body + Seq::<u8>::empty() =~= body);
}

/// Decoding inverts encoding, for every response variant.
pub proof fn lemma_resp_round_trip(r: MydiaResponseV)
    requires
        resp_fits(r),
    ensures
        resp_dec(resp_enc(r)) == Some(r),
{
    match r {
        MydiaResponseV::Pong => lemma_resp_rt_pong(),
        MydiaResponseV::Pairing(p) => lemma_resp_rt_pairing(p),
        MydiaResponseV::MediaChunk(bytes) => lemma_resp_rt_media_chunk(bytes),
        MydiaResponseV::GraphQL(g) => lemma_resp_rt_graphql(g),
        MydiaResponseV::HlsHeader(h) => lemma_resp_rt_hls_header(h),
        MydiaResponseV::BlobDownload(b) => lemma_resp_rt_blob(b),
        MydiaResponseV::Custom(bytes) => lemma_resp_rt_custom(bytes),
        MydiaResponseV::Error(e) => lemma_resp_rt_error(e),
    }
}

// ---------------------------------------------------------------------------
// Executable response codec.
// ---------------------------------------------------------------------------
/// Encode a response for the wire.
pub fn encode_response(r: &MydiaResponse) -> (out: Vec<u8>)
    ensures
        out@ == resp_enc(r@),
{
    let mut out: Vec<u8> = Vec::new();
    match r {
        MydiaResponse::Pong => {
            push_head(&mut out, 4, 1);
            push_uint(&mut out, 0);
        },
        MydiaResponse::Pairing(p) => {
            push_head(&mut out, 4, 7);
            push_uint(&mut out, 1);
            push_bool(&mut out, p.success);
            push_opt_text(&mut out, &p.media_token);
            push_opt_text(&mut out, &p.access_token);
            push_opt_text(&mut out, &p.device_token);
            push_opt_text(&mut out, &p.error);
            push_text_list(&mut out, &p.direct_urls);
        },
        MydiaResponse::MediaChunk(bytes) => {
            push_head(&mut out, 4, 2);
            push_uint(&mut out, 2);
            push_raw(&mut out, bytes);
        },
        MydiaResponse::GraphQL(g) => {
            push_head(&mut out, 4, 3);
            push_uint(&mut out, 3);
            push_opt_text(&mut out, &g.data);
            push_opt_text(&mut out, &g.errors);
        },
        MydiaResponse::HlsHeader(h) => {
            push_head(&mut out, 4, 6);
            push_uint(&mut out, 4);
            push_uint(&mut out, h.status as u64);
            push_text(&mut out, h.content_type.as_str());
            push_uint(&mut out, h.content_length);
            push_opt_text(&mut out, &h.content_range);
            push_opt_text(&mut out, &h.cache_control);
        },
        MydiaResponse::BlobDownload(b) => {
            push_head(&mut out, 4, 6);
            push_uint(&mut out, 5);
            push_bool(&mut out, b.success);
            push_opt_text(&mut out, &b.ticket);
            push_opt_text(&mut out, &b.filename);
            push_opt_u64(&mut out, &b.file_size);
            push_opt_text(&mut out, &b.error);
        },
        MydiaResponse::Custom(bytes) => {
            push_head(&mut out, 4, 2);
            push_uint(&mut out, 6);
            push_raw(&mut out, bytes);
        },
        MydiaResponse::Error(e) => {
            push_head(&mut out, 4, 2);
            push_uint(&mut out, 7);
            push_text(&mut out, e.as_str());
        },
    }
    proof {
        assert(out@ =~= resp_enc(r@));
    }
    out
}

/// Encode a response frame holding the given server-push header; the same
/// bytes `encode_response` would give for it, without consuming the header.
pub fn encode_hls_header_response(h: &HlsResponseHeader) -> (out: Vec<u8>)
    ensures
        out@ == resp_enc(MydiaResponseV::HlsHeader(h@)),
{
    let mut out: Vec<u8> = Vec::new();
    push_head(&mut out, 4, 6);
    push_uint(&mut out, 4);
    push_uint(&mut out, h.status as u64);
    push_text(&mut out, h.content_type.as_str());
    push_uint(&mut out, h.content_length);
    push_opt_text(&mut out, &h.content_range);
    push_opt_text(&mut out, &h.cache_control);
    proof {
        assert(out@ =~= resp_enc(MydiaResponseV::HlsHeader(h@)));
    }
    out
}

fn decode_pairing_resp(data: &Vec<u8>, pos: usize) -> (r: Option<PairingResponse>)
    requires
        pos <= data@.len(),
    ensures
        ({
            let tail = data@.subrange(pos as int, data@.len() as int);
            match r {
                Some(p) => pairing_resp_dec(tail) == Some(p@),
                None => pairing_resp_dec(tail) is None,
            }
        }),
{
    proof {
        reveal(pairing_resp_dec);
    }
    let len = data.len();
    let (success, q1) = match read_bool(data, pos) {
        Some(x) => x,
        None => {
            return None;
        },
    };
    proof {
        lemma_tail_shift(data@, pos as int, q1 as int);
    }
    let (media_token, q2) = match read_opt_text(data, q1) {
        Some(x) => x,
        None => {
            return None;
        },
    };
    proof {
        lemma_tail_shift(data@, q1 as int, q2 as int);
    }
    let (access_token, q3) = match read_opt_text(data, q2) {
        Some(x) => x,
        None => {
            return None;
        },
    };
    proof {
        lemma_tail_shift(data@, q2 as int, q3 as int);
    }
    let (device_token, q4) = match read_opt_text(data, q3) {
        Some(x) => x,
        None => {
            return None;
        },
    };
    proof {
        lemma_tail_shift(data@, q3 as int, q4 as int);
    }
    let (error, q5) = match read_opt_text(data, q4) {
        Some(x) => x,
        None => {
            return None;
        },
    };
    proof {
        lemma_tail_shift(data@, q4 as int, q5 as int);
    }
    let (direct_urls, q6) = match read_text_list(data, q5) {
        Some(x) => x,
        None => {
            return None;
        },
    };
    if q6 == len {
        Some(
            PairingResponse {
                success,
                media_token,
                access_token,
                device_token,
                error,
                direct_urls,
            },
        )
    } else {
        None
    }
}

fn decode_graphql_resp(data: &Vec<u8>, pos: usize) -> (r: Option<GraphQLResponse>)
    requires
        pos <= data@.len(),
    ensures
        ({
            let tail = data@.subrange(pos as int, data@.len() as int);
            match r {
                Some(g) => graphql_resp_dec(tail) == Some(g@),
                None => graphql_resp_dec(tail) is None,
            }
        }),
{
    proof {
        reveal(graphql_resp_dec);
    }
    let len = data.len();
    let (data_field, q1) = match read_opt_text(data, pos) {
        Some(x) => x,
        None => {
            return None;
        },
    };
    proof {
        lemma_tail_shift(data@, pos as int, q1 as int);
    }
    let (errors, q2) = match read_opt_text(data, q1) {
        Some(x) => x,
        None => {
            return None;
        },
    };
    if q2 == len {
        Some(GraphQLResponse { data: data_field, errors })
    } else {
        None
    }
}

fn decode_hls_header(data: &Vec<u8>, pos: usize) -> (r: Option<HlsResponseHeader>)
    requires
        pos <= data@.len(),
    ensures
        ({
            let tail = data@.subrange(pos as int, data@.len() as int);
            match r {
                Some(h) => hls_header_dec(tail) == Some(h@),
                None => hls_header_dec(tail) is None,
            }
        }),
{
    proof {
        reveal(hls_header_dec);
    }
    let len = data.len();
    let (status, q1) = match read_uint(data, pos) {
        Some(x) => x,
        None => {
            return None;
        },
    };
    proof {
        lemma_tail_shift(data@, pos as int, q1 as int);
    }
    let (content_type, q2) = match read_text(data, q1) {
        Some(x) => x,
        None => {
            return None;
        },
    };
    proof {
        lemma_tail_shift(data@, q1 as int, q2 as int);
        crate::cbor::lemma_pow256_8();
    }
    let (content_length, q3) = match read_uint(data, q2) {
        Some(x) => x,
        None => {
            return None;
        },
    };
    proof {
        lemma_tail_shift(data@, q2 as int, q3 as int);
    }
    let (content_range, q4) = match read_opt_text(data, q3) {
        Some(x) => x,
        None => {
            return None;
        },
    };
    proof {
        lemma_tail_shift(data@, q3 as int, q4 as int);
    }
    let (cache_control, q5) = match read_opt_text(data, q4) {
        Some(x) => x,
        None => {
            return None;
        },
    };
    if q5 == len && status < 0x10000 {
        Some(
            HlsResponseHeader {
                status: status as u16,
                content_type,
                content_length,
                content_range,
                cache_control,
            },
        )
    } else {
        None
    }
}

fn decode_blob_resp(data: &Vec<u8>, pos: usize) -> (r: Option<BlobDownloadResponse>)
    requires
        pos <= data@.len(),
    ensures
        ({
            let tail = data@.subrange(pos as int, data@.len() as int);
            match r {
                Some(b) => blob_resp_dec(tail) == Some(b@),
                None => blob_resp_dec(tail) is None,
            }
        }),
{
    proof {
        reveal(blob_resp_dec);
    }
    let len = data.len();
    let (success, q1) = match read_bool(data, pos) {
        Some(x) => x,
        None => {
            return None;
        },
    };
    proof {
        lemma_tail_shift(data@, pos as int, q1 as int);
    }
    let (ticket, q2) = match read_opt_text(data, q1) {
        Some(x) => x,
        None => {
            return None;
        },
    };
    proof {
        lemma_tail_shift(data@, q1 as int, q2 as int);
    }
    let (filename, q3) = match read_opt_text(data, q2) {
        Some(x) => x,
        None => {
            return None;
        },
    };
    proof {
        lemma_tail_shift(data@, q2 as int, q3 as int);
        crate::cbor::lemma_pow256_8();
    }
    let (file_size, q4) = match read_opt_u64(data, q3) {
        Some(x) => x,
        None => {
            return None;
        },
    };
    proof {
        lemma_tail_shift(data@, q3 as int, q4 as int);
    }
    let (error, q5) = match read_opt_text(data, q4) {
        Some(x) => x,
        None => {
            return None;
        },
    };
    if q5 == len {
        Some(BlobDownloadResponse { success, ticket, filename, file_size, error })
    } else {
        None
    }
}

/// Decode a response frame; the frame must be consumed exactly.
#[verifier::rlimit(100)]
#[verifier::spinoff_prover]
pub fn decode_response(data: &Vec<u8>) -> (r: Option<MydiaResponse>)
    ensures
        (r matches Some(v) ==> resp_dec(data@) == Some(v@)),
        (r is None ==> resp_dec(data@) is None),
{
    proof {
        assert(data@.subrange(0, data@.len() as int) =~= data@);
    }
    let (k, p0) = match read_head(data, 0) {
        Some((major, arg, p)) => {
            if major != 4 {
                return None;
            }
            (arg, p)
        },
        None => {
            return None;
        },
    };
    let (tag, p1) = match read_uint(data, p0) {
        Some(x) => x,
        None => {
            return None;
        },
    };
    proof {
        lemma_tail_shift(data@, p0 as int, p1 as int);
    }
    let len = data.len();
    if tag == 0 && k == 1 {
        if p1 == len {
            Some(MydiaResponse::Pong)
        } else {
            None
        }
    } else if tag == 1 && k == 7 {
        match decode_pairing_resp(data, p1) {
            Some(p) => Some(MydiaResponse::Pairing(p)),
            None => None,
        }
    } else if tag == 2 && k == 2 {
        let (bytes, q1) = match read_raw(data, p1) {
            Some(x) => x,
            None => {
                return None;
            },
        };
        if q1 == len {
            Some(MydiaResponse::MediaChunk(bytes))
        } else {
            None
        }
    } else if tag == 3 && k == 3 {
        match decode_graphql_resp(data, p1) {
            Some(g) => Some(MydiaResponse::GraphQL(g)),
            None => None,
        }
    } else if tag == 4 && k == 6 {
        match decode_hls_header(data, p1) {
            Some(h) => Some(MydiaResponse::HlsHeader(h)),
            None => None,
        }
    } else if tag == 5 && k == 6 {
        match decode_blob_resp(data, p1) {
            Some(b) => Some(MydiaResponse::BlobDownload(b)),
            None => None,
        }
    } else if tag == 6 && k == 2 {
        let (bytes, q1) = match read_raw(data, p1) {
            Some(x) => x,
            None => {
                return None;
            },
        };
        if q1 == len {
            Some(MydiaResponse::Custom(bytes))
        } else {
            None
        }
    } else if tag == 7 && k == 2 {
        let (e, q1) = match read_text(data, p1) {
            Some(x) => x,
            None => {
                return None;
            },
        };
        if q1 == len {
            Some(MydiaResponse::Error(e))
        } else {
            None
        }
    } else {
        None
    }
}

} // verus!
