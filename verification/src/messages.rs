//! Typed model of KRPC messages with bidirectional bencoding.
//!
//! A KRPC datagram is one bencoded dictionary with a transaction id `t`, a
//! tag `y` choosing between query, response and error, and a body keyed by
//! the tag. Responses carry no tag of their own kind: the variant is
//! inferred from which fields are present.

use vstd::prelude::*;

use crate::bencode::{
    dec_value, is_digits, lemma_dict_next_shrinks, lemma_find_byte, lemma_scan_items_step,
    lemma_scan_pairs_step, parse_int, parse_len, spec_as_dict, spec_dict_next, spec_eat_any,
    spec_eat_integer, spec_eat_str, spec_list_next, spec_scan_items, spec_scan_pairs, Bencode,
    Dict, DecodingError, FromBencode, List, ToBencode, Value, ValueModel,
};

verus! {

/// A KRPC error, by the protocol's numeric code, carrying its message.
#[derive(Debug, PartialEq)]
pub enum KRPCError {
    UnknownError(String),
    GenericError(String),
    ServerError(String),
    ProtocolError(String),
    MethodUnknown(String),
}

/// A query, with every 20-byte identifier borrowed from the input buffer.
#[derive(Debug, PartialEq)]
pub enum KRPCQuery<'a> {
    Ping { id: &'a [u8; 20] },
    FindNode { id: &'a [u8; 20], target: &'a [u8; 20] },
    GetPeers { id: &'a [u8; 20], info_hash: &'a [u8; 20] },
    AnnouncePeer { id: &'a [u8; 20], info_hash: &'a [u8; 20], port: i64, token: &'a [u8] },
}

/// A response; the variant is chosen on decode by which fields are present.
#[derive(Debug, PartialEq)]
pub enum KRPCResponse<'a> {
    Ping { id: &'a [u8; 20] },
    FindNode { id: &'a [u8; 20], nodes: &'a [u8] },
    GetPeers { id: &'a [u8; 20], token: &'a [u8] },
}

/// The body of a message: an error, a query or a response.
#[derive(Debug, PartialEq)]
pub enum KRPCMessageDetails<'a> {
    Error(KRPCError),
    Query(KRPCQuery<'a>),
    Response(KRPCResponse<'a>),
}

/// A KRPC message: the mandatory transaction id and the body.
#[derive(Debug, PartialEq)]
pub struct KRPCMessage<'a> {
    pub transaction_id: &'a [u8],
    pub message: KRPCMessageDetails<'a>,
}

/// Spec-level shape of a [`KRPCError`].
pub enum ErrorModel {
    Unknown(Seq<char>),
    Generic(Seq<char>),
    Server(Seq<char>),
    Protocol(Seq<char>),
    MethodUnknown(Seq<char>),
}

/// Spec-level shape of a [`KRPCQuery`].
pub enum QueryModel {
    Ping { id: Seq<u8> },
    FindNode { id: Seq<u8>, target: Seq<u8> },
    GetPeers { id: Seq<u8>, info_hash: Seq<u8> },
    AnnouncePeer { id: Seq<u8>, info_hash: Seq<u8>, port: i64, token: Seq<u8> },
}

/// Spec-level shape of a [`KRPCResponse`].
pub enum ResponseModel {
    Ping { id: Seq<u8> },
    FindNode { id: Seq<u8>, nodes: Seq<u8> },
    GetPeers { id: Seq<u8>, token: Seq<u8> },
}

/// Spec-level shape of a [`KRPCMessageDetails`].
pub enum DetailsModel {
    Error(ErrorModel),
    Query(QueryModel),
    Response(ResponseModel),
}

/// Spec-level shape of a [`KRPCMessage`].
pub struct MessageModel {
    pub transaction_id: Seq<u8>,
    pub message: DetailsModel,
}

impl View for KRPCError {
    type V = ErrorModel;

    open spec fn view(&self) -> ErrorModel {
        match self {
            KRPCError::UnknownError(m) => ErrorModel::Unknown(m@),
            KRPCError::GenericError(m) => ErrorModel::Generic(m@),
            KRPCError::ServerError(m) => ErrorModel::Server(m@),
            KRPCError::ProtocolError(m) => ErrorModel::Protocol(m@),
            KRPCError::MethodUnknown(m) => ErrorModel::MethodUnknown(m@),
        }
    }
}

impl<'a> View for KRPCQuery<'a> {
    type V = QueryModel;

    open spec fn view(&self) -> QueryModel {
        match self {
            KRPCQuery::Ping { id } => QueryModel::Ping { id: id@ },
            KRPCQuery::FindNode { id, target } => QueryModel::FindNode {
                id: id@,
                target: target@,
            },
            KRPCQuery::GetPeers { id, info_hash } => QueryModel::GetPeers {
                id: id@,
                info_hash: info_hash@,
            },
            KRPCQuery::AnnouncePeer { id, info_hash, port, token } => QueryModel::AnnouncePeer {
                id: id@,
                info_hash: info_hash@,
                port: *port,
                token: token@,
            },
        }
    }
}

impl<'a> View for KRPCResponse<'a> {
    type V = ResponseModel;

    open spec fn view(&self) -> ResponseModel {
        match self {
            KRPCResponse::Ping { id } => ResponseModel::Ping { id: id@ },
            KRPCResponse::FindNode { id, nodes } => ResponseModel::FindNode {
                id: id@,
                nodes: nodes@,
            },
            KRPCResponse::GetPeers { id, token } => ResponseModel::GetPeers {
                id: id@,
                token: token@,
            },
        }
    }
}

impl<'a> View for KRPCMessageDetails<'a> {
    type V = DetailsModel;

    open spec fn view(&self) -> DetailsModel {
        match self {
            KRPCMessageDetails::Error(e) => DetailsModel::Error(e@),
            KRPCMessageDetails::Query(q) => DetailsModel::Query(q@),
            KRPCMessageDetails::Response(r) => DetailsModel::Response(r@),
        }
    }
}

impl<'a> View for KRPCMessage<'a> {
    type V = MessageModel;

    open spec fn view(&self) -> MessageModel {
        MessageModel { transaction_id: self.transaction_id@, message: self.message@ }
    }
}

/// Decimal rendering of `n`, most significant digit first.
pub open spec fn spec_dec_digits(n: int) -> Seq<u8>
    recommends
        n >= 0,
    decreases n,
{
    if n <= 9 {
        seq![(0x30 + n) as u8]
    } else {
        spec_dec_digits(n / 10).push((0x30 + n % 10) as u8)
    }
}

/// A byte string on the wire: its decimal length, a colon, the raw bytes.
pub open spec fn spec_str_enc(b: Seq<u8>) -> Seq<u8> {
    spec_dec_digits(b.len() as int) + seq![0x3au8] + b
}

/// An integer on the wire: `i`, an optional sign, the decimal digits, `e`.
pub open spec fn spec_int_enc(v: int) -> Seq<u8> {
    if v < 0 {
        seq![0x69u8, 0x2d] + spec_dec_digits(-v) + seq![0x65u8]
    } else {
        seq![0x69u8] + spec_dec_digits(v) + seq![0x65u8]
    }
}

pub open spec fn key_id() -> Seq<u8> {
    seq![0x69u8, 0x64]
}

pub open spec fn key_info_hash() -> Seq<u8> {
    seq![0x69u8, 0x6e, 0x66, 0x6f, 0x5f, 0x68, 0x61, 0x73, 0x68]
}

pub open spec fn key_target() -> Seq<u8> {
    seq![0x74u8, 0x61, 0x72, 0x67, 0x65, 0x74]
}

pub open spec fn key_token() -> Seq<u8> {
    seq![0x74u8, 0x6f, 0x6b, 0x65, 0x6e]
}

pub open spec fn key_nodes() -> Seq<u8> {
    seq![0x6eu8, 0x6f, 0x64, 0x65, 0x73]
}

pub open spec fn key_port() -> Seq<u8> {
    seq![0x70u8, 0x6f, 0x72, 0x74]
}

pub open spec fn name_ping() -> Seq<u8> {
    seq![0x70u8, 0x69, 0x6e, 0x67]
}

pub open spec fn name_find_node() -> Seq<u8> {
    seq![0x66u8, 0x69, 0x6e, 0x64, 0x5f, 0x6e, 0x6f, 0x64, 0x65]
}

pub open spec fn name_get_peers() -> Seq<u8> {
    seq![0x67u8, 0x65, 0x74, 0x5f, 0x70, 0x65, 0x65, 0x72, 0x73]
}

pub open spec fn name_announce_peer() -> Seq<u8> {
    seq![0x61u8, 0x6e, 0x6e, 0x6f, 0x75, 0x6e, 0x63, 0x65, 0x5f, 0x70, 0x65, 0x65, 0x72]
}

/// The numeric code an error is emitted with. The wire format has no code
/// for the catch-all kind, which goes out as a generic error.
pub open spec fn spec_err_code(e: ErrorModel) -> int {
    match e {
        ErrorModel::Unknown(_) => 201,
        ErrorModel::Generic(_) => 201,
        ErrorModel::Server(_) => 202,
        ErrorModel::Protocol(_) => 203,
        ErrorModel::MethodUnknown(_) => 204,
    }
}

/// The message an error carries.
pub open spec fn spec_err_msg(e: ErrorModel) -> Seq<char> {
    match e {
        ErrorModel::Unknown(m) => m,
        ErrorModel::Generic(m) => m,
        ErrorModel::Server(m) => m,
        ErrorModel::Protocol(m) => m,
        ErrorModel::MethodUnknown(m) => m,
    }
}

/// The arguments dictionary of a query, keys in lexicographic order.
pub open spec fn spec_enc_query_args(q: QueryModel) -> Seq<u8> {
    match q {
        QueryModel::Ping { id } => spec_str_enc(key_id()) + spec_str_enc(id),
        QueryModel::FindNode { id, target } => spec_str_enc(key_id()) + spec_str_enc(id)
            + spec_str_enc(key_target()) + spec_str_enc(target),
        QueryModel::GetPeers { id, info_hash } => spec_str_enc(key_id()) + spec_str_enc(id)
            + spec_str_enc(key_info_hash()) + spec_str_enc(info_hash),
        QueryModel::AnnouncePeer { id, info_hash, port, token } => spec_str_enc(key_id())
            + spec_str_enc(id) + spec_str_enc(key_info_hash()) + spec_str_enc(info_hash)
            + spec_str_enc(key_port()) + spec_int_enc(port as int) + spec_str_enc(key_token())
            + spec_str_enc(token),
    }
}

/// The method name of a query.
pub open spec fn spec_query_name(q: QueryModel) -> Seq<u8> {
    match q {
        QueryModel::Ping { .. } => name_ping(),
        QueryModel::FindNode { .. } => name_find_node(),
        QueryModel::GetPeers { .. } => name_get_peers(),
        QueryModel::AnnouncePeer { .. } => name_announce_peer(),
    }
}

/// The response dictionary, keys in lexicographic order.
pub open spec fn spec_enc_response_body(r: ResponseModel) -> Seq<u8> {
    match r {
        ResponseModel::Ping { id } => spec_str_enc(key_id()) + spec_str_enc(id),
        ResponseModel::FindNode { id, nodes } => spec_str_enc(key_id()) + spec_str_enc(id)
            + spec_str_enc(key_nodes()) + spec_str_enc(nodes),
        ResponseModel::GetPeers { id, token } => spec_str_enc(key_id()) + spec_str_enc(id)
            + spec_str_enc(key_token()) + spec_str_enc(token),
    }
}

/// The closing fields shared by every message: `t`, then `y` with the tag,
/// then the dictionary terminator.
pub open spec fn spec_enc_tail(tid: Seq<u8>, tag: u8) -> Seq<u8> {
    spec_str_enc(seq![0x74u8]) + spec_str_enc(tid) + spec_str_enc(seq![0x79u8]) + spec_str_enc(
        seq![tag],
    ) + seq![0x65u8]
}

/// The bencoded body fields of a message, by its variant.
pub open spec fn spec_enc_details(d: DetailsModel) -> Seq<u8> {
    match d {
        DetailsModel::Error(e) => spec_str_enc(seq![0x65u8]) + seq![0x6cu8] + spec_int_enc(
            spec_err_code(e),
        ) + spec_str_enc(vstd::utf8::encode_utf8(spec_err_msg(e))) + seq![0x65u8],
        DetailsModel::Query(q) => spec_str_enc(seq![0x61u8]) + seq![0x64u8] + spec_enc_query_args(
            q,
        ) + seq![0x65u8] + spec_str_enc(seq![0x71u8]) + spec_str_enc(spec_query_name(q)),
        DetailsModel::Response(r) => spec_str_enc(seq![0x72u8]) + seq![0x64u8]
            + spec_enc_response_body(r) + seq![0x65u8],
    }
}

/// The one-byte tag a message carries in its `y` field.
pub open spec fn spec_tag(d: DetailsModel) -> u8 {
    match d {
        DetailsModel::Error(_) => 0x65,
        DetailsModel::Query(_) => 0x71,
        DetailsModel::Response(_) => 0x72,
    }
}

/// The exact bytes a message serialises to. Top-level keys stand in
/// lexicographic order: `a`/`e`/`r` first, then `q` where present, then `t`,
/// then `y`.
pub open spec fn spec_encode(m: MessageModel) -> Seq<u8> {
    seq![0x64u8] + spec_enc_details(m.message) + spec_enc_tail(
        m.transaction_id,
        spec_tag(m.message),
    )
}

fn push_decimal(out: &mut Vec<u8>, n: u64)
    ensures
        final(out)@ == old(out)@ + spec_dec_digits(n as int),
    decreases n,
{
    if n <= 9 {
        out.push(0x30 + n as u8);
    } else {
        push_decimal(out, n / 10);
        out.push(0x30 + (n % 10) as u8);
    }
}

fn push_str_enc(out: &mut Vec<u8>, b: &[u8])
    ensures
        final(out)@ == old(out)@ + spec_str_enc(b@),
{
    push_decimal(out, b.len() as u64);
    out.push(0x3a);
    out.extend_from_slice(b);
    proof {
        assert(out@ =~= old(out)@ + spec_str_enc(b@));
    }
}

fn push_int_enc(out: &mut Vec<u8>, v: i64)
    ensures
        final(out)@ == old(out)@ + spec_int_enc(v as int),
{
    out.push(0x69);
    if v < 0 {
        out.push(0x2d);
        let mag: u64 = (-(v as i128)) as u64;
        push_decimal(out, mag);
    } else {
        push_decimal(out, v as u64);
    }
    out.push(0x65);
    proof {
        assert(out@ =~= old(out)@ + spec_int_enc(v as int));
    }
}

fn push_error_details(out: &mut Vec<u8>, err: &KRPCError)
    ensures
        final(out)@ == old(out)@ + spec_enc_details(DetailsModel::Error(err@)),
{
    let (code, msg): (i64, &String) = match err {
        KRPCError::UnknownError(m) => (201, m),
        KRPCError::GenericError(m) => (201, m),
        KRPCError::ServerError(m) => (202, m),
        KRPCError::ProtocolError(m) => (203, m),
        KRPCError::MethodUnknown(m) => (204, m),
    };
    let lit = [0x31u8, 0x3a, 0x65, 0x6c];
    out.extend_from_slice(&lit[0..4]);
    proof {
        assert(lit@.subrange(0, 4) =~= spec_str_enc(seq![0x65u8]) + seq![0x6cu8]);
    }
    push_int_enc(out, code);
    push_str_enc(out, msg.as_str().as_bytes());
    out.push(0x65);
    proof {
        assert(out@ =~= old(out)@ + spec_enc_details(DetailsModel::Error(err@)));
    }
}

#[verifier::rlimit(100)]
fn push_query_details(out: &mut Vec<u8>, q: &KRPCQuery)
    ensures
        final(out)@ == old(out)@ + spec_enc_details(DetailsModel::Query(q@)),
{
    let lit = [0x31u8, 0x3a, 0x61, 0x64];
    out.extend_from_slice(&lit[0..4]);
    proof {
        assert(lit@.subrange(0, 4) =~= spec_str_enc(seq![0x61u8]) + seq![0x64u8]);
    }
    let kid = [0x32u8, 0x3a, 0x69, 0x64];
    match q {
        KRPCQuery::Ping { id } => {
            out.extend_from_slice(&kid[0..4]);
            proof {
                assert(kid@.subrange(0, 4) =~= spec_str_enc(key_id()));
            }
            push_str_enc(out, id.as_slice());
            let tag = [0x65u8, 0x31, 0x3a, 0x71, 0x34, 0x3a, 0x70, 0x69, 0x6e, 0x67];
            out.extend_from_slice(&tag[0..10]);
            proof {
                assert(tag@.subrange(0, 10) =~= seq![0x65u8] + spec_str_enc(seq![0x71u8])
                    + spec_str_enc(name_ping()));
                assert(out@ =~= old(out)@ + spec_enc_details(DetailsModel::Query(q@)));
            }
        },
        KRPCQuery::FindNode { id, target } => {
            out.extend_from_slice(&kid[0..4]);
            proof {
                assert(kid@.subrange(0, 4) =~= spec_str_enc(key_id()));
            }
            push_str_enc(out, id.as_slice());
            let kt = [0x36u8, 0x3a, 0x74, 0x61, 0x72, 0x67, 0x65, 0x74];
            out.extend_from_slice(&kt[0..8]);
            proof {
                assert(kt@.subrange(0, 8) =~= spec_str_enc(key_target()));
            }
            push_str_enc(out, target.as_slice());
            let tag = [
                0x65u8,
                0x31,
                0x3a,
                0x71,
                0x39,
                0x3a,
                0x66,
                0x69,
                0x6e,
                0x64,
                0x5f,
                0x6e,
                0x6f,
                0x64,
                0x65,
            ];
            out.extend_from_slice(&tag[0..15]);
            proof {
                assert(tag@.subrange(0, 15) =~= seq![0x65u8] + spec_str_enc(seq![0x71u8])
                    + spec_str_enc(name_find_node()));
                assert(out@ =~= old(out)@ + spec_enc_details(DetailsModel::Query(q@)));
            }
        },
        KRPCQuery::GetPeers { id, info_hash } => {
            out.extend_from_slice(&kid[0..4]);
            proof {
                assert(kid@.subrange(0, 4) =~= spec_str_enc(key_id()));
            }
            push_str_enc(out, id.as_slice());
            let kh = [0x39u8, 0x3a, 0x69, 0x6e, 0x66, 0x6f, 0x5f, 0x68, 0x61, 0x73, 0x68];
            out.extend_from_slice(&kh[0..11]);
            proof {
                assert(kh@.subrange(0, 11) =~= spec_str_enc(key_info_hash()));
            }
            push_str_enc(out, info_hash.as_slice());
            let tag = [
                0x65u8,
                0x31,
                0x3a,
                0x71,
                0x39,
                0x3a,
                0x67,
                0x65,
                0x74,
                0x5f,
                0x70,
                0x65,
                0x65,
                0x72,
                0x73,
            ];
            out.extend_from_slice(&tag[0..15]);
            proof {
                assert(tag@.subrange(0, 15) =~= seq![0x65u8] + spec_str_enc(seq![0x71u8])
                    + spec_str_enc(name_get_peers()));
                assert(out@ =~= old(out)@ + spec_enc_details(DetailsModel::Query(q@)));
            }
        },
        KRPCQuery::AnnouncePeer { id, info_hash, port, token } => {
            out.extend_from_slice(&kid[0..4]);
            proof {
                assert(kid@.subrange(0, 4) =~= spec_str_enc(key_id()));
            }
            push_str_enc(out, id.as_slice());
            let kh = [0x39u8, 0x3a, 0x69, 0x6e, 0x66, 0x6f, 0x5f, 0x68, 0x61, 0x73, 0x68];
            out.extend_from_slice(&kh[0..11]);
            proof {
                assert(kh@.subrange(0, 11) =~= spec_str_enc(key_info_hash()));
            }
            push_str_enc(out, info_hash.as_slice());
            let kp = [0x34u8, 0x3a, 0x70, 0x6f, 0x72, 0x74];
            out.extend_from_slice(&kp[0..6]);
            proof {
                assert(kp@.subrange(0, 6) =~= spec_str_enc(key_port()));
            }
            push_int_enc(out, *port);
            let kk = [0x35u8, 0x3a, 0x74, 0x6f, 0x6b, 0x65, 0x6e];
            out.extend_from_slice(&kk[0..7]);
            proof {
                assert(kk@.subrange(0, 7) =~= spec_str_enc(key_token()));
            }
            push_str_enc(out, token);
            let tag = [
                0x65u8,
                0x31,
                0x3a,
                0x71,
                0x31,
                0x33,
                0x3a,
                0x61,
                0x6e,
                0x6e,
                0x6f,
                0x75,
                0x6e,
                0x63,
                0x65,
                0x5f,
                0x70,
                0x65,
                0x65,
                0x72,
            ];
            out.extend_from_slice(&tag[0..20]);
            proof {
                assert(spec_dec_digits(13) =~= seq![0x31u8, 0x33]);
                assert(tag@.subrange(0, 20) =~= seq![0x65u8] + spec_str_enc(seq![0x71u8])
                    + spec_str_enc(name_announce_peer()));
                assert(out@ =~= old(out)@ + spec_enc_details(DetailsModel::Query(q@)));
            }
        },
    }
}

#[verifier::rlimit(50)]
fn push_response_details(out: &mut Vec<u8>, resp: &KRPCResponse)
    ensures
        final(out)@ == old(out)@ + spec_enc_details(DetailsModel::Response(resp@)),
{
    let lit = [0x31u8, 0x3a, 0x72, 0x64];
    out.extend_from_slice(&lit[0..4]);
    proof {
        assert(lit@.subrange(0, 4) =~= spec_str_enc(seq![0x72u8]) + seq![0x64u8]);
    }
    let kid = [0x32u8, 0x3a, 0x69, 0x64];
    match resp {
        KRPCResponse::Ping { id } => {
            out.extend_from_slice(&kid[0..4]);
            proof {
                assert(kid@.subrange(0, 4) =~= spec_str_enc(key_id()));
            }
            push_str_enc(out, id.as_slice());
            out.push(0x65);
            proof {
                assert(out@ =~= old(out)@ + spec_enc_details(DetailsModel::Response(resp@)));
            }
        },
        KRPCResponse::GetPeers { id, token } => {
            out.extend_from_slice(&kid[0..4]);
            proof {
                assert(kid@.subrange(0, 4) =~= spec_str_enc(key_id()));
            }
            push_str_enc(out, id.as_slice());
            let kk = [0x35u8, 0x3a, 0x74, 0x6f, 0x6b, 0x65, 0x6e];
            out.extend_from_slice(&kk[0..7]);
            proof {
                assert(kk@.subrange(0, 7) =~= spec_str_enc(key_token()));
            }
            push_str_enc(out, token);
            out.push(0x65);
            proof {
                assert(out@ =~= old(out)@ + spec_enc_details(DetailsModel::Response(resp@)));
            }
        },
        KRPCResponse::FindNode { id, nodes } => {
            out.extend_from_slice(&kid[0..4]);
            proof {
                assert(kid@.subrange(0, 4) =~= spec_str_enc(key_id()));
            }
            push_str_enc(out, id.as_slice());
            let kn = [0x35u8, 0x3a, 0x6e, 0x6f, 0x64, 0x65, 0x73];
            out.extend_from_slice(&kn[0..7]);
            proof {
                assert(kn@.subrange(0, 7) =~= spec_str_enc(key_nodes()));
            }
            push_str_enc(out, nodes);
            out.push(0x65);
            proof {
                assert(out@ =~= old(out)@ + spec_enc_details(DetailsModel::Response(resp@)));
            }
        },
    }
}

impl<'a> KRPCMessage<'a> {
    /// Serialises the message. Each variant writes its fixed field order,
    /// chosen to put the dictionary keys in lexicographic byte order without
    /// sorting at runtime.
    pub fn to_bencode(&self) -> (r: Vec<u8>)
        ensures
            r@ == spec_encode(self@),
    {
        let mut vec1: Vec<u8> = Vec::with_capacity(256);
        vec1.push(0x64);
        match &self.message {
            KRPCMessageDetails::Error(err) => push_error_details(&mut vec1, err),
            KRPCMessageDetails::Query(q) => push_query_details(&mut vec1, q),
            KRPCMessageDetails::Response(resp) => push_response_details(&mut vec1, resp),
        }
        let kt = [0x31u8, 0x3a, 0x74];
        vec1.extend_from_slice(&kt[0..3]);
        proof {
            assert(kt@.subrange(0, 3) =~= spec_str_enc(seq![0x74u8]));
        }
        push_str_enc(&mut vec1, self.transaction_id);
        let message_type: u8 = match self.message {
            KRPCMessageDetails::Error(_) => 0x65,
            KRPCMessageDetails::Query(_) => 0x71,
            KRPCMessageDetails::Response(_) => 0x72,
        };
        let ky = [0x31u8, 0x3a, 0x79, 0x31, 0x3a];
        vec1.extend_from_slice(&ky[0..5]);
        vec1.push(message_type);
        vec1.push(0x65);
        proof {
            assert(ky@.subrange(0, 5) + seq![message_type] =~= spec_str_enc(seq![0x79u8])
                + spec_str_enc(seq![message_type]));
            assert(vec1@ =~= spec_encode(self@));
        }
        vec1
    }
}

/// The kind an error of numeric `code` decodes to; codes outside the table
/// become the catch-all kind.
pub open spec fn spec_err_kind(code: i64, msg: Seq<char>) -> ErrorModel {
    if code == 201 {
        ErrorModel::Generic(msg)
    } else if code == 202 {
        ErrorModel::Server(msg)
    } else if code == 203 {
        ErrorModel::Protocol(msg)
    } else if code == 204 {
        ErrorModel::MethodUnknown(msg)
    } else {
        ErrorModel::Unknown(msg)
    }
}

/// Reading the error details list `[code, message]` from its cursor. The
/// first item must be an integer, the second a string holding UTF-8 text.
pub open spec fn spec_read_error(body: Seq<u8>) -> Result<ErrorModel, DecodingError> {
    match spec_list_next(body) {
        None => Err(DecodingError::RequiredFieldOfWrongType),
        Some((v0, rest)) => match v0 {
            ValueModel::Int(code) => match spec_list_next(rest) {
                None => Err(DecodingError::RequiredFieldOfWrongType),
                Some((v1, _)) => match v1 {
                    ValueModel::Str(msg) => if vstd::utf8::valid_utf8(msg) {
                        Ok(spec_err_kind(code, vstd::utf8::decode_utf8(msg)))
                    } else {
                        Err(DecodingError::RequiredFieldOfWrongType)
                    },
                    _ => Err(DecodingError::RequiredFieldOfWrongType),
                },
            },
            _ => Err(DecodingError::RequiredFieldOfWrongType),
        },
    }
}

/// The tag a message carries in its `y` field, before the body is assembled.
pub enum MessageTypeModel {
    Query,
    Error,
    Response,
    Unknown,
}

/// The method named by the `q` field, before the arguments are assembled.
pub enum QueryTypeModel {
    Ping,
    FindNode,
    GetPeers,
    AnnouncePeer,
    Unknown,
}

/// The fields gathered while walking the top-level dictionary once.
pub struct DecodeState {
    pub transaction_id: Option<Seq<u8>>,
    pub message_type: MessageTypeModel,
    pub query_type: QueryTypeModel,
    pub other_id: Option<Seq<u8>>,
    pub info_hash: Option<Seq<u8>>,
    pub target: Option<Seq<u8>>,
    pub token: Option<Seq<u8>>,
    pub nodes: Option<Seq<u8>>,
    pub a_port: Option<i64>,
    pub a_token: Option<Seq<u8>>,
    pub error_details: Option<ErrorModel>,
}

/// The state before any field was seen.
pub open spec fn init_state() -> DecodeState {
    DecodeState {
        transaction_id: None,
        message_type: MessageTypeModel::Unknown,
        query_type: QueryTypeModel::Unknown,
        other_id: None,
        info_hash: None,
        target: None,
        token: None,
        nodes: None,
        a_port: None,
        a_token: None,
        error_details: None,
    }
}

/// A 20-byte field keeps its bytes; any other length leaves the field unset.
pub open spec fn spec_to_20(b: Seq<u8>) -> Option<Seq<u8>> {
    if b.len() == 20 {
        Some(b)
    } else {
        None
    }
}

/// The fields that the response dictionary `r` can set.
pub struct RFields {
    pub other_id: Option<Seq<u8>>,
    pub token: Option<Seq<u8>>,
    pub nodes: Option<Seq<u8>>,
}

/// The fields that the arguments dictionary `a` can set.
pub struct AFields {
    pub other_id: Option<Seq<u8>>,
    pub info_hash: Option<Seq<u8>>,
    pub target: Option<Seq<u8>>,
    pub a_port: Option<i64>,
    pub a_token: Option<Seq<u8>>,
}

/// Walking the response dictionary `r`: `id`, `token` and `nodes` must be
/// strings where present; other keys are ignored. A scan that stops early
/// (at a malformed entry) keeps what it has.
pub open spec fn spec_scan_r(body: Seq<u8>, st: RFields) -> Result<RFields, DecodingError>
    decreases body.len(),
{
    match spec_dict_next(body) {
        None => Ok(st),
        Some((k, v, rest)) => if rest.len() >= body.len() {
            Ok(st)
        } else {
            if k == key_id() {
                match v {
                    ValueModel::Str(b) => spec_scan_r(
                        rest,
                        RFields { other_id: spec_to_20(b), ..st },
                    ),
                    _ => Err(DecodingError::RequiredFieldOfWrongType),
                }
            } else if k == key_token() {
                match v {
                    ValueModel::Str(b) => spec_scan_r(rest, RFields { token: Some(b), ..st }),
                    _ => Err(DecodingError::RequiredFieldOfWrongType),
                }
            } else if k == key_nodes() {
                match v {
                    ValueModel::Str(b) => spec_scan_r(rest, RFields { nodes: Some(b), ..st }),
                    _ => Err(DecodingError::RequiredFieldOfWrongType),
                }
            } else {
                spec_scan_r(rest, st)
            }
        },
    }
}

/// Walking the arguments dictionary `a`: the 20-byte identifiers, and the
/// `port` integer and `token` string that an announce carries.
pub open spec fn spec_scan_a(body: Seq<u8>, st: AFields) -> Result<AFields, DecodingError>
    decreases body.len(),
{
    match spec_dict_next(body) {
        None => Ok(st),
        Some((k, v, rest)) => if rest.len() >= body.len() {
            Ok(st)
        } else {
            if k == key_id() {
                match v {
                    ValueModel::Str(b) => spec_scan_a(
                        rest,
                        AFields { other_id: spec_to_20(b), ..st },
                    ),
                    _ => Err(DecodingError::RequiredFieldOfWrongType),
                }
            } else if k == key_info_hash() {
                match v {
                    ValueModel::Str(b) => spec_scan_a(
                        rest,
                        AFields { info_hash: spec_to_20(b), ..st },
                    ),
                    _ => Err(DecodingError::RequiredFieldOfWrongType),
                }
            } else if k == key_target() {
                match v {
                    ValueModel::Str(b) => spec_scan_a(
                        rest,
                        AFields { target: spec_to_20(b), ..st },
                    ),
                    _ => Err(DecodingError::RequiredFieldOfWrongType),
                }
            } else if k == key_port() {
                match v {
                    ValueModel::Int(p) => spec_scan_a(rest, AFields { a_port: Some(p), ..st }),
                    _ => Err(DecodingError::RequiredFieldOfWrongType),
                }
            } else if k == key_token() {
                match v {
                    ValueModel::Str(b) => spec_scan_a(rest, AFields { a_token: Some(b), ..st }),
                    _ => Err(DecodingError::RequiredFieldOfWrongType),
                }
            } else {
                spec_scan_a(rest, st)
            }
        },
    }
}

/// The response fields held in a state.
pub open spec fn r_of(st: DecodeState) -> RFields {
    RFields { other_id: st.other_id, token: st.token, nodes: st.nodes }
}

/// The argument fields held in a state.
pub open spec fn a_of(st: DecodeState) -> AFields {
    AFields {
        other_id: st.other_id,
        info_hash: st.info_hash,
        target: st.target,
        a_port: st.a_port,
        a_token: st.a_token,
    }
}

/// Walking the top-level dictionary once, populating the state. Unknown keys
/// are ignored; known keys of the wrong shape fail the decode.
pub open spec fn spec_scan_top(s: Seq<u8>, st: DecodeState) -> Result<DecodeState, DecodingError>
    decreases s.len(),
{
    match spec_dict_next(s) {
        None => Ok(st),
        Some((k, v, rest)) => if rest.len() >= s.len() {
            Ok(st)
        } else {
            if k == seq![0x74u8] {
                match v {
                    ValueModel::Str(b) => spec_scan_top(
                        rest,
                        DecodeState { transaction_id: Some(b), ..st },
                    ),
                    _ => Err(DecodingError::RequiredFieldOfWrongType),
                }
            } else if k == seq![0x79u8] {
                match v {
                    ValueModel::Str(b) => if b == seq![0x65u8] {
                        spec_scan_top(
                            rest,
                            DecodeState { message_type: MessageTypeModel::Error, ..st },
                        )
                    } else if b == seq![0x71u8] {
                        spec_scan_top(
                            rest,
                            DecodeState { message_type: MessageTypeModel::Query, ..st },
                        )
                    } else if b == seq![0x72u8] {
                        spec_scan_top(
                            rest,
                            DecodeState { message_type: MessageTypeModel::Response, ..st },
                        )
                    } else {
                        Err(DecodingError::RequiredFieldOfWrongType)
                    },
                    _ => Err(DecodingError::RequiredFieldOfWrongType),
                }
            } else if k == seq![0x65u8] {
                match v {
                    ValueModel::List(body) => match spec_read_error(body) {
                        Ok(em) => spec_scan_top(
                            rest,
                            DecodeState { error_details: Some(em), ..st },
                        ),
                        Err(e) => Err(e),
                    },
                    _ => Err(DecodingError::RequiredFieldOfWrongType),
                }
            } else if k == seq![0x71u8] {
                match v {
                    ValueModel::Str(b) => if b == name_ping() {
                        spec_scan_top(rest, DecodeState { query_type: QueryTypeModel::Ping, ..st })
                    } else if b == name_find_node() {
                        spec_scan_top(
                            rest,
                            DecodeState { query_type: QueryTypeModel::FindNode, ..st },
                        )
                    } else if b == name_get_peers() {
                        spec_scan_top(
                            rest,
                            DecodeState { query_type: QueryTypeModel::GetPeers, ..st },
                        )
                    } else if b == name_announce_peer() {
                        spec_scan_top(
                            rest,
                            DecodeState { query_type: QueryTypeModel::AnnouncePeer, ..st },
                        )
                    } else {
                        Err(DecodingError::RequiredFieldOfWrongType)
                    },
                    _ => Err(DecodingError::RequiredFieldOfWrongType),
                }
            } else if k == seq![0x72u8] {
                match v {
                    ValueModel::Dict(body) => match spec_scan_r(body, r_of(st)) {
                        Ok(rs) => spec_scan_top(
                            rest,
                            DecodeState {
                                other_id: rs.other_id,
                                token: rs.token,
                                nodes: rs.nodes,
                                ..st
                            },
                        ),
                        Err(e) => Err(e),
                    },
                    _ => Err(DecodingError::RequiredFieldOfWrongType),
                }
            } else if k == seq![0x61u8] {
                match v {
                    ValueModel::Dict(body) => match spec_scan_a(body, a_of(st)) {
                        Ok(a) => spec_scan_top(
                            rest,
                            DecodeState {
                                other_id: a.other_id,
                                info_hash: a.info_hash,
                                target: a.target,
                                a_port: a.a_port,
                                a_token: a.a_token,
                                ..st
                            },
                        ),
                        Err(e) => Err(e),
                    },
                    _ => Err(DecodingError::RequiredFieldOfWrongType),
                }
            } else {
                spec_scan_top(rest, st)
            }
        },
    }
}

/// Assembling the message from the gathered state. The transaction id is
/// mandatory; a query needs its 20-byte fields; a response is disambiguated
/// by presence: a token means get_peers, else nodes means find_node, else an
/// id means ping.
pub open spec fn spec_finalize(st: DecodeState) -> Result<MessageModel, DecodingError> {
    match st.transaction_id {
        None => Err(DecodingError::MissingRequiredField),
        Some(tid) => match st.message_type {
            MessageTypeModel::Error => match st.error_details {
                Some(e) => Ok(MessageModel { transaction_id: tid, message: DetailsModel::Error(e) }),
                None => Err(DecodingError::MissingRequiredField),
            },
            MessageTypeModel::Query => match st.query_type {
                QueryTypeModel::Ping => match st.other_id {
                    Some(id) => Ok(
                        MessageModel {
                            transaction_id: tid,
                            message: DetailsModel::Query(QueryModel::Ping { id }),
                        },
                    ),
                    None => Err(DecodingError::MissingRequiredField),
                },
                QueryTypeModel::GetPeers => match (st.other_id, st.info_hash) {
                    (Some(id), Some(info_hash)) => Ok(
                        MessageModel {
                            transaction_id: tid,
                            message: DetailsModel::Query(QueryModel::GetPeers { id, info_hash }),
                        },
                    ),
                    _ => Err(DecodingError::MissingRequiredField),
                },
                QueryTypeModel::FindNode => match (st.other_id, st.target) {
                    (Some(id), Some(target)) => Ok(
                        MessageModel {
                            transaction_id: tid,
                            message: DetailsModel::Query(QueryModel::FindNode { id, target }),
                        },
                    ),
                    _ => Err(DecodingError::MissingRequiredField),
                },
                QueryTypeModel::AnnouncePeer => match (
                    st.other_id,
                    st.info_hash,
                    st.a_port,
                    st.a_token,
                ) {
                    (Some(id), Some(info_hash), Some(port), Some(token)) => Ok(
                        MessageModel {
                            transaction_id: tid,
                            message: DetailsModel::Query(
                                QueryModel::AnnouncePeer { id, info_hash, port, token },
                            ),
                        },
                    ),
                    _ => Err(DecodingError::MissingRequiredField),
                },
                QueryTypeModel::Unknown => Err(DecodingError::MissingRequiredField),
            },
            MessageTypeModel::Response => match st.token {
                Some(token) => match st.other_id {
                    Some(id) => Ok(
                        MessageModel {
                            transaction_id: tid,
                            message: DetailsModel::Response(ResponseModel::GetPeers { id, token }),
                        },
                    ),
                    None => Err(DecodingError::MissingRequiredField),
                },
                None => match st.nodes {
                    Some(nodes) => match st.other_id {
                        Some(id) => Ok(
                            MessageModel {
                                transaction_id: tid,
                                message: DetailsModel::Response(
                                    ResponseModel::FindNode { id, nodes },
                                ),
                            },
                        ),
                        None => Err(DecodingError::MissingRequiredField),
                    },
                    None => match st.other_id {
                        Some(id) => Ok(
                            MessageModel {
                                transaction_id: tid,
                                message: DetailsModel::Response(ResponseModel::Ping { id }),
                            },
                        ),
                        None => Err(DecodingError::MissingRequiredField),
                    },
                },
            },
            MessageTypeModel::Unknown => Err(DecodingError::MissingRequiredField),
        },
    }
}

/// The message a buffer decodes to, or the exact error: one top-level
/// dictionary with nothing after it, scanned once, then assembled.
pub open spec fn spec_decode(s: Seq<u8>) -> Result<MessageModel, DecodingError> {
    match spec_as_dict(s) {
        Err(e) => Err(e),
        Ok(body) => match spec_scan_top(body, init_state()) {
            Err(e) => Err(e),
            Ok(st) => spec_finalize(st),
        },
    }
}

/// Relies on String::from_utf8 (through a copy of the bytes): it yields the
/// string whose UTF-8 encoding is exactly the given bytes, and fails exactly
/// on bytes that are not valid UTF-8.
#[verifier::external_body]
pub(crate) fn utf8_to_string(v: &[u8]) -> (r: Option<String>)
    ensures
        match r {
            Some(s) => vstd::utf8::valid_utf8(v@) && s@ == vstd::utf8::decode_utf8(v@),
            None => !vstd::utf8::valid_utf8(v@),
        },
{
    String::from_utf8(v.to_vec()).ok()
}

/// Relies on TryFrom between a byte slice and a 20-byte array reference: the
/// cast succeeds, keeping the same bytes, exactly when the length matches.
#[verifier::external_body]
fn to_20_bytes<'b>(i: &'b [u8]) -> (r: Option<&'b [u8; 20]>)
    ensures
        match r {
            Some(a) => i@.len() == 20 && a@ == i@,
            None => i@.len() != 20,
        },
{
    <&[u8; 20]>::try_from(i).ok()
}

pub(crate) fn bytes_eq(a: &[u8], b: &[u8]) -> (r: bool)
    ensures
        r == (a@ == b@),
{
    let n = a.len();
    if n != b.len() {
        return false;
    }
    let mut i: usize = 0;
    while i < n
        invariant
            0 <= i <= n,
            n == a@.len() == b@.len(),
            forall|j: int| 0 <= j < i ==> a@[j] == b@[j],
        decreases n - i,
    {
        if a[i] != b[i] {
            return false;
        }
        i = i + 1;
    }
    proof {
        assert(a@ =~= b@);
    }
    true
}

fn key_is(k: &[u8], b: u8) -> (r: bool)
    ensures
        r == (k@ == seq![b]),
{
    if k.len() == 1 && k[0] == b {
        proof {
            assert(k@ =~= seq![b]);
        }
        true
    } else {
        proof {
            if k@ == seq![b] {
                assert(k@.len() == 1);
            }
        }
        false
    }
}

spec fn opt_bytes(o: Option<&[u8]>) -> Option<Seq<u8>> {
    match o {
        Some(b) => Some(b@),
        None => None,
    }
}

spec fn opt_id(o: Option<&[u8; 20]>) -> Option<Seq<u8>> {
    match o {
        Some(b) => Some(b@),
        None => None,
    }
}

spec fn opt_err(o: Option<KRPCError>) -> Option<ErrorModel> {
    match o {
        Some(e) => Some(e@),
        None => None,
    }
}

spec fn st_model(
    transaction_id: Option<&[u8]>,
    message_type: MessageTypeModel,
    query_type: QueryTypeModel,
    other_id: Option<&[u8; 20]>,
    info_hash: Option<&[u8; 20]>,
    target: Option<&[u8; 20]>,
    token: Option<&[u8]>,
    nodes: Option<&[u8]>,
    a_port: Option<i64>,
    a_token: Option<&[u8]>,
    error_details: Option<KRPCError>,
) -> DecodeState {
    DecodeState {
        transaction_id: opt_bytes(transaction_id),
        message_type,
        query_type,
        other_id: opt_id(other_id),
        info_hash: opt_id(info_hash),
        target: opt_id(target),
        token: opt_bytes(token),
        nodes: opt_bytes(nodes),
        a_port,
        a_token: opt_bytes(a_token),
        error_details: opt_err(error_details),
    }
}

fn read_error_details<'x>(list: List<'x>) -> (r: Result<KRPCError, DecodingError>)
    ensures
        match spec_read_error(list@) {
            Ok(em) => r matches Ok(e) && e@ == em,
            Err(e) => r matches Err(e2) && e2 == e,
        },
{
    let mut list = list;
    let raw_code = list.next();
    let raw_message = list.next();
    let code = match raw_code {
        Some(Value::Integer(v)) => v,
        _ => {
            return Err(DecodingError::RequiredFieldOfWrongType);
        },
    };
    let message: String = match raw_message {
        Some(Value::String(v)) => match utf8_to_string(v) {
            Some(s) => s,
            None => {
                return Err(DecodingError::RequiredFieldOfWrongType);
            },
        },
        _ => {
            return Err(DecodingError::RequiredFieldOfWrongType);
        },
    };
    Ok(
        if code == 201 {
            KRPCError::GenericError(message)
        } else if code == 202 {
            KRPCError::ServerError(message)
        } else if code == 203 {
            KRPCError::ProtocolError(message)
        } else if code == 204 {
            KRPCError::MethodUnknown(message)
        } else {
            KRPCError::UnknownError(message)
        },
    )
}

#[verifier::loop_isolation(false)]
#[verifier::rlimit(100)]
fn scan_r_dict<'x>(
    mid: Dict<'x>,
    other_id: Option<&'x [u8; 20]>,
    token: Option<&'x [u8]>,
    nodes: Option<&'x [u8]>,
) -> (r: Result<(Option<&'x [u8; 20]>, Option<&'x [u8]>, Option<&'x [u8]>), DecodingError>)
    ensures
        match spec_scan_r(
            mid@,
            RFields {
                other_id: opt_id(other_id),
                token: opt_bytes(token),
                nodes: opt_bytes(nodes),
            },
        ) {
            Ok(rs) => r matches Ok(t) && opt_id(t.0) == rs.other_id && opt_bytes(t.1) == rs.token
                && opt_bytes(t.2) == rs.nodes,
            Err(e) => r matches Err(e2) && e2 == e,
        },
{
    let ghost mid0 = mid@;
    let mut mid = mid;
    let mut oid = other_id;
    let mut tok = token;
    let mut nod = nodes;
    let ghost entry = RFields {
        other_id: opt_id(other_id),
        token: opt_bytes(token),
        nodes: opt_bytes(nodes),
    };
    let mut inner_done = false;
    while !inner_done
        invariant
            mid@.len() <= mid0.len(),
            spec_scan_r(mid0, entry) == spec_scan_r(
                mid@,
                RFields { other_id: opt_id(oid), token: opt_bytes(tok), nodes: opt_bytes(nod) },
            ),
            inner_done ==> spec_dict_next(mid@) is None,
        decreases 2 * mid@.len() + if inner_done {
            0int
        } else {
            1int
        },
    {
        let ghost p_mid = mid@;
        match mid.next() {
            None => {
                inner_done = true;
            },
            Some(qdkv) => {
                proof {
                    crate::bencode::lemma_dict_next_shrinks(p_mid);
                }
                let kid = [0x69u8, 0x64];
                let ktok = [0x74u8, 0x6f, 0x6b, 0x65, 0x6e];
                let knod = [0x6eu8, 0x6f, 0x64, 0x65, 0x73];
                proof {
                    assert(kid@.subrange(0, 2) =~= key_id());
                    assert(ktok@.subrange(0, 5) =~= key_token());
                    assert(knod@.subrange(0, 5) =~= key_nodes());
                }
                if bytes_eq(qdkv.key, &kid[0..2]) {
                    match qdkv.value {
                        Value::String(idb) => {
                            oid = to_20_bytes(idb);
                        },
                        _ => {
                            return Err(DecodingError::RequiredFieldOfWrongType);
                        },
                    }
                } else if bytes_eq(qdkv.key, &ktok[0..5]) {
                    match qdkv.value {
                        Value::String(t) => {
                            tok = Some(t);
                        },
                        _ => {
                            return Err(DecodingError::RequiredFieldOfWrongType);
                        },
                    }
                } else if bytes_eq(qdkv.key, &knod[0..5]) {
                    match qdkv.value {
                        Value::String(nb) => {
                            nod = Some(nb);
                        },
                        _ => {
                            return Err(DecodingError::RequiredFieldOfWrongType);
                        },
                    }
                } else {
                }
            },
        }
    }
    Ok((oid, tok, nod))
}

#[verifier::loop_isolation(false)]
#[verifier::rlimit(100)]
fn scan_a_dict<'x>(
    mid: Dict<'x>,
    other_id: Option<&'x [u8; 20]>,
    info_hash: Option<&'x [u8; 20]>,
    target: Option<&'x [u8; 20]>,
    a_port: Option<i64>,
    a_token: Option<&'x [u8]>,
) -> (r: Result<
    (
        Option<&'x [u8; 20]>,
        Option<&'x [u8; 20]>,
        Option<&'x [u8; 20]>,
        Option<i64>,
        Option<&'x [u8]>,
    ),
    DecodingError,
>)
    ensures
        match spec_scan_a(
            mid@,
            AFields {
                other_id: opt_id(other_id),
                info_hash: opt_id(info_hash),
                target: opt_id(target),
                a_port: a_port,
                a_token: opt_bytes(a_token),
            },
        ) {
            Ok(af) => r matches Ok(t) && opt_id(t.0) == af.other_id && opt_id(t.1) == af.info_hash
                && opt_id(t.2) == af.target && t.3 == af.a_port && opt_bytes(t.4) == af.a_token,
            Err(e) => r matches Err(e2) && e2 == e,
        },
{
    let ghost mid0 = mid@;
    let mut mid = mid;
    let mut oid = other_id;
    let mut ih = info_hash;
    let mut tg = target;
    let mut po = a_port;
    let mut tk = a_token;
    let ghost entry = AFields {
        other_id: opt_id(other_id),
        info_hash: opt_id(info_hash),
        target: opt_id(target),
        a_port: a_port,
        a_token: opt_bytes(a_token),
    };
    let mut inner_done = false;
    while !inner_done
        invariant
            mid@.len() <= mid0.len(),
            spec_scan_a(mid0, entry) == spec_scan_a(
                mid@,
                AFields {
                    other_id: opt_id(oid),
                    info_hash: opt_id(ih),
                    target: opt_id(tg),
                    a_port: po,
                    a_token: opt_bytes(tk),
                },
            ),
            inner_done ==> spec_dict_next(mid@) is None,
        decreases 2 * mid@.len() + if inner_done {
            0int
        } else {
            1int
        },
    {
        let ghost p_mid = mid@;
        match mid.next() {
            None => {
                inner_done = true;
            },
            Some(qdkv) => {
                proof {
                    crate::bencode::lemma_dict_next_shrinks(p_mid);
                }
                let kid = [0x69u8, 0x64];
                let kih = [0x69u8, 0x6e, 0x66, 0x6f, 0x5f, 0x68, 0x61, 0x73, 0x68];
                let ktg = [0x74u8, 0x61, 0x72, 0x67, 0x65, 0x74];
                let kpo = [0x70u8, 0x6f, 0x72, 0x74];
                let kto = [0x74u8, 0x6f, 0x6b, 0x65, 0x6e];
                proof {
                    assert(kid@.subrange(0, 2) =~= key_id());
                    assert(kih@.subrange(0, 9) =~= key_info_hash());
                    assert(ktg@.subrange(0, 6) =~= key_target());
                    assert(kpo@.subrange(0, 4) =~= key_port());
                    assert(kto@.subrange(0, 5) =~= key_token());
                }
                if bytes_eq(qdkv.key, &kid[0..2]) {
                    match qdkv.value {
                        Value::String(idb) => {
                            oid = to_20_bytes(idb);
                        },
                        _ => {
                            return Err(DecodingError::RequiredFieldOfWrongType);
                        },
                    }
                } else if bytes_eq(qdkv.key, &kih[0..9]) {
                    match qdkv.value {
                        Value::String(idb) => {
                            ih = to_20_bytes(idb);
                        },
                        _ => {
                            return Err(DecodingError::RequiredFieldOfWrongType);
                        },
                    }
                } else if bytes_eq(qdkv.key, &ktg[0..6]) {
                    match qdkv.value {
                        Value::String(idb) => {
                            tg = to_20_bytes(idb);
                        },
                        _ => {
                            return Err(DecodingError::RequiredFieldOfWrongType);
                        },
                    }
                } else if bytes_eq(qdkv.key, &kpo[0..4]) {
                    match qdkv.value {
                        Value::Integer(p) => {
                            po = Some(p);
                        },
                        _ => {
                            return Err(DecodingError::RequiredFieldOfWrongType);
                        },
                    }
                } else if bytes_eq(qdkv.key, &kto[0..5]) {
                    match qdkv.value {
                        Value::String(t) => {
                            tk = Some(t);
                        },
                        _ => {
                            return Err(DecodingError::RequiredFieldOfWrongType);
                        },
                    }
                } else {
                }
            },
        }
    }
    Ok((oid, ih, tg, po, tk))
}

#[verifier::rlimit(100)]
fn assemble<'x>(
    transaction_id: Option<&'x [u8]>,
    message_type: MessageTypeModel,
    query_type: QueryTypeModel,
    other_id: Option<&'x [u8; 20]>,
    info_hash: Option<&'x [u8; 20]>,
    target: Option<&'x [u8; 20]>,
    token: Option<&'x [u8]>,
    nodes: Option<&'x [u8]>,
    a_port: Option<i64>,
    a_token: Option<&'x [u8]>,
    error_details: Option<KRPCError>,
) -> (r: Result<KRPCMessage<'x>, DecodingError>)
    ensures
        match spec_finalize(
            st_model(
                transaction_id,
                message_type,
                query_type,
                other_id,
                info_hash,
                target,
                token,
                nodes,
                a_port,
                a_token,
                error_details,
            ),
        ) {
            Ok(mm) => r matches Ok(m) && m@ == mm,
            Err(e) => r matches Err(e2) && e2 == e,
        },
{
    let tid = match transaction_id {
        Some(t) => t,
        None => {
            return Err(DecodingError::MissingRequiredField);
        },
    };
    let message = match message_type {
        MessageTypeModel::Error => KRPCMessageDetails::Error(
            match error_details {
                Some(e) => e,
                None => {
                    return Err(DecodingError::MissingRequiredField);
                },
            },
        ),
        MessageTypeModel::Query => KRPCMessageDetails::Query(
            match query_type {
                QueryTypeModel::Ping => KRPCQuery::Ping {
                    id: match other_id {
                        Some(i) => i,
                        None => {
                            return Err(DecodingError::MissingRequiredField);
                        },
                    },
                },
                QueryTypeModel::GetPeers => KRPCQuery::GetPeers {
                    id: match other_id {
                        Some(i) => i,
                        None => {
                            return Err(DecodingError::MissingRequiredField);
                        },
                    },
                    info_hash: match info_hash {
                        Some(i) => i,
                        None => {
                            return Err(DecodingError::MissingRequiredField);
                        },
                    },
                },
                QueryTypeModel::FindNode => KRPCQuery::FindNode {
                    id: match other_id {
                        Some(i) => i,
                        None => {
                            return Err(DecodingError::MissingRequiredField);
                        },
                    },
                    target: match target {
                        Some(i) => i,
                        None => {
                            return Err(DecodingError::MissingRequiredField);
                        },
                    },
                },
                QueryTypeModel::AnnouncePeer => KRPCQuery::AnnouncePeer {
                    id: match other_id {
                        Some(i) => i,
                        None => {
                            return Err(DecodingError::MissingRequiredField);
                        },
                    },
                    info_hash: match info_hash {
                        Some(i) => i,
                        None => {
                            return Err(DecodingError::MissingRequiredField);
                        },
                    },
                    port: match a_port {
                        Some(p) => p,
                        None => {
                            return Err(DecodingError::MissingRequiredField);
                        },
                    },
                    token: match a_token {
                        Some(t) => t,
                        None => {
                            return Err(DecodingError::MissingRequiredField);
                        },
                    },
                },
                QueryTypeModel::Unknown => {
                    return Err(DecodingError::MissingRequiredField);
                },
            },
        ),
        MessageTypeModel::Response => {
            let response = match token {
                Some(unwrapped_token) => KRPCResponse::GetPeers {
                    id: match other_id {
                        Some(i) => i,
                        None => {
                            return Err(DecodingError::MissingRequiredField);
                        },
                    },
                    token: unwrapped_token,
                },
                None => match nodes {
                    Some(unwrapped_nodes) => KRPCResponse::FindNode {
                        id: match other_id {
                            Some(i) => i,
                            None => {
                                return Err(DecodingError::MissingRequiredField);
                            },
                        },
                        nodes: unwrapped_nodes,
                    },
                    None => match other_id {
                        Some(unwrapped_id) => KRPCResponse::Ping { id: unwrapped_id },
                        None => {
                            return Err(DecodingError::MissingRequiredField);
                        },
                    },
                },
            };
            KRPCMessageDetails::Response(response)
        },
        MessageTypeModel::Unknown => {
            return Err(DecodingError::MissingRequiredField);
        },
    };
    Ok(KRPCMessage { transaction_id: tid, message })
}

impl<'a> KRPCMessage<'a> {
    /// Decodes one datagram: the top-level dictionary is walked once, local
    /// fields gathered, then the message assembled. Unknown top-level keys
    /// are ignored; known keys of the wrong shape fail the decode; a missing
    /// transaction id or body field fails it afterwards.
    #[verifier::loop_isolation(false)]
    #[verifier::rlimit(100)]
    pub fn from_bencode(serialised: &'a [u8]) -> (r: Result<KRPCMessage<'a>, DecodingError>)
        ensures
            match spec_decode(serialised@) {
                Ok(mm) => r matches Ok(m) && m@ == mm,
                Err(e) => r matches Err(e2) && e2 == e,
            },
    {
        let mut transaction_id: Option<&[u8]> = None;
        let mut message_type = MessageTypeModel::Unknown;
        let mut query_type = QueryTypeModel::Unknown;
        let mut other_id: Option<&[u8; 20]> = None;
        let mut info_hash: Option<&[u8; 20]> = None;
        let mut target: Option<&[u8; 20]> = None;
        let mut token: Option<&[u8]> = None;
        let mut nodes: Option<&[u8]> = None;
        let mut a_port: Option<i64> = None;
        let mut a_token: Option<&[u8]> = None;
        let mut error_details: Option<KRPCError> = None;

        let top_level = match (Bencode { buffer: serialised }).as_dict() {
            Ok(d) => d,
            Err(e) => {
                return Err(e);
            },
        };
        let ghost body0 = top_level@;
        let mut iter = top_level;
        let mut done = false;
        while !done
            invariant
                iter@.len() <= body0.len(),
                spec_scan_top(body0, init_state()) == spec_scan_top(
                    iter@,
                    st_model(
                        transaction_id,
                        message_type,
                        query_type,
                        other_id,
                        info_hash,
                        target,
                        token,
                        nodes,
                        a_port,
                        a_token,
                        error_details,
                    ),
                ),
                done ==> spec_dict_next(iter@) is None,
            decreases 2 * iter@.len() + if done {
                0int
            } else {
                1int
            },
        {
            let ghost pre_iter = iter@;
            let ghost pre_st = st_model(
                transaction_id,
                message_type,
                query_type,
                other_id,
                info_hash,
                target,
                token,
                nodes,
                a_port,
                a_token,
                error_details,
            );
            match iter.next() {
                None => {
                    done = true;
                },
                Some(kv) => {
                    proof {
                        crate::bencode::lemma_dict_next_shrinks(pre_iter);
                    }
                    if key_is(kv.key, 0x74) {
                        match kv.value {
                            Value::String(v) => {
                                transaction_id = Some(v);
                            },
                            _ => {
                                return Err(DecodingError::RequiredFieldOfWrongType);
                            },
                        }
                    } else if key_is(kv.key, 0x79) {
                        match kv.value {
                            Value::String(v) => {
                                if key_is(v, 0x65) {
                                    message_type = MessageTypeModel::Error;
                                } else if key_is(v, 0x71) {
                                    message_type = MessageTypeModel::Query;
                                } else if key_is(v, 0x72) {
                                    message_type = MessageTypeModel::Response;
                                } else {
                                    return Err(DecodingError::RequiredFieldOfWrongType);
                                }
                            },
                            _ => {
                                return Err(DecodingError::RequiredFieldOfWrongType);
                            },
                        }
                    } else if key_is(kv.key, 0x65) {
                        match kv.value {
                            Value::List(list) => {
                                match read_error_details(list) {
                                    Ok(e) => {
                                        error_details = Some(e);
                                    },
                                    Err(e) => {
                                        return Err(e);
                                    },
                                }
                            },
                            _ => {
                                return Err(DecodingError::RequiredFieldOfWrongType);
                            },
                        }
                    } else if key_is(kv.key, 0x71) {
                        match kv.value {
                            Value::String(v) => {
                                let nping = [0x70u8, 0x69, 0x6e, 0x67];
                                let nfind = [0x66u8, 0x69, 0x6e, 0x64, 0x5f, 0x6e, 0x6f, 0x64, 0x65];
                                let nget = [0x67u8, 0x65, 0x74, 0x5f, 0x70, 0x65, 0x65, 0x72, 0x73];
                                let nann = [
                                    0x61u8,
                                    0x6e,
                                    0x6e,
                                    0x6f,
                                    0x75,
                                    0x6e,
                                    0x63,
                                    0x65,
                                    0x5f,
                                    0x70,
                                    0x65,
                                    0x65,
                                    0x72,
                                ];
                                proof {
                                    assert(nping@.subrange(0, 4) =~= name_ping());
                                    assert(nfind@.subrange(0, 9) =~= name_find_node());
                                    assert(nget@.subrange(0, 9) =~= name_get_peers());
                                    assert(nann@.subrange(0, 13) =~= name_announce_peer());
                                }
                                if bytes_eq(v, &nping[0..4]) {
                                    query_type = QueryTypeModel::Ping;
                                } else if bytes_eq(v, &nfind[0..9]) {
                                    query_type = QueryTypeModel::FindNode;
                                } else if bytes_eq(v, &nget[0..9]) {
                                    query_type = QueryTypeModel::GetPeers;
                                } else if bytes_eq(v, &nann[0..13]) {
                                    query_type = QueryTypeModel::AnnouncePeer;
                                } else {
                                    return Err(DecodingError::RequiredFieldOfWrongType);
                                }
                            },
                            _ => {
                                return Err(DecodingError::RequiredFieldOfWrongType);
                            },
                        }
                    } else if key_is(kv.key, 0x72) {
                        match kv.value {
                            Value::Dict(mid) => {
                                match scan_r_dict(mid, other_id, token, nodes) {
                                    Ok(t) => {
                                        other_id = t.0;
                                        token = t.1;
                                        nodes = t.2;
                                    },
                                    Err(e) => {
                                        return Err(e);
                                    },
                                }
                            },
                            _ => {
                                return Err(DecodingError::RequiredFieldOfWrongType);
                            },
                        }
                    } else if key_is(kv.key, 0x61) {
                        match kv.value {
                            Value::Dict(mid) => {
                                match scan_a_dict(mid, other_id, info_hash, target, a_port, a_token) {
                                    Ok(t) => {
                                        other_id = t.0;
                                        info_hash = t.1;
                                        target = t.2;
                                        a_port = t.3;
                                        a_token = t.4;
                                    },
                                    Err(e) => {
                                        return Err(e);
                                    },
                                }
                            },
                            _ => {
                                return Err(DecodingError::RequiredFieldOfWrongType);
                            },
                        }
                    } else {
                    }
                },
            }
        }
        assemble(
            transaction_id,
            message_type,
            query_type,
            other_id,
            info_hash,
            target,
            token,
            nodes,
            a_port,
            a_token,
            error_details,
        )
    }
}

impl<'a> ToBencode for KRPCMessage<'a> {
    fn to_bencode(&self) -> Vec<u8> {
        KRPCMessage::to_bencode(self)
    }
}

impl<'a> FromBencode<'a> for KRPCMessage<'a> {
    fn from_bencode(serialised: &'a [u8]) -> Result<Self, DecodingError> {
        KRPCMessage::from_bencode(serialised)
    }
}

proof fn lemma_dec_digits_props(n: int)
    requires
        n >= 0,
    ensures
        spec_dec_digits(n).len() >= 1,
        forall|i: int|
            0 <= i < spec_dec_digits(n).len() ==> 0x30 <= #[trigger] spec_dec_digits(n)[i]
                <= 0x39,
        dec_value(spec_dec_digits(n)) == n,
    decreases n,
{
    if n <= 9 {
        assert(spec_dec_digits(n) =~= seq![(0x30 + n) as u8]);
        assert(spec_dec_digits(n).drop_last() =~= Seq::<u8>::empty());
        assert(dec_value(Seq::<u8>::empty()) == 0);
        assert(dec_value(spec_dec_digits(n)) == dec_value(spec_dec_digits(n).drop_last()) * 10 + (
        spec_dec_digits(n).last() - 0x30));
    } else {
        vstd::arithmetic::div_mod::lemma_fundamental_div_mod(n, 10);
        lemma_dec_digits_props(n / 10);
        let d = spec_dec_digits(n);
        assert(d.drop_last() =~= spec_dec_digits(n / 10));
        assert(d.last() == (0x30 + n % 10) as u8);
        assert(0 <= n % 10 < 10);
        assert(dec_value(d) == dec_value(spec_dec_digits(n / 10)) * 10 + (d.last() - 0x30));
    }
}

proof fn lemma_eat_str_enc(b: Seq<u8>, rest: Seq<u8>)
    requires
        b.len() <= usize::MAX,
    ensures
        spec_eat_str(spec_str_enc(b) + rest) == Ok::<(Seq<u8>, Seq<u8>), DecodingError>(
            (b, rest),
        ),
{
    let digits = spec_dec_digits(b.len() as int);
    lemma_dec_digits_props(b.len() as int);
    let s = spec_str_enc(b) + rest;
    let c = digits.len() as int;
    assert(forall|j: int| 0 <= j < c ==> s[j] == digits[j]);
    assert(forall|j: int| 0 <= j < c ==> s[j] != 0x3a);
    assert(s[c] == 0x3a);
    assert(c < s.len());
    lemma_find_byte(s, 0x3a, c);
    assert(s.take(c) =~= digits);
    assert(is_digits(digits));
    assert(parse_len(digits) == Some(b.len() as int));
    let r2 = s.skip(c + 1);
    assert(r2 =~= b + rest);
    assert(r2.len() >= b.len());
    assert(r2.take(b.len() as int) =~= b);
    assert(r2.skip(b.len() as int) =~= rest);
}

proof fn lemma_eat_int_enc(v: i64, rest: Seq<u8>)
    ensures
        spec_eat_integer(spec_int_enc(v as int) + rest) matches Ok(p) && p.1 == rest
            && parse_int(p.0) == Some(v),
{
    let s = spec_int_enc(v as int) + rest;
    assert(s[0] == 0x69);
    if v < 0 {
        let digits = spec_dec_digits(-(v as int));
        lemma_dec_digits_props(-(v as int));
        let e = 2 + digits.len() as int;
        assert(forall|j: int| 2 <= j < e ==> s[j] == digits[j - 2]);
        assert(s[1] == 0x2d);
        assert(forall|j: int| 0 <= j < e ==> s[j] != 0x65);
        assert(s[e] == 0x65);
        lemma_find_byte(s, 0x65, e);
        let body = s.subrange(1, e);
        assert(body =~= seq![0x2du8] + digits);
        assert(body[0] == 0x2d);
        assert(body.drop_first() =~= digits);
        assert(is_digits(digits));
        assert(parse_int(body) == Some(v));
        assert(s.skip(e + 1) =~= rest);
    } else {
        let digits = spec_dec_digits(v as int);
        lemma_dec_digits_props(v as int);
        let e = 1 + digits.len() as int;
        assert(forall|j: int| 1 <= j < e ==> s[j] == digits[j - 1]);
        assert(forall|j: int| 0 <= j < e ==> s[j] != 0x65);
        assert(s[e] == 0x65);
        lemma_find_byte(s, 0x65, e);
        let body = s.subrange(1, e);
        assert(body =~= digits);
        assert(is_digits(digits));
        assert(body[0] != 0x2d);
        assert(parse_int(body) == Some(v));
        assert(s.skip(e + 1) =~= rest);
    }
}

proof fn lemma_eat_any_str(b: Seq<u8>, rest: Seq<u8>)
    requires
        b.len() <= usize::MAX,
    ensures
        spec_eat_any(spec_str_enc(b) + rest) == Ok::<(ValueModel, Seq<u8>), DecodingError>(
            (ValueModel::Str(b), rest),
        ),
{
    lemma_dec_digits_props(b.len() as int);
    let s = spec_str_enc(b) + rest;
    assert(s[0] == spec_dec_digits(b.len() as int)[0]);
    assert(0x30 <= s[0] <= 0x39);
    lemma_eat_str_enc(b, rest);
}

proof fn lemma_eat_any_int(v: i64, rest: Seq<u8>)
    ensures
        spec_eat_any(spec_int_enc(v as int) + rest) == Ok::<(ValueModel, Seq<u8>), DecodingError>(
            (ValueModel::Int(v), rest),
        ),
{
    let s = spec_int_enc(v as int) + rest;
    assert(s[0] == 0x69);
    lemma_eat_int_enc(v, rest);
}

proof fn lemma_dict_next_enc(k: Seq<u8>, tail: Seq<u8>, vm: ValueModel, rest: Seq<u8>)
    requires
        k.len() <= usize::MAX,
        spec_eat_any(tail) == Ok::<(ValueModel, Seq<u8>), DecodingError>((vm, rest)),
    ensures
        spec_dict_next(spec_str_enc(k) + tail) == Some((k, vm, rest)),
{
    lemma_dec_digits_props(k.len() as int);
    let s = spec_str_enc(k) + tail;
    assert(s[0] == spec_dec_digits(k.len() as int)[0]);
    assert(s[0] != 0x65);
    lemma_eat_str_enc(k, tail);
}

proof fn lemma_list_next_enc(tail: Seq<u8>, vm: ValueModel, rest: Seq<u8>)
    requires
        spec_eat_any(tail) == Ok::<(ValueModel, Seq<u8>), DecodingError>((vm, rest)),
        tail.len() >= 1,
        tail[0] != 0x65,
    ensures
        spec_list_next(tail) == Some((vm, rest)),
{
}

proof fn lemma_eat_any_dict(inner: Seq<u8>, rest: Seq<u8>)
    requires
        spec_scan_pairs(inner) == seq![0x65u8] + rest,
    ensures
        spec_eat_any(seq![0x64u8] + inner) == Ok::<(ValueModel, Seq<u8>), DecodingError>(
            (ValueModel::Dict(inner), rest),
        ),
{
    let s = seq![0x64u8] + inner;
    assert(s[0] == 0x64);
    assert(s.skip(1) =~= inner);
    assert((seq![0x65u8] + rest)[0] == 0x65);
    assert((seq![0x65u8] + rest).skip(1) =~= rest);
}

proof fn lemma_eat_any_list(inner: Seq<u8>, rest: Seq<u8>)
    requires
        spec_scan_items(inner) == seq![0x65u8] + rest,
    ensures
        spec_eat_any(seq![0x6cu8] + inner) == Ok::<(ValueModel, Seq<u8>), DecodingError>(
            (ValueModel::List(inner), rest),
        ),
{
    let s = seq![0x6cu8] + inner;
    assert(s[0] == 0x6c);
    assert(s.skip(1) =~= inner);
    assert((seq![0x65u8] + rest)[0] == 0x65);
    assert((seq![0x65u8] + rest).skip(1) =~= rest);
}

/// Which message type each tag selects.
spec fn mt_of_tag(tag: u8) -> MessageTypeModel {
    if tag == 0x65 {
        MessageTypeModel::Error
    } else if tag == 0x71 {
        MessageTypeModel::Query
    } else {
        MessageTypeModel::Response
    }
}

proof fn lemma_tail(tid: Seq<u8>, tag: u8, st: DecodeState)
    requires
        tid.len() <= usize::MAX,
        tag == 0x65 || tag == 0x71 || tag == 0x72,
    ensures
        spec_scan_pairs(spec_enc_tail(tid, tag)) == seq![0x65u8],
        spec_scan_top(spec_enc_tail(tid, tag), st) == Ok::<DecodeState, DecodingError>(
            DecodeState {
                transaction_id: Some(tid),
                message_type: mt_of_tag(tag),
                ..st
            },
        ),
{
    let s0 = spec_enc_tail(tid, tag);
    let t2 = spec_str_enc(seq![0x79u8]) + spec_str_enc(seq![tag]) + seq![0x65u8];
    let t3 = seq![0x65u8];
    assert(s0 =~= spec_str_enc(seq![0x74u8]) + (spec_str_enc(tid) + t2));
    lemma_eat_any_str(tid, t2);
    lemma_dict_next_enc(seq![0x74u8], spec_str_enc(tid) + t2, ValueModel::Str(tid), t2);
    assert(spec_dict_next(s0) == Some((seq![0x74u8], ValueModel::Str(tid), t2)));
    assert(t2 =~= spec_str_enc(seq![0x79u8]) + (spec_str_enc(seq![tag]) + t3));
    lemma_eat_any_str(seq![tag], t3);
    lemma_dict_next_enc(
        seq![0x79u8],
        spec_str_enc(seq![tag]) + t3,
        ValueModel::Str(seq![tag]),
        t3,
    );
    assert(spec_dict_next(t2) == Some((seq![0x79u8], ValueModel::Str(seq![tag]), t3)));
    assert(spec_dict_next(t3) is None);
    // the terminator search walks both entries and stops at the final byte
    lemma_scan_pairs_step(s0);
    lemma_scan_pairs_step(t2);
    lemma_scan_pairs_step(t3);
    assert(spec_scan_pairs(t3) == t3);
    assert(spec_scan_pairs(s0) =~= seq![0x65u8]);
    // the field scan records the transaction id, then the message type
    lemma_dict_next_shrinks(s0);
    lemma_dict_next_shrinks(t2);
    let st1 = DecodeState { transaction_id: Some(tid), ..st };
    assert(seq![0x74u8][0] == 0x74);
    assert(spec_scan_top(s0, st) == spec_scan_top(t2, st1));
    let st2 = DecodeState { message_type: mt_of_tag(tag), ..st1 };
    assert(seq![0x79u8][0] != 0x74 && seq![0x79u8][0] == 0x79);
    assert(seq![tag][0] == tag);
    if tag == 0x65 {
        assert(seq![tag] =~= seq![0x65u8]);
    } else if tag == 0x71 {
        assert(seq![tag] != seq![0x65u8]);
        assert(seq![tag] =~= seq![0x71u8]);
    } else {
        assert(seq![tag] != seq![0x65u8]);
        assert(seq![tag] != seq![0x71u8]);
        assert(seq![tag] =~= seq![0x72u8]);
    }
    assert(spec_scan_top(t2, st1) == spec_scan_top(t3, st2));
    assert(spec_scan_top(t3, st2) == Ok::<DecodeState, DecodingError>(st2));
}

proof fn lemma_details_error(e: ErrorModel, tid: Seq<u8>, st: DecodeState)
    requires
        !(e is Unknown),
        vstd::utf8::encode_utf8(spec_err_msg(e)).len() <= usize::MAX,
        tid.len() <= usize::MAX,
    ensures
        spec_scan_pairs(spec_enc_details(DetailsModel::Error(e)) + spec_enc_tail(tid, 0x65))
            == seq![0x65u8],
        spec_scan_top(
            spec_enc_details(DetailsModel::Error(e)) + spec_enc_tail(tid, 0x65),
            st,
        ) == Ok::<DecodeState, DecodingError>(
            DecodeState {
                transaction_id: Some(tid),
                message_type: MessageTypeModel::Error,
                error_details: Some(e),
                ..st
            },
        ),
{
    let code: i64 = if e is Generic {
        201
    } else if e is Server {
        202
    } else if e is Protocol {
        203
    } else {
        204
    };
    assert(spec_err_code(e) == code as int);
    let msg = spec_err_msg(e);
    let msgb = vstd::utf8::encode_utf8(msg);
    let tail = spec_enc_tail(tid, 0x65);
    let et = seq![0x65u8] + tail;
    let r1 = spec_str_enc(msgb) + et;
    let linner = spec_int_enc(code as int) + r1;
    let d = spec_enc_details(DetailsModel::Error(e)) + tail;
    assert(d =~= spec_str_enc(seq![0x65u8]) + (seq![0x6cu8] + linner));
    // the two list items parse as the code and the message
    lemma_eat_any_int(code, r1);
    assert(linner[0] == 0x69);
    lemma_list_next_enc(linner, ValueModel::Int(code), r1);
    lemma_eat_any_str(msgb, et);
    lemma_dec_digits_props(msgb.len() as int);
    assert(r1[0] == spec_dec_digits(msgb.len() as int)[0]);
    assert(0x30 <= r1[0] <= 0x39);
    lemma_list_next_enc(r1, ValueModel::Str(msgb), et);
    // the terminator search over the list body stops at its final byte
    lemma_scan_items_step(linner);
    lemma_scan_items_step(r1);
    assert(et[0] == 0x65);
    assert(spec_scan_items(et) == et);
    assert(spec_scan_items(linner) == et);
    lemma_eat_any_list(linner, tail);
    lemma_dict_next_enc(
        seq![0x65u8],
        seq![0x6cu8] + linner,
        ValueModel::List(linner),
        tail,
    );
    assert(spec_dict_next(d) == Some((seq![0x65u8], ValueModel::List(linner), tail)));
    lemma_scan_pairs_step(d);
    lemma_tail(tid, 0x65, st);
    lemma_tail(tid, 0x65, DecodeState { error_details: Some(e), ..st });
    assert(spec_scan_pairs(d) == seq![0x65u8]);
    // the field scan reads the error list and then the closing fields
    lemma_dict_next_shrinks(d);
    vstd::utf8::encode_utf8_valid_utf8(msg);
    vstd::utf8::encode_utf8_decode_utf8(msg);
    assert(spec_read_error(linner) == Ok::<ErrorModel, DecodingError>(spec_err_kind(code, msg)));
    assert(spec_err_kind(code, msg) == e);
    assert(seq![0x65u8][0] == 0x65);
    assert(spec_scan_top(d, st) == spec_scan_top(
        tail,
        DecodeState { error_details: Some(e), ..st },
    ));
}

proof fn lemma_details_response_ping(id: Seq<u8>, tid: Seq<u8>, st: DecodeState)
    requires
        tid.len() <= usize::MAX,
        id.len() == 20,
    ensures
        spec_scan_pairs(
            spec_enc_details(DetailsModel::Response(ResponseModel::Ping { id })) + spec_enc_tail(
                tid,
                0x72,
            ),
        ) == seq![0x65u8],
        spec_scan_top(
            spec_enc_details(DetailsModel::Response(ResponseModel::Ping { id })) + spec_enc_tail(
                tid,
                0x72,
            ),
            st,
        ) == Ok::<DecodeState, DecodingError>(
            DecodeState {
                transaction_id: Some(tid),
                message_type: MessageTypeModel::Response,
                other_id: Some(id),
                ..st
            },
        ),
{
    let tail = spec_enc_tail(tid, 0x72);
    let et = seq![0x65u8] + tail;
    let d = spec_enc_details(DetailsModel::Response(ResponseModel::Ping { id })) + tail;
    lemma_dec_digits_props(20);
    let dinner = spec_str_enc(key_id()) + spec_str_enc(id) + et;
    assert(dinner =~= spec_str_enc(key_id()) + (spec_str_enc(id) + et));
    lemma_eat_any_str(id, et);
    lemma_dict_next_enc(key_id(), spec_str_enc(id) + et, ValueModel::Str(id), et);
    lemma_scan_pairs_step(dinner);
    assert(et[0] == 0x65);
    assert(spec_scan_pairs(et) == et);
    assert(spec_scan_pairs(dinner) == et);
    lemma_dict_next_shrinks(dinner);
    assert(spec_dict_next(et) is None);
    let rs1 = RFields { other_id: Some(id), ..r_of(st) };
    assert(spec_scan_r(et, rs1) == Ok::<RFields, DecodingError>(rs1));
    assert(spec_scan_r(dinner, r_of(st)) == Ok::<RFields, DecodingError>(rs1));
    lemma_eat_any_dict(dinner, tail);
    assert(d =~= spec_str_enc(seq![0x72u8]) + (seq![0x64u8] + dinner));
    lemma_dict_next_enc(seq![0x72u8], seq![0x64u8] + dinner, ValueModel::Dict(dinner), tail);
    lemma_scan_pairs_step(d);
    lemma_tail(tid, 0x72, st);
    assert(spec_scan_pairs(d) == seq![0x65u8]);
    lemma_dict_next_shrinks(d);
    assert(seq![0x72u8][0] == 0x72);
    let st2 = DecodeState { other_id: Some(id), ..st };
    lemma_tail(tid, 0x72, st2);
    assert(spec_scan_top(d, st) == spec_scan_top(tail, st2));
}

#[verifier::rlimit(100)]
proof fn lemma_details_response_second(
    id: Seq<u8>,
    second: Seq<u8>,
    is_token: bool,
    tid: Seq<u8>,
    st: DecodeState,
)
    requires
        tid.len() <= usize::MAX,
        id.len() == 20,
        second.len() <= usize::MAX,
    ensures
        ({
            let rm = if is_token {
                ResponseModel::GetPeers { id, token: second }
            } else {
                ResponseModel::FindNode { id, nodes: second }
            };
            let d = spec_enc_details(DetailsModel::Response(rm)) + spec_enc_tail(tid, 0x72);
            spec_scan_pairs(d) == seq![0x65u8] && spec_scan_top(d, st) == Ok::<
                DecodeState,
                DecodingError,
            >(
                if is_token {
                    DecodeState {
                        transaction_id: Some(tid),
                        message_type: MessageTypeModel::Response,
                        other_id: Some(id),
                        token: Some(second),
                        ..st
                    }
                } else {
                    DecodeState {
                        transaction_id: Some(tid),
                        message_type: MessageTypeModel::Response,
                        other_id: Some(id),
                        nodes: Some(second),
                        ..st
                    }
                },
            )
        }),
{
    let rm = if is_token {
        ResponseModel::GetPeers { id, token: second }
    } else {
        ResponseModel::FindNode { id, nodes: second }
    };
    let key2 = if is_token {
        key_token()
    } else {
        key_nodes()
    };
    let tail = spec_enc_tail(tid, 0x72);
    let et = seq![0x65u8] + tail;
    let d = spec_enc_details(DetailsModel::Response(rm)) + tail;
    lemma_dec_digits_props(20);
    let e2 = spec_str_enc(key2) + (spec_str_enc(second) + et);
    let dinner = spec_str_enc(key_id()) + spec_str_enc(id) + spec_str_enc(key2) + spec_str_enc(
        second,
    ) + et;
    assert(dinner =~= spec_str_enc(key_id()) + (spec_str_enc(id) + e2));
    lemma_eat_any_str(id, e2);
    lemma_dict_next_enc(key_id(), spec_str_enc(id) + e2, ValueModel::Str(id), e2);
    lemma_eat_any_str(second, et);
    lemma_dict_next_enc(key2, spec_str_enc(second) + et, ValueModel::Str(second), et);
    lemma_scan_pairs_step(dinner);
    lemma_scan_pairs_step(e2);
    assert(et[0] == 0x65);
    assert(spec_scan_pairs(et) == et);
    assert(spec_scan_pairs(e2) == et);
    assert(spec_scan_pairs(dinner) == et);
    lemma_dict_next_shrinks(dinner);
    lemma_dict_next_shrinks(e2);
    assert(spec_dict_next(et) is None);
    assert(key_token().len() == 5 && key_id().len() == 2 && key_nodes().len() == 5);
    assert(key_token()[0] == 0x74 && key_nodes()[0] == 0x6e);
    let rs1 = RFields { other_id: Some(id), ..r_of(st) };
    let rs2 = if is_token {
        RFields { token: Some(second), ..rs1 }
    } else {
        RFields { nodes: Some(second), ..rs1 }
    };
    assert(spec_scan_r(et, rs2) == Ok::<RFields, DecodingError>(rs2));
    assert(spec_scan_r(e2, rs1) == Ok::<RFields, DecodingError>(rs2));
    assert(spec_scan_r(dinner, r_of(st)) == Ok::<RFields, DecodingError>(rs2));
    lemma_eat_any_dict(dinner, tail);
    assert(d =~= spec_str_enc(seq![0x72u8]) + (seq![0x64u8] + dinner));
    lemma_dict_next_enc(seq![0x72u8], seq![0x64u8] + dinner, ValueModel::Dict(dinner), tail);
    lemma_scan_pairs_step(d);
    lemma_tail(tid, 0x72, st);
    assert(spec_scan_pairs(d) == seq![0x65u8]);
    lemma_dict_next_shrinks(d);
    assert(seq![0x72u8][0] == 0x72);
    let st2 = if is_token {
        DecodeState { other_id: Some(id), token: Some(second), ..st }
    } else {
        DecodeState { other_id: Some(id), nodes: Some(second), ..st }
    };
    lemma_tail(tid, 0x72, st2);
    assert(spec_scan_top(d, st) == spec_scan_top(tail, st2));
}

/// Which query kind each method name selects.
spec fn qt_of_name(name: Seq<u8>) -> QueryTypeModel {
    if name == name_ping() {
        QueryTypeModel::Ping
    } else if name == name_find_node() {
        QueryTypeModel::FindNode
    } else if name == name_get_peers() {
        QueryTypeModel::GetPeers
    } else {
        QueryTypeModel::AnnouncePeer
    }
}

proof fn lemma_qname(name: Seq<u8>, tid: Seq<u8>, st: DecodeState)
    requires
        tid.len() <= usize::MAX,
        name == name_ping() || name == name_find_node() || name == name_get_peers() || name
            == name_announce_peer(),
    ensures
        spec_scan_pairs(
            spec_str_enc(seq![0x71u8]) + spec_str_enc(name) + spec_enc_tail(tid, 0x71),
        ) == seq![0x65u8],
        spec_scan_top(
            spec_str_enc(seq![0x71u8]) + spec_str_enc(name) + spec_enc_tail(tid, 0x71),
            st,
        ) == Ok::<DecodeState, DecodingError>(
            DecodeState {
                transaction_id: Some(tid),
                message_type: MessageTypeModel::Query,
                query_type: qt_of_name(name),
                ..st
            },
        ),
{
    let tail = spec_enc_tail(tid, 0x71);
    let s = spec_str_enc(seq![0x71u8]) + spec_str_enc(name) + tail;
    assert(s =~= spec_str_enc(seq![0x71u8]) + (spec_str_enc(name) + tail));
    assert(name.len() <= 13);
    lemma_eat_any_str(name, tail);
    lemma_dict_next_enc(seq![0x71u8], spec_str_enc(name) + tail, ValueModel::Str(name), tail);
    lemma_scan_pairs_step(s);
    lemma_tail(tid, 0x71, st);
    assert(spec_scan_pairs(s) == seq![0x65u8]);
    lemma_dict_next_shrinks(s);
    assert(seq![0x71u8][0] == 0x71);
    assert(name_ping().len() == 4 && name_find_node().len() == 9 && name_get_peers().len() == 9
        && name_announce_peer().len() == 13);
    assert(name_find_node()[0] == 0x66 && name_get_peers()[0] == 0x67);
    let st2 = DecodeState { query_type: qt_of_name(name), ..st };
    lemma_tail(tid, 0x71, st2);
    assert(spec_scan_top(s, st) == spec_scan_top(tail, st2));
}

#[verifier::rlimit(100)]
proof fn lemma_details_query_ping(id: Seq<u8>, tid: Seq<u8>, st: DecodeState)
    requires
        tid.len() <= usize::MAX,
        id.len() == 20,
    ensures
        spec_scan_pairs(
            spec_enc_details(DetailsModel::Query(QueryModel::Ping { id })) + spec_enc_tail(
                tid,
                0x71,
            ),
        ) == seq![0x65u8],
        spec_scan_top(
            spec_enc_details(DetailsModel::Query(QueryModel::Ping { id })) + spec_enc_tail(
                tid,
                0x71,
            ),
            st,
        ) == Ok::<DecodeState, DecodingError>(
            DecodeState {
                transaction_id: Some(tid),
                message_type: MessageTypeModel::Query,
                query_type: QueryTypeModel::Ping,
                other_id: Some(id),
                ..st
            },
        ),
{
    let tail = spec_enc_tail(tid, 0x71);
    let qtail = spec_str_enc(seq![0x71u8]) + spec_str_enc(name_ping()) + tail;
    let et = seq![0x65u8] + qtail;
    let d = spec_enc_details(DetailsModel::Query(QueryModel::Ping { id })) + tail;
    lemma_dec_digits_props(20);
    let dinner = spec_str_enc(key_id()) + spec_str_enc(id) + et;
    assert(dinner =~= spec_str_enc(key_id()) + (spec_str_enc(id) + et));
    lemma_eat_any_str(id, et);
    lemma_dict_next_enc(key_id(), spec_str_enc(id) + et, ValueModel::Str(id), et);
    lemma_scan_pairs_step(dinner);
    assert(et[0] == 0x65);
    assert(spec_scan_pairs(et) == et);
    assert(spec_scan_pairs(dinner) == et);
    lemma_dict_next_shrinks(dinner);
    assert(spec_dict_next(et) is None);
    let af1 = AFields { other_id: Some(id), ..a_of(st) };
    assert(spec_scan_a(et, af1) == Ok::<AFields, DecodingError>(af1));
    assert(spec_scan_a(dinner, a_of(st)) == Ok::<AFields, DecodingError>(af1));
    lemma_eat_any_dict(dinner, qtail);
    assert(d =~= spec_str_enc(seq![0x61u8]) + (seq![0x64u8] + dinner));
    lemma_dict_next_enc(seq![0x61u8], seq![0x64u8] + dinner, ValueModel::Dict(dinner), qtail);
    lemma_scan_pairs_step(d);
    lemma_qname(name_ping(), tid, st);
    assert(spec_scan_pairs(d) == seq![0x65u8]);
    lemma_dict_next_shrinks(d);
    assert(seq![0x61u8][0] == 0x61);
    let st2 = DecodeState { other_id: Some(id), ..st };
    lemma_qname(name_ping(), tid, st2);
    assert(qt_of_name(name_ping()) == QueryTypeModel::Ping);
    assert(spec_scan_top(d, st) == spec_scan_top(qtail, st2));
}

#[verifier::rlimit(100)]
proof fn lemma_details_query_two(
    id: Seq<u8>,
    second: Seq<u8>,
    is_target: bool,
    tid: Seq<u8>,
    st: DecodeState,
)
    requires
        tid.len() <= usize::MAX,
        id.len() == 20,
        second.len() == 20,
    ensures
        ({
            let qm = if is_target {
                QueryModel::FindNode { id, target: second }
            } else {
                QueryModel::GetPeers { id, info_hash: second }
            };
            let d = spec_enc_details(DetailsModel::Query(qm)) + spec_enc_tail(tid, 0x71);
            spec_scan_pairs(d) == seq![0x65u8] && spec_scan_top(d, st) == Ok::<
                DecodeState,
                DecodingError,
            >(
                if is_target {
                    DecodeState {
                        transaction_id: Some(tid),
                        message_type: MessageTypeModel::Query,
                        query_type: QueryTypeModel::FindNode,
                        other_id: Some(id),
                        target: Some(second),
                        ..st
                    }
                } else {
                    DecodeState {
                        transaction_id: Some(tid),
                        message_type: MessageTypeModel::Query,
                        query_type: QueryTypeModel::GetPeers,
                        other_id: Some(id),
                        info_hash: Some(second),
                        ..st
                    }
                },
            )
        }),
{
    let qm = if is_target {
        QueryModel::FindNode { id, target: second }
    } else {
        QueryModel::GetPeers { id, info_hash: second }
    };
    let name = if is_target {
        name_find_node()
    } else {
        name_get_peers()
    };
    let key2 = if is_target {
        key_target()
    } else {
        key_info_hash()
    };
    let tail = spec_enc_tail(tid, 0x71);
    let qtail = spec_str_enc(seq![0x71u8]) + spec_str_enc(name) + tail;
    let et = seq![0x65u8] + qtail;
    let d = spec_enc_details(DetailsModel::Query(qm)) + tail;
    lemma_dec_digits_props(20);
    let e2 = spec_str_enc(key2) + (spec_str_enc(second) + et);
    let dinner = spec_str_enc(key_id()) + spec_str_enc(id) + spec_str_enc(key2) + spec_str_enc(
        second,
    ) + et;
    assert(dinner =~= spec_str_enc(key_id()) + (spec_str_enc(id) + e2));
    lemma_eat_any_str(id, e2);
    lemma_dict_next_enc(key_id(), spec_str_enc(id) + e2, ValueModel::Str(id), e2);
    lemma_eat_any_str(second, et);
    lemma_dict_next_enc(key2, spec_str_enc(second) + et, ValueModel::Str(second), et);
    lemma_scan_pairs_step(dinner);
    lemma_scan_pairs_step(e2);
    assert(et[0] == 0x65);
    assert(spec_scan_pairs(et) == et);
    assert(spec_scan_pairs(e2) == et);
    assert(spec_scan_pairs(dinner) == et);
    lemma_dict_next_shrinks(dinner);
    lemma_dict_next_shrinks(e2);
    assert(spec_dict_next(et) is None);
    assert(key_id().len() == 2 && key_info_hash().len() == 9 && key_target().len() == 6
        && key_port().len() == 4 && key_token().len() == 5);
    let af1 = AFields { other_id: Some(id), ..a_of(st) };
    let af2 = if is_target {
        AFields { target: Some(second), ..af1 }
    } else {
        AFields { info_hash: Some(second), ..af1 }
    };
    assert(spec_scan_a(et, af2) == Ok::<AFields, DecodingError>(af2));
    assert(spec_scan_a(e2, af1) == Ok::<AFields, DecodingError>(af2));
    assert(spec_scan_a(dinner, a_of(st)) == Ok::<AFields, DecodingError>(af2));
    lemma_eat_any_dict(dinner, qtail);
    assert(d =~= spec_str_enc(seq![0x61u8]) + (seq![0x64u8] + dinner));
    lemma_dict_next_enc(seq![0x61u8], seq![0x64u8] + dinner, ValueModel::Dict(dinner), qtail);
    lemma_scan_pairs_step(d);
    lemma_qname(name, tid, st);
    assert(spec_scan_pairs(d) == seq![0x65u8]);
    lemma_dict_next_shrinks(d);
    assert(seq![0x61u8][0] == 0x61);
    let st2 = if is_target {
        DecodeState { other_id: Some(id), target: Some(second), ..st }
    } else {
        DecodeState { other_id: Some(id), info_hash: Some(second), ..st }
    };
    lemma_qname(name, tid, st2);
    assert(name_ping().len() == 4 && name_find_node().len() == 9 && name_get_peers().len() == 9);
    assert(name_find_node()[0] == 0x66 && name_get_peers()[0] == 0x67);
    assert(spec_scan_top(d, st) == spec_scan_top(qtail, st2));
}

#[verifier::rlimit(100)]
proof fn lemma_details_query_announce(
    id: Seq<u8>,
    info_hash: Seq<u8>,
    port: i64,
    token: Seq<u8>,
    tid: Seq<u8>,
    st: DecodeState,
)
    requires
        tid.len() <= usize::MAX,
        id.len() == 20,
        info_hash.len() == 20,
        token.len() <= usize::MAX,
    ensures
        ({
            let qm = QueryModel::AnnouncePeer { id, info_hash, port, token };
            let d = spec_enc_details(DetailsModel::Query(qm)) + spec_enc_tail(tid, 0x71);
            spec_scan_pairs(d) == seq![0x65u8] && spec_scan_top(d, st) == Ok::<
                DecodeState,
                DecodingError,
            >(
                DecodeState {
                    transaction_id: Some(tid),
                    message_type: MessageTypeModel::Query,
                    query_type: QueryTypeModel::AnnouncePeer,
                    other_id: Some(id),
                    info_hash: Some(info_hash),
                    a_port: Some(port),
                    a_token: Some(token),
                    ..st
                },
            )
        }),
{
    let qm = QueryModel::AnnouncePeer { id, info_hash, port, token };
    let tail = spec_enc_tail(tid, 0x71);
    let qtail = spec_str_enc(seq![0x71u8]) + spec_str_enc(name_announce_peer()) + tail;
    let et = seq![0x65u8] + qtail;
    let d = spec_enc_details(DetailsModel::Query(qm)) + tail;
    lemma_dec_digits_props(20);
    let e4 = spec_str_enc(key_token()) + (spec_str_enc(token) + et);
    let e3 = spec_str_enc(key_port()) + (spec_int_enc(port as int) + e4);
    let e2 = spec_str_enc(key_info_hash()) + (spec_str_enc(info_hash) + e3);
    let dinner = spec_str_enc(key_id()) + spec_str_enc(id) + spec_str_enc(key_info_hash())
        + spec_str_enc(info_hash) + spec_str_enc(key_port()) + spec_int_enc(port as int)
        + spec_str_enc(key_token()) + spec_str_enc(token) + et;
    assert(dinner =~= spec_str_enc(key_id()) + (spec_str_enc(id) + e2));
    lemma_eat_any_str(id, e2);
    lemma_dict_next_enc(key_id(), spec_str_enc(id) + e2, ValueModel::Str(id), e2);
    lemma_eat_any_str(info_hash, e3);
    lemma_dict_next_enc(key_info_hash(), spec_str_enc(info_hash) + e3, ValueModel::Str(info_hash), e3);
    lemma_eat_any_int(port, e4);
    lemma_dict_next_enc(key_port(), spec_int_enc(port as int) + e4, ValueModel::Int(port), e4);
    lemma_eat_any_str(token, et);
    lemma_dict_next_enc(key_token(), spec_str_enc(token) + et, ValueModel::Str(token), et);
    lemma_scan_pairs_step(dinner);
    lemma_scan_pairs_step(e2);
    lemma_scan_pairs_step(e3);
    lemma_scan_pairs_step(e4);
    assert(et[0] == 0x65);
    assert(spec_scan_pairs(et) == et);
    assert(spec_scan_pairs(e4) == et);
    assert(spec_scan_pairs(e3) == et);
    assert(spec_scan_pairs(e2) == et);
    assert(spec_scan_pairs(dinner) == et);
    lemma_dict_next_shrinks(dinner);
    lemma_dict_next_shrinks(e2);
    lemma_dict_next_shrinks(e3);
    lemma_dict_next_shrinks(e4);
    assert(spec_dict_next(et) is None);
    assert(key_id().len() == 2 && key_info_hash().len() == 9 && key_target().len() == 6
        && key_port().len() == 4 && key_token().len() == 5);
    let af1 = AFields { other_id: Some(id), ..a_of(st) };
    let af2 = AFields { info_hash: Some(info_hash), ..af1 };
    let af3 = AFields { a_port: Some(port), ..af2 };
    let af4 = AFields { a_token: Some(token), ..af3 };
    assert(spec_scan_a(et, af4) == Ok::<AFields, DecodingError>(af4));
    assert(spec_scan_a(e4, af3) == Ok::<AFields, DecodingError>(af4));
    assert(spec_scan_a(e3, af2) == Ok::<AFields, DecodingError>(af4));
    assert(spec_scan_a(e2, af1) == Ok::<AFields, DecodingError>(af4));
    assert(spec_scan_a(dinner, a_of(st)) == Ok::<AFields, DecodingError>(af4));
    lemma_eat_any_dict(dinner, qtail);
    assert(d =~= spec_str_enc(seq![0x61u8]) + (seq![0x64u8] + dinner));
    lemma_dict_next_enc(seq![0x61u8], seq![0x64u8] + dinner, ValueModel::Dict(dinner), qtail);
    lemma_scan_pairs_step(d);
    lemma_qname(name_announce_peer(), tid, st);
    assert(spec_scan_pairs(d) == seq![0x65u8]);
    lemma_dict_next_shrinks(d);
    assert(seq![0x61u8][0] == 0x61);
    let st2 = DecodeState {
        other_id: Some(id),
        info_hash: Some(info_hash),
        a_port: Some(port),
        a_token: Some(token),
        ..st
    };
    lemma_qname(name_announce_peer(), tid, st2);
    assert(name_ping().len() == 4 && name_find_node().len() == 9 && name_get_peers().len() == 9
        && name_announce_peer().len() == 13);
    assert(spec_scan_top(d, st) == spec_scan_top(qtail, st2));
}

/// True of a message the encoder can represent on the wire: 20-byte
/// identifiers, lengths within the machine word, and an error of a kind
/// with its own numeric code. The catch-all error kind goes out under the
/// generic code, so no decoding can give it back.
pub open spec fn encodable(m: MessageModel) -> bool {
    &&& m.transaction_id.len() <= usize::MAX
    &&& match m.message {
        DetailsModel::Error(e) => !(e is Unknown) && vstd::utf8::encode_utf8(
            spec_err_msg(e),
        ).len() <= usize::MAX,
        DetailsModel::Query(q) => match q {
            QueryModel::Ping { id } => id.len() == 20,
            QueryModel::FindNode { id, target } => id.len() == 20 && target.len() == 20,
            QueryModel::GetPeers { id, info_hash } => id.len() == 20 && info_hash.len() == 20,
            QueryModel::AnnouncePeer { id, info_hash, port, token } => id.len() == 20
                && info_hash.len() == 20 && token.len() <= usize::MAX,
        },
        DetailsModel::Response(r) => match r {
            ResponseModel::Ping { id } => id.len() == 20,
            ResponseModel::FindNode { id, nodes } => id.len() == 20 && nodes.len()
                <= usize::MAX,
            ResponseModel::GetPeers { id, token } => id.len() == 20 && token.len()
                <= usize::MAX,
        },
    }
}

/// Law: decoding inverts encoding. For every message the encoder can
/// represent, decoding the serialised bytes yields the message back.
#[verifier::rlimit(100)]
pub proof fn lemma_decode_encode(m: MessageModel)
    requires
        encodable(m),
    ensures
        spec_decode(spec_encode(m)) == Ok::<MessageModel, DecodingError>(m),
{
    let enc = spec_encode(m);
    let tag = spec_tag(m.message);
    let tid = m.transaction_id;
    let inner = spec_enc_details(m.message) + spec_enc_tail(tid, tag);
    assert(enc[0] == 0x64);
    assert(enc.skip(1) =~= inner);
    match m.message {
        DetailsModel::Error(e) => {
            lemma_details_error(e, tid, init_state());
        },
        DetailsModel::Query(q) => match q {
            QueryModel::Ping { id } => {
                lemma_details_query_ping(id, tid, init_state());
            },
            QueryModel::FindNode { id, target } => {
                lemma_details_query_two(id, target, true, tid, init_state());
            },
            QueryModel::GetPeers { id, info_hash } => {
                lemma_details_query_two(id, info_hash, false, tid, init_state());
            },
            QueryModel::AnnouncePeer { id, info_hash, port, token } => {
                lemma_details_query_announce(id, info_hash, port, token, tid, init_state());
            },
        },
        DetailsModel::Response(r) => match r {
            ResponseModel::Ping { id } => {
                lemma_details_response_ping(id, tid, init_state());
            },
            ResponseModel::FindNode { id, nodes } => {
                lemma_details_response_second(id, nodes, false, tid, init_state());
            },
            ResponseModel::GetPeers { id, token } => {
                lemma_details_response_second(id, token, true, tid, init_state());
            },
        },
    }
    assert(spec_scan_pairs(inner) == seq![0x65u8]);
    assert(seq![0x65u8][0] == 0x65);
    assert(seq![0x65u8].skip(1) =~= Seq::<u8>::empty());
    assert(spec_as_dict(enc) == Ok::<Seq<u8>, DecodingError>(inner));
    match spec_scan_top(inner, init_state()) {
        Ok(stf) => {
            assert(spec_finalize(stf) == Ok::<MessageModel, DecodingError>(m));
        },
        Err(_) => {
            assert(false);
        },
    }
}

/// Law: the decoder ignores unknown top-level keys. An entry whose key is
/// none of `t`, `y`, `e`, `q`, `r`, `a` leaves the field scan exactly where
/// it would stand without that entry, whatever value it carries; messages
/// differing only by such entries therefore decode identically.
pub proof fn lemma_unknown_key_ignored(
    k: Seq<u8>,
    tail: Seq<u8>,
    vm: ValueModel,
    rest: Seq<u8>,
    st: DecodeState,
)
    requires
        k.len() <= usize::MAX,
        k != seq![0x74u8],
        k != seq![0x79u8],
        k != seq![0x65u8],
        k != seq![0x71u8],
        k != seq![0x72u8],
        k != seq![0x61u8],
        spec_eat_any(tail) == Ok::<(ValueModel, Seq<u8>), DecodingError>((vm, rest)),
    ensures
        spec_scan_top(spec_str_enc(k) + tail, st) == spec_scan_top(rest, st),
{
    lemma_dict_next_enc(k, tail, vm, rest);
    lemma_dict_next_shrinks(spec_str_enc(k) + tail);
}

} // verus!
