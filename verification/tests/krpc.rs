use mainline_client::bencode::{Bencode, DecodingError, Value};
use mainline_client::messages::{
    KRPCError, KRPCMessage, KRPCMessageDetails, KRPCQuery, KRPCResponse,
};

#[test]
fn serialise_deserialise() {
    // serialise/deserialise an error
    let expected = KRPCMessage {
        transaction_id: b"be",
        message: KRPCMessageDetails::Error(KRPCError::ServerError("".to_string())),
    };
    assert_eq!(expected.to_bencode(), b"d1:eli202e0:e1:t2:be1:y1:ee");

    let deserialised1 = KRPCMessage::from_bencode(b"d1:eli202e0:e1:t2:be1:y1:ee");
    assert_eq!(deserialised1, Ok(expected));

    // ignores unknown fields
    let deserialised2 =
        KRPCMessage::from_bencode(b"d3:abc1:d1:eli203e0:1:f4:listl1:a2:xzee1:t0:1:y1:ee");
    assert_eq!(
        deserialised2,
        Ok(KRPCMessage {
            transaction_id: b"",
            message: KRPCMessageDetails::Error(KRPCError::ProtocolError("".to_string()))
        }),
    );

    // MethodUnknown
    let deserialised3 = KRPCMessage::from_bencode(b"d1:eli204e0:e1:t2:ee3:123le1:y1:ee");
    assert_eq!(
        deserialised3,
        Ok(KRPCMessage {
            transaction_id: b"ee",
            message: KRPCMessageDetails::Error(KRPCError::MethodUnknown("".to_string()))
        }),
    );

    // error examples from the protocol description
    let error_1 = KRPCMessage {
        transaction_id: b"aa",
        message: KRPCMessageDetails::Error(KRPCError::GenericError(
            "A Generic Error Ocurred".to_string(),
        )),
    };
    let error_1_encoded = b"d1:eli201e23:A Generic Error Ocurrede1:t2:aa1:y1:ee";
    let error_1_decoded = KRPCMessage::from_bencode(error_1_encoded);
    assert_eq!(error_1.to_bencode(), error_1_encoded.to_vec());
    assert_eq!(error_1_decoded, Ok(error_1));

    // ping query
    let ping_query = KRPCMessage {
        transaction_id: b"aa",
        message: KRPCMessageDetails::Query(KRPCQuery::Ping {
            id: b"abcdefghij0123456789",
        }),
    };
    let ping_query_encoded = b"d1:ad2:id20:abcdefghij0123456789e1:q4:ping1:t2:aa1:y1:qe";
    let ping_query_decoded = KRPCMessage::from_bencode(ping_query_encoded);
    assert_eq!(ping_query.to_bencode(), ping_query_encoded.to_vec());
    assert_eq!(ping_query_decoded, Ok(ping_query));

    // get_peers query
    let get_peers_query = KRPCMessage {
        transaction_id: b"aa",
        message: KRPCMessageDetails::Query(KRPCQuery::GetPeers {
            id: b"abcdefghij0123456789",
            info_hash: b"mnopqrstuvwxyz123456",
        }),
    };
    let get_peers_query_encoded = b"d1:ad2:id20:abcdefghij01234567899:info_hash20:mnopqrstuvwxyz123456e1:q9:get_peers1:t2:aa1:y1:qe";
    let get_peers_query_decoded = KRPCMessage::from_bencode(get_peers_query_encoded);
    assert_eq!(
        get_peers_query.to_bencode(),
        get_peers_query_encoded.to_vec()
    );
    assert_eq!(get_peers_query_decoded, Ok(get_peers_query));

    let get_peers_response_peers = KRPCMessage {
        transaction_id: b"aa",
        message: KRPCMessageDetails::Response(KRPCResponse::GetPeers {
            id: b"abcdefghij0123456789",
            token: b"aoeusnth",
        }),
    };
    let get_peers_response_peers_encoded =
        b"d1:rd2:id20:abcdefghij01234567895:token8:aoeusnthe1:t2:aa1:y1:re";
    let get_peers_response_peers_decoded =
        KRPCMessage::from_bencode(get_peers_response_peers_encoded);
    assert_eq!(
        get_peers_response_peers.to_bencode(),
        get_peers_response_peers_encoded.to_vec()
    );
    assert_eq!(
        get_peers_response_peers_decoded,
        Ok(get_peers_response_peers)
    );

    let get_peers_response_nodes = KRPCMessage {
        transaction_id: b"aa",
        message: KRPCMessageDetails::Response(KRPCResponse::GetPeers {
            id: b"abcdefghij0123456789",
            token: b"aoeusnth",
        }),
    };
    let get_peers_response_nodes_encoded =
        b"d1:rd2:id20:abcdefghij01234567895:token8:aoeusnthe1:t2:aa1:y1:re";
    let get_peers_response_nodes_decoded =
        KRPCMessage::from_bencode(get_peers_response_nodes_encoded);
    assert_eq!(
        get_peers_response_nodes.to_bencode(),
        get_peers_response_nodes_encoded.to_vec()
    );
    assert_eq!(
        get_peers_response_nodes_decoded,
        Ok(get_peers_response_nodes)
    );

    // find_node query
    let find_node_query = KRPCMessage {
        transaction_id: b"aa",
        message: KRPCMessageDetails::Query(KRPCQuery::FindNode {
            id: b"abcdefghij0123456789",
            target: b"mnopqrstuvwxyz123456",
        }),
    };
    let find_node_query_encoded = b"d1:ad2:id20:abcdefghij01234567896:target20:mnopqrstuvwxyz123456e1:q9:find_node1:t2:aa1:y1:qe";
    let find_node_query_decoded = KRPCMessage::from_bencode(find_node_query_encoded);
    assert_eq!(
        find_node_query.to_bencode(),
        find_node_query_encoded.to_vec()
    );
    assert_eq!(find_node_query_decoded, Ok(find_node_query));

    let find_node_response = KRPCMessage {
        transaction_id: b"aa",
        message: KRPCMessageDetails::Response(KRPCResponse::FindNode {
            id: b"0123456789abcdefghij",
            nodes: b"def456...",
        }),
    };
    let find_node_response_encoded =
        b"d1:rd2:id20:0123456789abcdefghij5:nodes9:def456...e1:t2:aa1:y1:re";
    let find_node_response_decoded = KRPCMessage::from_bencode(find_node_response_encoded);
    assert_eq!(
        find_node_response.to_bencode(),
        find_node_response_encoded.to_vec()
    );
    assert_eq!(find_node_response_decoded, Ok(find_node_response));
}

#[test]
fn announce_peer_round_trip() {
    let announce = KRPCMessage {
        transaction_id: b"aa",
        message: KRPCMessageDetails::Query(KRPCQuery::AnnouncePeer {
            id: b"abcdefghij0123456789",
            info_hash: b"mnopqrstuvwxyz123456",
            port: 6881,
            token: b"aoeusnth",
        }),
    };
    let encoded = announce.to_bencode();
    assert_eq!(
        encoded,
        b"d1:ad2:id20:abcdefghij01234567899:info_hash20:mnopqrstuvwxyz1234564:porti6881e5:token8:aoeusnthe1:q13:announce_peer1:t2:aa1:y1:qe".to_vec()
    );
    let decoded = KRPCMessage::from_bencode(&encoded);
    assert_eq!(decoded, Ok(announce));
}

#[test]
fn ping_response_round_trip() {
    let pong = KRPCMessage {
        transaction_id: b"xy",
        message: KRPCMessageDetails::Response(KRPCResponse::Ping {
            id: b"abcdefghij0123456789",
        }),
    };
    let encoded = pong.to_bencode();
    assert_eq!(
        encoded,
        b"d1:rd2:id20:abcdefghij0123456789e1:t2:xy1:y1:re".to_vec()
    );
    assert_eq!(KRPCMessage::from_bencode(&encoded), Ok(pong));
}

#[test]
fn unknown_error_code_decodes_to_unknown() {
    let decoded = KRPCMessage::from_bencode(b"d1:eli457e3:odde1:t2:aa1:y1:ee");
    assert_eq!(
        decoded,
        Ok(KRPCMessage {
            transaction_id: b"aa",
            message: KRPCMessageDetails::Error(KRPCError::UnknownError("odd".to_string())),
        })
    );
}

#[test]
fn non_ascii_error_message() {
    // "caf\u{e9}" is three ASCII bytes plus a two-byte UTF-8 sequence
    let encoded = KRPCMessage {
        transaction_id: b"aa",
        message: KRPCMessageDetails::Error(KRPCError::GenericError("caf\u{e9}".to_string())),
    }
    .to_bencode();
    assert_eq!(encoded, b"d1:eli201e5:caf\xc3\xa9e1:t2:aa1:y1:ee".to_vec());
    let decoded = KRPCMessage::from_bencode(&encoded);
    assert_eq!(
        decoded,
        Ok(KRPCMessage {
            transaction_id: b"aa",
            message: KRPCMessageDetails::Error(KRPCError::GenericError("caf\u{e9}".to_string())),
        })
    );
}

#[test]
fn missing_transaction_id() {
    assert_eq!(
        KRPCMessage::from_bencode(b"d1:eli201e0:e1:y1:ee"),
        Err(DecodingError::MissingRequiredField)
    );
}

#[test]
fn wrong_typed_known_field() {
    // `t` must be a byte string
    assert_eq!(
        KRPCMessage::from_bencode(b"d1:ti7e1:y1:ee"),
        Err(DecodingError::RequiredFieldOfWrongType)
    );
    // a query id shorter than 20 bytes is missing, not malformed
    assert_eq!(
        KRPCMessage::from_bencode(b"d1:ad2:id3:abce1:q4:ping1:t2:aa1:y1:qe"),
        Err(DecodingError::MissingRequiredField)
    );
}

#[test]
fn bencode_eat_str() {
    let b = Bencode { buffer: b"2:ab3:cde" };
    let (v, rest) = b.eat_str().unwrap();
    assert_eq!(v, b"ab");
    assert_eq!(rest.buffer, b"3:cde");
    let b2 = Bencode { buffer: b"5:ab" };
    assert_eq!(
        b2.eat_str().map(|_| ()),
        Err(DecodingError::InvalidStringLength)
    );
    let b3 = Bencode { buffer: b"abc" };
    assert_eq!(b3.eat_str().map(|_| ()), Err(DecodingError::UnexpectedEOF));
}

#[test]
fn bencode_eat_integer() {
    let b = Bencode { buffer: b"i-42e1:x" };
    let (digits, rest) = b.eat_integer().unwrap();
    assert_eq!(digits, b"-42");
    assert_eq!(rest.buffer, b"1:x");
    let b2 = Bencode { buffer: b"i42" };
    assert_eq!(
        b2.eat_integer().map(|_| ()),
        Err(DecodingError::UnexpectedEOF)
    );
}

#[test]
fn bencode_eat_any_integer_validation() {
    let b = Bencode { buffer: b"i12xe" };
    assert_eq!(b.eat_any().map(|_| ()), Err(DecodingError::InvalidInteger));
    let b2 = Bencode { buffer: b"i7e" };
    match b2.eat_any().unwrap() {
        (Value::Integer(v), rest) => {
            assert_eq!(v, 7);
            assert_eq!(rest.buffer, b"");
        }
        _ => panic!("expected an integer"),
    }
}

#[test]
fn bencode_dict_iteration() {
    let b = Bencode { buffer: b"d1:a1:x1:bi3ee" };
    let (mut dict, rest) = b.eat_dict().unwrap();
    assert_eq!(rest.buffer, b"");
    let kv1 = dict.next().unwrap();
    assert_eq!(kv1.key, b"a");
    assert!(matches!(kv1.value, Value::String(b"x")));
    let kv2 = dict.next().unwrap();
    assert_eq!(kv2.key, b"b");
    assert!(matches!(kv2.value, Value::Integer(3)));
    assert!(dict.next().is_none());
}

#[test]
fn bencode_list_iteration() {
    let b = Bencode { buffer: b"l1:xi-5ee..." };
    let (mut list, rest) = b.eat_list().unwrap();
    assert_eq!(rest.buffer, b"...");
    assert!(matches!(list.next(), Some(Value::String(b"x"))));
    assert!(matches!(list.next(), Some(Value::Integer(-5))));
    assert!(list.next().is_none());
}

#[test]
fn bencode_as_dict_rejects_leftover() {
    let b = Bencode { buffer: b"dex" };
    assert_eq!(b.as_dict().map(|_| ()), Err(DecodingError::UnknownError));
    let b2 = Bencode { buffer: b"de" };
    assert!(b2.as_dict().is_ok());
}

#[test]
fn bencode_peek_and_len() {
    let b = Bencode { buffer: b"i3e" };
    assert_eq!(b.peek(), Some('i'));
    assert_eq!(b.len(), 3);
    let e = Bencode { buffer: b"" };
    assert_eq!(e.peek(), None);
}

#[test]
fn bencode_unterminated_structures() {
    let b = Bencode { buffer: b"l1:a" };
    assert_eq!(b.eat_list().map(|_| ()), Err(DecodingError::UnknownError));
    let d = Bencode { buffer: b"d1:a1:b" };
    assert_eq!(d.eat_dict().map(|_| ()), Err(DecodingError::UnknownError));
}
