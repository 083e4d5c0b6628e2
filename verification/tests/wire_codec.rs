use libhej::wire::{decode_message, decode_response, encode_message, encode_response, Get,
    GetResponse, MessageType, Put};

fn strip_newline(s: &str) -> &str {
    assert!(s.ends_with('\n'));
    &s[..s.len() - 1]
}

#[test]
fn put_frame_round_trips() {
    let m = MessageType::Put(Put { id: "abc123".to_string(), data: "ZGF0YQ==".to_string() });
    let framed = encode_message(&m);
    assert_eq!(framed, "put abc123 ZGF0YQ==\n");
    assert_eq!(decode_message(strip_newline(&framed)), Some(m));
}

#[test]
fn get_frame_round_trips() {
    let m = MessageType::Get(Get { id: "HEllo".to_string() });
    let framed = encode_message(&m);
    assert_eq!(framed, "get HEllo\n");
    assert_eq!(decode_message(strip_newline(&framed)), Some(m));
}

#[test]
fn response_frames_round_trip() {
    let some = GetResponse { data: Some("cGF5bG9hZA==".to_string()) };
    let framed = encode_response(&some);
    assert_eq!(framed, "some cGF5bG9hZA==\n");
    assert_eq!(decode_response(strip_newline(&framed)), Some(some));

    let none = GetResponse { data: None };
    let framed = encode_response(&none);
    assert_eq!(framed, "none\n");
    assert_eq!(decode_response(strip_newline(&framed)), Some(none));
}

#[test]
fn empty_fields_round_trip() {
    let m = MessageType::Put(Put { id: String::new(), data: String::new() });
    let framed = encode_message(&m);
    assert_eq!(framed, "put  \n");
    assert_eq!(decode_message(strip_newline(&framed)), Some(m));

    let g = MessageType::Get(Get { id: String::new() });
    assert_eq!(decode_message(strip_newline(&encode_message(&g))), Some(g));
}

#[test]
fn malformed_frames_are_rejected() {
    assert_eq!(decode_message(""), None);
    assert_eq!(decode_message("put"), None);
    assert_eq!(decode_message("put onlyid"), None);
    assert_eq!(decode_message("put a b c"), None);
    assert_eq!(decode_message("push a b"), None);
    assert_eq!(decode_message("PUT a b"), None);
    assert_eq!(decode_message("get a b"), None);
    assert_eq!(decode_response(""), None);
    assert_eq!(decode_response("none "), None);
    assert_eq!(decode_response("nope"), None);
    assert_eq!(decode_response("some a b"), None);
    assert_eq!(decode_response("put a b"), None);
}
