use awc_client::wire::{
    decode_request, encode_request, floating_request, frame_message, frame_size, parse_ok_response,
    unframe, OkResponse, Request,
};

fn enc(r: &Request) -> Vec<u8> {
    encode_request(r)
}

#[test]
fn encodings_are_canonical_json() {
    assert_eq!(enc(&Request::ListLayouts), b"{\"cmd\":\"list_layouts\"}".to_vec());
    assert_eq!(enc(&Request::ListOutputs), b"{\"cmd\":\"list_outputs\"}".to_vec());
    assert_eq!(
        enc(&Request::ListWorkspaces),
        b"{\"cmd\":\"list_workspaces\"}".to_vec()
    );
    assert_eq!(
        enc(&Request::NewWorkspace { tag: b"mail".to_vec() }),
        b"{\"cmd\":\"new_workspace\",\"tag\":\"mail\"}".to_vec()
    );
    assert_eq!(
        enc(&Request::RenameWorkspace {
            tag: b"1".to_vec(),
            new_tag: b"one".to_vec()
        }),
        b"{\"cmd\":\"rename_workspace\",\"tag\":\"1\",\"new_tag\":\"one\"}".to_vec()
    );
    assert_eq!(
        enc(&Request::SetFloating { x: -5, y: 20, width: 300, height: 400 }),
        b"{\"cmd\":\"set_floating\",\"x\":-5,\"y\":20,\"width\":300,\"height\":400}".to_vec()
    );
    assert_eq!(
        enc(&Request::SetLayout { layout_number: 3 }),
        b"{\"cmd\":\"set_layout\",\"layout_number\":3}".to_vec()
    );
}

#[test]
fn encoding_escapes_text_payloads() {
    let encoded = enc(&Request::NewWorkspace {
        tag: b"a\"b\\c\nd".to_vec(),
    });
    assert_eq!(
        encoded,
        b"{\"cmd\":\"new_workspace\",\"tag\":\"a\\\"b\\\\c\\u000ad\"}".to_vec()
    );
}

#[test]
fn encodings_parse_as_json() {
    let encoded = enc(&Request::RenameWorkspace {
        tag: b"a\"b".to_vec(),
        new_tag: b"c\\d".to_vec(),
    });
    let v: serde_json::Value = serde_json::from_slice(&encoded).expect("valid JSON");
    assert_eq!(v["cmd"], serde_json::Value::String("rename_workspace".to_string()));
    assert_eq!(v["tag"], serde_json::Value::String("a\"b".to_string()));
    assert_eq!(v["new_tag"], serde_json::Value::String("c\\d".to_string()));

    let encoded = enc(&Request::SetFloating { x: -1, y: 2, width: 3, height: 4 });
    let v: serde_json::Value = serde_json::from_slice(&encoded).expect("valid JSON");
    assert_eq!(v["cmd"], serde_json::Value::String("set_floating".to_string()));
    assert_eq!(v["x"], serde_json::Value::from(-1));
    assert_eq!(v["y"], serde_json::Value::from(2));
    assert_eq!(v["width"], serde_json::Value::from(3));
    assert_eq!(v["height"], serde_json::Value::from(4));
}

#[test]
fn every_request_variant_round_trips() {
    let requests = vec![
        Request::ListLayouts,
        Request::ListOutputs,
        Request::ListWorkspaces,
        Request::NewWorkspace { tag: b"mail".to_vec() },
        Request::NewWorkspace { tag: b"".to_vec() },
        Request::NewWorkspace { tag: b"a\"\\\n\to k\x01".to_vec() },
        Request::RenameWorkspace {
            tag: b"1".to_vec(),
            new_tag: b"one\"two".to_vec(),
        },
        Request::SetFloating { x: 10, y: 20, width: 300, height: 400 },
        Request::SetFloating {
            x: i32::MIN,
            y: i32::MAX,
            width: 0,
            height: -1,
        },
        Request::SetLayout { layout_number: 0 },
        Request::SetLayout { layout_number: 255 },
    ];
    for r in requests {
        let encoded = enc(&r);
        let framed = frame_message(&encoded);
        let payload = unframe(&framed).expect("frame splits back");
        assert_eq!(payload, encoded);
        let decoded = decode_request(&payload).expect("decodes");
        assert_eq!(decoded, r);
    }
}

#[test]
fn decode_rejects_malformed_input() {
    assert_eq!(decode_request(&b"".to_vec()), None);
    assert_eq!(decode_request(&b"nonsense".to_vec()), None);
    assert_eq!(decode_request(&b"{\"cmd\":\"unknown\"}".to_vec()), None);
    assert_eq!(decode_request(&b"{\"cmd\":\"list_layouts\"".to_vec()), None);
    assert_eq!(
        decode_request(&b"{\"cmd\":\"set_layout\",\"layout_number\":256}".to_vec()),
        None
    );
    assert_eq!(
        decode_request(&b"{\"cmd\":\"new_workspace\",\"tag\":\"x\"}trailing".to_vec()),
        None
    );
}

#[test]
fn framing_uses_a_four_byte_length_prefix() {
    let framed = frame_message(&b"abc".to_vec());
    assert_eq!(framed, vec![3, 0, 0, 0, b'a', b'b', b'c']);
    assert_eq!(frame_size(&vec![3, 0, 0, 0]), 3);
    assert_eq!(unframe(&framed), Some(b"abc".to_vec()));
    // a short or lying prefix is no frame
    assert_eq!(unframe(&vec![1, 0]), None);
    assert_eq!(unframe(&vec![9, 0, 0, 0, b'a']), None);
}

#[test]
fn ok_response_is_exactly_ok() {
    assert_eq!(parse_ok_response(&b"\"ok\"".to_vec()), OkResponse::Accepted);
    assert_eq!(
        parse_ok_response(&b"\"no such workspace\"".to_vec()),
        OkResponse::Rejected(b"no such workspace".to_vec())
    );
    // an escaped message arrives verbatim
    assert_eq!(
        parse_ok_response(&b"\"bad \\\"tag\\\"\"".to_vec()),
        OkResponse::Rejected(b"bad \"tag\"".to_vec())
    );
    // "Ok", "ok " and a non-string body are not success
    assert_eq!(
        parse_ok_response(&b"\"Ok\"".to_vec()),
        OkResponse::Rejected(b"Ok".to_vec())
    );
    assert_eq!(parse_ok_response(&b"ok".to_vec()), OkResponse::Malformed);
    assert_eq!(parse_ok_response(&b"".to_vec()), OkResponse::Malformed);
    assert_eq!(parse_ok_response(&b"\"ok".to_vec()), OkResponse::Malformed);
    assert_eq!(parse_ok_response(&b"\"ok\"x".to_vec()), OkResponse::Malformed);
}

#[test]
fn floating_request_follows_the_geometry_grammar() {
    assert_eq!(
        floating_request(&b"10,20 300x400".to_vec()),
        Some(Request::SetFloating { x: 10, y: 20, width: 300, height: 400 })
    );
    assert_eq!(floating_request(&b"bad".to_vec()), None);
}
