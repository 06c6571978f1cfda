use mermkit::codec::{decode_payload, decode_response, encode_request};
use mermkit::Error;

#[test]
fn encode_simple() {
    let line = encode_request("graph TD; A-->B", "svg", None, Some("stub"));
    assert_eq!(
        line,
        b"{\"action\":\"render\",\"diagram\":\"graph TD; A-->B\",\"options\":{\"format\":\"svg\",\"engine\":\"stub\"}}\n".to_vec()
    );
}

#[test]
fn encode_all_options() {
    let line = encode_request("d", "png", Some("dark"), Some("stub"));
    assert_eq!(
        line,
        b"{\"action\":\"render\",\"diagram\":\"d\",\"options\":{\"format\":\"png\",\"theme\":\"dark\",\"engine\":\"stub\"}}\n".to_vec()
    );
}

#[test]
fn encode_escapes_diagram_text() {
    let line = encode_request("a\"b\\c\nd\te\u{1}", "svg", None, None);
    assert_eq!(
        line,
        b"{\"action\":\"render\",\"diagram\":\"a\\\"b\\\\c\\nd\\te\\u0001\",\"options\":{\"format\":\"svg\"}}\n".to_vec()
    );
    // the body before the terminator stays newline-free
    assert!(!line[..line.len() - 1].contains(&b'\n'));
}

#[test]
fn decode_success_with_defaults() {
    let r = decode_response(b"{\"ok\":true,\"result\":{\"bytes\":\"AQID\"}}").unwrap();
    assert_eq!(r.bytes, vec![1u8, 2, 3]);
    assert_eq!(r.mime, "application/octet-stream");
    assert!(r.warnings.is_empty());
}

#[test]
fn decode_success_with_all_fields() {
    let r = decode_response(
        b"{\"ok\":true,\"result\":{\"bytes\":\"AQID\",\"mime\":\"image/svg+xml\",\"warnings\":[\"w1\",\"w2\"]}}",
    )
    .unwrap();
    assert_eq!(r.bytes, vec![1u8, 2, 3]);
    assert_eq!(r.mime, "image/svg+xml");
    assert_eq!(r.warnings, vec!["w1".to_string(), "w2".to_string()]);
}

#[test]
fn decode_success_members_reordered_with_whitespace() {
    let r = decode_response(
        b" { \"result\" : { \"mime\" : \"image/png\" , \"bytes\" : \"AQID\" } , \"ok\" : true } ",
    )
    .unwrap();
    assert_eq!(r.bytes, vec![1u8, 2, 3]);
    assert_eq!(r.mime, "image/png");
}

#[test]
fn decode_unknown_members_are_ignored() {
    let r = decode_response(
        b"{\"ok\":true,\"extra\":{\"a\":[1,-2.5e3,false,null,\"x\"]},\"result\":{\"bytes\":\"AQID\",\"more\":17}}",
    )
    .unwrap();
    assert_eq!(r.bytes, vec![1u8, 2, 3]);
}

#[test]
fn decode_unicode_escape_in_mime() {
    let r = decode_response(
        b"{\"ok\":true,\"result\":{\"bytes\":\"AQID\",\"mime\":\"\\u0041\\u00e9\"}}",
    )
    .unwrap();
    assert_eq!(r.mime, "A\u{e9}");
}

#[test]
fn decode_missing_bytes_is_render_error() {
    let e = decode_response(b"{\"ok\":true,\"result\":{}}").unwrap_err();
    assert!(matches!(e, Error::RenderError(ref m) if m == "mermkit render returned no bytes"));
    let e = decode_response(b"{\"ok\":true,\"result\":{\"bytes\":null}}").unwrap_err();
    assert!(matches!(e, Error::RenderError(ref m) if m == "mermkit render returned no bytes"));
}

#[test]
fn decode_empty_bytes_is_render_error() {
    let e = decode_response(b"{\"ok\":true,\"result\":{\"bytes\":\"\"}}").unwrap_err();
    assert!(matches!(e, Error::RenderError(ref m) if m == "mermkit render returned no bytes"));
}

#[test]
fn decode_missing_result_is_render_error() {
    let e = decode_response(b"{\"ok\":true}").unwrap_err();
    assert!(matches!(e, Error::RenderError(ref m) if m == "missing result"));
}

#[test]
fn decode_failure_envelope_carries_message() {
    let e = decode_response(b"{\"ok\":false,\"error\":\"diagram has no nodes\"}").unwrap_err();
    assert!(matches!(e, Error::RenderError(ref m) if m == "diagram has no nodes"));
}

#[test]
fn decode_failure_envelope_fallback_message() {
    let e = decode_response(b"{\"ok\":false}").unwrap_err();
    assert!(matches!(e, Error::RenderError(ref m) if m == "mermkit render failed"));
    let e = decode_response(b"{\"ok\":false,\"error\":null}").unwrap_err();
    assert!(matches!(e, Error::RenderError(ref m) if m == "mermkit render failed"));
}

#[test]
fn decode_malformed_json_is_protocol_error() {
    let cases: Vec<&[u8]> = vec![
        b"",
        b"{",
        b"{\"ok\":tru",
        b"{\"ok\":1}",
        b"{\"ok\":true}x",
        b"[1,2]",
        b"null",
        b"{\"ok\":true,}",
        b"{\"ok\":true,\"result\":{\"bytes\":\"AQID\"}},",
        b"{\"ok\":\"yes\"}",
        b"{ok:true}",
        b"{\"ok\":true,\"ok\":true}",
        b"{\"result\":{\"bytes\":\"AQID\"}}",
    ];
    for line in cases {
        let e = decode_response(line).unwrap_err();
        assert!(
            matches!(e, Error::ProtocolError(_)),
            "expected protocol error for {:?}",
            String::from_utf8_lossy(line)
        );
    }
}

#[test]
fn decode_bad_base64_is_protocol_error() {
    let e = decode_response(b"{\"ok\":true,\"result\":{\"bytes\":\"!!!\"}}").unwrap_err();
    assert!(matches!(e, Error::ProtocolError(ref m) if m == "invalid base64 in renderer response"));
}

#[test]
fn decode_payload_document() {
    let r = decode_payload(b"{\"bytes\":\"AQID\",\"mime\":\"image/svg+xml\"}").unwrap();
    assert_eq!(r.bytes, vec![1u8, 2, 3]);
    assert_eq!(r.mime, "image/svg+xml");
    assert!(r.warnings.is_empty());
}

#[test]
fn decode_payload_malformed_is_protocol_error() {
    let e = decode_payload(b"not json").unwrap_err();
    assert!(matches!(e, Error::ProtocolError(_)));
}

#[test]
fn round_trip_request_through_peer_decode() {
    // The encoded line is itself one JSON object; a conformant peer that
    // parses it must see the same diagram text back. The envelope parser
    // exercises the same string grammar, so feed the escaped diagram
    // through it and compare.
    let diagram = "graph TD;\n  A[\"q\\\"x\"] --> B";
    let line = encode_request(diagram, "svg", Some("dark"), None);
    let text = String::from_utf8(line).unwrap();
    // extract the diagram string as the peer would: between the fixed
    // prefix and the options key
    let rest = text.strip_prefix("{\"action\":\"render\",\"diagram\":").unwrap();
    let end = rest.find(",\"options\":").unwrap();
    let escaped = &rest[..end];
    // reuse the verified string grammar by wrapping it in an error field
    let probe = format!("{{\"ok\":false,\"error\":{}}}", escaped);
    let e = decode_response(probe.as_bytes()).unwrap_err();
    assert!(matches!(e, Error::RenderError(ref m) if m == diagram));
}
