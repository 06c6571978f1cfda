use mermkit::oneshot::{interpret_outcome, invocation_args};
use mermkit::Error;

#[test]
fn args_without_options() {
    let v = invocation_args("svg", None, None);
    assert_eq!(v, vec!["render", "--stdin", "--format", "svg", "--json"]);
}

#[test]
fn args_with_engine() {
    let v = invocation_args("svg", None, Some("stub"));
    assert_eq!(v, vec!["render", "--stdin", "--format", "svg", "--json", "--engine", "stub"]);
}

#[test]
fn args_with_theme_and_engine() {
    let v = invocation_args("png", Some("dark"), Some("stub"));
    assert_eq!(
        v,
        vec!["render", "--stdin", "--format", "png", "--json", "--theme", "dark", "--engine", "stub"]
    );
}

#[test]
fn failed_exit_surfaces_trimmed_diagnostic() {
    let r = interpret_outcome(false, b"", b"  parse error: line 3\n");
    let e = r.unwrap_err();
    assert!(matches!(e, Error::RenderError(ref m) if m == "parse error: line 3"));
}

#[test]
fn failed_exit_with_invalid_utf8_diagnostic() {
    let r = interpret_outcome(false, b"", &[0xFFu8]);
    let e = r.unwrap_err();
    assert!(matches!(e, Error::RenderError(ref m) if m == "\u{FFFD}"));
}

#[test]
fn successful_exit_decodes_output_document() {
    let r = interpret_outcome(true, b"{\"bytes\":\"AQID\"}", b"ignored").unwrap();
    assert!(!r.bytes.is_empty());
    assert_eq!(r.bytes, vec![1u8, 2, 3]);
    assert_eq!(r.mime, "application/octet-stream");
}

#[test]
fn successful_exit_with_garbage_output_is_protocol_error() {
    let e = interpret_outcome(true, b"oops", b"").unwrap_err();
    assert!(matches!(e, Error::ProtocolError(_)));
}
