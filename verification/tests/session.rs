use mermkit::session::Session;
use mermkit::Error;

#[test]
fn session_round_trip() {
    let mut s = Session::new();
    assert!(!s.in_flight());
    assert!(!s.is_broken());
    let line = s.begin_render("graph TD; A-->B", "svg", None, None).unwrap();
    assert!(s.in_flight());
    assert_eq!(
        line,
        b"{\"action\":\"render\",\"diagram\":\"graph TD; A-->B\",\"options\":{\"format\":\"svg\"}}\n"
            .to_vec()
    );
    let r = s
        .handle_response(b"{\"ok\":true,\"result\":{\"bytes\":\"AQID\"}}")
        .unwrap();
    assert_eq!(r.bytes, vec![1u8, 2, 3]);
    assert!(!s.in_flight());
    // the session is ready again for the next call
    let again = s.begin_render("x", "svg", None, None);
    assert!(again.is_ok());
}

#[test]
fn renderer_failure_keeps_session_alive() {
    let mut s = Session::new();
    s.begin_render("d", "svg", None, None).unwrap();
    let e = s.handle_response(b"{\"ok\":false,\"error\":\"bad\"}").unwrap_err();
    assert!(matches!(e, Error::RenderError(ref m) if m == "bad"));
    assert!(!s.is_broken());
    assert!(s.begin_render("d", "svg", None, None).is_ok());
}

#[test]
fn killed_process_breaks_session_for_good() {
    let mut s = Session::new();
    s.begin_render("d", "svg", None, None).unwrap();
    let e = s.connection_closed();
    assert!(matches!(e, Error::TransportError(ref m) if m == "process closed connection"));
    assert!(s.is_broken());
    // no subsequent call on the same session ever succeeds
    for _ in 0..3 {
        let e = s.begin_render("d", "svg", None, None).unwrap_err();
        assert!(matches!(e, Error::TransportError(_)));
        assert!(s.is_broken());
    }
}

#[test]
fn write_failure_breaks_session() {
    let mut s = Session::new();
    s.begin_render("d", "svg", None, None).unwrap();
    let e = s.transport_failed("broken pipe".to_string());
    assert!(matches!(e, Error::TransportError(ref m) if m == "broken pipe"));
    assert!(s.is_broken());
    let e = s.begin_render("d", "svg", None, None).unwrap_err();
    assert!(matches!(e, Error::TransportError(ref m) if m == "session transport is broken"));
}

#[test]
fn error_message_text_is_printable() {
    let mut s = Session::new();
    s.begin_render("d", "svg", None, None).unwrap();
    let e = s.connection_closed();
    assert_eq!(e.message(), "process closed connection");
}
